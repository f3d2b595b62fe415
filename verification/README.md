# particle_sim

The verified part of a 3-D particle simulator, written in Verus: the
integer, string and bookkeeping logic (parametric-equation parsing and
particle allocation, trails, the start-up grid, saves and controls). The
simulator's gravity, collisions and merging are `f32` physics and live in
`app/`.

`src/` is the library that Verus checks:

- `text`: turning juxtaposition into explicit products in user-typed
  expressions, trimming decimal renderings, base-ten formatting.
- `expr`: parsing a parametric expression with the meval crate.
- `parametric`: the editor's equation records and the bookkeeping of
  compiling them: which equation drives which particles, and which
  particles are hidden.
- `grid`: the start-up lattice, filled from the inside out.
- `trail`: the bounded trail of past positions.
- `saves`: naming, listing and removing save files.
- `controls`, `event`, `demo`: the decisions behind the keyboard toggles,
  the messages between components, and the start-up scenes.

`app/` is the program: the macroquad window, the egui editor, file I/O and
the floating-point physics (collision response, merging, n-body gravity,
parametric evaluation), which call into the library for everything above.

`tests/` exercises the library on concrete values.
