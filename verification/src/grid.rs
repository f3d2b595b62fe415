use vstd::prelude::*;

verus! {

/// A lattice point with non-negative coordinates.
pub type GridPoint = (u32, u32, u32);

/// The Chebyshev distance of a lattice point from the origin: the index of
/// the cubic shell it lies on.
pub open spec fn shell(p: GridPoint) -> int {
    let m = if p.0 >= p.1 { p.0 } else { p.1 };
    if m >= p.2 { m as int } else { p.2 as int }
}

/// Strict lexicographic order on four-component positions.
pub open spec fn pos_lt(a: (int, int, int, int), b: (int, int, int, int)) -> bool {
    ||| a.0 < b.0
    ||| a.0 == b.0 && a.1 < b.1
    ||| a.0 == b.0 && a.1 == b.1 && a.2 < b.2
    ||| a.0 == b.0 && a.1 == b.1 && a.2 == b.2 && a.3 < b.3
}

/// Where a point stands in the fill order: by shell first, then
/// lexicographically by its coordinates.
pub open spec fn key(p: GridPoint) -> (int, int, int, int) {
    (shell(p), p.0 as int, p.1 as int, p.2 as int)
}

/// `p` comes strictly before `q` when a cube is filled from the inside out.
pub open spec fn fills_before(p: GridPoint, q: GridPoint) -> bool {
    pos_lt(key(p), key(q))
}

/// Every point that comes before position `pos` is already in `out`.
pub open spec fn covers(out: Seq<GridPoint>, pos: (int, int, int, int)) -> bool {
    forall|q: GridPoint| #[trigger] pos_lt(key(q), pos) ==> out.contains(q)
}

/// Every point in `out` comes before position `pos`.
pub open spec fn all_before(out: Seq<GridPoint>, pos: (int, int, int, int)) -> bool {
    forall|i: int| 0 <= i < out.len() ==> pos_lt(key(#[trigger] out[i]), pos)
}

/// `out` lists points strictly in fill order.
pub open spec fn in_fill_order(out: Seq<GridPoint>) -> bool {
    forall|i: int, j: int| 0 <= i < j < out.len() ==> fills_before(#[trigger] out[i], #[trigger] out[j])
}

/// No point that comes before a listed point is missing from `out`.
pub open spec fn gap_free(out: Seq<GridPoint>) -> bool {
    forall|q: GridPoint, i: int|
        0 <= i < out.len() && #[trigger] fills_before(q, #[trigger] out[i]) ==> out.contains(q)
}

/// The invariant of the filling loops: `out` lists, in fill order, exactly
/// the points that come before position `pos`.
pub open spec fn fill_state(out: Seq<GridPoint>, pos: (int, int, int, int)) -> bool {
    &&& in_fill_order(out)
    &&& gap_free(out)
    &&& all_before(out, pos)
    &&& covers(out, pos)
}

/// `s` holds the points of the cube `[0, j)³` and no others: every point of
/// `s` lies on a shell below `j`, and every such point is in `s`.
pub open spec fn fills_cube(s: Seq<GridPoint>, j: int) -> bool {
    &&& forall|i: int| 0 <= i < s.len() ==> shell(#[trigger] s[i]) < j
    &&& forall|q: GridPoint| shell(q) < j ==> #[trigger] s.contains(q)
}

/// `s` cubed.
pub open spec fn cube(s: int) -> int {
    s * s * s
}

/// Every point of `out` lies on a shell `s` with `s³ < n`: fewer than `n`
/// points lie on the shells inside it.
pub open spec fn within_cube(out: Seq<GridPoint>, n: nat) -> bool {
    forall|i: int| 0 <= i < out.len() ==> cube(shell(#[trigger] out[i])) < n
}

/// How many points of shell `d` the row `(x, y, 0..z)` holds.
pub open spec fn row_count(d: int, x: int, y: int, z: int) -> int {
    if x == d || y == d {
        z
    } else if z > d {
        1
    } else {
        0
    }
}

/// How many points of shell `d` the rows `(x, 0..y, _)` hold.
pub open spec fn plane_count(d: int, x: int, y: int) -> int {
    if x == d {
        y * (d + 1)
    } else if y > d {
        2 * d + 1
    } else {
        y
    }
}

/// How many points of shell `d` the planes `(0..x, _, _)` hold.
pub open spec fn shell_count(d: int, x: int) -> int {
    if x > d {
        3 * d * d + 3 * d + 1
    } else {
        x * (2 * d + 1)
    }
}

proof fn lemma_push_point(out: Seq<GridPoint>, p: GridPoint)
    requires
        fill_state(out, key(p)),
    ensures
        fill_state(out.push(p), (key(p).0, key(p).1, key(p).2, key(p).3 + 1)),
        out.push(p).subrange(0, out.len() as int) == out,
{
    let o2 = out.push(p);
    let pos2 = (key(p).0, key(p).1, key(p).2, key(p).3 + 1);
    assert forall|q: GridPoint| out.contains(q) implies o2.contains(q) by {
        let i = choose|i: int| 0 <= i < out.len() && out[i] == q;
        assert(o2[i] == q);
    }
    assert(o2[out.len() as int] == p);
    assert forall|i: int, j: int| 0 <= i < j < o2.len() implies fills_before(
        #[trigger] o2[i],
        #[trigger] o2[j],
    ) by {
        if j == out.len() {
            assert(pos_lt(key(out[i]), key(p)));
        } else {
            assert(o2[i] == out[i] && o2[j] == out[j]);
        }
    }
    assert forall|q: GridPoint, i: int|
        0 <= i < o2.len() && #[trigger] fills_before(q, #[trigger] o2[i]) implies o2.contains(q) by {
        if i == out.len() {
            assert(pos_lt(key(q), key(p)));
            assert(out.contains(q));
        } else {
            assert(o2[i] == out[i]);
            assert(out.contains(q));
        }
    }
    assert forall|i: int| 0 <= i < o2.len() implies pos_lt(key(#[trigger] o2[i]), pos2) by {
        if i < out.len() {
            assert(o2[i] == out[i]);
        }
    }
    assert forall|q: GridPoint| #[trigger] pos_lt(key(q), pos2) implies o2.contains(q) by {
        if q == p {
            assert(o2[out.len() as int] == q);
        } else {
            assert(pos_lt(key(q), key(p)));
            assert(out.contains(q));
        }
    }
    assert(o2.subrange(0, out.len() as int) =~= out);
}

proof fn lemma_same_state(out: Seq<GridPoint>, a: (int, int, int, int), b: (int, int, int, int))
    requires
        fill_state(out, a),
        !pos_lt(b, a),
        forall|q: GridPoint| pos_lt(key(q), b) ==> pos_lt(key(q), a),
    ensures
        fill_state(out, b),
{
    assert forall|i: int| 0 <= i < out.len() implies pos_lt(key(#[trigger] out[i]), b) by {
        assert(pos_lt(key(out[i]), a));
    }
}

/// Visits the row `(x, y, 0..=d)` of shell `d`, appending its shell points.
fn fill_row(out: &mut Vec<GridPoint>, d: u32, x: u32, y: u32)
    requires
        fill_state(old(out)@, (d as int, x as int, y as int, 0)),
        x <= d,
        y <= d,
        d < u32::MAX,
    ensures
        fill_state(final(out)@, (d as int, x as int, y as int + 1, 0)),
        final(out)@.len() == old(out)@.len() + row_count(d as int, x as int, y as int, d + 1),
        final(out)@.subrange(0, old(out)@.len() as int) == old(out)@,
{
    let ghost start = out@;
    let mut z: u32 = 0;
    while z <= d
        invariant
            z <= d + 1,
            x <= d,
            y <= d,
            d < u32::MAX,
            start.len() <= out@.len(),
            out@.subrange(0, start.len() as int) == start,
            fill_state(out@, (d as int, x as int, y as int, z as int)),
            out@.len() == start.len() + row_count(d as int, x as int, y as int, z as int),
        decreases d + 1 - z,
    {
        let p: GridPoint = (x, y, z);
        if x == d || y == d || z == d {
            proof {
                assert(key(p) == (d as int, x as int, y as int, z as int));
                lemma_push_point(out@, p);
                assert(out@.push(p).subrange(0, start.len() as int) =~= start);
            }
            out.push(p);
        } else {
            proof {
                assert(shell(p) < d);
                lemma_same_state(
                    out@,
                    (d as int, x as int, y as int, z as int),
                    (d as int, x as int, y as int, z + 1),
                );
            }
        }
        z = z + 1;
    }
    proof {
        lemma_same_state(
            out@,
            (d as int, x as int, y as int, z as int),
            (d as int, x as int, y as int + 1, 0),
        );
    }
}

/// Visits the plane `(x, 0..=d, 0..=d)` of shell `d`.
fn fill_plane(out: &mut Vec<GridPoint>, d: u32, x: u32)
    requires
        fill_state(old(out)@, (d as int, x as int, 0, 0)),
        x <= d,
        d < u32::MAX,
    ensures
        fill_state(final(out)@, (d as int, x as int + 1, 0, 0)),
        final(out)@.len() == old(out)@.len() + plane_count(d as int, x as int, d + 1),
        final(out)@.subrange(0, old(out)@.len() as int) == old(out)@,
{
    let ghost start = out@;
    let mut y: u32 = 0;
    while y <= d
        invariant
            y <= d + 1,
            x <= d,
            d < u32::MAX,
            start.len() <= out@.len(),
            out@.subrange(0, start.len() as int) == start,
            fill_state(out@, (d as int, x as int, y as int, 0)),
            out@.len() == start.len() + plane_count(d as int, x as int, y as int),
        decreases d + 1 - y,
    {
        let ghost before = out@;
        fill_row(out, d, x, y);
        proof {
            assert((y + 1) * (d + 1) == y * (d + 1) + (d + 1)) by (nonlinear_arith);
            assert(out@.subrange(0, start.len() as int) =~= before.subrange(0, start.len() as int));
        }
        y = y + 1;
    }
    proof {
        lemma_same_state(out@, (d as int, x as int, y as int, 0), (d as int, x as int + 1, 0, 0));
    }
}

/// Visits every point of shell `d`, in lexicographic order.
fn fill_shell(out: &mut Vec<GridPoint>, d: u32)
    requires
        fill_state(old(out)@, (d as int, 0, 0, 0)),
        d < u32::MAX,
    ensures
        fill_state(final(out)@, (d as int + 1, 0, 0, 0)),
        final(out)@.len() == old(out)@.len() + shell_count(d as int, d + 1),
        final(out)@.subrange(0, old(out)@.len() as int) == old(out)@,
{
    let ghost start = out@;
    let mut x: u32 = 0;
    while x <= d
        invariant
            x <= d + 1,
            d < u32::MAX,
            start.len() <= out@.len(),
            out@.subrange(0, start.len() as int) == start,
            fill_state(out@, (d as int, x as int, 0, 0)),
            out@.len() == start.len() + shell_count(d as int, x as int),
        decreases d + 1 - x,
    {
        let ghost before = out@;
        fill_plane(out, d, x);
        proof {
            assert((x + 1) * (2 * d + 1) == x * (2 * d + 1) + (2 * d + 1)) by (nonlinear_arith);
            assert(d * (2 * d + 1) + (d + 1) * (d + 1) == 3 * d * d + 3 * d + 1) by (nonlinear_arith);
            assert(out@.subrange(0, start.len() as int) =~= before.subrange(0, start.len() as int));
        }
        x = x + 1;
    }
    proof {
        lemma_same_state(out@, (d as int, x as int, 0, 0), (d as int + 1, 0, 0, 0));
    }
}

/// The first `j³` points of `out` exist and are exactly the cube `[0, j)³`.
pub open spec fn cube_prefix(out: Seq<GridPoint>, j: int) -> bool {
    cube(j) <= out.len() && fills_cube(out.take(cube(j)), j)
}

proof fn lemma_cube_facts(a: int, b: int)
    requires
        0 <= a,
    ensures
        a <= cube(a) || a == 0,
        a < b ==> cube(a) < cube(b),
        cube(a + 1) == cube(a) + 3 * a * a + 3 * a + 1,
{
    assert(cube(a + 1) == cube(a) + 3 * a * a + 3 * a + 1) by (nonlinear_arith);
    assert(a <= cube(a) || a == 0) by (nonlinear_arith)
        requires
            0 <= a,
    ;
    assert(a < b ==> cube(a) < cube(b)) by (nonlinear_arith)
        requires
            0 <= a,
    ;
}

/// The first `n` lattice points of the non-negative octant in the order that
/// fills a cube from the inside out: shell by shell (Chebyshev distance from
/// the origin), and lexicographically within a shell. Whole shells are laid
/// out until at least `n` points exist; the first `n` are kept. For every
/// `j` with `j³ ≤ n`, the first `j³` points are exactly the cube `[0, j)³`.
pub fn chebyshev_grid(n: u32) -> (r: Vec<GridPoint>)
    ensures
        r@.len() == n,
        forall|i: int, j: int| 0 <= i < j < n ==> fills_before(#[trigger] r@[i], #[trigger] r@[j]),
        forall|q: GridPoint, i: int|
            0 <= i < n && #[trigger] fills_before(q, #[trigger] r@[i]) ==> r@.contains(q),
        forall|i: int| 0 <= i < n ==> cube(shell(#[trigger] r@[i])) < n,
        forall|j: int| 0 <= j && cube(j) <= n ==> #[trigger] fills_cube(r@.take(cube(j)), j),
{
    let limit = n as usize;
    let mut out: Vec<GridPoint> = Vec::new();
    let mut d: u32 = 0;
    proof {
        assert(cube_prefix(out@, 0));
    }
    while out.len() < limit
        invariant
            limit == n,
            fill_state(out@, (d as int, 0, 0, 0)),
            out@.len() == cube(d as int),
            d > 0 ==> cube(d - 1) < limit,
            forall|j: int| 0 <= j <= d ==> #[trigger] cube_prefix(out@, j),
        decreases limit - d,
    {
        proof {
            lemma_cube_facts(d as int, 0);
        }
        let ghost before = out@;
        fill_shell(&mut out, d);
        proof {
            lemma_cube_facts(d as int, 0);
            let nd = d + 1;
            assert forall|j: int| 0 <= j <= nd implies #[trigger] cube_prefix(out@, j) by {
                if j <= d {
                    lemma_cube_facts(j, d as int);
                    assert(cube_prefix(before, j));
                    assert(out@.take(cube(j)) =~= before.take(cube(j)));
                    assert(fills_cube(out@.take(cube(j)), j));
                } else {
                    assert(j == nd);
                    assert(out@.take(cube(j)) =~= out@);
                    assert forall|q: GridPoint| shell(q) < j implies #[trigger] out@.take(cube(j)).contains(q) by {
                        assert(pos_lt(key(q), (nd as int, 0, 0, 0)));
                    }
                    assert forall|i: int| 0 <= i < out@.len() implies shell(#[trigger] out@[i]) < j by {
                        assert(pos_lt(key(out@[i]), (nd as int, 0, 0, 0)));
                    }
                    assert(fills_cube(out@.take(cube(j)), j));
                    assert(cube(j) <= out@.len());
                }
            }
        }
        d = d + 1;
    }
    let ghost full = out@;
    let ghost dd = d as int;
    out.truncate(limit);
    proof {
        let r = out@;
        assert(r == full.subrange(0, n as int));
        assert forall|i: int, j: int| 0 <= i < j < n implies fills_before(#[trigger] r[i], #[trigger] r[j]) by {
            assert(r[i] == full[i] && r[j] == full[j]);
        }
        assert forall|q: GridPoint, i: int|
            0 <= i < n && #[trigger] fills_before(q, #[trigger] r[i]) implies r.contains(q) by {
            assert(r[i] == full[i]);
            assert(full.contains(q));
            let k = choose|k: int| 0 <= k < full.len() && full[k] == q;
            if k >= i {
                if k > i {
                    assert(fills_before(full[i], full[k]));
                }
            }
            assert(r[k] == q);
        }
        assert forall|i: int| 0 <= i < n implies cube(shell(#[trigger] r[i])) < n by {
            assert(r[i] == full[i]);
            assert(pos_lt(key(full[i]), (dd, 0, 0, 0)));
            let s = shell(r[i]);
            lemma_cube_facts(s, dd - 1);
        }
        assert forall|j: int| 0 <= j && cube(j) <= n implies #[trigger] fills_cube(r.take(cube(j)), j) by {
            if j > dd {
                lemma_cube_facts(dd, j);
            }
            assert(cube_prefix(full, j));
            assert(r.take(cube(j)) =~= full.take(cube(j)));
        }
    }
    out
}

/// The first `n` points stay inside the smallest cube that holds `n`
/// lattice points: for any `k` with `k³ ≥ n`, every coordinate is below `k`.
pub proof fn lemma_grid_in_smallest_cube(points: Seq<GridPoint>, n: nat, k: nat)
    requires
        within_cube(points, n),
        k * k * k >= n,
    ensures
        forall|i: int|
            0 <= i < points.len() ==> (#[trigger] points[i]).0 < k && points[i].1 < k
                && points[i].2 < k,
{
    assert forall|i: int| 0 <= i < points.len() implies (#[trigger] points[i]).0 < k
        && points[i].1 < k && points[i].2 < k by {
        let s = shell(points[i]);
        assert(cube(s) < n);
        if s >= k {
            assert(s * s * s >= k * k * k) by (nonlinear_arith)
                requires
                    s >= k,
                    k >= 0,
            ;
        }
    }
}

/// A gap-free listing in fill order is determined by its length: of two
/// such listings, the shorter is a prefix of the longer. So asking the grid
/// for more points never moves the points it handed out before.
pub proof fn lemma_fill_prefix(a: Seq<GridPoint>, b: Seq<GridPoint>)
    requires
        in_fill_order(a),
        gap_free(a),
        in_fill_order(b),
        gap_free(b),
        a.len() <= b.len(),
    ensures
        a == b.take(a.len() as int),
{
    assert forall|i: int| 0 <= i < a.len() implies a[i] == b[i] by {
        lemma_fill_prefix_at(a, b, i);
    }
    assert(a =~= b.take(a.len() as int));
}

proof fn lemma_fill_prefix_at(a: Seq<GridPoint>, b: Seq<GridPoint>, i: int)
    requires
        in_fill_order(a),
        gap_free(a),
        in_fill_order(b),
        gap_free(b),
        a.len() <= b.len(),
        0 <= i < a.len(),
    ensures
        a[i] == b[i],
    decreases i,
{
    assert forall|j: int| 0 <= j < i implies a[j] == b[j] by {
        lemma_fill_prefix_at(a, b, j);
    }
    if a[i] != b[i] {
        if fills_before(a[i], b[i]) {
            assert(b.contains(a[i]));
            let j = choose|j: int| 0 <= j < b.len() && b[j] == a[i];
            if j >= i {
                if j > i {
                    assert(fills_before(b[i], b[j]));
                }
            } else {
                assert(a[j] == b[j]);
                assert(fills_before(a[j], a[i]));
            }
        } else {
            assert(fills_before(b[i], a[i]));
            assert(a.contains(b[i]));
            let j = choose|j: int| 0 <= j < a.len() && a[j] == b[i];
            if j >= i {
                if j > i {
                    assert(fills_before(a[i], a[j]));
                }
            } else {
                assert(a[j] == b[j]);
                assert(fills_before(b[j], b[i]));
            }
        }
    }
}

} // verus!
