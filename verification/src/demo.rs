use vstd::prelude::*;

verus! {

/// The start-up scenes that the particle grid can be seeded with (`Empty`
/// is the plain grid at rest, shown to the user as "None").
#[derive(Clone, Copy, PartialEq, Eq, Structural)]
pub enum Demo {
    Gravity,
    Explosion,
    ExplosionGravity,
    Vortex,
    Empty,
}

/// The label under which a scene is shown to the user.
pub open spec fn demo_label(d: Demo) -> Seq<char> {
    match d {
        Demo::Gravity => "Gravity"@,
        Demo::Explosion => "Explosion"@,
        Demo::ExplosionGravity => "Explosion + Gravity"@,
        Demo::Vortex => "Vortex"@,
        Demo::Empty => "None"@,
    }
}

impl Default for Demo {
    /// The empty scene.
    fn default() -> (r: Demo)
        ensures
            r == Demo::Empty,
    {
        Demo::Empty
    }
}

impl Demo {
    /// The user-facing name of the scene.
    pub fn name(&self) -> (r: String)
        ensures
            r@ == demo_label(*self),
    {
        match self {
            Demo::Gravity => String::from_str("Gravity"),
            Demo::Explosion => String::from_str("Explosion"),
            Demo::ExplosionGravity => String::from_str("Explosion + Gravity"),
            Demo::Vortex => String::from_str("Vortex"),
            Demo::Empty => String::from_str("None"),
        }
    }
}

} // verus!
