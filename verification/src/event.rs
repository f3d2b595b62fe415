use vstd::prelude::*;

verus! {

/// A message that one part of the simulator leaves for the others to act on
/// at the end of the input phase.
pub enum Event {
    /// Show this text in the on-screen alert banner.
    Alert(String),
    /// Stop the clock and put the particles back where they started.
    ResetSimulation,
}

} // verus!
