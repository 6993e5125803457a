//! Simulation tick descriptions passed to the universe's stepping function.

use vstd::prelude::*;

verus! {

/// One tick of simulated time, as presented to [`crate::universe::Universe::step`].
///
/// The duration of the tick is managed by the stepping driver outside this
/// crate; within it, only whether the simulation is paused matters. A paused
/// tick still performs bookkeeping work such as deferred garbage collection,
/// but does not advance simulated time.
#[derive(Clone, Copy, Debug, PartialEq, Eq, Structural)]
pub struct Tick {
    /// Whether game time is paused for this tick.
    pub paused: bool,
}

impl Tick {
    /// A tick that advances simulated time.
    pub fn running() -> (t: Tick)
        ensures
            t == (Tick { paused: false }),
    {
        Tick { paused: false }
    }

    /// A copy of this tick with time paused.
    pub fn pause(self) -> (t: Tick)
        ensures
            t == (Tick { paused: true }),
    {
        Tick { paused: true }
    }

    /// Whether game time is paused for this tick.
    pub fn paused(&self) -> (r: bool)
        ensures
            r == self.paused,
    {
        self.paused
    }
}

} // verus!
