//! The score shown to the player: a single counter that only grows.

use vstd::prelude::*;

verus! {

/// Process-wide collection score, reset only at startup.
pub struct Score(pub u32);

impl Default for Score {
    fn default() -> (s: Score)
        ensures
            s.0 == 0,
    {
        Score(0)
    }
}

} // verus!
