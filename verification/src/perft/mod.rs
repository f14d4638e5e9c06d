//! Perft search bookkeeping.
use vstd::prelude::*;

pub mod transposition;

verus! {

/// Search statistics: the number of transposition table hits.
#[derive(Default)]
pub struct PerftStats {
    tt_hits: u64,
}

impl View for PerftStats {
    type V = u64;

    closed spec fn view(&self) -> u64 {
        self.tt_hits
    }
}

impl PerftStats {
    /// Number of transposition table hits counted.
    pub fn tt_hits(&self) -> (r: u64)
        ensures
            r == self@,
    {
        self.tt_hits
    }

    /// Clears the statistics.
    pub fn reset(&mut self)
        ensures
            final(self)@ == 0,
    {
        self.tt_hits = 0;
    }
}

} // verus!
