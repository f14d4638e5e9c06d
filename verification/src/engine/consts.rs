//! Score constants of the engine.
use vstd::prelude::*;

verus! {

/// Deepest ply the engine searches.
pub const MAX_PLY: i16 = 96;

/// Bounds and special values of search scores.
pub struct Score;

impl Score {
    pub const MAX: i16 = 30000;
    pub const MATE: i16 = Self::MAX - 256;
    pub const DRAW: i16 = 0;
    pub const ABORT: i16 = 0;
}

/// Move ordering scores.
pub struct MoveScore;

impl MoveScore {
    pub const HASH: i16 = Score::MAX;
    pub const QUIET: i16 = 0;
}

} // verus!
