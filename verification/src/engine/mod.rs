//! The engine: score constants, search limits, transposition table, principal
//! variation, perft and hashing values.
use vstd::prelude::*;

pub mod consts;
pub mod limits;
pub mod transposition;
pub mod util;
pub mod zobrist;

verus! {
} // verus!
