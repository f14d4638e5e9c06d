//! Hash tables used by perft.
use vstd::prelude::*;

pub mod perft;

verus! {
} // verus!
