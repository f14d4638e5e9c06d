//! Kimbo, a UCI chess engine: bitboard board representation, move generation,
//! search tables and evaluation helpers.
use vstd::prelude::*;

pub mod bits;
pub mod engine;
pub mod eval;
pub mod hash;
pub mod io;
pub mod perft;
pub mod position;
pub mod search;
pub mod state;
pub mod tables;
pub mod uci;

verus! {
} // verus!
