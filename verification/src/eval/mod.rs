//! Tuned evaluation terms: pawn structure and mobility parameters.
use vstd::prelude::*;

pub mod tuner_eval;
pub mod vals;

verus! {
} // verus!
