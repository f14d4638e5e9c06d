//! Conversions between the engine's encodings and text, and search reports.
use vstd::prelude::*;

pub mod errors;
pub mod fen;
pub mod inputs;
pub mod outputs;

verus! {

/// File letters, a to h.
pub open spec fn file_letter(f: int) -> char {
    (97 + f) as char
}

/// Statistics of a full iterative deepening search.
pub struct SearchStats {
    pub depth_reached: i8,
    pub nodes_to_depth: u64,
    pub time_to_depth: u64,
    pub pv: Vec<u16>,
}

impl SearchStats {
    pub fn new(depth_reached: i8, time_to_depth: u64, nodes_to_depth: u64, pv: Vec<u16>) -> (r: Self)
        ensures
            r.depth_reached == depth_reached,
            r.time_to_depth == time_to_depth,
            r.nodes_to_depth == nodes_to_depth,
            r.pv@ == pv@,
    {
        Self { depth_reached, nodes_to_depth, time_to_depth, pv }
    }
}

} // verus!
