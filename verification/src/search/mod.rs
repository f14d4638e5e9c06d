//! Search helpers: mate scores, pruning conditions, move ordering and timing.
use vstd::prelude::*;

pub mod pruning;
pub mod sorting;
pub mod timings;

use std::time::Instant;
use crate::engine::limits::time_now;

verus! {

/// Deepest ply the search reaches.
pub const MAX_PLY: i8 = 127;

/// Largest score, a mate on the board.
pub const MAX_SCORE: i16 = 30000;

/// Scores at or beyond this distance from zero announce a forced mate.
pub const MATE_THRESHOLD: i16 = MAX_SCORE - 255;

/// Whether `score` announces a forced mate for either side.
pub fn is_mate_score(score: i16) -> (r: bool)
    ensures
        r == (score >= MATE_THRESHOLD || score <= -MATE_THRESHOLD),
{
    score >= MATE_THRESHOLD || score <= -MATE_THRESHOLD
}

/// Whether the encoded move `m` captures (its capture flag bit is set).
#[allow(dead_code)]
pub(crate) fn is_capture(m: u16) -> (r: bool)
    ensures
        r == (m & 0x4000 > 0),
{
    m & 0x4000 > 0
}

/// Whether the encoded move `m` promotes.
#[allow(dead_code)]
pub(crate) fn is_promotion(m: u16) -> (r: bool)
    ensures
        r == (m & 0x8000 > 0),
{
    m & 0x8000 > 0
}

/// Whether the encoded move `m` castles, on either side.
#[allow(dead_code)]
pub(crate) fn is_castling(m: u16) -> (r: bool)
    ensures
        r == (m & 0xE000 == 0x2000),
{
    m & 0xE000 == 0x2000
}

/// Makes `pv` the line `m` followed by `sub_pv`, which is left empty.
#[allow(dead_code)]
pub(crate) fn update_pv(pv: &mut Vec<u16>, m: u16, sub_pv: &mut Vec<u16>)
    ensures
        final(pv)@ == seq![m] + old(sub_pv)@,
        final(sub_pv)@ == Seq::<u16>::empty(),
{
    pv.clear();
    pv.push(m);
    pv.append(sub_pv);
    assert(pv@ =~= seq![m] + old(sub_pv)@);
}

/// Statistics within a single search.
pub struct Stats {
    /// Nodes visited.
    pub node_count: u64,
    /// When the search started.
    pub start_time: Instant,
    /// Deepest ply reached.
    pub seldepth: i8,
}

impl Default for Stats {
    /// No nodes and no depth yet, started now.
    fn default() -> (r: Self)
        ensures
            r.node_count == 0,
            r.seldepth == 0,
    {
        Stats { node_count: 0, seldepth: 0, start_time: time_now() }
    }
}

impl Stats {
    /// Starts the statistics afresh: no nodes, no depth, started now.
    pub fn reset(&mut self)
        ensures
            final(self).node_count == 0,
            final(self).seldepth == 0,
    {
        *self = Self::default();
    }
}

} // verus!
