//! Conditions under which the search may prune or reduce.
use vstd::prelude::*;
use crate::tables::search::{Bound, HashResult};
use super::is_mate_score;

verus! {

pub const LMR_MIN_DEPTH: i8 = 2;
pub const LMR_MIN_IDX: usize = 2;
pub const LMR_MAX_SCORE: i16 = 300;
pub const NMP_MIN_PHASE: i16 = 6;
pub const NMP_MIN_DEPTH: i8 = 3;
pub const RFP_MAX_DEPTH: i8 = 8;

/// Margin of reverse futility pruning per ply of depth.
pub const RFP_MARGIN_PER_DEPTH: i16 = 120;

/// The score a hash hit lets the search return at once, if any: an exact score
/// outside the principal variation, beta for a lower bound at or above beta,
/// alpha for an upper bound at or below alpha; only for entries searched at
/// least as deep, and not close to the fifty-move limit.
pub open spec fn tt_prune_spec(pv: bool, res: HashResult, depth: i8, alpha: i16, beta: i16, halfmove_clock: u8) -> Option<i16> {
    if res.depth >= depth && halfmove_clock <= 90 {
        if res.bound == Bound::EXACT {
            if !pv { Some(res.score) } else { None }
        } else if res.bound == Bound::LOWER {
            if res.score >= beta { Some(beta) } else { None }
        } else if res.bound == Bound::UPPER {
            if res.score <= alpha { Some(alpha) } else { None }
        } else {
            None
        }
    } else {
        None
    }
}

/// Can the hash entry cut the search short?
pub fn tt_prune<const PV: bool>(res: &HashResult, depth: i8, alpha: i16, beta: i16, halfmove_clock: u8) -> (r: Option<i16>)
    ensures
        r == tt_prune_spec(PV, *res, depth, alpha, beta, halfmove_clock),
{
    if res.depth >= depth && halfmove_clock <= 90 {
        if res.bound == Bound::EXACT {
            if !PV {
                return Some(res.score);
            }
        } else if res.bound == Bound::LOWER {
            if res.score >= beta {
                return Some(beta);
            }
        } else if res.bound == Bound::UPPER {
            if res.score <= alpha {
                return Some(alpha);
            }
        }
    }
    None
}

/// Can the node be pruned at all: not on the principal variation, not in
/// check, and beta not a mate score.
pub fn can_do_pruning<const PV: bool>(king_in_check: bool, beta: i16) -> (r: bool)
    ensures
        r == (!PV && !king_in_check && !(beta >= super::MATE_THRESHOLD || beta <= -super::MATE_THRESHOLD)),
{
    !PV && !king_in_check && !is_mate_score(beta)
}

/// Can null move pruning be tried?
pub fn can_do_nmp(allow_null: bool, phase: i16, depth: i8, beta: i16, lazy_eval: i16) -> (r: bool)
    ensures
        r == (allow_null && phase >= NMP_MIN_PHASE && depth >= NMP_MIN_DEPTH && lazy_eval >= beta),
{
    allow_null && phase >= NMP_MIN_PHASE && depth >= NMP_MIN_DEPTH && lazy_eval >= beta
}

/// Can reverse futility pruning be tried: shallow enough, and the static
/// evaluation beats beta by the margin for the depth.
pub fn can_do_rfp(depth: i8, beta: i16, lazy_eval: i16) -> (r: bool)
    requires
        depth <= RFP_MAX_DEPTH ==> i16::MIN <= beta + RFP_MARGIN_PER_DEPTH * depth <= i16::MAX,
    ensures
        r == (depth <= RFP_MAX_DEPTH && lazy_eval >= beta + RFP_MARGIN_PER_DEPTH * depth),
{
    depth <= RFP_MAX_DEPTH && lazy_eval >= beta + RFP_MARGIN_PER_DEPTH * (depth as i16)
}

/// Can a late move be searched at reduced depth?
pub fn can_do_lmr<const ROOT: bool>(king_in_check: bool, m_idx: usize, m_score: i16, check: bool, depth: i8) -> (r: bool)
    ensures
        r == (!ROOT && depth >= LMR_MIN_DEPTH && !king_in_check && m_idx >= LMR_MIN_IDX
            && m_score <= LMR_MAX_SCORE && !check),
{
    !ROOT && depth >= LMR_MIN_DEPTH && !king_in_check && m_idx >= LMR_MIN_IDX && m_score
        <= LMR_MAX_SCORE && !check
}

} // verus!
