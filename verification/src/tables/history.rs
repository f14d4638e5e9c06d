//! History heuristic: a quiet move that causes a beta cutoff earns
//! `depth * depth` in a table indexed by side and from/to squares; quiet moves
//! are then ordered by their share of the largest score seen.
use vstd::prelude::*;
use super::{pair_idx, pair_index, lemma_pair_index, lemma_pair_index_iff};
use crate::search::sorting::HISTORY_MAX;

verus! {

/// One cell of the history table.
#[derive(Clone, Copy)]
pub struct HistoryScore {
    data: u32,
}

impl View for HistoryScore {
    type V = u32;

    closed spec fn view(&self) -> u32 {
        self.data
    }
}

impl HistoryScore {
    fn new() -> (r: Self)
        ensures
            r@ == 0,
    {
        HistoryScore { data: 0 }
    }

    /// The score held in the cell.
    pub fn get(&self) -> (r: u32)
        ensures
            r == self@,
    {
        self.data
    }
}

/// Abstract contents of a history table: one score per side and from/to pair,
/// and the largest score recorded so far.
pub struct HistoryView {
    pub scores: Seq<u32>,
    pub max: u32,
}

pub struct HistoryTable {
    table: Vec<HistoryScore>,
    max: u32,
}

/// Position of the cell for `side` and move `m`.
pub open spec fn history_index(side: usize, m: u16) -> int {
    4096 * side + pair_index(m)
}

impl View for HistoryTable {
    type V = HistoryView;

    closed spec fn view(&self) -> HistoryView {
        HistoryView { scores: self.table@.map_values(|e: HistoryScore| e@), max: self.max }
    }
}

/// A history table is well formed when it has a cell for each side and
/// from/to pair, and its maximum bounds every cell and is positive.
pub open spec fn history_wf(v: HistoryView) -> bool {
    &&& v.scores.len() == 8192
    &&& v.max >= 1
    &&& forall|i: int| 0 <= i < 8192 ==> #[trigger] v.scores[i] <= v.max
}

/// Score that ordering gives a cell: its value scaled to `HISTORY_MAX`
/// relative to the table maximum, rounded up.
pub open spec fn history_ordering_score(v: HistoryView, side: usize, m: u16) -> int {
    (v.scores[history_index(side, m)] * 200 + v.max - 1) / (v.max as int)
}

impl HistoryTable {
    pub closed spec fn wf(&self) -> bool {
        history_wf(self@) && self.table@.len() == 8192
    }

    pub proof fn lemma_wf(&self)
        requires
            self.wf(),
        ensures
            history_wf(self@),
    {
    }

    /// Rewards move `m` of `side` for a cutoff at `depth`.
    pub fn set(&mut self, side: usize, m: u16, depth: i8)
        requires
            old(self).wf(),
            side < 2,
            depth >= 0,
            old(self)@.scores[history_index(side, m)] + depth * depth <= u32::MAX,
        ensures
            final(self).wf(),
            final(self)@.scores == old(self)@.scores.update(
                history_index(side, m),
                (old(self)@.scores[history_index(side, m)] + depth * depth) as u32,
            ),
            final(self)@.max == if old(self)@.scores[history_index(side, m)] + depth * depth
                > old(self)@.max {
                (old(self)@.scores[history_index(side, m)] + depth * depth) as u32
            } else {
                old(self)@.max
            },
    {
        proof {
            lemma_pair_index(m);
        }
        let i = 4096 * side + pair_idx(m);
        let d = depth as u32;
        assert(d * d <= 127 * 127) by (nonlinear_arith)
            requires
                d <= 127,
        ;
        let new = self.table[i].get() + d * d;
        if new > self.max {
            self.max = new;
        }
        self.table.set(i, HistoryScore { data: new });
        assert(self@.scores =~= old(self)@.scores.update(history_index(side, m), new));
    }

    /// Ordering score of move `m` for `side`, between 0 and `HISTORY_MAX`.
    pub fn get(&self, side: usize, m: u16) -> (r: i16)
        requires
            self.wf(),
            side < 2,
            self@.scores[history_index(side, m)] * 200 + self@.max <= u32::MAX,
        ensures
            r == history_ordering_score(self@, side, m),
            0 <= r <= HISTORY_MAX,
    {
        proof {
            lemma_pair_index(m);
        }
        let i = 4096 * side + pair_idx(m);
        let val = self.table[i].get();
        let max = self.max;
        assert(val <= max);
        let num = val * (HISTORY_MAX as u32) + max - 1;
        let q = num / max;
        assert(q <= 200) by (nonlinear_arith)
            requires
                q == num / max,
                num == val * 200 + max - 1,
                val <= max,
                max >= 1,
        ;
        q as i16
    }
}

impl Default for HistoryTable {
    fn default() -> (r: Self)
        ensures
            r.wf(),
            r@.max == 1,
            r@.scores == Seq::new(8192, |i: int| 0u32),
    {
        let mut table: Vec<HistoryScore> = Vec::new();
        let mut i: usize = 0;
        while i < 8192
            invariant
                i <= 8192,
                table@.len() == i,
                forall|j: int| 0 <= j < i ==> (#[trigger] table@[j])@ == 0,
            decreases 8192 - i,
        {
            table.push(HistoryScore::new());
            i += 1;
        }
        let r = HistoryTable { table, max: 1 };
        assert(r@.scores =~= Seq::new(8192, |i: int| 0u32));
        r
    }
}

/// Rewarding a move never lowers the table maximum, and the maximum still
/// bounds the rewarded cell.
pub proof fn lemma_history_max_monotone(v: HistoryView, side: usize, m: u16, depth: i8)
    requires
        history_wf(v),
        side < 2,
        depth >= 0,
        v.scores[history_index(side, m)] + depth * depth <= u32::MAX,
    ensures
        ({
            let new = (v.scores[history_index(side, m)] + depth * depth) as u32;
            let max = if new > v.max { new } else { v.max };
            &&& max >= v.max
            &&& new <= max
        }),
{
}

/// Each side and from/to pair has a cell of its own: two moves share a cell
/// exactly when they are of the same side and have the same from and to
/// squares, so rewarding one move leaves the score of every other pair, and
/// of the other side, unchanged.
pub proof fn lemma_history_cells(s1: usize, a: u16, s2: usize, b: u16)
    requires
        s1 < 2,
        s2 < 2,
    ensures
        (history_index(s1, a) == history_index(s2, b)) == (s1 == s2 && (a & 0xFFF) == (b & 0xFFF)),
        0 <= history_index(s1, a) < 8192,
{
    lemma_pair_index(a);
    lemma_pair_index(b);
    lemma_pair_index_iff(a, b);
}

} // verus!
