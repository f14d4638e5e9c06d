//! Move ordering. Moves are tried in this order: the hash move, captures by
//! most valuable victim and least valuable attacker, promotions, killer moves,
//! the counter move, castling, then quiet moves by history score.
use vstd::prelude::*;
use crate::position::{MoveList, MOVE_LIST_CAPACITY};

verus! {

/// Largest ordering score a quiet move gets from the history table.
pub const HISTORY_MAX: i16 = 200;

/// Ordering scores of the moves of a move list, consumed from `start_idx` on.
pub struct MoveScores {
    list: [i16; 255],
    len: usize,
    start_idx: usize,
}

impl MoveScores {
    /// Every slot, used or not.
    pub closed spec fn slots(&self) -> Seq<i16> {
        self.list@
    }

    /// Number of scores pushed.
    pub closed spec fn length(&self) -> usize {
        self.len
    }

    /// Index of the first score not yet picked.
    pub closed spec fn start(&self) -> usize {
        self.start_idx
    }

    pub closed spec fn wf(&self) -> bool {
        self.start_idx <= self.len <= MOVE_LIST_CAPACITY
    }

    pub proof fn lemma_slots(&self)
        ensures
            self.slots().len() == MOVE_LIST_CAPACITY,
    {
    }

    /// A well-formed list of scores has its picked part within its pushed
    /// part, and at most 255 scores.
    pub proof fn lemma_wf(&self)
        requires
            self.wf(),
        ensures
            self.start() <= self.length(),
            self.length() <= MOVE_LIST_CAPACITY,
            self.slots().len() == MOVE_LIST_CAPACITY,
    {
    }

    /// Appends the score of the next move.
    pub fn push(&mut self, m: i16)
        requires
            old(self).wf(),
            old(self).length() < MOVE_LIST_CAPACITY,
        ensures
            final(self).wf(),
            final(self).slots() == old(self).slots().update(old(self).length() as int, m),
            final(self).length() == old(self).length() + 1,
            final(self).start() == old(self).start(),
    {
        self.list[self.len] = m;
        self.len += 1;
    }

    fn swap_unchecked(&mut self, i: usize, j: usize)
        requires
            i < MOVE_LIST_CAPACITY,
            j < MOVE_LIST_CAPACITY,
        ensures
            final(self).slots() == old(self).slots().update(i as int, old(self).slots()[j as int]).update(
                j as int,
                old(self).slots()[i as int],
            ),
            final(self).length() == old(self).length(),
            final(self).start() == old(self).start(),
    {
        let a = self.list[i];
        let b = self.list[j];
        self.list[i] = b;
        self.list[j] = a;
    }
}

impl Default for MoveScores {
    fn default() -> (r: Self)
        ensures
            r.wf(),
            r.length() == 0,
            r.start() == 0,
    {
        MoveScores { list: [0i16; 255], len: 0, start_idx: 0 }
    }
}

/// The best score among `s[lo..hi]` and where it first occurs, scanning left
/// to right and keeping a score only when it beats the best so far, starting
/// from the lowest score at index 0.
pub open spec fn best_of(s: Seq<i16>, lo: int, hi: int) -> (int, i16)
    decreases hi - lo,
{
    if hi <= lo {
        (0, i16::MIN)
    } else {
        let (bi, bs) = best_of(s, lo, hi - 1);
        if s[hi - 1] > bs {
            (hi - 1, s[hi - 1])
        } else {
            (bi, bs)
        }
    }
}

/// `s` with its entries `i` and `j` exchanged.
pub open spec fn swapped<T>(s: Seq<T>, i: int, j: int) -> Seq<T> {
    s.update(i, s[j]).update(j, s[i])
}

/// The best score of a range bounds every score in it, and, unless it is the
/// lowest score, it is the score at the index found, the first one that high.
pub proof fn lemma_best_of(s: Seq<i16>, lo: int, hi: int)
    requires
        0 <= lo,
        hi <= s.len(),
    ensures
        forall|i: int| lo <= i < hi ==> s[i] <= #[trigger] best_of(s, lo, hi).1,
        best_of(s, lo, hi).1 > i16::MIN ==> {
            let (bi, bs) = best_of(s, lo, hi);
            &&& lo <= bi < hi
            &&& s[bi] == bs
            &&& forall|i: int| lo <= i < bi ==> s[i] < bs
        },
        best_of(s, lo, hi).1 == i16::MIN ==> best_of(s, lo, hi).0 == 0,
    decreases hi - lo,
{
    if hi > lo {
        lemma_best_of(s, lo, hi - 1);
    }
}

/// Picks the best scored move not yet tried: moves it and its score to the
/// front of the untried part, and returns it with its position and score.
pub fn get_next_move(moves: &mut MoveList, move_scores: &mut MoveScores) -> (r: Option<(u16, usize, i16)>)
    requires
        old(move_scores).wf(),
    ensures
        final(move_scores).wf(),
        final(move_scores).length() == old(move_scores).length(),
        final(moves).length() == old(moves).length(),
        old(move_scores).start() == old(move_scores).length() ==> {
            &&& r is None
            &&& final(moves).slots() == old(moves).slots()
            &&& final(move_scores).slots() == old(move_scores).slots()
            &&& final(move_scores).start() == old(move_scores).start()
        },
        old(move_scores).start() < old(move_scores).length() ==> {
            let s = old(move_scores).start() as int;
            let (bi, bs) = best_of(old(move_scores).slots(), s, old(move_scores).length() as int);
            &&& r == Some((old(moves).slots()[bi], s as usize, bs))
            &&& final(moves).slots() == swapped(old(moves).slots(), bi, s)
            &&& final(move_scores).slots() == swapped(old(move_scores).slots(), bi, s)
            &&& final(move_scores).start() == s + 1
        },
{
    let m_idx = move_scores.start_idx;
    if m_idx == move_scores.len {
        return None;
    }
    proof {
        move_scores.lemma_slots();
        lemma_best_of(move_scores.slots(), m_idx as int, move_scores.len as int);
    }
    let mut best_idx: usize = 0;
    let mut best_score: i16 = i16::MIN;
    let mut i = m_idx;
    while i < move_scores.len
        invariant
            m_idx <= i <= move_scores.len,
            move_scores.len <= MOVE_LIST_CAPACITY,
            move_scores.list@.len() == MOVE_LIST_CAPACITY,
            (best_idx as int, best_score) == best_of(move_scores.list@, m_idx as int, i as int),
            best_idx < MOVE_LIST_CAPACITY,
        decreases move_scores.len - i,
    {
        proof {
            lemma_best_of(move_scores.list@, m_idx as int, i as int);
        }
        let score = move_scores.list[i];
        if score > best_score {
            best_score = score;
            best_idx = i;
        }
        i += 1;
    }
    let m = moves.at(best_idx);
    move_scores.swap_unchecked(best_idx, m_idx);
    moves.swap_unchecked(best_idx, m_idx);
    move_scores.start_idx += 1;
    Some((m, m_idx, best_score))
}

} // verus!
