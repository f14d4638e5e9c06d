//! Moves with ordering scores, and the move list the generators fill.
use vstd::prelude::*;

verus! {

/// Move encoding: `0b ffff tttttt ssssss` (flag, to square, from square),
/// together with an ordering score.
#[derive(Clone, Copy)]
pub struct Move {
    pub mov: u16,
    pub score: i16,
}

impl Move {
    /// The encoded move.
    pub fn mov(&self) -> (r: u16)
        ensures
            r == self.mov,
    {
        self.mov
    }

    /// The ordering score.
    pub fn score(&self) -> (r: i16)
        ensures
            r == self.score,
    {
        self.score
    }

    /// A move with score 0.
    pub fn new(mov: u16) -> (r: Self)
        ensures
            r.mov == mov,
            r.score == 0,
    {
        Self { mov, score: 0 }
    }
}

/// The moves of a sequence, each with score 0.
pub open spec fn unscored(s: Seq<u16>) -> Seq<Move> {
    Seq::new(s.len(), |i: int| Move { mov: s[i], score: 0 })
}

/// The encoded moves of a list.
pub open spec fn movs(s: Seq<Move>) -> Seq<u16> {
    Seq::new(s.len(), |i: int| s[i].mov)
}

pub proof fn lemma_unscored_push(a: Seq<Move>, x: u16, rest: Seq<u16>)
    ensures
        a.push(Move { mov: x, score: 0 }) + unscored(rest) =~= a + unscored(seq![x] + rest),
{
}

pub proof fn lemma_unscored_concat(a: Seq<u16>, b: Seq<u16>)
    ensures
        unscored(a + b) =~= unscored(a) + unscored(b),
{
}

/// A list of moves.
pub struct MoveList {
    list: Vec<Move>,
}

impl View for MoveList {
    type V = Seq<Move>;

    closed spec fn view(&self) -> Seq<Move> {
        self.list@
    }
}

impl MoveList {
    /// Number of moves in the list.
    pub fn len(&self) -> (r: usize)
        ensures
            r == self@.len(),
    {
        self.list.len()
    }

    /// A fresh, empty list with room for the moves of any position.
    pub fn uninit() -> (r: Self)
        ensures
            r@ == Seq::<Move>::empty(),
    {
        Self { list: Vec::with_capacity(252) }
    }

    /// The move at position `i`.
    pub fn at(&self, i: usize) -> (r: Move)
        requires
            i < self@.len(),
        ensures
            r == self@[i as int],
    {
        self.list[i]
    }

    /// Appends a move with score 0.
    pub fn add(&mut self, mov: u16)
        ensures
            final(self)@ == old(self)@.push(Move { mov, score: 0 }),
    {
        self.list.push(Move::new(mov));
    }

    /// Gives every move the score that `score_move` assigns to it.
    pub fn score<F>(&mut self, score_move: F)
        where
            F: Fn(u16) -> i16,
        requires
            forall|m: u16| call_requires(score_move, (m,)),
        ensures
            final(self)@.len() == old(self)@.len(),
            forall|i: int|
                0 <= i < old(self)@.len() ==> final(self)@[i].mov == old(self)@[i].mov
                    && call_ensures(score_move, (old(self)@[i].mov,), #[trigger] final(self)@[i].score),
    {
        let n = self.list.len();
        let mut i: usize = 0;
        while i < n
            invariant
                n == self.list@.len(),
                n == old(self)@.len(),
                0 <= i <= n,
                forall|m: u16| call_requires(score_move, (m,)),
                forall|j: int| 0 <= j < n ==> self.list@[j].mov == old(self)@[j].mov,
                forall|j: int|
                    0 <= j < i ==> call_ensures(score_move, (old(self)@[j].mov,), #[trigger] self.list@[j].score),
            decreases n - i,
        {
            let m = self.list[i].mov;
            let s = score_move(m);
            self.list.set(i, Move { mov: m, score: s });
            i = i + 1;
        }
    }

    /// Removes and returns the first move with the highest score; the last
    /// move of the list takes its place.
    pub fn pick(&mut self) -> (r: Option<Move>)
        ensures
            old(self)@.len() == 0 ==> r is None && final(self)@ == old(self)@,
            old(self)@.len() > 0 ==> exists|idx: int|
                0 <= idx < old(self)@.len() && r == Some(old(self)@[idx]) && (forall|j: int|
                    0 <= j < old(self)@.len() ==> old(self)@[j].score <= old(self)@[idx].score)
                    && (forall|j: int| 0 <= j < idx ==> old(self)@[j].score < old(self)@[idx].score)
                    && final(self)@ == old(self)@.update(idx, old(self)@.last()).drop_last(),
    {
        let n = self.list.len();
        if n == 0 {
            return None;
        }
        let mut idx: usize = 0;
        let mut best = i16::MIN;
        let mut i: usize = 0;
        while i < n
            invariant
                n == self.list@.len(),
                self.list@ == old(self)@,
                n > 0,
                0 <= i <= n,
                idx < n,
                i == 0 ==> idx == 0 && best == i16::MIN,
                i > 0 ==> idx < i && best == self.list@[idx as int].score,
                forall|j: int| 0 <= j < i ==> self.list@[j].score <= best,
                forall|j: int| 0 <= j < idx ==> self.list@[j].score < best,
                forall|j: int| 0 <= j < idx ==> self.list@[j].score < self.list@[idx as int].score,
            decreases n - i,
        {
            let mov = self.list[i];
            if mov.score > best {
                best = mov.score;
                idx = i;
            }
            i = i + 1;
        }
        let last = self.list[n - 1];
        let chosen = self.list[idx];
        self.list.set(idx, last);
        self.list.pop();
        proof {
            assert(self.list@ =~= old(self)@.update(idx as int, old(self)@.last()).drop_last());
        }
        Some(chosen)
    }
}

} // verus!
