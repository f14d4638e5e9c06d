//! Counter move table: when a quiet move causes a beta cutoff it is recorded
//! against the from/to squares of the move that preceded it.
use vstd::prelude::*;
use super::{pair_idx, pair_index, lemma_pair_index, lemma_pair_index_iff, Move};

verus! {

pub struct CounterMoveTable {
    table: Vec<Move>,
}

impl View for CounterMoveTable {
    type V = Seq<u16>;

    closed spec fn view(&self) -> Seq<u16> {
        self.table@.map_values(|e: Move| e@)
    }
}

impl CounterMoveTable {
    pub closed spec fn wf(&self) -> bool {
        self.table@.len() == 4096
    }

    pub proof fn lemma_len(&self)
        requires
            self.wf(),
        ensures
            self@.len() == 4096,
    {
    }

    /// Records `m` as the answer to `prev_m`.
    pub fn set(&mut self, prev_m: u16, m: u16)
        requires
            old(self).wf(),
        ensures
            final(self).wf(),
            final(self)@ == old(self)@.update(pair_index(prev_m), m),
    {
        let i = pair_idx(prev_m);
        let mut e = Move::new();
        e.set(m);
        self.table.set(i, e);
        assert(self@ =~= old(self)@.update(pair_index(prev_m), m));
    }

    /// The move recorded as the answer to `m`.
    pub fn get(&self, m: u16) -> (r: u16)
        requires
            self.wf(),
        ensures
            r == self@[pair_index(m)],
    {
        let i = pair_idx(m);
        self.table[i].get()
    }
}

impl Default for CounterMoveTable {
    fn default() -> (r: Self)
        ensures
            r.wf(),
            r@ == Seq::new(4096, |i: int| 0u16),
    {
        let mut table: Vec<Move> = Vec::new();
        let mut i: usize = 0;
        while i < 4096
            invariant
                i <= 4096,
                table@.len() == i,
                forall|j: int| 0 <= j < i ==> (#[trigger] table@[j])@ == 0,
            decreases 4096 - i,
        {
            table.push(Move::new());
            i += 1;
        }
        let r = CounterMoveTable { table };
        assert(r@ =~= Seq::new(4096, |i: int| 0u16));
        r
    }
}

/// Reading a counter move gives back the last move recorded for the same
/// from/to pair, and recording leaves every other pair as it was.
pub proof fn lemma_counter_read_after_write(t: Seq<u16>, prev_m: u16, m: u16, q: u16)
    requires
        t.len() == 4096,
    ensures
        pair_index(q) == pair_index(prev_m) ==> t.update(pair_index(prev_m), m)[pair_index(q)] == m,
        pair_index(q) != pair_index(prev_m) ==> t.update(pair_index(prev_m), m)[pair_index(q)]
            == t[pair_index(q)],
{
    lemma_pair_index(prev_m);
    lemma_pair_index(q);
}

/// The table after a run of `set` calls, each a pair of the preceding move
/// and its answer, in order.
pub open spec fn apply_sets(t: Seq<u16>, sets: Seq<(u16, u16)>) -> Seq<u16>
    decreases sets.len(),
{
    if sets.len() == 0 {
        t
    } else {
        apply_sets(t, sets.drop_last()).update(pair_index(sets.last().0), sets.last().1)
    }
}

/// A recorded answer stays until a later `set` records another answer for
/// the same from/to pair: after `set(prev_m, m)` and any run of sets for
/// other pairs, every move with the from/to squares of `prev_m` reads `m`.
pub proof fn lemma_counter_survives(t: Seq<u16>, prev_m: u16, m: u16, later: Seq<(u16, u16)>, q: u16)
    requires
        t.len() == 4096,
        pair_index(q) == pair_index(prev_m),
        forall|i: int| 0 <= i < later.len() ==> pair_index(#[trigger] later[i].0) != pair_index(prev_m),
    ensures
        apply_sets(t.update(pair_index(prev_m), m), later)[pair_index(q)] == m,
        apply_sets(t.update(pair_index(prev_m), m), later).len() == 4096,
    decreases later.len(),
{
    lemma_pair_index(prev_m);
    if later.len() > 0 {
        let rest = later.drop_last();
        assert forall|i: int| 0 <= i < rest.len() implies pair_index(#[trigger] rest[i].0) != pair_index(prev_m) by {
            assert(rest[i] == later[i]);
        }
        lemma_counter_survives(t, prev_m, m, rest, q);
        lemma_pair_index(later.last().0);
        assert(later.last() == later[later.len() - 1]);
    }
}

/// Recording an answer to `prev_m` changes the answer read for exactly the
/// moves with the from and to squares of `prev_m`: those read `m`, every
/// other move reads what it read before.
pub proof fn lemma_counter_by_squares(t: Seq<u16>, prev_m: u16, m: u16, q: u16)
    requires
        t.len() == 4096,
    ensures
        (q & 0xFFF) == (prev_m & 0xFFF) ==> t.update(pair_index(prev_m), m)[pair_index(q)] == m,
        (q & 0xFFF) != (prev_m & 0xFFF) ==> t.update(pair_index(prev_m), m)[pair_index(q)]
            == t[pair_index(q)],
{
    lemma_pair_index_iff(q, prev_m);
    lemma_counter_read_after_write(t, prev_m, m, q);
}

} // verus!
