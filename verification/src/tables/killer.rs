//! Killer moves: a quiet move that causes a beta cutoff at some ply is kept in
//! a short list for that ply, so that sibling nodes try it early.
use vstd::prelude::*;
use super::Move;

verus! {

/// Killer moves kept per ply.
pub const KILLERS_PER_PLY: usize = 3;

/// Number of plies with a killer list.
pub const KILLER_PLIES: usize = 127;

pub struct KillerMoveTable {
    table: Vec<Move>,
}

impl View for KillerMoveTable {
    type V = Seq<u16>;

    closed spec fn view(&self) -> Seq<u16> {
        self.table@.map_values(|e: Move| e@)
    }
}

/// The killer list of `ply`, most recent first.
pub open spec fn killers_at(t: Seq<u16>, ply: int) -> Seq<u16> {
    t.subrange(3 * ply, 3 * ply + 3)
}

/// Killer list of a ply after `m` is pushed onto it: the list shifts down one
/// place and `m` goes in front, unless `m` was already one of the two front
/// moves, in which case the move that dropped off the end goes in front.
pub open spec fn killers_after_push(k: Seq<u16>, m: u16) -> Seq<u16> {
    let front = if k[0] == m || k[1] == m {
        k[2]
    } else {
        m
    };
    seq![front, k[0], k[1]]
}

impl KillerMoveTable {
    pub closed spec fn wf(&self) -> bool {
        self.table@.len() == 3 * KILLER_PLIES
    }

    pub proof fn lemma_len(&self)
        requires
            self.wf(),
        ensures
            self@.len() == 3 * KILLER_PLIES,
    {
    }

    fn slot(&mut self, i: usize, m: u16)
        requires
            i < old(self).table@.len(),
        ensures
            final(self).table@.len() == old(self).table@.len(),
            final(self)@ == old(self)@.update(i as int, m),
    {
        let mut e = Move::new();
        e.set(m);
        self.table.set(i, e);
        assert(self@ =~= old(self)@.update(i as int, m));
    }

    /// Records `m` as a killer at `ply`.
    pub fn push(&mut self, m: u16, ply: i8)
        requires
            old(self).wf(),
            0 <= ply,
            (ply as int) < KILLER_PLIES,
        ensures
            final(self).wf(),
            killers_at(final(self)@, ply as int) == killers_after_push(
                killers_at(old(self)@, ply as int),
                m,
            ),
            forall|i: int|
                0 <= i < 3 * KILLER_PLIES && !(3 * ply <= i < 3 * ply + 3) ==> final(self)@[i]
                    == old(self)@[i],
    {
        let b = 3 * (ply as usize);
        let lost_move = self.table[b + 2].get();
        let e1 = self.table[b + 1].get();
        let e0 = self.table[b].get();
        let copy_found = e1 == m || e0 == m;
        self.slot(b + 2, e1);
        self.slot(b + 1, e0);
        if copy_found {
            self.slot(b, lost_move);
        } else {
            self.slot(b, m);
        }
        assert(killers_at(self@, ply as int) =~= killers_after_push(
            killers_at(old(self)@, ply as int),
            m,
        ));
    }

    /// The killer moves recorded at `ply`, most recent first.
    pub fn get_ply(&self, ply: i8) -> (r: [u16; 3])
        requires
            self.wf(),
            0 <= ply,
            (ply as int) < KILLER_PLIES,
        ensures
            r@ == killers_at(self@, ply as int),
    {
        let b = 3 * (ply as usize);
        let r = [self.table[b].get(), self.table[b + 1].get(), self.table[b + 2].get()];
        assert(r@ =~= killers_at(self@, ply as int));
        r
    }
}

impl Default for KillerMoveTable {
    fn default() -> (r: Self)
        ensures
            r.wf(),
            r@ == Seq::new((3 * KILLER_PLIES) as nat, |i: int| 0u16),
    {
        let mut table: Vec<Move> = Vec::new();
        let mut i: usize = 0;
        while i < 3 * KILLER_PLIES
            invariant
                i <= 3 * KILLER_PLIES,
                table@.len() == i,
                forall|j: int| 0 <= j < i ==> (#[trigger] table@[j])@ == 0,
            decreases 3 * KILLER_PLIES - i,
        {
            table.push(Move::new());
            i += 1;
        }
        let r = KillerMoveTable { table };
        assert(r@ =~= Seq::new((3 * KILLER_PLIES) as nat, |i: int| 0u16));
        r
    }
}

/// A pushed killer move is at the front of its ply's list unless it was
/// already among the two front moves; either way it is still in the list.
pub proof fn lemma_killer_push_keeps(k: Seq<u16>, m: u16)
    requires
        k.len() == 3,
    ensures
        killers_after_push(k, m).len() == 3,
        !(k[0] == m || k[1] == m) ==> killers_after_push(k, m)[0] == m,
        killers_after_push(k, m).contains(m),
{
    let r = killers_after_push(k, m);
    if k[0] == m {
        assert(r[1] == m);
    } else if k[1] == m {
        assert(r[2] == m);
    } else {
        assert(r[0] == m);
    }
}

} // verus!
