//! Tables that the search fills as it goes: hash tables, killer moves,
//! counter moves and history scores.
use vstd::prelude::*;

pub mod countermove;
pub mod fill;
pub mod hash;
pub mod history;
pub mod killer;
pub mod search;

verus! {

/// A single stored move, as kept by the counter move and killer move tables.
#[derive(Clone, Copy)]
pub struct Move {
    data: u16,
}

impl View for Move {
    type V = u16;

    closed spec fn view(&self) -> u16 {
        self.data
    }
}

impl Move {
    /// An empty slot, holding the null move.
    pub fn new() -> (r: Self)
        ensures
            r@ == 0,
    {
        Move { data: 0 }
    }

    /// Stores a move in the slot.
    pub fn set(&mut self, m: u16)
        ensures
            final(self)@ == m,
    {
        self.data = m;
    }

    /// The move held in the slot.
    pub fn get(&self) -> (r: u16)
        ensures
            r == self@,
    {
        self.data
    }
}

/// Index of a move's from/to pair in a 64 by 64 table, as the tables lay it out:
/// the low six bits select the row and the next six bits the column.
pub open spec fn pair_index(m: u16) -> int {
    64 * ((m & 63) as int) + (((m >> 6u16) & 63) as int)
}

pub proof fn lemma_pair_index(m: u16)
    ensures
        0 <= pair_index(m) < 4096,
        (m & 63) < 64,
        ((m >> 6u16) & 63) < 64,
        (m & 0xFFF) as int == (m & 63) as int + 64 * (((m >> 6u16) & 63) as int),
{
    assert((m & 63) < 64 && ((m >> 6u16) & 63) < 64 && (m & 0xFFF) == (m & 63) + 64 * ((m >> 6u16)
        & 63)) by (bit_vector);
}

/// Two moves share a cell of the from/to tables exactly when they have the
/// same from and to squares (their low twelve bits), whatever their flags.
pub proof fn lemma_pair_index_iff(a: u16, b: u16)
    ensures
        (pair_index(a) == pair_index(b)) == ((a & 0xFFF) == (b & 0xFFF)),
{
    lemma_pair_index(a);
    lemma_pair_index(b);
}

/// Computes `pair_index`.
pub fn pair_idx(m: u16) -> (r: usize)
    ensures
        r == pair_index(m),
        r < 4096,
{
    proof {
        lemma_pair_index(m);
    }
    64 * ((m & 63) as usize) + (((m >> 6) & 63) as usize)
}

} // verus!
