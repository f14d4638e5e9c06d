//! Board vocabulary shared by the search: piece and side indices, castling
//! rights, move flags, a fixed-capacity move list, and the saved state of a
//! made move.
use vstd::prelude::*;

pub mod attacks;
pub mod eval;
pub mod zobrist;

pub use crate::bits::{ls1b_scan, ms1b_scan};

verus! {

/// Saved state of a made move, restored when it is unmade.
#[derive(Clone, Copy)]
pub struct GameState {
    pub m: u16,
    pub moved_pc: u8,
    pub captured_pc: u8,
    pub castle_rights: u8,
    pub halfmove_clock: u8,
    pub en_passant_sq: u16,
    pub phase: i16,
    pub zobrist: u64,
    pub pawnhash: u64,
    pub mat_mg: [i16; 2],
    pub mat_eg: [i16; 2],
    pub pst_mg: [i16; 2],
    pub pst_eg: [i16; 2],
}

/// Capacity of a move list; no position has more legal moves.
pub const MOVE_LIST_CAPACITY: usize = 255;

/// A list of encoded moves with room for `MOVE_LIST_CAPACITY` entries.
#[derive(Clone)]
pub struct MoveList {
    list: [u16; 255],
    len: usize,
}

impl MoveList {
    /// Every slot of the list, used or not.
    pub closed spec fn slots(&self) -> Seq<u16> {
        self.list@
    }

    /// Number of slots in use.
    pub closed spec fn length(&self) -> usize {
        self.len
    }

    /// The moves in use.
    pub open spec fn moves(&self) -> Seq<u16> {
        self.slots().subrange(0, self.length() as int)
    }

    pub proof fn lemma_slots(&self)
        ensures
            self.slots().len() == MOVE_LIST_CAPACITY,
    {
    }

    /// A list with the given slots, of which the first `len` are in use.
    pub fn new(list: [u16; 255], len: usize) -> (r: Self)
        ensures
            r.slots() == list@,
            r.length() == len,
    {
        MoveList { list, len }
    }

    /// Appends a move.
    pub fn push(&mut self, m: u16)
        requires
            old(self).length() < MOVE_LIST_CAPACITY,
        ensures
            final(self).slots() == old(self).slots().update(old(self).length() as int, m),
            final(self).length() == old(self).length() + 1,
    {
        self.list[self.len] = m;
        self.len += 1;
    }

    /// Empties the list.
    pub fn clear(&mut self)
        ensures
            final(self).slots() == old(self).slots(),
            final(self).length() == 0,
    {
        self.len = 0;
    }

    /// Number of moves in the list.
    pub fn len(&self) -> (r: usize)
        ensures
            r == self.length(),
    {
        self.len
    }

    /// Whether the list holds no move.
    pub fn is_empty(&self) -> (r: bool)
        ensures
            r == (self.length() == 0),
    {
        self.len == 0
    }

    /// The move in slot `i`.
    pub fn at(&self, i: usize) -> (r: u16)
        requires
            i < MOVE_LIST_CAPACITY,
        ensures
            r == self.slots()[i as int],
    {
        self.list[i]
    }

    /// Exchanges slots `i` and `j`.
    pub fn swap_unchecked(&mut self, i: usize, j: usize)
        requires
            i < MOVE_LIST_CAPACITY,
            j < MOVE_LIST_CAPACITY,
        ensures
            final(self).slots() == old(self).slots().update(i as int, old(self).slots()[j as int]).update(
                j as int,
                old(self).slots()[i as int],
            ),
            final(self).length() == old(self).length(),
    {
        let a = self.list[i];
        let b = self.list[j];
        self.list[i] = b;
        self.list[j] = a;
    }
}

/// Whether `after` is `before` with `m` pushed, as `push` states it.
pub open spec fn pushed(before: MoveList, m: u16, after: MoveList) -> bool {
    &&& before.length() < MOVE_LIST_CAPACITY
    &&& after.slots() == before.slots().update(before.length() as int, m)
    &&& after.length() == before.length() + 1
}

/// Pushes append: after pushing the moves `ms` one by one, the list holds its
/// earlier moves followed by `ms`, so its length grows by the number of pushes
/// and it is empty only when it was empty and nothing was pushed.
pub proof fn lemma_pushes_append(lists: Seq<MoveList>, ms: Seq<u16>)
    requires
        lists.len() == ms.len() + 1,
        forall|i: int| 0 <= i < ms.len() ==> pushed(lists[i], #[trigger] ms[i], lists[i + 1]),
    ensures
        lists.last().length() == lists[0].length() + ms.len(),
        lists.last().moves() == lists[0].moves() + ms,
        (lists.last().length() == 0) == (lists[0].length() == 0 && ms.len() == 0),
    decreases ms.len(),
{
    if ms.len() > 0 {
        let n = ms.len() - 1;
        let front = lists.subrange(0, n + 1);
        let ms0 = ms.subrange(0, n);
        assert forall|i: int| 0 <= i < ms0.len() implies pushed(front[i], #[trigger] ms0[i], front[i + 1]) by {
            assert(ms0[i] == ms[i]);
            assert(pushed(lists[i], ms[i], lists[i + 1]));
        }
        lemma_pushes_append(front, ms0);
        assert(front.last() == lists[n]);
        assert(pushed(lists[n], ms[n], lists[n + 1]));
        lists[n].lemma_slots();
        lists[n + 1].lemma_slots();
        assert(lists.last() == lists[n + 1]);
        assert(lists.last().moves() =~= lists[n].moves().push(ms[n]));
        assert(ms =~= ms0.push(ms[n]));
        assert(lists[0].moves() + ms =~= (lists[0].moves() + ms0).push(ms[n]));
    }
}

impl Default for MoveList {
    fn default() -> (r: Self)
        ensures
            r.length() == 0,
    {
        MoveList { list: [0u16; 255], len: 0 }
    }
}

/// Indices of the two sides.
pub struct Side;

impl Side {
    pub const WHITE: usize = 0;
    pub const BLACK: usize = 1;
}

/// Indices of the piece kinds.
pub struct Piece;

impl Piece {
    pub const PAWN: usize = 0;
    pub const KNIGHT: usize = 1;
    pub const BISHOP: usize = 2;
    pub const ROOK: usize = 3;
    pub const QUEEN: usize = 4;
    pub const KING: usize = 5;
    pub const NONE: usize = 6;
}

/// Castling rights, one bit each.
pub struct CastleRights;

impl CastleRights {
    pub const ALL: u8 = 15;
    pub const WHITE_QS: u8 = 8;
    pub const WHITE_KS: u8 = 4;
    pub const BLACK_QS: u8 = 2;
    pub const BLACK_KS: u8 = 1;
    pub const NONE: u8 = 0;

    /// Both rights of one side.
    pub fn sides(side: usize) -> (r: u8)
        requires
            side < 2,
        ensures
            side == 0 ==> r == 12,
            side == 1 ==> r == 3,
    {
        assert(4u8 | 8u8 == 12u8 && 1u8 | 2u8 == 3u8) by (bit_vector);
        if side == 0 {
            Self::WHITE_KS | Self::WHITE_QS
        } else {
            Self::BLACK_KS | Self::BLACK_QS
        }
    }
}

/// Flags in the top four bits of an encoded move.
pub struct MoveFlags;

impl MoveFlags {
    pub const ALL: u16 = 0xF000;
    pub const QUIET: u16 = 0;
    pub const DBL_PUSH: u16 = 0x1000;
    pub const KS_CASTLE: u16 = 0x2000;
    pub const QS_CASTLE: u16 = 0x3000;
    pub const CAPTURE: u16 = 0x4000;
    pub const EN_PASSANT: u16 = 0x5000;
    pub const KNIGHT_PROMO: u16 = 0x8000;
    pub const BISHOP_PROMO: u16 = 0x9000;
    pub const ROOK_PROMO: u16 = 0xA000;
    pub const QUEEN_PROMO: u16 = 0xB000;
    pub const KNIGHT_PROMO_CAPTURE: u16 = 0xC000;
    pub const BISHOP_PROMO_CAPTURE: u16 = 0xD000;
    pub const ROOK_PROMO_CAPTURE: u16 = 0xE000;
    pub const QUEEN_PROMO_CAPTURE: u16 = 0xF000;
}

/// How many pieces give check.
#[derive(PartialEq, Eq, Structural, Clone, Copy)]
pub enum Check {
    NoCheck,
    Single,
    Double,
}

/// Which moves a generator produces.
pub struct MoveType;

impl MoveType {
    pub const ALL: u8 = 0;
    pub const CAPTURES: u8 = 1;
    pub const QUIETS: u8 = 2;
}

} // verus!
