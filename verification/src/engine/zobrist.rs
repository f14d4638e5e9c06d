//! Zobrist hashing values of the engine.
use vstd::prelude::*;
use crate::bits::ls1b_scan;
use crate::bits::{lemma_clear_ls1b, lemma_ls1b, lemma_wrapping_sub};
use crate::position::zobrist::{
    board_hash, castle_hash_spec, lemma_hash_bits, lemma_low_right, pieces_hash, piece_slot,
    placement_hash, rights_hash, rng_seed, rng_u64, ZobristView,
};

verus! {

pub struct ZobristVals {
    pieces: Vec<u64>,
    castle: [u64; 4],
    en_passant: [u64; 8],
    side: u64,
}

impl View for ZobristVals {
    type V = ZobristView;

    closed spec fn view(&self) -> ZobristView {
        ZobristView {
            pieces: self.pieces@,
            castle: self.castle@,
            en_passant: self.en_passant@,
            side: self.side,
        }
    }
}

impl ZobristVals {
    pub closed spec fn wf(&self) -> bool {
        self.pieces@.len() == 768
    }

    /// Value of a piece of `side` on square `idx`.
    pub fn piece_hash(&self, idx: usize, side: usize, piece: usize) -> (r: u64)
        requires
            self.wf(),
            idx < 64,
            side < 2,
            piece < 6,
        ensures
            r == self@.pieces[piece_slot(idx as int, side as int, piece as int)],
    {
        self.pieces[384 * side + 64 * piece + idx]
    }

    /// Value by which the hash changes when the right `update` is lost while
    /// the rights `current` were held.
    pub fn castle_hash(&self, current: u8, update: u8) -> (r: u64)
        requires
            current & update != 0 ==> update & 15 != 0,
        ensures
            r == castle_hash_spec(self@, current, update),
    {
        if current & update == 0 {
            return 0;
        }
        let u = update as u64;
        proof {
            assert(u & 15 != 0 && u != 0) by (bit_vector)
                requires
                    u == update as u64,
                    update & 15 != 0,
            ;
            crate::bits::lemma_ls1b(u);
            lemma_low_right(u, u.trailing_zeros() as u64);
        }
        self.castle[ls1b_scan(u) as usize]
    }

    /// Value of an en passant square on `file`.
    pub fn en_passant_hash(&self, file: usize) -> (r: u64)
        requires
            file < 8,
        ensures
            r == self@.en_passant[file as int],
    {
        self.en_passant[file]
    }

    /// Value of the side to move.
    pub fn side_hash(&self) -> (r: u64)
        ensures
            r == self@.side,
    {
        self.side
    }
}

impl Default for ZobristVals {
    /// Piece, castling and en passant values drawn from the generator seeded
    /// with a fixed seed; the side value is zero.
    fn default() -> (r: Self)
        ensures
            r.wf(),
            r@.side == 0,
            forall|i: int| 0 <= i < 768 ==> #[trigger] r@.pieces[i] != 0,
            forall|i: int| 0 <= i < 4 ==> #[trigger] r@.castle[i] != 0,
            forall|i: int| 0 <= i < 8 ==> #[trigger] r@.en_passant[i] != 0,
    {
        rng_seed(353012);
        let mut pieces: Vec<u64> = Vec::new();
        let mut i: usize = 0;
        while i < 768
            invariant
                i <= 768,
                pieces@.len() == i,
                forall|j: int| 0 <= j < i ==> #[trigger] pieces@[j] != 0,
            decreases 768 - i,
        {
            pieces.push(rng_u64(1, u64::MAX));
            i += 1;
        }
        let mut castle = [0u64; 4];
        let mut i: usize = 0;
        while i < 4
            invariant
                i <= 4,
                forall|j: int| 0 <= j < i ==> #[trigger] castle@[j] != 0,
            decreases 4 - i,
        {
            castle[i] = rng_u64(1, u64::MAX);
            i += 1;
        }
        let mut en_passant = [0u64; 8];
        let mut i: usize = 0;
        while i < 8
            invariant
                i <= 8,
                forall|j: int| 0 <= j < i ==> #[trigger] en_passant@[j] != 0,
            decreases 8 - i,
        {
            en_passant[i] = rng_u64(1, u64::MAX);
            i += 1;
        }
        ZobristVals { pieces, castle, en_passant, side: 0 }
    }
}

impl ZobristVals {
    /// Folds the values of the pieces of kind `piece` of `side` on the squares
    /// of `bb` into `acc`.
    fn hash_board(&self, bb: u64, side: usize, piece: usize, acc: u64) -> (r: u64)
        requires
            self.wf(),
            side < 2,
            piece < 6,
        ensures
            r == board_hash(self@, bb, side as int, piece as int, acc),
    {
        let mut b = bb;
        let mut z = acc;
        while b > 0
            invariant
                self.wf(),
                side < 2,
                piece < 6,
                board_hash(self@, bb, side as int, piece as int, acc) == board_hash(
                    self@,
                    b,
                    side as int,
                    piece as int,
                    z,
                ),
            decreases b,
        {
            proof {
                lemma_ls1b(b);
                lemma_clear_ls1b(b);
            }
            let idx = ls1b_scan(b) as usize;
            z = z ^ self.piece_hash(idx, side, piece);
            b = b & (b - 1);
        }
        z
    }
}

/// Hash of a position's placement from its piece boards, castling rights and
/// en passant square; the side to move is not hashed.
pub fn init_zobrist(pieces: &[[u64; 6]; 2], castle_rights: u8, en_passant_sq: u16, zvals: &ZobristVals) -> (r: u64)
    requires
        zvals.wf(),
    ensures
        r == placement_hash(zvals@, *pieces, castle_rights, en_passant_sq),
{
    let mut zobrist: u64 = 0;
    let mut n: usize = 0;
    while n < 12
        invariant
            n <= 12,
            zvals.wf(),
            zobrist == pieces_hash(zvals@, *pieces, n as int),
        decreases 12 - n,
    {
        let side = n / 6;
        let pc = n % 6;
        zobrist = zvals.hash_board(pieces[side][pc], side, pc, zobrist);
        n += 1;
    }
    let ghost placed = zobrist;
    let mut cr: u64 = castle_rights as u64;
    while cr > 0
        invariant
            cr < 256,
            rights_hash(zvals@, castle_rights as u64, placed) == rights_hash(zvals@, cr, zobrist),
        decreases cr,
    {
        proof {
            lemma_wrapping_sub(0, cr);
            lemma_hash_bits(cr, en_passant_sq);
            lemma_clear_ls1b(cr);
        }
        let ls1b = cr & 0u64.wrapping_sub(cr);
        zobrist = zobrist ^ zvals.castle_hash(15, ls1b as u8);
        cr = cr & (cr - 1);
    }
    if en_passant_sq > 0 {
        proof {
            lemma_hash_bits(0, en_passant_sq);
        }
        zobrist = zobrist ^ zvals.en_passant_hash((en_passant_sq & 7) as usize);
    }
    zobrist
}

} // verus!
