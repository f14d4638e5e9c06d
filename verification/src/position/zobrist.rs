//! Random values for Zobrist hashing, drawn from a seeded generator, and the
//! hash of a position computed from them.
use vstd::prelude::*;
use crate::bits::{
    bit, clear_ls1b, has_bit, lemma_bit_ops, lemma_bit_single, lemma_bits_ext, lemma_clear_ls1b,
    lemma_ls1b, lemma_wrapping_sub, lemma_xor, ls1b_scan, neg,
};

verus! {

/// Seeds the thread-local generator of `fastrand` (`fastrand::seed`); nothing
/// is claimed about its effect.
#[verifier::external_body]
pub(crate) fn rng_seed(seed: u64) {
    fastrand::seed(seed)
}

/// A value of the thread-local generator of `fastrand` drawn from
/// `low..high` (`fastrand::u64` on a half-open range, which panics when the
/// range is empty). The value depends on the generator's state; all that is
/// claimed is that it lies in the range.
#[verifier::external_body]
pub(crate) fn rng_u64(low: u64, high: u64) -> (r: u64)
    requires
        low < high,
    ensures
        low <= r < high,
{
    fastrand::u64(low..high)
}

/// Abstract contents: one value per side, piece and square (at
/// `384 * side + 64 * piece + square`), per castling right, per en passant
/// file, and for the side to move.
pub struct ZobristView {
    pub pieces: Seq<u64>,
    pub castle: Seq<u64>,
    pub en_passant: Seq<u64>,
    pub side: u64,
}

pub struct ZobristVals {
    pieces: Vec<u64>,
    castle: [u64; 4],
    en_passant: [u64; 8],
    side: u64,
}

impl View for ZobristVals {
    type V = ZobristView;

    closed spec fn view(&self) -> ZobristView {
        ZobristView {
            pieces: self.pieces@,
            castle: self.castle@,
            en_passant: self.en_passant@,
            side: self.side,
        }
    }
}

/// Position of the value of a piece of `side` on square `idx`.
pub open spec fn piece_slot(idx: int, side: int, piece: int) -> int {
    384 * side + 64 * piece + idx
}

/// No hash value is zero: each is drawn from `1..u64::MAX`.
pub open spec fn zobrist_nonzero(v: ZobristView) -> bool {
    &&& v.pieces.len() == 768
    &&& v.castle.len() == 4
    &&& v.en_passant.len() == 8
    &&& forall|i: int| 0 <= i < 768 ==> #[trigger] v.pieces[i] != 0
    &&& forall|i: int| 0 <= i < 4 ==> #[trigger] v.castle[i] != 0
    &&& forall|i: int| 0 <= i < 8 ==> #[trigger] v.en_passant[i] != 0
    &&& v.side != 0
}

/// A single castling right `update` that is set in `current` hashes to the
/// value of that right; one that is not set hashes to zero.
pub open spec fn castle_hash_spec(v: ZobristView, current: u8, update: u8) -> u64 {
    if current & update == 0 {
        0
    } else {
        v.castle[(update as u64).trailing_zeros() as int]
    }
}

pub proof fn lemma_low_right(x: u64, j: u64)
    requires
        j < 64,
        x << (64 - j) as u64 == 0,
        x & 15 != 0,
    ensures
        j < 4,
{
    assert(j < 64 && x << (64 - j) as u64 == 0 && x & 15 != 0 ==> j < 4) by (bit_vector);
}

impl ZobristVals {
    pub closed spec fn wf(&self) -> bool {
        self.pieces@.len() == 768
    }

    pub proof fn lemma_wf(&self)
        requires
            self.wf(),
        ensures
            self@.pieces.len() == 768,
            self@.castle.len() == 4,
            self@.en_passant.len() == 8,
    {
    }

    /// Value of a piece of `side` on square `idx`.
    pub fn piece_hash(&self, idx: usize, side: usize, piece: usize) -> (r: u64)
        requires
            self.wf(),
            idx < 64,
            side < 2,
            piece < 6,
        ensures
            r == self@.pieces[piece_slot(idx as int, side as int, piece as int)],
    {
        self.pieces[384 * side + 64 * piece + idx]
    }

    /// Value by which the hash changes when the right `update` is lost while
    /// the rights `current` were held.
    pub fn castle_hash(&self, current: u8, update: u8) -> (r: u64)
        requires
            current & update != 0 ==> update & 15 != 0,
        ensures
            r == castle_hash_spec(self@, current, update),
    {
        if current & update == 0 {
            return 0;
        }
        let u = update as u64;
        proof {
            assert(u & 15 != 0 && u != 0) by (bit_vector)
                requires
                    u == update as u64,
                    update & 15 != 0,
            ;
            crate::bits::lemma_ls1b(u);
            lemma_low_right(u, u.trailing_zeros() as u64);
        }
        self.castle[u.trailing_zeros() as usize]
    }

    /// Value of an en passant square on `file`.
    pub fn en_passant_hash(&self, file: usize) -> (r: u64)
        requires
            file < 8,
        ensures
            r == self@.en_passant[file as int],
    {
        self.en_passant[file]
    }

    /// Value of the side to move.
    pub fn side_hash(&self) -> (r: u64)
        ensures
            r == self@.side,
    {
        self.side
    }
}

impl Default for ZobristVals {
    /// Values drawn from the generator seeded with a fixed seed.
    fn default() -> (r: Self)
        ensures
            r.wf(),
            zobrist_nonzero(r@),
    {
        rng_seed(353012);
        let side = rng_u64(1, u64::MAX);
        let mut pieces: Vec<u64> = Vec::new();
        let mut i: usize = 0;
        while i < 768
            invariant
                i <= 768,
                pieces@.len() == i,
                forall|j: int| 0 <= j < i ==> #[trigger] pieces@[j] != 0,
            decreases 768 - i,
        {
            pieces.push(rng_u64(1, u64::MAX));
            i += 1;
        }
        let mut castle = [0u64; 4];
        let mut i: usize = 0;
        while i < 4
            invariant
                i <= 4,
                forall|j: int| 0 <= j < i ==> #[trigger] castle@[j] != 0,
            decreases 4 - i,
        {
            castle[i] = rng_u64(1, u64::MAX);
            i += 1;
        }
        let mut en_passant = [0u64; 8];
        let mut i: usize = 0;
        while i < 8
            invariant
                i <= 8,
                forall|j: int| 0 <= j < i ==> #[trigger] en_passant@[j] != 0,
            decreases 8 - i,
        {
            en_passant[i] = rng_u64(1, u64::MAX);
            i += 1;
        }
        ZobristVals { pieces, castle, en_passant, side }
    }
}

// ---------------------------------------------------------------------------
// hashing a position

/// The hash `acc` with the values of the pieces of kind `piece` of `side` on
/// the squares of `bb` folded in, lowest square first.
pub open spec fn board_hash(v: ZobristView, bb: u64, side: int, piece: int, acc: u64) -> u64
    decreases bb,
{
    if bb == 0 {
        acc
    } else {
        proof {
            lemma_clear_ls1b(bb);
        }
        board_hash(
            v,
            clear_ls1b(bb),
            side,
            piece,
            acc ^ v.pieces[piece_slot(bb.trailing_zeros() as int, side, piece)],
        )
    }
}

/// Hash of the first `n` boards of `pieces`, white pawns to white king then
/// black pawns to black king.
pub open spec fn pieces_hash(v: ZobristView, pieces: [[u64; 6]; 2], n: int) -> u64
    decreases n,
{
    if n <= 0 {
        0
    } else {
        let k = n - 1;
        board_hash(v, pieces@[k / 6]@[k % 6], k / 6, k % 6, pieces_hash(v, pieces, n - 1))
    }
}

/// The hash `acc` with the values of the castling rights `r` folded in,
/// lowest right first.
pub open spec fn rights_hash(v: ZobristView, r: u64, acc: u64) -> u64
    decreases r,
{
    if r == 0 {
        acc
    } else {
        proof {
            lemma_clear_ls1b(r);
        }
        rights_hash(v, clear_ls1b(r), acc ^ castle_hash_spec(v, 15, (r & neg(r)) as u8))
    }
}

/// Hash of the placement of the pieces, the castling rights and the en
/// passant square (its file, when there is one).
pub open spec fn placement_hash(v: ZobristView, pieces: [[u64; 6]; 2], rights: u8, ep: u16) -> u64 {
    let z = rights_hash(v, rights as u64, pieces_hash(v, pieces, 12));
    if ep > 0 {
        z ^ v.en_passant[(ep & 7) as int]
    } else {
        z
    }
}

/// Hash of a position: its placement hash, with the side value when white
/// is to move.
pub open spec fn position_hash(v: ZobristView, pieces: [[u64; 6]; 2], rights: u8, ep: u16, stm: usize) -> u64 {
    if stm == 0 {
        placement_hash(v, pieces, rights, ep) ^ v.side
    } else {
        placement_hash(v, pieces, rights, ep)
    }
}

/// Hash of the pawns and kings: white pawns, white king, black pawns, black
/// king.
pub open spec fn pawn_hash(v: ZobristView, pieces: [[u64; 6]; 2]) -> u64 {
    board_hash(
        v,
        pieces@[1]@[5],
        1,
        5,
        board_hash(
            v,
            pieces@[1]@[0],
            1,
            0,
            board_hash(v, pieces@[0]@[5], 0, 5, board_hash(v, pieces@[0]@[0], 0, 0, 0)),
        ),
    )
}

/// The lowest right of a rights board below 256, and the file of an en
/// passant square, are in range.
pub proof fn lemma_hash_bits(r: u64, ep: u16)
    requires
        r < 256,
    ensures
        r & neg(r) < 256,
        15u8 & ((r & neg(r)) as u8) != 0 ==> ((r & neg(r)) as u8) & 15u8 != 0,
        ep & 7 < 8,
{
    assert(r & ((0 - r) as u64) < 256 && (15u8 & ((r & ((0 - r) as u64)) as u8) != 0 ==> ((r & ((0
        - r) as u64)) as u8) & 15u8 != 0) && ep & 7 < 8) by (bit_vector)
        requires
            r < 256,
    ;
}

impl ZobristVals {
    /// Folds the values of the pieces of kind `piece` of `side` on the squares
    /// of `bb` into `acc`.
    fn hash_board(&self, bb: u64, side: usize, piece: usize, acc: u64) -> (r: u64)
        requires
            self.wf(),
            side < 2,
            piece < 6,
        ensures
            r == board_hash(self@, bb, side as int, piece as int, acc),
    {
        let mut b = bb;
        let mut z = acc;
        while b > 0
            invariant
                self.wf(),
                side < 2,
                piece < 6,
                board_hash(self@, bb, side as int, piece as int, acc) == board_hash(
                    self@,
                    b,
                    side as int,
                    piece as int,
                    z,
                ),
            decreases b,
        {
            proof {
                lemma_ls1b(b);
                lemma_clear_ls1b(b);
            }
            let idx = ls1b_scan(b) as usize;
            z = z ^ self.piece_hash(idx, side, piece);
            b = b & (b - 1);
        }
        z
    }
}

/// Hash of a position from its piece boards, castling rights, en passant
/// square and side to move.
pub fn initialise_zobrist(
    pieces: &[[u64; 6]; 2],
    castle_rights: u8,
    en_passant_sq: u16,
    side_to_move: usize,
    zobrist_vals: &ZobristVals,
) -> (r: u64)
    requires
        zobrist_vals.wf(),
    ensures
        r == position_hash(zobrist_vals@, *pieces, castle_rights, en_passant_sq, side_to_move),
{
    let mut zobrist: u64 = 0;
    let mut n: usize = 0;
    while n < 12
        invariant
            n <= 12,
            zobrist_vals.wf(),
            zobrist == pieces_hash(zobrist_vals@, *pieces, n as int),
        decreases 12 - n,
    {
        let side = n / 6;
        let pc = n % 6;
        zobrist = zobrist_vals.hash_board(pieces[side][pc], side, pc, zobrist);
        n += 1;
    }
    let ghost placed = zobrist;
    let mut cr: u64 = castle_rights as u64;
    while cr > 0
        invariant
            cr < 256,
            rights_hash(zobrist_vals@, castle_rights as u64, placed) == rights_hash(zobrist_vals@, cr, zobrist),
        decreases cr,
    {
        proof {
            lemma_wrapping_sub(0, cr);
            lemma_hash_bits(cr, en_passant_sq);
            lemma_clear_ls1b(cr);
        }
        let ls1b = cr & 0u64.wrapping_sub(cr);
        zobrist = zobrist ^ zobrist_vals.castle_hash(15, ls1b as u8);
        cr = cr & (cr - 1);
    }
    if en_passant_sq > 0 {
        proof {
            lemma_hash_bits(0, en_passant_sq);
        }
        zobrist = zobrist ^ zobrist_vals.en_passant_hash((en_passant_sq & 7) as usize);
    }
    if side_to_move == 0 {
        zobrist = zobrist ^ zobrist_vals.side_hash();
    }
    zobrist
}

/// Hash of the pawns and kings of a position from its piece boards.
pub fn initialise_pawnhash(pieces: &[[u64; 6]; 2], zobrist_vals: &ZobristVals) -> (r: u64)
    requires
        zobrist_vals.wf(),
    ensures
        r == pawn_hash(zobrist_vals@, *pieces),
{
    let mut hash: u64 = 0;
    hash = zobrist_vals.hash_board(pieces[0][0], 0, 0, hash);
    hash = zobrist_vals.hash_board(pieces[0][5], 0, 5, hash);
    hash = zobrist_vals.hash_board(pieces[1][0], 1, 0, hash);
    hash = zobrist_vals.hash_board(pieces[1][5], 1, 5, hash);
    hash
}

// ---------------------------------------------------------------------------
// laws of hashing

/// Folding into `a ^ c` gives the fold into `a`, xored with `c`.
proof fn lemma_board_hash_acc(v: ZobristView, bb: u64, side: int, piece: int, a: u64, c: u64)
    ensures
        board_hash(v, bb, side, piece, a ^ c) == board_hash(v, bb, side, piece, a) ^ c,
    decreases bb,
{
    if bb != 0 {
        lemma_clear_ls1b(bb);
        let x = v.pieces[piece_slot(bb.trailing_zeros() as int, side, piece)];
        lemma_xor(a, c, x);
        lemma_xor(c, x, 0);
        lemma_xor(a, x, c);
        lemma_board_hash_acc(v, clear_ls1b(bb), side, piece, a ^ x, c);
    }
}

/// Adding a piece on square `sq` to a board xors the fold with that piece's
/// value.
proof fn lemma_board_hash_insert(v: ZobristView, bb: u64, side: int, piece: int, sq: u64, acc: u64)
    requires
        sq < 64,
        !has_bit(bb, sq),
    ensures
        board_hash(v, bb | bit(sq), side, piece, acc) == board_hash(v, bb, side, piece, acc)
            ^ v.pieces[piece_slot(sq as int, side, piece)],
    decreases bb,
{
    let b2 = bb | bit(sq);
    let val = v.pieces[piece_slot(sq as int, side, piece)];
    lemma_bit_ops(bb, bit(sq), sq);
    lemma_bit_single(sq, sq);
    lemma_clear_ls1b(b2);
    let t2 = b2.trailing_zeros() as u64;
    if t2 == sq {
        assert forall|j: u64| j < 64 implies #[trigger] has_bit(clear_ls1b(b2), j) == has_bit(bb, j) by {
            lemma_bit_ops(bb, bit(sq), j);
            lemma_bit_single(sq, j);
        }
        lemma_bits_ext(clear_ls1b(b2), bb);
        lemma_board_hash_acc(v, bb, side, piece, acc, val);
    } else {
        lemma_bit_ops(bb, bit(sq), t2);
        lemma_bit_single(sq, t2);
        assert(has_bit(bb, t2));
        lemma_bit_ops(bb, 0, t2);
        lemma_clear_ls1b(bb);
        let t = bb.trailing_zeros() as u64;
        lemma_bit_ops(bb, bit(sq), t);
        if t < t2 {
            assert(!has_bit(b2, t));
        }
        if t2 < t {
            assert(!has_bit(bb, t2));
        }
        assert(t == t2);
        let c = clear_ls1b(bb);
        assert forall|j: u64| j < 64 implies #[trigger] has_bit(clear_ls1b(b2), j) == has_bit(c | bit(sq), j)
            by {
            lemma_bit_ops(bb, bit(sq), j);
            lemma_bit_ops(c, bit(sq), j);
            lemma_bit_single(sq, j);
        }
        lemma_bits_ext(clear_ls1b(b2), c | bit(sq));
        assert(!has_bit(c, sq));
        let x = v.pieces[piece_slot(t as int, side, piece)];
        lemma_board_hash_insert(v, c, side, piece, sq, acc ^ x);
    }
}

/// Whether `after` is `before` with a piece of kind `pc` of `side` added on
/// the empty square `sq`, every other board unchanged.
pub open spec fn piece_added(before: [[u64; 6]; 2], after: [[u64; 6]; 2], side: int, pc: int, sq: u64) -> bool {
    &&& 0 <= side < 2
    &&& 0 <= pc < 6
    &&& sq < 64
    &&& !has_bit(before@[side]@[pc], sq)
    &&& after@[side]@[pc] == before@[side]@[pc] | bit(sq)
    &&& forall|s: int, p: int|
        0 <= s < 2 && 0 <= p < 6 && (s != side || p != pc) ==> #[trigger] after@[s]@[p] == before@[s]@[p]
}

proof fn lemma_pieces_hash_insert(
    v: ZobristView,
    before: [[u64; 6]; 2],
    after: [[u64; 6]; 2],
    side: int,
    pc: int,
    sq: u64,
    n: int,
)
    requires
        piece_added(before, after, side, pc, sq),
        0 <= n <= 12,
    ensures
        pieces_hash(v, after, n) == pieces_hash(v, before, n) ^ (if n > 6 * side + pc {
            v.pieces[piece_slot(sq as int, side, pc)]
        } else {
            0
        }),
    decreases n,
{
    if n == 0 {
        lemma_xor(0, 0, 0);
    } else {
        let k = n - 1;
        lemma_pieces_hash_insert(v, before, after, side, pc, sq, n - 1);
        let val = v.pieces[piece_slot(sq as int, side, pc)];
        let pa = pieces_hash(v, after, n - 1);
        let pb = pieces_hash(v, before, n - 1);
        if k == 6 * side + pc {
            assert(k / 6 == side && k % 6 == pc);
            lemma_xor(pb, 0, 0);
            lemma_board_hash_insert(v, before@[side]@[pc], side, pc, sq, pb);
        } else {
            assert(after@[k / 6]@[k % 6] == before@[k / 6]@[k % 6]);
            if k > 6 * side + pc {
                lemma_board_hash_acc(v, before@[k / 6]@[k % 6], k / 6, k % 6, pb, val);
            } else {
                lemma_xor(pb, 0, 0);
                lemma_xor(board_hash(v, before@[k / 6]@[k % 6], k / 6, k % 6, pb), 0, 0);
            }
        }
    }
}

proof fn lemma_rights_hash_acc(v: ZobristView, r: u64, a: u64, c: u64)
    ensures
        rights_hash(v, r, a ^ c) == rights_hash(v, r, a) ^ c,
    decreases r,
{
    if r != 0 {
        lemma_clear_ls1b(r);
        let x = castle_hash_spec(v, 15, (r & neg(r)) as u8);
        lemma_xor(a, c, x);
        lemma_xor(c, x, 0);
        lemma_xor(a, x, c);
        lemma_rights_hash_acc(v, clear_ls1b(r), a ^ x, c);
    }
}

/// Adding a piece to a position changes its hash by exactly that piece's
/// value, whatever the rights, en passant square and side to move: every
/// piece of every kind and side is hashed, each once.
pub proof fn lemma_hash_add_piece(
    v: ZobristView,
    before: [[u64; 6]; 2],
    after: [[u64; 6]; 2],
    side: int,
    pc: int,
    sq: u64,
    rights: u8,
    ep: u16,
    stm: usize,
)
    requires
        piece_added(before, after, side, pc, sq),
    ensures
        placement_hash(v, after, rights, ep) == placement_hash(v, before, rights, ep)
            ^ v.pieces[piece_slot(sq as int, side, pc)],
        position_hash(v, after, rights, ep, stm) == position_hash(v, before, rights, ep, stm)
            ^ v.pieces[piece_slot(sq as int, side, pc)],
{
    let val = v.pieces[piece_slot(sq as int, side, pc)];
    lemma_pieces_hash_insert(v, before, after, side, pc, sq, 12);
    let pb = pieces_hash(v, before, 12);
    lemma_rights_hash_acc(v, rights as u64, pb, val);
    let z = rights_hash(v, rights as u64, pb);
    let e = v.en_passant[(ep & 7) as int];
    lemma_xor(z, val, e);
    lemma_xor(val, e, 0);
    lemma_xor(z, e, val);
    let zz = if ep > 0 { z ^ e } else { z };
    lemma_xor(zz, val, v.side);
    lemma_xor(val, v.side, 0);
    lemma_xor(zz, v.side, val);
}

/// Adding a pawn or king to a position changes its pawn hash by exactly that
/// piece's value; adding any other piece leaves it unchanged.
pub proof fn lemma_pawn_hash_add_piece(
    v: ZobristView,
    before: [[u64; 6]; 2],
    after: [[u64; 6]; 2],
    side: int,
    pc: int,
    sq: u64,
)
    requires
        piece_added(before, after, side, pc, sq),
    ensures
        pawn_hash(v, after) == pawn_hash(v, before) ^ (if pc == 0 || pc == 5 {
            v.pieces[piece_slot(sq as int, side, pc)]
        } else {
            0
        }),
{
    let val = v.pieces[piece_slot(sq as int, side, pc)];
    assert(after@[0]@[0] == before@[0]@[0] || (side == 0 && pc == 0));
    assert(after@[0]@[5] == before@[0]@[5] || (side == 0 && pc == 5));
    assert(after@[1]@[0] == before@[1]@[0] || (side == 1 && pc == 0));
    assert(after@[1]@[5] == before@[1]@[5] || (side == 1 && pc == 5));
    let h0 = board_hash(v, before@[0]@[0], 0, 0, 0);
    let h1 = board_hash(v, before@[0]@[5], 0, 5, h0);
    let h2 = board_hash(v, before@[1]@[0], 1, 0, h1);
    let h3 = board_hash(v, before@[1]@[5], 1, 5, h2);
    assert(pawn_hash(v, before) == h3);
    if pc == 0 || pc == 5 {
        if side == 0 && pc == 0 {
            lemma_board_hash_insert(v, before@[0]@[0], 0, 0, sq, 0);
            lemma_board_hash_acc(v, before@[0]@[5], 0, 5, h0, val);
            lemma_board_hash_acc(v, before@[1]@[0], 1, 0, h1, val);
            lemma_board_hash_acc(v, before@[1]@[5], 1, 5, h2, val);
        } else if side == 0 {
            lemma_board_hash_insert(v, before@[0]@[5], 0, 5, sq, h0);
            lemma_board_hash_acc(v, before@[1]@[0], 1, 0, h1, val);
            lemma_board_hash_acc(v, before@[1]@[5], 1, 5, h2, val);
        } else if pc == 0 {
            lemma_board_hash_insert(v, before@[1]@[0], 1, 0, sq, h1);
            lemma_board_hash_acc(v, before@[1]@[5], 1, 5, h2, val);
        } else {
            lemma_board_hash_insert(v, before@[1]@[5], 1, 5, sq, h2);
        }
    } else {
        lemma_xor(h3, 0, 0);
    }
}

/// A position with no pieces has pawn hash zero, and so does the fold of an
/// empty board.
pub proof fn lemma_pawn_hash_empty(v: ZobristView, pieces: [[u64; 6]; 2])
    requires
        forall|s: int, p: int| 0 <= s < 2 && 0 <= p < 6 ==> #[trigger] pieces@[s]@[p] == 0,
    ensures
        pawn_hash(v, pieces) == 0,
        pieces_hash(v, pieces, 12) == 0,
{
    assert(pieces@[0]@[0] == 0 && pieces@[0]@[5] == 0 && pieces@[1]@[0] == 0 && pieces@[1]@[5] == 0);
    assert forall|n: int| 0 <= n <= 12 implies #[trigger] pieces_hash(v, pieces, n) == 0 by {
        lemma_pieces_empty(v, pieces, n);
    }
}

proof fn lemma_pieces_empty(v: ZobristView, pieces: [[u64; 6]; 2], n: int)
    requires
        forall|s: int, p: int| 0 <= s < 2 && 0 <= p < 6 ==> #[trigger] pieces@[s]@[p] == 0,
        0 <= n <= 12,
    ensures
        pieces_hash(v, pieces, n) == 0,
    decreases n,
{
    if n > 0 {
        lemma_pieces_empty(v, pieces, n - 1);
        let k = n - 1;
        assert(pieces@[k / 6]@[k % 6] == 0);
    }
}

/// Value of the castling right on bit `t` of a rights board: that right's
/// value for the four rights, nothing for other bits.
pub open spec fn right_value(v: ZobristView, t: u64) -> u64 {
    if t < 4 {
        v.castle[t as int]
    } else {
        0
    }
}

/// The right folded at each step of `rights_hash` is the lowest one held.
proof fn lemma_lowest_right(v: ZobristView, b: u64)
    requires
        b != 0,
    ensures
        castle_hash_spec(v, 15, (b & neg(b)) as u8) == right_value(v, b.trailing_zeros() as u64),
{
    lemma_ls1b(b);
    let t = b.trailing_zeros() as u64;
    assert(b & ((0 - b) as u64) == 1u64 << t && (t < 4 ==> 15u8 & ((1u64 << t) as u8) != 0 && ((1u64
        << t) as u8) as u64 == 1u64 << t) && (t >= 4 ==> 15u8 & ((1u64 << t) as u8) == 0)) by (bit_vector)
        requires
            t < 64,
            (b >> t) & 1 == 1,
            b << (64 - t) as u64 == 0,
    ;
    if t < 4 {
        lemma_bit_single(t, t);
        lemma_clear_ls1b(bit(t));
        let t1 = bit(t).trailing_zeros() as u64;
        lemma_bit_single(t, t1);
    }
}

/// Adding a castling right to a rights board xors the fold with that right's
/// value.
proof fn lemma_rights_hash_insert(v: ZobristView, r: u64, q: u64, acc: u64)
    requires
        q < 64,
        !has_bit(r, q),
    ensures
        rights_hash(v, r | bit(q), acc) == rights_hash(v, r, acc) ^ right_value(v, q),
    decreases r,
{
    let b2 = r | bit(q);
    let val = right_value(v, q);
    lemma_bit_ops(r, bit(q), q);
    lemma_bit_single(q, q);
    lemma_clear_ls1b(b2);
    lemma_lowest_right(v, b2);
    let t2 = b2.trailing_zeros() as u64;
    if t2 == q {
        assert forall|j: u64| j < 64 implies #[trigger] has_bit(clear_ls1b(b2), j) == has_bit(r, j) by {
            lemma_bit_ops(r, bit(q), j);
            lemma_bit_single(q, j);
        }
        lemma_bits_ext(clear_ls1b(b2), r);
        lemma_rights_hash_acc(v, r, acc, val);
    } else {
        lemma_bit_ops(r, bit(q), t2);
        lemma_bit_single(q, t2);
        lemma_bit_ops(r, 0, t2);
        lemma_clear_ls1b(r);
        lemma_lowest_right(v, r);
        let t = r.trailing_zeros() as u64;
        lemma_bit_ops(r, bit(q), t);
        if t < t2 {
            assert(!has_bit(b2, t));
        }
        if t2 < t {
            assert(!has_bit(r, t2));
        }
        assert(t == t2);
        let c = clear_ls1b(r);
        assert forall|j: u64| j < 64 implies #[trigger] has_bit(clear_ls1b(b2), j) == has_bit(c | bit(q), j)
            by {
            lemma_bit_ops(r, bit(q), j);
            lemma_bit_ops(c, bit(q), j);
            lemma_bit_single(q, j);
        }
        lemma_bits_ext(clear_ls1b(b2), c | bit(q));
        let x = right_value(v, t);
        lemma_rights_hash_insert(v, c, q, acc ^ x);
    }
}

/// Gaining a castling right changes a position's hash by exactly that
/// right's value; an en passant square adds the value of its file; white to
/// move adds the side value.
pub proof fn lemma_hash_rights_ep_side(
    v: ZobristView,
    pieces: [[u64; 6]; 2],
    rights: u8,
    q: u64,
    ep: u16,
    stm: usize,
)
    requires
        q < 4,
        !has_bit(rights as u64, q),
    ensures
        placement_hash(v, pieces, (rights as u64 | bit(q)) as u8, ep) == placement_hash(v, pieces, rights, ep)
            ^ v.castle[q as int],
        ep > 0 ==> placement_hash(v, pieces, rights, ep) == placement_hash(v, pieces, rights, 0)
            ^ v.en_passant[(ep & 7) as int],
        position_hash(v, pieces, rights, ep, 0) == position_hash(v, pieces, rights, ep, 1) ^ v.side,
{
    let r = rights as u64;
    lemma_bit_single(q, q);
    crate::bits::lemma_square_index(q);
    assert((r | bit(q)) < 256 && ((r | bit(q)) as u8) as u64 == r | bit(q)) by {
        assert(r < 256 && q < 4 ==> (r | (1u64 << q)) < 256) by (bit_vector);
    }
    let pb = pieces_hash(v, pieces, 12);
    lemma_rights_hash_insert(v, r, q, pb);
    let z = rights_hash(v, r, pb);
    let e = v.en_passant[(ep & 7) as int];
    lemma_xor(z, v.castle[q as int], e);
    lemma_xor(v.castle[q as int], e, 0);
    lemma_xor(z, e, v.castle[q as int]);
}

} // verus!
