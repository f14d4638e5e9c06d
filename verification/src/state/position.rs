//! The board: bitboards, game state, making and unmaking moves, and move
//! generation for the side to move.
use vstd::prelude::*;
use crate::bits::{bit, clear_ls1b, lemma_clear_ls1b, lemma_ls1b, ls1b_scan};
use super::consts::{
    spec_bishop, spec_king, spec_knight, spec_pawn, spec_rook, spec_side_rights, Attacks,
    CastleRights, MoveFlag, Piece, Side,
};
use super::movegen::{
    en_passants, ep_seq, pawn_captures, pawn_captures_seq, pawn_pushes, pawn_pushes_seq,
    piece_moves, piece_moves_seq,
};
use super::moves::{lemma_unscored_concat, unscored, MoveList};

verus! {

/// State that is copied for undoing moves.
#[derive(Clone, Copy)]
pub struct State {
    pub castle_rights: u8,
    pub en_passant: u8,
    pub halfmove_clock: u8,
    pub zobrist: u64,
}

/// Required info to undo a move.
#[derive(Clone, Copy)]
pub struct MoveContext {
    pub mov: u16,
    pub moved: u8,
    pub captured: u8,
    pub state: State,
}

struct Castle {
    mask: [u8; 64],
    rooks: [u8; 2],
    chess960: bool,
}

/// Holds all random values for hashing.
struct ZobristVals {
    pieces: Vec<u64>,
    castling: [u64; 4],
    en_passant: [u64; 8],
    side: u64,
}

/// Holds all info about the current position.
pub struct Position {
    pieces: [u64; 6],
    sides: [u64; 2],
    stm: bool,
    state: State,
    phase: i16,
    null_counter: u8,
    stack: Vec<MoveContext>,
    zobrist_vals: ZobristVals,
    castle: Castle,
}

/// Mathematical model of a position.
pub struct PositionView {
    pub pieces: Seq<u64>,
    pub sides: Seq<u64>,
    pub stm: bool,
    pub state: State,
    pub phase: i16,
    pub null_counter: u8,
    pub stack: Seq<MoveContext>,
    pub mask: Seq<u8>,
    pub rooks: Seq<u8>,
    pub chess960: bool,
}

impl View for Position {
    type V = PositionView;

    closed spec fn view(&self) -> PositionView {
        PositionView {
            pieces: self.pieces@,
            sides: self.sides@,
            stm: self.stm,
            state: self.state,
            phase: self.phase,
            null_counter: self.null_counter,
            stack: self.stack@,
            mask: self.castle.mask@,
            rooks: self.castle.rooks@,
            chess960: self.castle.chess960,
        }
    }
}

// ---------------------------------------------------------------------------
// model-level definitions

/// Index of the side to move.
pub open spec fn stm_of(v: PositionView) -> usize {
    if v.stm {
        1usize
    } else {
        0usize
    }
}

/// All occupied squares.
pub open spec fn occ_of(v: PositionView) -> u64 {
    v.sides[0] | v.sides[1]
}

/// The pieces of kind `pc` belonging to `side`.
pub open spec fn piece_of(v: PositionView, side: int, pc: int) -> u64 {
    v.sides[side] & v.pieces[pc]
}

/// The piece kind found on the square `b` (a single-bit board); 6 for empty.
pub open spec fn get_piece_spec(pieces: Seq<u64>, b: u64, occ: u64) -> usize {
    (6 * (if occ & b == 0 {
        1usize
    } else {
        0usize
    }) + (if (pieces[1] | pieces[3] | pieces[5]) & b > 0 {
        1usize
    } else {
        0usize
    }) + 2 * (if (pieces[2] | pieces[3]) & b > 0 {
        1usize
    } else {
        0usize
    }) + 4 * (if (pieces[4] | pieces[5]) & b > 0 {
        1usize
    } else {
        0usize
    })) as usize
}

/// Whether square `idx` is attacked by the side opposite to `side`.
pub open spec fn attacked_spec(v: PositionView, idx: u64, side: usize, occ: u64) -> bool {
    let opps = v.sides[1 - side];
    (spec_knight(idx) & opps & v.pieces[1] > 0) || (spec_king(idx) & opps & v.pieces[5] > 0) || (
    spec_pawn(side, idx) & opps & v.pieces[0] > 0) || (spec_bishop(idx, occ) & opps & (v.pieces[2]
        | v.pieces[4]) > 0) || (spec_rook(idx, occ) & opps & (v.pieces[3] | v.pieces[4]) > 0)
}

/// The square of the (lowest) king of `side`.
pub open spec fn king_sq(v: PositionView, side: int) -> u64 {
    piece_of(v, side, 5).trailing_zeros() as u64
}

/// Whether the side to move is in check.
pub open spec fn in_check_spec(v: PositionView) -> bool {
    attacked_spec(v, king_sq(v, stm_of(v) as int), stm_of(v), occ_of(v))
}

// ---------------------------------------------------------------------------

/// Xorshift pseudo random number step.
pub open spec fn xorshift(s: u64) -> u64 {
    let a = s ^ (s << 13u64);
    let b = a ^ (a >> 7u64);
    b ^ (b << 17u64)
}

fn random(seed: &mut u64) -> (r: u64)
    ensures
        *final(seed) == xorshift(*old(seed)),
        r == *final(seed),
{
    *seed = *seed ^ (*seed << 13u64);
    *seed = *seed ^ (*seed >> 7u64);
    *seed = *seed ^ (*seed << 17u64);
    *seed
}

impl ZobristVals {
    fn new() -> (r: Self)
        ensures
            r.pieces@.len() == 768,
    {
        let mut seed: u64 = 180_620_142;
        let side = random(&mut seed);
        let mut pieces: Vec<u64> = Vec::new();
        let mut i: usize = 0;
        while i < 768
            invariant
                pieces@.len() == i,
                i <= 768,
            decreases 768 - i,
        {
            pieces.push(random(&mut seed));
            i = i + 1;
        }
        let mut castling = [0u64; 4];
        let mut j: usize = 0;
        while j < 4
            invariant
                j <= 4,
            decreases 4 - j,
        {
            castling[j] = random(&mut seed);
            j = j + 1;
        }
        let mut en_passant = [0u64; 8];
        let mut k: usize = 0;
        while k < 8
            invariant
                k <= 8,
            decreases 8 - k,
        {
            en_passant[k] = random(&mut seed);
            k = k + 1;
        }
        ZobristVals { pieces, castling, en_passant, side }
    }
}

/// Squares strictly between two single-bit boards.
pub open spec fn between_spec(bit1: u64, bit2: u64) -> u64 {
    let hi = if bit1 >= bit2 {
        bit1
    } else {
        bit2
    };
    let lo = if bit1 >= bit2 {
        bit2
    } else {
        bit1
    };
    ((hi - lo) as u64) ^ lo
}

fn between(bit1: u64, bit2: u64) -> (r: u64)
    ensures
        r == between_spec(bit1, bit2),
{
    let hi = if bit1 >= bit2 {
        bit1
    } else {
        bit2
    };
    let lo = if bit1 >= bit2 {
        bit2
    } else {
        bit1
    };
    (hi - lo) ^ lo
}

impl Position {
    /// A position with the given boards, side to move, state and castling
    /// layout, at phase zero, no null moves, no history.
    pub(crate) fn from_parts(
        pieces: [u64; 6],
        sides: [u64; 2],
        stm: bool,
        state: State,
        mask: [u8; 64],
        rooks: [u8; 2],
        chess960: bool,
    ) -> (r: Self)
        ensures
            r@ == (PositionView {
                pieces: pieces@,
                sides: sides@,
                stm,
                state,
                phase: 0,
                null_counter: 0,
                stack: Seq::empty(),
                mask: mask@,
                rooks: rooks@,
                chess960,
            }),
    {
        Position {
            pieces,
            sides,
            stm,
            state,
            phase: 0,
            null_counter: 0,
            stack: Vec::new(),
            zobrist_vals: ZobristVals::new(),
            castle: Castle { mask, rooks, chess960 },
        }
    }
}

impl Position {
    /// Adds/removes a piece from the position bitboards.
    fn toggle(&mut self, side: usize, piece: usize, b: u64)
        requires
            side < 2,
            piece < 6,
        ensures
            final(self)@ == (PositionView {
                pieces: old(self)@.pieces.update(piece as int, old(self)@.pieces[piece as int] ^ b),
                sides: old(self)@.sides.update(side as int, old(self)@.sides[side as int] ^ b),
                ..old(self)@
            }),
    {
        self.pieces[piece] = self.pieces[piece] ^ b;
        self.sides[side] = self.sides[side] ^ b;
    }

    /// Calculates occupancy bitboard.
    pub fn occ(&self) -> (r: u64)
        ensures
            r == occ_of(self@),
    {
        self.sides[0] | self.sides[1]
    }

    /// Return a bitboard of a piece of given colour.
    pub fn piece(&self, side: usize, piece: usize) -> (r: u64)
        requires
            side < 2,
            piece < 6,
        ensures
            r == piece_of(self@, side as int, piece as int),
    {
        self.sides[side] & self.pieces[piece]
    }

    /// Returns a bitboard of given side occupancy.
    pub fn side(&self, side: usize) -> (r: u64)
        requires
            side < 2,
        ensures
            r == self@.sides[side as int],
    {
        self.sides[side]
    }

    /// Getter for if chess960.
    pub fn chess960(&self) -> (r: bool)
        ensures
            r == self@.chess960,
    {
        self.castle.chess960
    }

    /// Index of the side to move.
    pub fn stm(&self) -> (r: usize)
        ensures
            r == stm_of(self@),
    {
        if self.stm {
            1
        } else {
            0
        }
    }

    /// Getter for castling rook files.
    pub fn castling_rooks(&self) -> (r: [u8; 2])
        ensures
            r@ == self@.rooks,
    {
        self.castle.rooks
    }

    /// Castling rights, en passant square, halfmove clock and hash.
    pub(crate) fn state(&self) -> (r: State)
        ensures
            r == self@.state,
    {
        self.state
    }

    /// Board of the pieces of kind `piece` of both sides.
    pub(crate) fn kind_board(&self, piece: usize) -> (r: u64)
        requires
            piece < 6,
        ensures
            r == self@.pieces[piece as int],
    {
        self.pieces[piece]
    }

    /// Castling rights kept by a move that starts or ends on `sq`.
    pub(crate) fn castle_mask(&self, sq: usize) -> (r: u8)
        requires
            sq < 64,
        ensures
            r == self@.mask[sq as int],
    {
        self.castle.mask[sq]
    }

    /// The boards of a position have their fixed sizes.
    pub proof fn lemma_lens(&self)
        ensures
            lens_ok(self@),
    {
    }

    /// Checks if given square is attacked by opposite side.
    pub fn is_square_attacked(&self, idx: usize, side: usize, occ: u64) -> (r: bool)
        requires
            idx < 64,
            side < 2,
        ensures
            r == attacked_spec(self@, idx as u64, side, occ),
    {
        let opps = self.sides[1 - side];
        (Attacks::knight(idx) & opps & self.pieces[Piece::KNIGHT] > 0) || (Attacks::king(idx) & opps
            & self.pieces[Piece::KING] > 0) || (Attacks::pawn(side, idx) & opps
            & self.pieces[Piece::PAWN] > 0) || (Attacks::bishop(idx, occ) & opps & (
        self.pieces[Piece::BISHOP] | self.pieces[Piece::QUEEN]) > 0) || (Attacks::rook(idx, occ) & opps
            & (self.pieces[Piece::ROOK] | self.pieces[Piece::QUEEN]) > 0)
    }

    /// Determines if the side to move is in check.
    pub fn in_check(&self) -> (r: bool)
        requires
            piece_of(self@, stm_of(self@) as int, 5) != 0,
        ensures
            r == in_check_spec(self@),
    {
        let side = self.stm();
        let kbb = self.piece(side, Piece::KING);
        proof {
            lemma_ls1b(kbb);
        }
        let kidx = kbb.trailing_zeros() as usize;
        self.is_square_attacked(kidx, side, self.occ())
    }

    /// Finds the piece on a given square (6 if empty).
    pub fn get_piece(&self, b: u64, occ: u64) -> (r: usize)
        ensures
            r == get_piece_spec(self@.pieces, b, occ),
    {
        6 * (if occ & b == 0 {
            1usize
        } else {
            0usize
        }) + (if (self.pieces[Piece::KNIGHT] | self.pieces[Piece::ROOK] | self.pieces[Piece::KING]) & b > 0 {
            1usize
        } else {
            0usize
        }) + 2 * (if (self.pieces[Piece::BISHOP] | self.pieces[Piece::ROOK]) & b > 0 {
            1usize
        } else {
            0usize
        }) + 4 * (if (self.pieces[Piece::QUEEN] | self.pieces[Piece::KING]) & b > 0 {
            1usize
        } else {
            0usize
        })
    }
}

// ---------------------------------------------------------------------------
// making and unmaking moves

/// Origin square of an encoded move.
pub open spec fn mv_from(m: u16) -> u64 {
    (m & 63) as u64
}

/// Destination square of an encoded move.
pub open spec fn mv_to(m: u16) -> u64 {
    ((m >> 6u16) & 63) as u64
}

/// Flag of an encoded move.
pub open spec fn mv_flag(m: u16) -> u16 {
    m & 0xF000
}

pub open spec fn is_castle_flag(fl: u16) -> bool {
    fl == 0x2000 || fl == 0x3000
}

/// The piece a promotion flag promotes to.
pub open spec fn promo_piece(fl: u16) -> int {
    (((fl >> 12u16) & 3) + 1) as int
}

/// Home square of the castling rook of `side` on the king side (`ks`) or queen side.
pub open spec fn rook_home(rooks: Seq<u8>, side: usize, ks: bool) -> u64 {
    (56 * side + rooks[if ks {
        1int
    } else {
        0int
    }]) as u64
}

/// Square a castling rook of `side` ends on.
pub open spec fn rook_target(side: usize, ks: bool) -> u64 {
    (56 * side + (if ks {
        5int
    } else {
        3int
    })) as u64
}

/// Square of the pawn captured en passant by `side` landing on `to`.
pub open spec fn ep_victim(side: usize, to: u64) -> u64 {
    if side == 0 {
        (to - 8) as u64
    } else {
        (to + 8) as u64
    }
}

/// Fields of an encoded move are in range.
pub proof fn lemma_move_fields(m: u16)
    ensures
        mv_from(m) < 64,
        mv_to(m) < 64,
        ((mv_flag(m) >> 12u16) & 3) + 1 <= 4,
        ((m >> 6u16) & 63) < 64,
        m & 63 < 64,
        promo_piece(mv_flag(m)) >= 1,
        promo_piece(mv_flag(m)) <= 4,
{
    assert(((m >> 6u16) & 63) < 64 && m & 63 < 64 && (((m & 0xF000) >> 12u16) & 3) + 1 <= 4 && (((m
        & 0xF000) >> 12u16) & 3) + 1 >= 1) by (bit_vector);
}

/// Decoding a move built from a square pair and a flag.
pub proof fn lemma_move_encode(f: u16, t: u16, fl: u16)
    requires
        f < 64,
        t < 64,
        fl & 0x0FFF == 0,
    ensures
        mv_from(f | fl | (t << 6u16)) == f,
        mv_to(f | fl | (t << 6u16)) == t,
        mv_flag(f | fl | (t << 6u16)) == fl,
        f | fl | (t << 6u16) == f | (t << 6u16) | fl,
        f | fl | (t << 6u16) == (f | (t << 6u16)) | fl,
{
    assert({
        &&& ((f | fl | (t << 6u16)) & 63) == f
        &&& (((f | fl | (t << 6u16)) >> 6u16) & 63) == t
        &&& ((f | fl | (t << 6u16)) & 0xF000) == fl
        &&& f | fl | (t << 6u16) == f | (t << 6u16) | fl
        &&& f | fl | (t << 6u16) == (f | (t << 6u16)) | fl
    }) by (bit_vector)
        requires
            f < 64,
            t < 64,
            fl & 0x0FFF == 0,
    ;
}

/// Squares toggled on the board of piece kind `p` by the move `m` made by
/// `side`, moving `moved` and capturing `captured` (6 for none).
pub open spec fn piece_delta(
    rooks: Seq<u8>,
    m: u16,
    side: usize,
    moved: usize,
    captured: usize,
    p: int,
) -> u64 {
    let f = mv_from(m);
    let t = mv_to(m);
    let fl = mv_flag(m);
    (if p == moved as int {
        bit(f) ^ bit(t)
    } else {
        0
    }) ^ (if captured != 6 && p == captured as int {
        bit(t)
    } else {
        0
    }) ^ (if is_castle_flag(fl) && p == 3 {
        bit(rook_home(rooks, side, fl == 0x2000)) ^ bit(rook_target(side, fl == 0x2000))
    } else {
        0
    }) ^ (if fl == 0x5000 && p == 0 {
        bit(ep_victim(side, t))
    } else {
        0
    }) ^ (if fl >= 0x8000 && p == 0 {
        bit(t)
    } else {
        0
    }) ^ (if fl >= 0x8000 && p == promo_piece(fl) {
        bit(t)
    } else {
        0
    })
}

/// Squares toggled on the board of side `s` by the move.
pub open spec fn side_delta(rooks: Seq<u8>, m: u16, side: usize, captured: usize, s: int) -> u64 {
    let f = mv_from(m);
    let t = mv_to(m);
    let fl = mv_flag(m);
    (if s == side as int {
        bit(f) ^ bit(t)
    } else {
        0
    }) ^ (if captured != 6 && s == 1 - side {
        bit(t)
    } else {
        0
    }) ^ (if is_castle_flag(fl) && s == side as int {
        bit(rook_home(rooks, side, fl == 0x2000)) ^ bit(rook_target(side, fl == 0x2000))
    } else {
        0
    }) ^ (if fl == 0x5000 && s == 1 - side {
        bit(ep_victim(side, t))
    } else {
        0
    })
}

/// The piece movements of `m` (made by `side`, moving `moved` and capturing
/// `captured`) applied to the boards; also flips the side to move.  Applying
/// the same movements again takes them back.
pub open spec fn apply_spec(v: PositionView, m: u16, side: usize, moved: usize, captured: usize) -> PositionView {
    PositionView {
        stm: !v.stm,
        pieces: Seq::new(6, |p: int| v.pieces[p] ^ piece_delta(v.rooks, m, side, moved, captured, p)),
        sides: Seq::new(2, |s: int| v.sides[s] ^ side_delta(v.rooks, m, side, captured, s)),
        ..v
    }
}

/// The piece kind that `m` moves.
pub open spec fn moved_of(v: PositionView, m: u16) -> usize {
    get_piece_spec(v.pieces, bit(mv_from(m)), occ_of(v))
}

/// The piece kind that `m` captures on its destination (6 for none).
pub open spec fn captured_of(v: PositionView, m: u16) -> usize {
    let fl = mv_flag(m);
    if fl & 0x4000 == 0 || fl == 0x5000 {
        6
    } else {
        get_piece_spec(v.pieces, bit(mv_to(m)), occ_of(v))
    }
}

/// Game state after `m`.
pub open spec fn next_state(v: PositionView, m: u16) -> State {
    let f = mv_from(m);
    let t = mv_to(m);
    let fl = mv_flag(m);
    State {
        castle_rights: v.state.castle_rights & v.mask[t as int] & v.mask[f as int],
        en_passant: if fl == 0x1000 {
            (if stm_of(v) == 0 {
                t - 8
            } else {
                t + 8
            }) as u8
        } else {
            0
        },
        halfmove_clock: if moved_of(v, m) > 0 && fl != 0x4000 {
            v.state.halfmove_clock.wrapping_add(1)
        } else {
            0
        },
        zobrist: v.state.zobrist,
    }
}

/// The position after playing `m`, legal or not.
pub open spec fn make_spec(v: PositionView, m: u16) -> PositionView {
    let ctx = MoveContext {
        mov: m,
        moved: moved_of(v, m) as u8,
        captured: captured_of(v, m) as u8,
        state: v.state,
    };
    apply_spec(
        PositionView { state: next_state(v, m), stack: v.stack.push(ctx), ..v },
        m,
        stm_of(v),
        moved_of(v, m),
        captured_of(v, m),
    )
}

/// `m` does not leave the king of the side that plays it attacked.
pub open spec fn legal_spec(v: PositionView, m: u16) -> bool {
    let w = make_spec(v, m);
    !attacked_spec(w, king_sq(w, stm_of(v) as int), stm_of(v), occ_of(w))
}

/// The position with the last move taken back.
pub open spec fn unmake_spec(v: PositionView) -> PositionView {
    let ctx = v.stack.last();
    apply_spec(
        PositionView { state: ctx.state, stack: v.stack.drop_last(), ..v },
        ctx.mov,
        (if v.stm {
            0usize
        } else {
            1usize
        }),
        ctx.moved as usize,
        ctx.captured as usize,
    )
}

/// What the last move on the stack needs for its movements to be in range.
pub open spec fn ctx_ok(rooks: Seq<u8>, c: MoveContext, side: usize) -> bool {
    let t = mv_to(c.mov);
    let fl = mv_flag(c.mov);
    &&& c.moved < 6
    &&& c.captured <= 6
    &&& rooks.len() == 2
    &&& rooks[0] < 8
    &&& rooks[1] < 8
    &&& (fl == 0x5000 ==> (side == 0 ==> t >= 8) && (side == 1 ==> t < 56))
}

/// The board sequences have their fixed lengths.
pub open spec fn lens_ok(v: PositionView) -> bool {
    v.pieces.len() == 6 && v.sides.len() == 2 && v.mask.len() == 64 && v.rooks.len() == 2
}

/// What `do_move` needs to make `m` without going out of range.
pub open spec fn do_ok(v: PositionView, m: u16) -> bool {
    let ctx = MoveContext {
        mov: m,
        moved: moved_of(v, m) as u8,
        captured: captured_of(v, m) as u8,
        state: v.state,
    };
    &&& lens_ok(v)
    &&& ctx_ok(v.rooks, ctx, stm_of(v))
    &&& (mv_flag(m) == 0x1000 ==> (stm_of(v) == 0 ==> mv_to(m) >= 8) && (stm_of(v) == 1
        ==> mv_to(m) < 56))
    &&& piece_of(make_spec(v, m), stm_of(v) as int, 5) != 0
}

/// Taking back a move restores the position it was made from.
pub proof fn lemma_unmake_make(v: PositionView, m: u16)
    requires
        lens_ok(v),
    ensures
        unmake_spec(make_spec(v, m)) == v,
{
    let w = make_spec(v, m);
    let u = unmake_spec(w);
    let side = stm_of(v);
    let moved = moved_of(v, m);
    let captured = captured_of(v, m);
    lemma_get_piece_small(v.pieces, bit(mv_from(m)), occ_of(v));
    lemma_get_piece_small(v.pieces, bit(mv_to(m)), occ_of(v));
    assert(w.stack.last().moved as usize == moved);
    assert(w.stack.last().captured as usize == captured);
    assert(w.stack.drop_last() =~= v.stack);
    assert forall|p: int| 0 <= p < 6 implies #[trigger] u.pieces[p] == v.pieces[p] by {
        lemma_xor_twice(v.pieces[p], piece_delta(v.rooks, m, side, moved, captured, p));
    }
    assert forall|s: int| 0 <= s < 2 implies #[trigger] u.sides[s] == v.sides[s] by {
        lemma_xor_twice(v.sides[s], side_delta(v.rooks, m, side, captured, s));
    }
    assert(u.pieces =~= v.pieces);
    assert(u.sides =~= v.sides);
}

pub proof fn lemma_get_piece_small(pieces: Seq<u64>, b: u64, occ: u64)
    ensures
        get_piece_spec(pieces, b, occ) <= 13,
{
}

pub proof fn lemma_xor_twice(x: u64, d: u64)
    ensures
        (x ^ d) ^ d == x,
{
    crate::bits::lemma_xor(x, d, d);
}

impl Position {
    /// Squares the move toggles on the board of piece kind `p`.
    fn piece_delta(&self, m: u16, side: usize, moved: usize, captured: usize, p: usize) -> (r: u64)
        requires
            side < 2,
            p < 6,
            lens_ok(self@),
            self@.rooks[0] < 8,
            self@.rooks[1] < 8,
            mv_flag(m) == 0x5000 ==> (side == 0 ==> mv_to(m) >= 8) && (side == 1 ==> mv_to(m) < 56),
        ensures
            r == piece_delta(self@.rooks, m, side, moved, captured, p as int),
    {
        proof {
            lemma_move_fields(m);
        }
        let from = m & 63;
        let to = (m >> 6u16) & 63;
        let flag = m & MoveFlag::ALL;
        let from_bit = 1u64 << from;
        let to_bit = 1u64 << to;
        let ks = flag == MoveFlag::KS_CASTLE;
        let k: usize = if ks { 1 } else { 0 };
        let home = 56 * side as u64 + self.castle.rooks[k] as u64;
        let target: u64 = 56 * side as u64 + if ks { 5 } else { 3 };
        let promo = (((flag >> 12u16) & 3) + 1) as usize;
        (if p == moved {
            from_bit ^ to_bit
        } else {
            0
        }) ^ (if captured != Piece::NONE && p == captured {
            to_bit
        } else {
            0
        }) ^ (if (flag == MoveFlag::KS_CASTLE || flag == MoveFlag::QS_CASTLE) && p == Piece::ROOK {
            (1u64 << home) ^ (1u64 << target)
        } else {
            0
        }) ^ (if flag == MoveFlag::EN_PASSANT && p == Piece::PAWN {
            1u64 << (if side == 0 {
                to - 8
            } else {
                to + 8
            })
        } else {
            0
        }) ^ (if flag >= MoveFlag::KNIGHT_PROMO && p == Piece::PAWN {
            to_bit
        } else {
            0
        }) ^ (if flag >= MoveFlag::KNIGHT_PROMO && p == promo {
            to_bit
        } else {
            0
        })
    }

    /// Squares the move toggles on the board of side `s`.
    fn side_delta(&self, m: u16, side: usize, captured: usize, s: usize) -> (r: u64)
        requires
            side < 2,
            s < 2,
            lens_ok(self@),
            self@.rooks[0] < 8,
            self@.rooks[1] < 8,
            mv_flag(m) == 0x5000 ==> (side == 0 ==> mv_to(m) >= 8) && (side == 1 ==> mv_to(m) < 56),
        ensures
            r == side_delta(self@.rooks, m, side, captured, s as int),
    {
        proof {
            lemma_move_fields(m);
        }
        let from = m & 63;
        let to = (m >> 6u16) & 63;
        let flag = m & MoveFlag::ALL;
        let from_bit = 1u64 << from;
        let to_bit = 1u64 << to;
        let ks = flag == MoveFlag::KS_CASTLE;
        let k: usize = if ks { 1 } else { 0 };
        let home = 56 * side as u64 + self.castle.rooks[k] as u64;
        let target: u64 = 56 * side as u64 + if ks { 5 } else { 3 };
        (if s == side {
            from_bit ^ to_bit
        } else {
            0
        }) ^ (if captured != Piece::NONE && s == 1 - side {
            to_bit
        } else {
            0
        }) ^ (if (flag == MoveFlag::KS_CASTLE || flag == MoveFlag::QS_CASTLE) && s == side {
            (1u64 << home) ^ (1u64 << target)
        } else {
            0
        }) ^ (if flag == MoveFlag::EN_PASSANT && s == 1 - side {
            1u64 << (if side == 0 {
                to - 8
            } else {
                to + 8
            })
        } else {
            0
        })
    }

    /// Common make/unmake movements of the pieces of a move.
    fn apply(&mut self, m: u16, side: usize, moved: usize, captured: usize)
        requires
            side < 2,
            lens_ok(old(self)@),
            old(self)@.rooks[0] < 8,
            old(self)@.rooks[1] < 8,
            mv_flag(m) == 0x5000 ==> (side == 0 ==> mv_to(m) >= 8) && (side == 1 ==> mv_to(m) < 56),
        ensures
            final(self)@ == apply_spec(old(self)@, m, side, moved, captured),
    {
        let ghost v = self@;
        self.stm = !self.stm;
        let mut p: usize = 0;
        assert(self@.pieces =~= Seq::new(6, |q: int| if q < 0 { v.pieces[q] ^ piece_delta(v.rooks, m, side, moved, captured, q) } else { v.pieces[q] }));
        while p < 6
            invariant
                side < 2,
                p <= 6,
                lens_ok(self@),
                self@.rooks == v.rooks,
                self@.rooks[0] < 8,
                self@.rooks[1] < 8,
                mv_flag(m) == 0x5000 ==> (side == 0 ==> mv_to(m) >= 8) && (side == 1 ==> mv_to(m) < 56),
                self@ == (PositionView {
                    stm: !v.stm,
                    pieces: Seq::new(6, |q: int| if q < p { v.pieces[q] ^ piece_delta(v.rooks, m, side, moved, captured, q) } else { v.pieces[q] }),
                    ..v
                }),
            decreases 6 - p,
        {
            let d = self.piece_delta(m, side, moved, captured, p);
            self.pieces[p] = self.pieces[p] ^ d;
            proof {
                assert(self@.pieces =~= Seq::new(6, |q: int| if q < p + 1 { v.pieces[q] ^ piece_delta(v.rooks, m, side, moved, captured, q) } else { v.pieces[q] }));
            }
            p = p + 1;
        }
        let d0 = self.side_delta(m, side, captured, 0);
        let d1 = self.side_delta(m, side, captured, 1);
        self.sides[0] = self.sides[0] ^ d0;
        self.sides[1] = self.sides[1] ^ d1;
        proof {
            assert(self@.pieces =~= apply_spec(v, m, side, moved, captured).pieces);
            assert(self@.sides =~= apply_spec(v, m, side, moved, captured).sides);
        }
    }

    /// Takes back the last move.
    pub fn undo(&mut self)
        requires
            old(self)@.stack.len() > 0,
            lens_ok(old(self)@),
            ctx_ok(old(self)@.rooks, old(self)@.stack.last(), if old(self)@.stm { 0 } else { 1 }),
        ensures
            final(self)@ == unmake_spec(old(self)@),
    {
        let ctx = self.stack.pop().unwrap();
        self.state = ctx.state;
        let side: usize = if self.stm { 0 } else { 1 };
        self.apply(ctx.mov, side, ctx.moved as usize, ctx.captured as usize);
    }

    /// Makes a move; returns whether it was legal (when it was not, the
    /// position is left as it was).
    pub fn do_move(&mut self, m: u16) -> (r: bool)
        requires
            do_ok(old(self)@, m),
        ensures
            r == legal_spec(old(self)@, m),
            r ==> final(self)@ == make_spec(old(self)@, m),
            !r ==> final(self)@ == old(self)@,
    {
        let ghost v = self@;
        proof {
            lemma_move_fields(m);
        }
        let flag = m & MoveFlag::ALL;
        let from = m & 63;
        let to = (m >> 6u16) & 63;
        let occ = self.occ();
        let moved = self.get_piece(1u64 << from, occ);
        let captured = if flag & MoveFlag::CAPTURE == 0 || flag == MoveFlag::EN_PASSANT {
            Piece::NONE
        } else {
            self.get_piece(1u64 << to, occ)
        };

        let side = self.stm();
        self.stack.push(MoveContext { mov: m, moved: moved as u8, captured: captured as u8, state: self.state });
        let rights = self.state.castle_rights & self.castle.mask[to as usize] & self.castle.mask[from as usize];
        self.state.castle_rights = rights;
        self.state.en_passant = if flag == MoveFlag::DBL_PUSH {
            (if side == Side::WHITE {
                to - 8
            } else {
                to + 8
            }) as u8
        } else {
            0
        };
        self.state.halfmove_clock = if moved > Piece::PAWN && flag != MoveFlag::CAPTURE {
            self.state.halfmove_clock.wrapping_add(1)
        } else {
            0
        };
        proof {
            assert(self@ == (PositionView { state: next_state(v, m), stack: v.stack.push(
                MoveContext { mov: m, moved: moved as u8, captured: captured as u8, state: v.state },
            ), ..v }));
        }
        self.apply(m, side, moved, captured);

        // checking if legal
        let kbb = self.piece(side, Piece::KING);
        proof {
            lemma_ls1b(kbb);
        }
        let kidx = kbb.trailing_zeros() as usize;
        let invalid = self.is_square_attacked(kidx, side, self.occ());
        if invalid {
            proof {
                lemma_unmake_make(v, m);
            }
            self.undo();
        }
        !invalid
    }
}

// ---------------------------------------------------------------------------
// move generation for the side to move

/// No square of `bb` is attacked by the opponent of `side`.
pub open spec fn path_spec(v: PositionView, side: usize, bb: u64, occ: u64) -> bool
    decreases bb,
{
    if bb == 0 {
        true
    } else {
        proof {
            lemma_clear_ls1b(bb);
        }
        !attacked_spec(v, bb.trailing_zeros() as u64, side, occ) && path_spec(
            v,
            side,
            clear_ls1b(bb),
            occ,
        )
    }
}

/// Castling rights bit of `side` on the king side (`ks`) or queen side.
pub open spec fn right_bit(side: usize, ks: bool) -> u8 {
    if side == 0 {
        if ks {
            4u8
        } else {
            8u8
        }
    } else {
        if ks {
            1u8
        } else {
            2u8
        }
    }
}

/// Where the king of `side` lands when castling.
pub open spec fn king_target(side: usize, ks: bool) -> u64 {
    (56 * side + (if ks {
        6int
    } else {
        2int
    })) as u64
}

/// The squares a castling of `side` passes over are free and safe.
pub open spec fn can_castle_spec(v: PositionView, side: usize, ks: bool, occ: u64, kbb: u64) -> bool {
    let b = bit(rook_home(v.rooks, side, ks));
    let kto = bit(king_target(side, ks));
    let rto = bit(rook_target(side, ks));
    &&& (occ ^ b) & (between_spec(kbb, kto) ^ kto) == 0
    &&& (occ ^ kbb) & (between_spec(b, rto) ^ rto) == 0
    &&& path_spec(v, side, between_spec(kbb, kto), occ)
}

/// The castling moves available to the side to move, queen side first.
pub open spec fn castles_seq(v: PositionView, occ: u64) -> Seq<u16> {
    let side = stm_of(v);
    let kbb = piece_of(v, side as int, 5);
    let ksq = kbb.trailing_zeros() as u16;
    let r = v.state.castle_rights;
    let qs = if r & right_bit(side, false) > 0 && can_castle_spec(v, side, false, occ, kbb) {
        seq![0x3000u16 | ((king_target(side, false) as u16) << 6u16) | ksq]
    } else {
        Seq::empty()
    };
    let ks = if r & right_bit(side, true) > 0 && can_castle_spec(v, side, true, occ, kbb) {
        seq![0x2000u16 | ((king_target(side, true) as u16) << 6u16) | ksq]
    } else {
        Seq::empty()
    };
    qs + ks
}

/// All pseudo-legal moves of the side to move, in generation order
/// (quiet moves only when `quiet`).
#[verifier::opaque]
pub open spec fn gen_spec(v: PositionView, quiet: bool) -> Seq<u16> {
    let side = stm_of(v);
    let friends = v.sides[side as int];
    let opps = v.sides[1 - side];
    let occ = friends ^ opps;
    let pawns = piece_of(v, side as int, 0);
    let ep = v.state.en_passant as u16;
    (if quiet {
        (if v.state.castle_rights & spec_side_rights(side) > 0 && !in_check_spec(v) {
            castles_seq(v, occ)
        } else {
            Seq::empty()
        }) + pawn_pushes_seq(side, occ, pawns)
    } else {
        Seq::empty()
    }) + (if ep > 0 {
        ep_seq(ep, spec_pawn((1 - side) as usize, ep as u64) & pawns)
    } else {
        Seq::empty()
    }) + pawn_captures_seq(pawns, opps, side) + piece_moves_seq(
        1,
        quiet,
        occ,
        opps,
        piece_of(v, side as int, 1),
    ) + piece_moves_seq(2, quiet, occ, opps, piece_of(v, side as int, 2)) + piece_moves_seq(
        3,
        quiet,
        occ,
        opps,
        piece_of(v, side as int, 3),
    ) + piece_moves_seq(4, quiet, occ, opps, piece_of(v, side as int, 4)) + piece_moves_seq(
        5,
        quiet,
        occ,
        opps,
        piece_of(v, side as int, 5),
    )
}

/// What move generation needs to stay in range.
pub open spec fn gen_ok(v: PositionView) -> bool {
    &&& lens_ok(v)
    &&& v.rooks[0] < 8
    &&& v.rooks[1] < 8
    &&& v.state.en_passant < 64
    &&& piece_of(v, stm_of(v) as int, 5) != 0
}

impl Position {
    fn path(&self, side: usize, bb: u64, occ: u64) -> (r: bool)
        requires
            side < 2,
        ensures
            r == path_spec(self@, side, bb, occ),
    {
        let mut path = bb;
        while path != 0
            invariant
                side < 2,
                path_spec(self@, side, bb, occ) == path_spec(self@, side, path, occ),
            decreases path,
        {
            proof {
                lemma_clear_ls1b(path);
            }
            let idx = path.trailing_zeros() as usize;
            if self.is_square_attacked(idx, side, occ) {
                return false;
            }
            path = path & (path - 1);
        }
        true
    }

    fn can_castle(&self, side: usize, ks: bool, occ: u64, kbb: u64, kto: u64, rto: u64) -> (r: bool)
        requires
            side < 2,
            lens_ok(self@),
            self@.rooks[0] < 8,
            self@.rooks[1] < 8,
            kto == bit(king_target(side, ks)),
            rto == bit(rook_target(side, ks)),
        ensures
            r == can_castle_spec(self@, side, ks, occ, kbb),
    {
        let k: usize = if ks { 1 } else { 0 };
        let b = 1u64 << (56 * side as u64 + self.castle.rooks[k] as u64);
        (occ ^ b) & (between(kbb, kto) ^ kto) == 0 && (occ ^ kbb) & (between(b, rto) ^ rto) == 0
            && self.path(side, between(kbb, kto), occ)
    }

    fn castles(&self, moves: &mut MoveList, occ: u64)
        requires
            lens_ok(self@),
            self@.rooks[0] < 8,
            self@.rooks[1] < 8,
        ensures
            final(moves)@ == old(moves)@ + unscored(castles_seq(self@, occ)),
    {
        let r = self.state.castle_rights;
        let side = self.stm();
        let kbb = self.piece(side, Piece::KING);
        let ksq = ls1b_scan(kbb);
        let ghost start = moves@;
        if self.stm {
            if r & CastleRights::BLACK_QS > 0 && self.can_castle(1, false, occ, kbb, 1u64 << 58u64, 1u64 << 59u64) {
                moves.add(MoveFlag::QS_CASTLE | 58u16 << 6u16 | ksq);
            }
            if r & CastleRights::BLACK_KS > 0 && self.can_castle(1, true, occ, kbb, 1u64 << 62u64, 1u64 << 61u64) {
                moves.add(MoveFlag::KS_CASTLE | 62u16 << 6u16 | ksq);
            }
        } else {
            if r & CastleRights::WHITE_QS > 0 && self.can_castle(0, false, occ, kbb, 1u64 << 2u64, 1u64 << 3u64) {
                moves.add(MoveFlag::QS_CASTLE | 2u16 << 6u16 | ksq);
            }
            if r & CastleRights::WHITE_KS > 0 && self.can_castle(0, true, occ, kbb, 1u64 << 6u64, 1u64 << 5u64) {
                moves.add(MoveFlag::KS_CASTLE | 6u16 << 6u16 | ksq);
            }
        }
        proof {
            assert(moves@ =~= start + unscored(castles_seq(self@, occ)));
        }
    }

    /// Generates all pseudo-legal moves (quiet ones only if `QUIET`).
    pub fn generate<const QUIET: bool>(&self) -> (moves: MoveList)
        requires
            gen_ok(self@),
        ensures
            moves@ == unscored(gen_spec(self@, QUIET)),
    {
        let ghost v = self@;
        let mut moves = MoveList::uninit();

        let side = self.stm();
        let friends = self.sides[side];
        let opps = self.sides[1 - side];
        let occ = friends ^ opps;
        let pawns = self.piece(side, Piece::PAWN);
        let ghost mut acc: Seq<u16> = Seq::empty();
        assert(moves@ =~= unscored(acc));

        if QUIET {
            let ghost cs = if v.state.castle_rights & spec_side_rights(side) > 0 && !in_check_spec(v) {
                castles_seq(v, occ)
            } else {
                Seq::empty()
            };
            if self.state.castle_rights & CastleRights::sides(side) > 0 && !self.in_check() {
                self.castles(&mut moves, occ);
            }
            proof {
                lemma_unscored_concat(acc, cs);
                acc = acc + cs;
            }
            if side == Side::WHITE {
                pawn_pushes::<0>(&mut moves, occ, pawns);
            } else {
                pawn_pushes::<1>(&mut moves, occ, pawns);
            }
            proof {
                lemma_unscored_concat(acc, pawn_pushes_seq(side, occ, pawns));
                acc = acc + pawn_pushes_seq(side, occ, pawns);
            }
        }
        let ghost q1 = acc;
        let ghost ep = v.state.en_passant as u16;
        let ghost e1 = if ep > 0 {
            ep_seq(ep, spec_pawn((1 - side) as usize, ep as u64) & pawns)
        } else {
            Seq::empty()
        };
        if self.state.en_passant > 0 {
            en_passants(&mut moves, pawns, self.state.en_passant as u16, side);
        }
        proof {
            lemma_unscored_concat(acc, e1);
            acc = acc + e1;
        }
        pawn_captures(&mut moves, pawns, opps, side);
        proof {
            lemma_unscored_concat(acc, pawn_captures_seq(pawns, opps, side));
            acc = acc + pawn_captures_seq(pawns, opps, side);
        }
        piece_moves::<1, QUIET>(&mut moves, occ, opps, self.piece(side, Piece::KNIGHT));
        proof {
            let x = piece_moves_seq(1, QUIET, occ, opps, piece_of(v, side as int, 1));
            lemma_unscored_concat(acc, x);
            acc = acc + x;
        }
        piece_moves::<2, QUIET>(&mut moves, occ, opps, self.piece(side, Piece::BISHOP));
        proof {
            let x = piece_moves_seq(2, QUIET, occ, opps, piece_of(v, side as int, 2));
            lemma_unscored_concat(acc, x);
            acc = acc + x;
        }
        piece_moves::<3, QUIET>(&mut moves, occ, opps, self.piece(side, Piece::ROOK));
        proof {
            let x = piece_moves_seq(3, QUIET, occ, opps, piece_of(v, side as int, 3));
            lemma_unscored_concat(acc, x);
            acc = acc + x;
        }
        piece_moves::<4, QUIET>(&mut moves, occ, opps, self.piece(side, Piece::QUEEN));
        proof {
            let x = piece_moves_seq(4, QUIET, occ, opps, piece_of(v, side as int, 4));
            lemma_unscored_concat(acc, x);
            acc = acc + x;
        }
        piece_moves::<5, QUIET>(&mut moves, occ, opps, self.piece(side, Piece::KING));
        proof {
            let x = piece_moves_seq(5, QUIET, occ, opps, piece_of(v, side as int, 5));
            lemma_unscored_concat(acc, x);
            acc = acc + x;
            reveal(gen_spec);
            assert(acc =~= gen_spec(v, QUIET));
        }
        moves
    }
}

} // verus!
