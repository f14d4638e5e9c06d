//! Board constants and attack sets (leapers by formula, sliders by
//! hyperbola quintessence).
use vstd::prelude::*;
use crate::bits::{
    has_bit, is_ms1b, lemma_bit_ops, lemma_ms1b, lemma_square_index, lemma_wrapping_sub, ms1b_scan,
    ms1b_spec, neg, spec_swap_bytes, swap_bytes,
};

verus! {

pub struct Side;

impl Side {
    pub const WHITE: usize = 0;
    pub const BLACK: usize = 1;
}

pub struct Piece;

impl Piece {
    pub const PAWN: usize = 0;
    pub const KNIGHT: usize = 1;
    pub const BISHOP: usize = 2;
    pub const ROOK: usize = 3;
    pub const QUEEN: usize = 4;
    pub const KING: usize = 5;
    pub const NONE: usize = 6;
}

pub struct Squares;

impl Squares {
    pub const LIGHT: u64 = 0x55AA55AA55AA55AA;
    pub const DARK: u64 = 0xAA55AA55AA55AA55;
}

pub struct CastleRights;

impl CastleRights {
    pub const NONE: u8 = 0;
    pub const WHITE_QS: u8 = 8;
    pub const WHITE_KS: u8 = 4;
    pub const BLACK_QS: u8 = 2;
    pub const BLACK_KS: u8 = 1;

    /// Both rights of one side.
    pub fn sides(side: usize) -> (r: u8)
        requires
            side < 2,
        ensures
            r == spec_side_rights(side),
    {
        if side == 0 {
            12
        } else {
            3
        }
    }
}

/// Castling rights belonging to a side.
pub open spec fn spec_side_rights(side: usize) -> u8 {
    if side == 0 {
        12u8
    } else {
        3u8
    }
}

pub struct MoveFlag;

impl MoveFlag {
    pub const ALL: u16 = 0xF000;
    pub const QUIET: u16 = 0;
    pub const DBL_PUSH: u16 = 0x1000;
    pub const KS_CASTLE: u16 = 0x2000;
    pub const QS_CASTLE: u16 = 0x3000;
    pub const CAPTURE: u16 = 0x4000;
    pub const EN_PASSANT: u16 = 0x5000;
    pub const KNIGHT_PROMO: u16 = 0x8000;
    pub const BISHOP_PROMO: u16 = 0x9000;
    pub const ROOK_PROMO: u16 = 0xA000;
    pub const QUEEN_PROMO: u16 = 0xB000;
    pub const KNIGHT_PROMO_CAPTURE: u16 = 0xC000;
    pub const BISHOP_PROMO_CAPTURE: u16 = 0xD000;
    pub const ROOK_PROMO_CAPTURE: u16 = 0xE000;
    pub const QUEEN_PROMO_CAPTURE: u16 = 0xF000;
}

/// Which moves a generator produces.
pub struct MoveType;

impl MoveType {
    pub const ALL: bool = true;
    pub const CAPTURES: bool = false;
}

/// Well known positions.
pub struct Fens;

impl Fens {
    pub const STARTPOS: &'static str = "rnbqkbnr/pppppppp/8/8/8/8/PPPPPPPP/RNBQKBNR w KQkq - 0 1";
    pub const KIWIPETE: &'static str =
        "r3k2r/p1ppqpb1/bn2pnp1/3PN3/1p2P3/2N2Q1p/PPPBBPPP/R3K2R w KQkq - 0 1";
}

pub struct Rank;

impl Rank {
    /// The rank from which a pawn of each side promotes.
    pub fn penultimate(side: usize) -> (r: u64)
        requires
            side < 2,
        ensures
            r == spec_penultimate(side),
    {
        if side == 0 {
            0xFF000000000000
        } else {
            0xFF00
        }
    }

    /// The rank a double push of each side lands on.
    pub fn double(side: usize) -> (r: u64)
        requires
            side < 2,
        ensures
            r == spec_double(side),
    {
        if side == 0 {
            0xFF000000
        } else {
            0xFF00000000
        }
    }
}

pub open spec fn spec_penultimate(side: usize) -> u64 {
    if side == 0 {
        0xFF000000000000u64
    } else {
        0xFF00u64
    }
}

pub open spec fn spec_double(side: usize) -> u64 {
    if side == 0 {
        0xFF000000u64
    } else {
        0xFF00000000u64
    }
}

pub struct File;

impl File {
    pub const A: u64 = 0x101010101010101;
    pub const H: u64 = 0x8080808080808080;
}

#[derive(Clone, Copy)]
pub struct Mask {
    pub bit: u64,
    pub right: u64,
    pub left: u64,
    pub file: u64,
}

// ---------------------------------------------------------------------------
// leaper attacks

pub open spec fn spec_knight(i: u64) -> u64 {
    let n = 1u64 << i;
    let h1 = ((n >> 1u64) & 0x7f7f7f7f7f7f7f7fu64) | ((n << 1u64) & 0xfefefefefefefefeu64);
    let h2 = ((n >> 2u64) & 0x3f3f3f3f3f3f3f3fu64) | ((n << 2u64) & 0xfcfcfcfcfcfcfcfcu64);
    (h1 << 16u64) | (h1 >> 16u64) | (h2 << 8u64) | (h2 >> 8u64)
}

pub open spec fn spec_king(i: u64) -> u64 {
    let k0 = 1u64 << i;
    let k1 = k0 | (k0 << 8u64) | (k0 >> 8u64);
    let k2 = k1 | ((k1 & !0x101010101010101u64) >> 1u64) | ((k1 & !0x8080808080808080u64) << 1u64);
    k2 ^ (1u64 << i)
}

pub open spec fn spec_pawn(side: usize, i: u64) -> u64 {
    let b = 1u64 << i;
    if side == 0 {
        ((b & !0x101010101010101u64) << 7u64) | ((b & !0x8080808080808080u64) << 9u64)
    } else {
        ((b & !0x101010101010101u64) >> 9u64) | ((b & !0x8080808080808080u64) >> 7u64)
    }
}

// ---------------------------------------------------------------------------
// slider masks and attacks

pub open spec fn diag_k(k: u64) -> u64 {
    if k <= 7 {
        0x8040201008040201u64 << ((7 - k) * 8) as u64
    } else {
        0x8040201008040201u64 >> ((k - 7) * 8) as u64
    }
}

pub open spec fn spec_rank_left(i: u64) -> u64 {
    (((1u64 << i) - 1) as u64) & (0xFFu64 << (i & 56))
}

pub open spec fn spec_rook_mask(i: u64) -> Mask {
    let bit = 1u64 << i;
    let left = spec_rank_left(i);
    Mask {
        bit,
        right: bit ^ left ^ (0xFFu64 << (i & 56)),
        left,
        file: bit ^ (0x101010101010101u64 << (i & 7)),
    }
}

pub open spec fn spec_bishop_mask(i: u64) -> Mask {
    let bit = 1u64 << i;
    Mask {
        bit,
        right: bit ^ diag_k((7 + (i & 7) - i / 8) as u64),
        left: bit ^ spec_swap_bytes(diag_k(((i & 7) + i / 8) as u64)),
        file: spec_swap_bytes(bit),
    }
}

/// Hyperbola quintessence along one line whose squares sit in distinct bytes.
pub open spec fn line_attacks(bit: u64, rbit: u64, line: u64, occ: u64) -> u64 {
    let f = occ & line;
    let rev = spec_swap_bytes(f);
    let f2 = (f - bit) as u64;
    let rev2 = (rev - rbit) as u64;
    (f2 ^ spec_swap_bytes(rev2)) & line
}

pub open spec fn rook_with_west(i: u64, occ: u64, j: u64) -> u64 {
    let m = spec_rook_mask(i);
    let east = occ & m.right;
    let low = east & neg(east);
    let east2 = low ^ ((low - m.bit) as u64);
    line_attacks(m.bit, spec_swap_bytes(m.bit), m.file, occ) | (east2 & m.right) | (
    spec_rank_left(j) ^ m.left)
}

pub open spec fn spec_rook(i: u64, occ: u64) -> u64 {
    rook_with_west(i, occ, ms1b_spec((spec_rook_mask(i).left & occ) | 1))
}

pub open spec fn spec_bishop(i: u64, occ: u64) -> u64 {
    let m = spec_bishop_mask(i);
    line_attacks(m.bit, m.file, m.right, occ) | line_attacks(m.bit, m.file, m.left, occ)
}

// ---------------------------------------------------------------------------
// declarative meaning of slider attacks

/// Squares whose index lies strictly between `a` and `b`.
pub open spec fn range_between(a: u64, b: u64) -> u64 {
    if a < b {
        (((1u64 << b) - 1) as u64) ^ ((((1u64 << a) << 1u64) - 1) as u64)
    } else {
        (((1u64 << a) - 1) as u64) ^ ((((1u64 << b) << 1u64) - 1) as u64)
    }
}

pub open spec fn file_line(a: u64) -> u64 {
    0x101010101010101u64 << (a & 7)
}

pub open spec fn diag_line(a: u64) -> u64 {
    diag_k((7 + (a & 7) - a / 8) as u64)
}

pub open spec fn anti_line(a: u64) -> u64 {
    spec_swap_bytes(diag_k(((a & 7) + a / 8) as u64))
}

/// `b` is reached by a rook on `a`: same rank or file, nothing in between.
pub open spec fn rook_ray(a: u64, b: u64, occ: u64) -> bool {
    a != b && (((a & 7) == (b & 7) && occ & file_line(a) & range_between(a, b) == 0) || ((a
        >> 3) == (b >> 3) && occ & range_between(a, b) == 0))
}

/// `b` is reached by a bishop on `a`: same diagonal, nothing in between.
pub open spec fn bishop_ray(a: u64, b: u64, occ: u64) -> bool {
    a != b && ((has_bit(diag_line(a), b) && occ & diag_line(a) & range_between(a, b) == 0) || (
    has_bit(anti_line(a), b) && occ & anti_line(a) & range_between(a, b) == 0))
}

pub proof fn lemma_rook_ray(a: u64, b: u64, occ: u64)
    requires
        a < 64,
        b < 64,
    ensures
        has_bit(spec_rook(a, occ), b) <==> rook_ray(a, b, occ),
{
    let l = spec_rook_mask(a).left;
    let x = (l & occ) | 1;
    lemma_bit_ops(l & occ, 0, 0);
    lemma_ms1b(x);
    let j = ms1b_spec(x);
    assert(has_bit(rook_with_west(a, occ, j), b) <==> rook_ray(a, b, occ)) by (bit_vector)
        requires
            a < 64,
            b < 64,
            is_ms1b((spec_rook_mask(a).left & occ) | 1, j),
    ;
}

pub proof fn lemma_bishop_ray(a: u64, b: u64, occ: u64)
    requires
        a < 64,
        b < 64,
    ensures
        has_bit(spec_bishop(a, occ), b) <==> bishop_ray(a, b, occ),
{
    assert(has_bit(spec_bishop(a, occ), b) <==> bishop_ray(a, b, occ)) by (bit_vector)
        requires
            a < 64,
            b < 64,
    ;
}

// ---------------------------------------------------------------------------
// symmetry of the attack relation

pub proof fn lemma_knight_symmetric(a: u64, b: u64)
    requires
        a < 64,
        b < 64,
    ensures
        has_bit(spec_knight(a), b) == has_bit(spec_knight(b), a),
{
    assert(has_bit(spec_knight(a), b) == has_bit(spec_knight(b), a)) by (bit_vector)
        requires
            a < 64,
            b < 64,
    ;
}

pub proof fn lemma_king_symmetric(a: u64, b: u64)
    requires
        a < 64,
        b < 64,
    ensures
        has_bit(spec_king(a), b) == has_bit(spec_king(b), a),
{
    assert(has_bit(spec_king(a), b) == has_bit(spec_king(b), a)) by (bit_vector)
        requires
            a < 64,
            b < 64,
    ;
}

pub proof fn lemma_pawn_symmetric(side: usize, a: u64, b: u64)
    requires
        side < 2,
        a < 64,
        b < 64,
    ensures
        has_bit(spec_pawn(side, a), b) == has_bit(spec_pawn((1 - side) as usize, b), a),
{
    assert(has_bit(spec_pawn(0, a), b) == has_bit(spec_pawn(1, b), a) && has_bit(spec_pawn(1, a), b)
        == has_bit(spec_pawn(0, b), a)) by (bit_vector)
        requires
            a < 64,
            b < 64,
    ;
}

/// A rook on `a` attacks `b` exactly when a rook on `b` attacks `a`.
pub proof fn lemma_rook_symmetric(a: u64, b: u64, occ: u64)
    requires
        a < 64,
        b < 64,
    ensures
        has_bit(spec_rook(a, occ), b) == has_bit(spec_rook(b, occ), a),
{
    lemma_rook_ray(a, b, occ);
    lemma_rook_ray(b, a, occ);
    assert(rook_ray(a, b, occ) == rook_ray(b, a, occ)) by (bit_vector)
        requires
            a < 64,
            b < 64,
    ;
}

/// A bishop on `a` attacks `b` exactly when a bishop on `b` attacks `a`.
pub proof fn lemma_bishop_symmetric(a: u64, b: u64, occ: u64)
    requires
        a < 64,
        b < 64,
    ensures
        has_bit(spec_bishop(a, occ), b) == has_bit(spec_bishop(b, occ), a),
{
    lemma_bishop_ray(a, b, occ);
    lemma_bishop_ray(b, a, occ);
    assert(bishop_ray(a, b, occ) == bishop_ray(b, a, occ)) by (bit_vector)
        requires
            a < 64,
            b < 64,
    ;
}

// ---------------------------------------------------------------------------
// executable attack sets

pub struct Attacks;

impl Attacks {
    /// Squares attacked by a pawn of `side` standing on `idx`.
    pub fn pawn(side: usize, idx: usize) -> (r: u64)
        requires
            side < 2,
            idx < 64,
        ensures
            r == spec_pawn(side, idx as u64),
    {
        let b = 1u64 << idx as u64;
        if side == 0 {
            ((b & !File::A) << 7u64) | ((b & !File::H) << 9u64)
        } else {
            ((b & !File::A) >> 9u64) | ((b & !File::H) >> 7u64)
        }
    }

    /// Squares attacked by a knight on `idx`.
    pub fn knight(idx: usize) -> (r: u64)
        requires
            idx < 64,
        ensures
            r == spec_knight(idx as u64),
    {
        let n = 1u64 << idx as u64;
        let h1 = ((n >> 1u64) & 0x7f7f7f7f7f7f7f7f) | ((n << 1u64) & 0xfefefefefefefefe);
        let h2 = ((n >> 2u64) & 0x3f3f3f3f3f3f3f3f) | ((n << 2u64) & 0xfcfcfcfcfcfcfcfc);
        (h1 << 16u64) | (h1 >> 16u64) | (h2 << 8u64) | (h2 >> 8u64)
    }

    /// Squares attacked by a king on `idx`.
    pub fn king(idx: usize) -> (r: u64)
        requires
            idx < 64,
        ensures
            r == spec_king(idx as u64),
    {
        let k0 = 1u64 << idx as u64;
        let k1 = k0 | (k0 << 8u64) | (k0 >> 8u64);
        let k2 = k1 | ((k1 & !File::A) >> 1u64) | ((k1 & !File::H) << 1u64);
        k2 ^ (1u64 << idx as u64)
    }

    fn diags(k: u64) -> (r: u64)
        requires
            k < 15,
        ensures
            r == diag_k(k),
    {
        if k <= 7 {
            0x8040201008040201u64 << ((7 - k) * 8)
        } else {
            0x8040201008040201u64 >> ((k - 7) * 8)
        }
    }

    fn west(j: u64) -> (r: u64)
        requires
            j < 64,
        ensures
            r == spec_rank_left(j),
    {
        proof {
            lemma_square_index(j);
        }
        ((1u64 << j) - 1) & (0xFFu64 << (j & 56))
    }

    fn bishop_mask(i: u64) -> (m: Mask)
        requires
            i < 64,
        ensures
            m == spec_bishop_mask(i),
    {
        let bit = 1u64 << i;
        proof {
            lemma_square_index(i);
        }
        Mask {
            bit,
            right: bit ^ Self::diags(7 + (i & 7) - i / 8),
            left: bit ^ swap_bytes(Self::diags((i & 7) + i / 8)),
            file: swap_bytes(bit),
        }
    }

    fn rook_mask(i: u64) -> (m: Mask)
        requires
            i < 64,
        ensures
            m == spec_rook_mask(i),
    {
        let bit = 1u64 << i;
        proof {
            lemma_square_index(i);
        }
        let rank = 0xFFu64 << (i & 56);
        let left = (bit - 1) & rank;
        Mask { bit, right: bit ^ left ^ rank, left, file: bit ^ (File::A << (i & 7)) }
    }

    /// Bishop attacks from `idx` given the occupancy `occ`.
    pub fn bishop(idx: usize, occ: u64) -> (r: u64)
        requires
            idx < 64,
        ensures
            r == spec_bishop(idx as u64, occ),
            forall|b: u64| b < 64 ==> (has_bit(r, b) <==> bishop_ray(idx as u64, b, occ)),
    {
        let mask = Self::bishop_mask(idx as u64);

        let mut diag = occ & mask.right;
        let mut rev = swap_bytes(diag);
        diag = diag.wrapping_sub(mask.bit);
        rev = rev.wrapping_sub(mask.file);
        diag = diag ^ swap_bytes(rev);

        let mut anti = occ & mask.left;
        rev = swap_bytes(anti);
        anti = anti.wrapping_sub(mask.bit);
        rev = rev.wrapping_sub(mask.file);
        anti = anti ^ swap_bytes(rev);

        let r = (diag & mask.right) | (anti & mask.left);
        proof {
            lemma_wrapping_sub(occ & mask.right, mask.bit);
            lemma_wrapping_sub(spec_swap_bytes(occ & mask.right), mask.file);
            lemma_wrapping_sub(occ & mask.left, mask.bit);
            lemma_wrapping_sub(spec_swap_bytes(occ & mask.left), mask.file);
            assert forall|b: u64| b < 64 implies (has_bit(r, b) <==> bishop_ray(idx as u64, b, occ)) by {
                lemma_bishop_ray(idx as u64, b, occ);
            }
        }
        r
    }

    /// Rook attacks from `idx` given the occupancy `occ`.
    pub fn rook(idx: usize, occ: u64) -> (r: u64)
        requires
            idx < 64,
        ensures
            r == spec_rook(idx as u64, occ),
            forall|b: u64| b < 64 ==> (has_bit(r, b) <==> rook_ray(idx as u64, b, occ)),
    {
        let mask = Self::rook_mask(idx as u64);

        let mut file = occ & mask.file;
        let mut rev = swap_bytes(file);
        file = file.wrapping_sub(mask.bit);
        rev = rev.wrapping_sub(swap_bytes(mask.bit));
        file = file ^ swap_bytes(rev);

        let mut east = occ & mask.right;
        rev = east & 0u64.wrapping_sub(east);
        east = rev ^ rev.wrapping_sub(mask.bit);

        let ml = mask.left;
        let x = (ml & occ) | 1;
        proof {
            lemma_bit_ops(ml & occ, 0, 0);
        }
        let j = ms1b_scan(x);
        let west = Self::west(j as u64);

        let r = (file & mask.file) | (east & mask.right) | (west ^ mask.left);
        proof {
            let e = occ & mask.right;
            lemma_wrapping_sub(occ & mask.file, mask.bit);
            lemma_wrapping_sub(spec_swap_bytes(occ & mask.file), spec_swap_bytes(mask.bit));
            lemma_wrapping_sub(0, e);
            lemma_wrapping_sub(e & neg(e), mask.bit);
            assert forall|b: u64| b < 64 implies (has_bit(r, b) <==> rook_ray(idx as u64, b, occ)) by {
                lemma_rook_ray(idx as u64, b, occ);
            }
        }
        r
    }
}

} // verus!
