//! Laws of move generation: what every generated move looks like.
use vstd::prelude::*;
use crate::bits::{clear_ls1b, has_bit, lemma_bit_ops, lemma_clear_ls1b};
use super::consts::{spec_pawn, spec_penultimate};
use super::consts::spec_double;
use super::position::{
    attacked_spec, between_spec, captured_of, do_ok, ep_victim, is_castle_flag, lens_ok, make_spec,
    moved_of, occ_of, piece_delta, promo_piece, rook_home, rook_target, side_delta, can_castle_spec, castles_seq, gen_ok, gen_spec, king_sq, king_target, right_bit, lemma_move_encode, mv_flag, mv_from, mv_to, piece_of,
    stm_of, PositionView,
};
use super::movegen::{
    double_pushers, pawn_captures_seq, pawn_pushes_seq, single_pushers, spec_shift, encode_seq, ep_seq, piece_attacks, piece_moves_seq, promo4, promo_caps_seq, promo_push_seq,
    promo_targets_seq, pawn_caps_seq, push_seq, spec_idx_shift,
};

verus! {

/// Every element of `s` satisfies `p`.
pub open spec fn all_of(s: Seq<u16>, p: spec_fn(u16) -> bool) -> bool {
    forall|i: int| 0 <= i < s.len() ==> #[trigger] p(s[i])
}

pub proof fn lemma_all_concat(a: Seq<u16>, b: Seq<u16>, p: spec_fn(u16) -> bool)
    requires
        all_of(a, p),
        all_of(b, p),
    ensures
        all_of(a + b, p),
{
    assert forall|i: int| 0 <= i < (a + b).len() implies #[trigger] p((a + b)[i]) by {
        if i < a.len() {
            assert((a + b)[i] == a[i]);
        } else {
            assert((a + b)[i] == b[i - a.len()]);
        }
    }
}

proof fn lemma_all_cons(x: u16, b: Seq<u16>, p: spec_fn(u16) -> bool)
    requires
        p(x),
        all_of(b, p),
    ensures
        all_of(seq![x] + b, p),
{
    assert(all_of(seq![x], p)) by {
        assert forall|i: int| 0 <= i < seq![x].len() implies #[trigger] p(seq![x][i]) by {
            assert(seq![x][i] == x);
        }
    }
    lemma_all_concat(seq![x], b, p);
}

/// Moves encoded onto the squares of `bb` satisfy `p` when each target does.
pub proof fn lemma_encode_all(base: u16, bb: u64, p: spec_fn(u16) -> bool)
    requires
        forall|t: u64| t < 64 && has_bit(bb, t) ==> #[trigger] p(base | ((t as u16) << 6u16)),
    ensures
        all_of(encode_seq(base, bb), p),
    decreases bb,
{
    if bb != 0 {
        lemma_clear_ls1b(bb);
        let t = bb.trailing_zeros() as u64;
        assert(p(base | ((t as u16) << 6u16)));
        lemma_encode_all(base, clear_ls1b(bb), p);
        lemma_all_cons(base | ((bb.trailing_zeros() as u16) << 6u16), encode_seq(base, clear_ls1b(bb)), p);
    }
}

/// Piece moves satisfy `p` when every capture of an opponent and every move
/// to an empty square from an attacker does.
pub proof fn lemma_piece_moves_all(
    pc: usize,
    quiets: bool,
    occ: u64,
    opps: u64,
    att: u64,
    p: spec_fn(u16) -> bool,
)
    requires
        forall|f: u64, t: u64|
            f < 64 && t < 64 && has_bit(att, f) && has_bit(piece_attacks(pc, f, occ) & opps, t)
                ==> #[trigger] p((f as u16) | 0x4000u16 | ((t as u16) << 6u16)),
        forall|f: u64, t: u64|
            f < 64 && t < 64 && has_bit(att, f) && has_bit(piece_attacks(pc, f, occ) & !occ, t)
                ==> #[trigger] p((f as u16) | 0u16 | ((t as u16) << 6u16)),
    ensures
        all_of(piece_moves_seq(pc, quiets, occ, opps, att), p),
    decreases att,
{
    if att != 0 {
        lemma_clear_ls1b(att);
        let from = att.trailing_zeros() as u16;
        let a = piece_attacks(pc, from as u64, occ);
        assert forall|f: u64, t: u64|
            f < 64 && t < 64 && has_bit(clear_ls1b(att), f) && has_bit(piece_attacks(pc, f, occ) & opps, t)
                implies #[trigger] p((f as u16) | 0x4000u16 | ((t as u16) << 6u16)) by {}
        assert forall|f: u64, t: u64|
            f < 64 && t < 64 && has_bit(clear_ls1b(att), f) && has_bit(piece_attacks(pc, f, occ) & !occ, t)
                implies #[trigger] p((f as u16) | 0u16 | ((t as u16) << 6u16)) by {}
        lemma_piece_moves_all(pc, quiets, occ, opps, clear_ls1b(att), p);
        assert forall|t: u64| t < 64 && has_bit(a & opps, t) implies #[trigger] p(
            (from | 0x4000u16) | ((t as u16) << 6u16),
        ) by {
            assert(p((from as u64 as u16) | 0x4000u16 | ((t as u16) << 6u16)));
        }
        lemma_encode_all(from | 0x4000u16, a & opps, p);
        if quiets {
            assert forall|t: u64| t < 64 && has_bit(a & !occ, t) implies #[trigger] p(
                (from | 0u16) | ((t as u16) << 6u16),
            ) by {
                assert(p((from as u64 as u16) | 0u16 | ((t as u16) << 6u16)));
            }
            lemma_encode_all(from | 0u16, a & !occ, p);
        }
        let e1 = encode_seq(from | 0x4000u16, a & opps);
        let e2: Seq<u16> = if quiets {
            encode_seq(from | 0u16, a & !occ)
        } else {
            Seq::empty()
        };
        lemma_all_concat(e1, e2, p);
        lemma_all_concat(e1 + e2, piece_moves_seq(pc, quiets, occ, opps, clear_ls1b(att)), p);
    }
}

/// The four promotions of `x` satisfy `p`.
pub open spec fn promos_ok(x: u16, capture: bool, p: spec_fn(u16) -> bool) -> bool {
    if capture {
        p(x | 0xC000u16) && p(x | 0xD000u16) && p(x | 0xE000u16) && p(x | 0xF000u16)
    } else {
        p(x | 0x8000u16) && p(x | 0x9000u16) && p(x | 0xA000u16) && p(x | 0xB000u16)
    }
}

proof fn lemma_promo4_all(x: u16, capture: bool, p: spec_fn(u16) -> bool)
    requires
        promos_ok(x, capture, p),
    ensures
        all_of(promo4(x, capture), p),
{
    let s = promo4(x, capture);
    assert forall|i: int| 0 <= i < s.len() implies #[trigger] p(s[i]) by {}
}

/// Pawn pushes satisfy `p` when each push of a pawn of `bb` does.
pub proof fn lemma_push_all(side: usize, amount: u16, flag: u16, bb: u64, p: spec_fn(u16) -> bool)
    requires
        forall|f: u64| f < 64 && has_bit(bb, f) ==> #[trigger] p(
            (f as u16) | (spec_idx_shift(side, amount, f as u16) << 6u16) | flag,
        ),
    ensures
        all_of(push_seq(side, amount, flag, bb), p),
    decreases bb,
{
    if bb != 0 {
        lemma_clear_ls1b(bb);
        let f = bb.trailing_zeros() as u64;
        assert(p((f as u16) | (spec_idx_shift(side, amount, f as u16) << 6u16) | flag));
        lemma_push_all(side, amount, flag, clear_ls1b(bb), p);
        lemma_all_cons(
            (bb.trailing_zeros() as u16) | (spec_idx_shift(side, amount, bb.trailing_zeros() as u16) << 6u16)
                | flag,
            push_seq(side, amount, flag, clear_ls1b(bb)),
            p,
        );
    }
}

/// Push promotions satisfy `p` when each of the four promotions of each pawn
/// of `bb` does.
pub proof fn lemma_promo_push_all(side: usize, bb: u64, p: spec_fn(u16) -> bool)
    requires
        forall|f: u64| f < 64 && has_bit(bb, f) ==> #[trigger] promos_ok(
            (f as u16) | (spec_idx_shift(side, 8, f as u16) << 6u16),
            false,
            p,
        ),
    ensures
        all_of(promo_push_seq(side, bb), p),
    decreases bb,
{
    if bb != 0 {
        lemma_clear_ls1b(bb);
        let f = bb.trailing_zeros() as u64;
        let x = (f as u16) | (spec_idx_shift(side, 8, f as u16) << 6u16);
        assert(promos_ok(x, false, p));
        lemma_promo4_all(x, false, p);
        lemma_promo_push_all(side, clear_ls1b(bb), p);
        lemma_all_concat(promo4(x, false), promo_push_seq(side, clear_ls1b(bb)), p);
    }
}

/// Promotion captures onto the squares of `bb` satisfy `p` when each does.
pub proof fn lemma_promo_targets_all(f: u16, bb: u64, p: spec_fn(u16) -> bool)
    requires
        forall|t: u64| t < 64 && has_bit(bb, t) ==> #[trigger] promos_ok(f | ((t as u16) << 6u16), true, p),
    ensures
        all_of(promo_targets_seq(f, bb), p),
    decreases bb,
{
    if bb != 0 {
        lemma_clear_ls1b(bb);
        let t = bb.trailing_zeros() as u64;
        let x = f | ((t as u16) << 6u16);
        assert(promos_ok(x, true, p));
        lemma_promo4_all(x, true, p);
        lemma_promo_targets_all(f, clear_ls1b(bb), p);
        lemma_all_concat(promo4(x, true), promo_targets_seq(f, clear_ls1b(bb)), p);
    }
}

/// Pawn captures satisfy `p` when each capture of an opponent does.
pub proof fn lemma_pawn_caps_all(c: usize, opps: u64, att: u64, p: spec_fn(u16) -> bool)
    requires
        forall|f: u64, t: u64|
            f < 64 && t < 64 && has_bit(att, f) && has_bit(spec_pawn(c, f) & opps, t)
                ==> #[trigger] p((f as u16) | 0x4000u16 | ((t as u16) << 6u16)),
    ensures
        all_of(pawn_caps_seq(c, opps, att), p),
    decreases att,
{
    if att != 0 {
        lemma_clear_ls1b(att);
        let from = att.trailing_zeros() as u16;
        assert forall|f: u64, t: u64|
            f < 64 && t < 64 && has_bit(clear_ls1b(att), f) && has_bit(spec_pawn(c, f) & opps, t)
                implies #[trigger] p((f as u16) | 0x4000u16 | ((t as u16) << 6u16)) by {}
        lemma_pawn_caps_all(c, opps, clear_ls1b(att), p);
        assert forall|t: u64| t < 64 && has_bit(spec_pawn(c, from as u64) & opps, t) implies #[trigger] p(
            (from | 0x4000u16) | ((t as u16) << 6u16),
        ) by {
            assert(p((from as u64 as u16) | 0x4000u16 | ((t as u16) << 6u16)));
        }
        lemma_encode_all(from | 0x4000u16, spec_pawn(c, from as u64) & opps, p);
        lemma_all_concat(
            encode_seq(from | 0x4000u16, spec_pawn(c, from as u64) & opps),
            pawn_caps_seq(c, opps, clear_ls1b(att)),
            p,
        );
    }
}

/// Promoting pawn captures satisfy `p` when each of the four promotions of
/// each capture of an opponent does.
pub proof fn lemma_promo_caps_all(c: usize, opps: u64, att: u64, p: spec_fn(u16) -> bool)
    requires
        forall|f: u64, t: u64|
            f < 64 && t < 64 && has_bit(att, f) && has_bit(spec_pawn(c, f) & opps, t)
                ==> #[trigger] promos_ok((f as u16) | ((t as u16) << 6u16), true, p),
    ensures
        all_of(promo_caps_seq(c, opps, att), p),
    decreases att,
{
    if att != 0 {
        lemma_clear_ls1b(att);
        let from = att.trailing_zeros() as u16;
        lemma_promo_caps_all(c, opps, clear_ls1b(att), p);
        assert forall|t: u64| t < 64 && has_bit(spec_pawn(c, from as u64) & opps, t) implies #[trigger] promos_ok(
            from | ((t as u16) << 6u16),
            true,
            p,
        ) by {
            assert(promos_ok(((from as u64) as u16) | ((t as u16) << 6u16), true, p));
        }
        lemma_promo_targets_all(from, spec_pawn(c, from as u64) & opps, p);
        lemma_all_concat(
            promo_targets_seq(from, spec_pawn(c, from as u64) & opps),
            promo_caps_seq(c, opps, clear_ls1b(att)),
            p,
        );
    }
}

/// En passant captures onto `sq` satisfy `p` when each does.
pub proof fn lemma_ep_all(sq: u16, att: u64, p: spec_fn(u16) -> bool)
    requires
        forall|f: u64| f < 64 && has_bit(att, f) ==> #[trigger] p((f as u16) | (sq << 6u16) | 0x5000u16),
    ensures
        all_of(ep_seq(sq, att), p),
    decreases att,
{
    if att != 0 {
        lemma_clear_ls1b(att);
        let f = att.trailing_zeros() as u64;
        assert(p((f as u16) | (sq << 6u16) | 0x5000u16));
        lemma_ep_all(sq, clear_ls1b(att), p);
        lemma_all_cons(
            (att.trailing_zeros() as u16) | (sq << 6u16) | 0x5000u16,
            ep_seq(sq, clear_ls1b(att)),
            p,
        );
    }
}

pub proof fn lemma_shift_bits(x: u64, f: u64)
    requires
        f < 64,
    ensures
        has_bit(x >> 8u64, f) ==> f < 56 && has_bit(x, (f + 8) as u64),
        has_bit(x << 8u64, f) ==> f >= 8 && has_bit(x, (f - 8) as u64),
{
    assert(f < 64 ==> (has_bit(x >> 8u64, f) ==> f < 56 && has_bit(x, (f + 8) as u64)) && (has_bit(
        x << 8u64,
        f,
    ) ==> f >= 8 && has_bit(x, (f - 8) as u64))) by (bit_vector);
}

pub proof fn lemma_flags()
    ensures
        0u16 & 0x0FFFu16 == 0,
        0x1000u16 & 0x0FFFu16 == 0,
        0x2000u16 & 0x0FFFu16 == 0,
        0x3000u16 & 0x0FFFu16 == 0,
        0x4000u16 & 0x0FFFu16 == 0,
        0x5000u16 & 0x0FFFu16 == 0,
        0x8000u16 & 0x0FFFu16 == 0,
        0x9000u16 & 0x0FFFu16 == 0,
        0xA000u16 & 0x0FFFu16 == 0,
        0xB000u16 & 0x0FFFu16 == 0,
        0xC000u16 & 0x0FFFu16 == 0,
        0xD000u16 & 0x0FFFu16 == 0,
        0xE000u16 & 0x0FFFu16 == 0,
        0xF000u16 & 0x0FFFu16 == 0,
{
    assert(0u16 & 0x0FFFu16 == 0 && 0x1000u16 & 0x0FFFu16 == 0 && 0x2000u16 & 0x0FFFu16 == 0 && 0x3000u16
        & 0x0FFFu16 == 0 && 0x4000u16 & 0x0FFFu16 == 0 && 0x5000u16 & 0x0FFFu16 == 0 && 0x8000u16
        & 0x0FFFu16 == 0 && 0x9000u16 & 0x0FFFu16 == 0 && 0xA000u16 & 0x0FFFu16 == 0 && 0xB000u16
        & 0x0FFFu16 == 0 && 0xC000u16 & 0x0FFFu16 == 0 && 0xD000u16 & 0x0FFFu16 == 0 && 0xE000u16
        & 0x0FFFu16 == 0 && 0xF000u16 & 0x0FFFu16 == 0) by (bit_vector);
}

pub proof fn lemma_castle_encode(f: u16, t: u16, fl: u16)
    requires
        f < 64,
        t < 64,
        fl & 0x0FFF == 0,
    ensures
        fl | (t << 6u16) | f == f | fl | (t << 6u16),
{
    assert(fl | (t << 6u16) | f == f | fl | (t << 6u16)) by (bit_vector);
}

/// What every generated move looks like: it moves a piece of the side to
/// move; a capture lands on an opponent piece; a quiet move, double push or
/// push promotion lands on an empty square; an en passant capture lands on
/// the en passant square; a castling move takes the king to its castling
/// square; the two unused flags never occur; a capture takes a piece that
/// the mover attacks; pawn moves start from a pawn, and a double push passes
/// over an empty square.
pub open spec fn move_shape(v: PositionView, m: u16) -> bool {
    let us = stm_of(v) as int;
    let f = mv_from(m);
    let t = mv_to(m);
    let fl = mv_flag(m);
    &&& has_bit(v.sides[us], f)
    &&& (fl == 0x4000 || fl >= 0xC000) ==> has_bit(v.sides[1 - us], t)
    &&& (fl == 0 || fl == 0x1000 || (0x8000 <= fl && fl < 0xC000)) ==> !has_bit(
        v.sides[0] | v.sides[1],
        t,
    )
    &&& fl == 0x5000 ==> t == v.state.en_passant && v.state.en_passant > 0
    &&& (fl == 0x2000 || fl == 0x3000) ==> {
        &&& t == king_target(us as usize, fl == 0x2000)
        &&& f == king_sq(v, us)
        &&& v.state.castle_rights & right_bit(us as usize, fl == 0x2000) > 0
        &&& can_castle_spec(
            v,
            us as usize,
            fl == 0x2000,
            v.sides[us] ^ v.sides[1 - us],
            piece_of(v, us, 5),
        )
    }
    &&& fl == 0x1000 ==> has_bit(spec_double(us as usize), t)
    &&& fl != 0x6000 && fl != 0x7000
    &&& (fl == 0x4000 || fl >= 0xC000) ==> attacked_spec(v, t, (1 - us) as usize, occ_of(v))
    &&& (fl == 0x1000 || fl == 0x5000 || fl >= 0x8000) ==> has_bit(v.pieces[0], f)
    &&& fl == 0x1000 ==> !has_bit(occ_of(v), ep_victim(us as usize, t))
}

/// The boards of the two sides share no square.
pub open spec fn sides_disjoint(v: PositionView) -> bool {
    v.sides[0] & v.sides[1] == 0
}

proof fn lemma_empty_square(v: PositionView, t: u64)
    requires
        v.sides.len() == 2,
        sides_disjoint(v),
        t < 64,
        has_bit(!(v.sides[stm_of(v) as int] ^ v.sides[1 - stm_of(v)]), t),
    ensures
        !has_bit(v.sides[0] | v.sides[1], t),
{
    lemma_bit_ops(v.sides[0], v.sides[1], t);
    lemma_bit_ops(v.sides[stm_of(v) as int] ^ v.sides[1 - stm_of(v)], 0, t);
    lemma_bit_ops(v.sides[stm_of(v) as int], v.sides[1 - stm_of(v)], t);
    lemma_bit_ops(0, 0, t);
}

/// The boards of the two sides, taken together by `^` or by `|`, agree.
pub proof fn lemma_occ(v: PositionView)
    requires
        v.sides.len() == 2,
        sides_disjoint(v),
    ensures
        v.sides[stm_of(v) as int] ^ v.sides[1 - stm_of(v)] == occ_of(v),
{
    let a = v.sides[0];
    let b = v.sides[1];
    assert(a & b == 0 ==> a ^ b == a | b && b ^ a == a | b) by (bit_vector);
}

/// A piece of kind `pc` of the side to move on `f` that attacks `t` makes
/// `t` attacked for the opponent.
proof fn lemma_attacker(v: PositionView, pc: usize, f: u64, t: u64)
    requires
        gen_ok(v),
        sides_disjoint(v),
        1 <= pc < 6,
        f < 64,
        t < 64,
        has_bit(piece_of(v, stm_of(v) as int, pc as int), f),
        has_bit(piece_attacks(pc, f, occ_of(v)), t),
    ensures
        attacked_spec(v, t, (1 - stm_of(v)) as usize, occ_of(v)),
{
    let us = stm_of(v) as int;
    let occ = occ_of(v);
    let own = v.sides[us];
    assert(v.sides[1 - ((1 - stm_of(v)) as usize)] == own);
    lemma_bit_ops(own, v.pieces[pc as int], f);
    super::consts::lemma_knight_symmetric(f, t);
    super::consts::lemma_king_symmetric(f, t);
    super::consts::lemma_rook_symmetric(f, t, occ);
    super::consts::lemma_bishop_symmetric(f, t, occ);
    let kn = super::consts::spec_knight(t);
    let kg = super::consts::spec_king(t);
    let bi = super::consts::spec_bishop(t, occ);
    let ro = super::consts::spec_rook(t, occ);
    lemma_bit_ops(super::consts::spec_rook(f, occ), super::consts::spec_bishop(f, occ), t);
    if pc == 1 {
        lemma_bit_ops(kn, own, f);
        lemma_bit_ops(kn & own, v.pieces[1], f);
    } else if pc == 5 {
        lemma_bit_ops(kg, own, f);
        lemma_bit_ops(kg & own, v.pieces[5], f);
    } else if pc == 2 || (pc == 4 && has_bit(super::consts::spec_bishop(f, occ), t)) {
        lemma_bit_ops(v.pieces[2], v.pieces[4], f);
        lemma_bit_ops(bi, own, f);
        lemma_bit_ops(bi & own, v.pieces[2] | v.pieces[4], f);
    } else {
        lemma_bit_ops(v.pieces[3], v.pieces[4], f);
        lemma_bit_ops(ro, own, f);
        lemma_bit_ops(ro & own, v.pieces[3] | v.pieces[4], f);
    }
}

/// A pawn of the side to move on `f` whose capture squares hold `t` makes
/// `t` attacked for the opponent.
proof fn lemma_pawn_attacker(v: PositionView, f: u64, t: u64)
    requires
        gen_ok(v),
        f < 64,
        t < 64,
        has_bit(piece_of(v, stm_of(v) as int, 0), f),
        has_bit(spec_pawn(stm_of(v), f), t),
    ensures
        attacked_spec(v, t, (1 - stm_of(v)) as usize, occ_of(v)),
{
    let us = stm_of(v) as int;
    let own = v.sides[us];
    let them = (1 - stm_of(v)) as usize;
    assert(v.sides[1 - them] == own);
    lemma_bit_ops(own, v.pieces[0], f);
    super::consts::lemma_pawn_symmetric(stm_of(v), f, t);
    let pw = spec_pawn(them, t);
    lemma_bit_ops(pw, own, f);
    lemma_bit_ops(pw & own, v.pieces[0], f);
}

/// The side to move's pieces of kind `pc` move as `move_shape` says.
proof fn lemma_shape_pieces(v: PositionView, pc: usize, quiet: bool)
    requires
        gen_ok(v),
        sides_disjoint(v),
        1 <= pc < 6,
    ensures
        all_of(
            piece_moves_seq(
                pc,
                quiet,
                v.sides[stm_of(v) as int] ^ v.sides[1 - stm_of(v)],
                v.sides[1 - stm_of(v)],
                piece_of(v, stm_of(v) as int, pc as int),
            ),
            |m: u16| move_shape(v, m),
        ),
{
    let us = stm_of(v) as int;
    let occ = v.sides[us] ^ v.sides[1 - us];
    let opps = v.sides[1 - us];
    let att = piece_of(v, us, pc as int);
    let p = |m: u16| move_shape(v, m);
    lemma_flags();
    assert forall|f: u64, t: u64|
        f < 64 && t < 64 && has_bit(att, f) && has_bit(piece_attacks(pc, f, occ) & opps, t)
            implies #[trigger] p((f as u16) | 0x4000u16 | ((t as u16) << 6u16)) by {
        lemma_move_encode(f as u16, t as u16, 0x4000u16);
        lemma_bit_ops(v.sides[us], v.pieces[pc as int], f);
        lemma_bit_ops(piece_attacks(pc, f, occ), opps, t);
        lemma_occ(v);
        lemma_attacker(v, pc, f, t);
    }
    assert forall|f: u64, t: u64|
        f < 64 && t < 64 && has_bit(att, f) && has_bit(piece_attacks(pc, f, occ) & !occ, t)
            implies #[trigger] p((f as u16) | 0u16 | ((t as u16) << 6u16)) by {
        lemma_move_encode(f as u16, t as u16, 0u16);
        lemma_bit_ops(v.sides[us], v.pieces[pc as int], f);
        lemma_bit_ops(piece_attacks(pc, f, occ), !occ, t);
        lemma_empty_square(v, t);
    }
    lemma_piece_moves_all(pc, quiet, occ, opps, att, p);
}

/// A push of `amount` squares from `f` lands on a square whose bit is set in
/// `x` whenever `f` is set in `x` shifted back by the push.
proof fn lemma_push_target(side: usize, x: u64, f: u64)
    requires
        side < 2,
        f < 64,
        has_bit(spec_shift(side, x), f),
    ensures
        spec_idx_shift(side, 8, f as u16) < 64,
        has_bit(x, spec_idx_shift(side, 8, f as u16) as u64),
        side == 0 ==> f < 56,
        side == 1 ==> f >= 8,
{
    lemma_shift_bits(x, f);
}

/// The side to move's pawn pushes move as `move_shape` says.
proof fn lemma_shape_pushes(v: PositionView)
    requires
        gen_ok(v),
        sides_disjoint(v),
    ensures
        all_of(
            pawn_pushes_seq(
                stm_of(v),
                v.sides[stm_of(v) as int] ^ v.sides[1 - stm_of(v)],
                piece_of(v, stm_of(v) as int, 0),
            ),
            |m: u16| move_shape(v, m),
        ),
{
    let side = stm_of(v);
    let us = side as int;
    let occ = v.sides[us] ^ v.sides[1 - us];
    let pawns = piece_of(v, us, 0);
    let p = |m: u16| move_shape(v, m);
    let push = single_pushers(side, occ, pawns);
    let pen = spec_penultimate(side);
    lemma_flags();
    assert forall|f: u64| f < 64 && has_bit(push & !pen, f) implies #[trigger] p(
        (f as u16) | (spec_idx_shift(side, 8, f as u16) << 6u16) | 0u16,
    ) by {
        lemma_bit_ops(push, !pen, f);
        lemma_bit_ops(spec_shift(side, !occ), pawns, f);
        lemma_bit_ops(v.sides[us], v.pieces[0], f);
        lemma_push_target(side, !occ, f);
        let t = spec_idx_shift(side, 8, f as u16);
        lemma_move_encode(f as u16, t, 0u16);
        lemma_empty_square(v, t as u64);
    }
    lemma_push_all(side, 8, 0u16, push & !pen, p);
    assert forall|f: u64| f < 64 && has_bit(push & pen, f) implies #[trigger] promos_ok(
        (f as u16) | (spec_idx_shift(side, 8, f as u16) << 6u16),
        false,
        p,
    ) by {
        lemma_bit_ops(push, pen, f);
        lemma_bit_ops(spec_shift(side, !occ), pawns, f);
        lemma_bit_ops(v.sides[us], v.pieces[0], f);
        lemma_push_target(side, !occ, f);
        let t = spec_idx_shift(side, 8, f as u16);
        lemma_move_encode(f as u16, t, 0x8000u16);
        lemma_move_encode(f as u16, t, 0x9000u16);
        lemma_move_encode(f as u16, t, 0xA000u16);
        lemma_move_encode(f as u16, t, 0xB000u16);
        lemma_empty_square(v, t as u64);
    }
    lemma_promo_push_all(side, push & pen, p);
    let dbl = double_pushers(side, occ, pawns);
    assert forall|f: u64| f < 64 && has_bit(dbl, f) implies #[trigger] p(
        (f as u16) | (spec_idx_shift(side, 16, f as u16) << 6u16) | 0x1000u16,
    ) by {
        let y = spec_shift(side, !occ & spec_double(side)) & !occ;
        lemma_bit_ops(spec_shift(side, y), pawns, f);
        lemma_bit_ops(v.sides[us], v.pieces[0], f);
        lemma_push_target(side, y, f);
        let g = spec_idx_shift(side, 8, f as u16) as u64;
        lemma_bit_ops(spec_shift(side, !occ & spec_double(side)), !occ, g);
        lemma_push_target(side, !occ & spec_double(side), g);
        let t = spec_idx_shift(side, 8, g as u16);
        assert(t == spec_idx_shift(side, 16, f as u16));
        lemma_bit_ops(!occ, spec_double(side), t as u64);
        lemma_move_encode(f as u16, t, 0x1000u16);
        assert(has_bit(spec_double(side), t as u64));
        lemma_empty_square(v, t as u64);
        lemma_empty_square(v, g);
        assert(ep_victim(side, t as u64) == g);
    }
    lemma_push_all(side, 16, 0x1000u16, dbl, p);
    lemma_all_concat(push_seq(side, 8, 0u16, push & !pen), promo_push_seq(side, push & pen), p);
    lemma_all_concat(
        push_seq(side, 8, 0u16, push & !pen) + promo_push_seq(side, push & pen),
        push_seq(side, 16, 0x1000u16, dbl),
        p,
    );
}

/// The side to move's pawn captures move as `move_shape` says.
proof fn lemma_shape_captures(v: PositionView)
    requires
        gen_ok(v),
        sides_disjoint(v),
    ensures
        all_of(
            pawn_captures_seq(piece_of(v, stm_of(v) as int, 0), v.sides[1 - stm_of(v)], stm_of(v)),
            |m: u16| move_shape(v, m),
        ),
{
    let side = stm_of(v);
    let us = side as int;
    let opps = v.sides[1 - us];
    let pawns = piece_of(v, us, 0);
    let pen = spec_penultimate(side);
    let p = |m: u16| move_shape(v, m);
    lemma_flags();
    assert forall|f: u64, t: u64|
        f < 64 && t < 64 && has_bit(pawns & !pen, f) && has_bit(spec_pawn(side, f) & opps, t)
            implies #[trigger] p((f as u16) | 0x4000u16 | ((t as u16) << 6u16)) by {
        lemma_bit_ops(pawns, !pen, f);
        lemma_bit_ops(v.sides[us], v.pieces[0], f);
        lemma_bit_ops(spec_pawn(side, f), opps, t);
        lemma_move_encode(f as u16, t as u16, 0x4000u16);
        lemma_pawn_attacker(v, f, t);
    }
    lemma_pawn_caps_all(side, opps, pawns & !pen, p);
    assert forall|f: u64, t: u64|
        f < 64 && t < 64 && has_bit(pawns & pen, f) && has_bit(spec_pawn(side, f) & opps, t)
            implies #[trigger] promos_ok((f as u16) | ((t as u16) << 6u16), true, p) by {
        lemma_bit_ops(pawns, pen, f);
        lemma_bit_ops(v.sides[us], v.pieces[0], f);
        lemma_bit_ops(spec_pawn(side, f), opps, t);
        lemma_move_encode(f as u16, t as u16, 0xC000u16);
        lemma_move_encode(f as u16, t as u16, 0xD000u16);
        lemma_move_encode(f as u16, t as u16, 0xE000u16);
        lemma_move_encode(f as u16, t as u16, 0xF000u16);
        lemma_pawn_attacker(v, f, t);
    }
    lemma_promo_caps_all(side, opps, pawns & pen, p);
    lemma_all_concat(pawn_caps_seq(side, opps, pawns & !pen), promo_caps_seq(side, opps, pawns & pen), p);
}

/// En passant captures move as `move_shape` says.
proof fn lemma_shape_ep(v: PositionView)
    requires
        gen_ok(v),
        v.state.en_passant > 0,
    ensures
        all_of(
            ep_seq(
                v.state.en_passant as u16,
                spec_pawn((1 - stm_of(v)) as usize, v.state.en_passant as u64) & piece_of(
                    v,
                    stm_of(v) as int,
                    0,
                ),
            ),
            |m: u16| move_shape(v, m),
        ),
{
    let side = stm_of(v);
    let us = side as int;
    let ep = v.state.en_passant as u16;
    let att = spec_pawn((1 - side) as usize, ep as u64) & piece_of(v, us, 0);
    let p = |m: u16| move_shape(v, m);
    lemma_flags();
    assert forall|f: u64| f < 64 && has_bit(att, f) implies #[trigger] p(
        (f as u16) | (ep << 6u16) | 0x5000u16,
    ) by {
        lemma_bit_ops(spec_pawn((1 - side) as usize, ep as u64), piece_of(v, us, 0), f);
        lemma_bit_ops(v.sides[us], v.pieces[0], f);
        lemma_move_encode(f as u16, ep, 0x5000u16);
    }
    lemma_ep_all(ep, att, p);
}

/// Castling moves move as `move_shape` says.
proof fn lemma_shape_castles(v: PositionView, occ: u64)
    requires
        gen_ok(v),
        occ == v.sides[stm_of(v) as int] ^ v.sides[1 - stm_of(v)],
    ensures
        all_of(castles_seq(v, occ), |m: u16| move_shape(v, m)),
{
    let side = stm_of(v);
    let kbb = piece_of(v, side as int, 5);
    crate::bits::lemma_ls1b(kbb);
    let ksq = kbb.trailing_zeros() as u16;
    lemma_bit_ops(v.sides[side as int], v.pieces[5], ksq as u64);
    lemma_flags();
    lemma_castle_encode(ksq, king_target(side, false) as u16, 0x3000u16);
    lemma_castle_encode(ksq, king_target(side, true) as u16, 0x2000u16);
    lemma_move_encode(ksq, king_target(side, false) as u16, 0x3000u16);
    lemma_move_encode(ksq, king_target(side, true) as u16, 0x2000u16);
    let s = castles_seq(v, occ);
    assert forall|i: int| 0 <= i < s.len() implies #[trigger] move_shape(v, s[i]) by {
        assert(king_sq(v, side as int) == ksq as u64);
    }
}

/// Every move the generator produces, for a position with a king to move,
/// an en passant square on the board and sides that share no square, has
/// the shape `move_shape` describes.
pub proof fn lemma_generated_moves_shape(v: PositionView, quiet: bool)
    requires
        gen_ok(v),
        sides_disjoint(v),
    ensures
        forall|i: int| 0 <= i < gen_spec(v, quiet).len() ==> #[trigger] move_shape(v, gen_spec(v, quiet)[i]),
{
    reveal(gen_spec);
    let side = stm_of(v);
    let us = side as int;
    let friends = v.sides[us];
    let opps = v.sides[1 - side];
    let occ = friends ^ opps;
    let pawns = piece_of(v, us, 0);
    let ep = v.state.en_passant as u16;
    let p = |m: u16| move_shape(v, m);
    let cs: Seq<u16> = if v.state.castle_rights & super::consts::spec_side_rights(side) > 0
        && !super::position::in_check_spec(v) {
        castles_seq(v, occ)
    } else {
        Seq::empty()
    };
    lemma_shape_castles(v, occ);
    assert(all_of(cs, p));
    lemma_shape_pushes(v);
    lemma_all_concat(cs, pawn_pushes_seq(side, occ, pawns), p);
    let a: Seq<u16> = if quiet {
        cs + pawn_pushes_seq(side, occ, pawns)
    } else {
        Seq::empty()
    };
    assert(all_of(a, p));
    let e: Seq<u16> = if ep > 0 {
        ep_seq(ep, spec_pawn((1 - side) as usize, ep as u64) & pawns)
    } else {
        Seq::empty()
    };
    if ep > 0 {
        lemma_shape_ep(v);
    }
    assert(all_of(e, p));
    lemma_all_concat(a, e, p);
    lemma_shape_captures(v);
    lemma_all_concat(a + e, pawn_captures_seq(pawns, opps, side), p);
    let mut acc = a + e + pawn_captures_seq(pawns, opps, side);
    lemma_shape_pieces(v, 1, quiet);
    lemma_all_concat(acc, piece_moves_seq(1, quiet, occ, opps, piece_of(v, us, 1)), p);
    acc = acc + piece_moves_seq(1, quiet, occ, opps, piece_of(v, us, 1));
    lemma_shape_pieces(v, 2, quiet);
    lemma_all_concat(acc, piece_moves_seq(2, quiet, occ, opps, piece_of(v, us, 2)), p);
    acc = acc + piece_moves_seq(2, quiet, occ, opps, piece_of(v, us, 2));
    lemma_shape_pieces(v, 3, quiet);
    lemma_all_concat(acc, piece_moves_seq(3, quiet, occ, opps, piece_of(v, us, 3)), p);
    acc = acc + piece_moves_seq(3, quiet, occ, opps, piece_of(v, us, 3));
    lemma_shape_pieces(v, 4, quiet);
    lemma_all_concat(acc, piece_moves_seq(4, quiet, occ, opps, piece_of(v, us, 4)), p);
    acc = acc + piece_moves_seq(4, quiet, occ, opps, piece_of(v, us, 4));
    lemma_shape_pieces(v, 5, quiet);
    lemma_all_concat(acc, piece_moves_seq(5, quiet, occ, opps, piece_of(v, us, 5)), p);
    acc = acc + piece_moves_seq(5, quiet, occ, opps, piece_of(v, us, 5));
    assert(acc =~= gen_spec(v, quiet));
    assert forall|i: int| 0 <= i < gen_spec(v, quiet).len() implies #[trigger] move_shape(
        v,
        gen_spec(v, quiet)[i],
    ) by {
        assert(p(acc[i]));
    }
}

// ---------------------------------------------------------------------------
// valid positions

pub open spec fn b2i(b: bool) -> int {
    if b {
        1
    } else {
        0
    }
}

/// Square `q` is empty, or holds exactly one piece of exactly one side.
pub open spec fn sq_ok(v: PositionView, q: u64) -> bool {
    let s0 = has_bit(v.sides[0], q);
    let s1 = has_bit(v.sides[1], q);
    &&& !(s0 && s1)
    &&& b2i(has_bit(v.pieces[0], q)) + b2i(has_bit(v.pieces[1], q)) + b2i(has_bit(v.pieces[2], q)) + b2i(
        has_bit(v.pieces[3], q),
    ) + b2i(has_bit(v.pieces[4], q)) + b2i(has_bit(v.pieces[5], q)) == b2i(s0 || s1)
}

/// Every square is empty or holds exactly one piece of exactly one side.
pub open spec fn board_ok(v: PositionView) -> bool {
    forall|q: u64| q < 64 ==> #[trigger] sq_ok(v, q)
}

/// Kind of the piece on `q`, 6 when empty.
pub open spec fn kind_at(v: PositionView, q: u64) -> int {
    if has_bit(v.pieces[0], q) {
        0
    } else if has_bit(v.pieces[1], q) {
        1
    } else if has_bit(v.pieces[2], q) {
        2
    } else if has_bit(v.pieces[3], q) {
        3
    } else if has_bit(v.pieces[4], q) {
        4
    } else if has_bit(v.pieces[5], q) {
        5
    } else {
        6
    }
}

/// The en passant square is unset, or is the empty square a double-pushed
/// opponent pawn just passed over.
pub open spec fn ep_ok(v: PositionView) -> bool {
    let ep = v.state.en_passant as u64;
    ep == 0 || {
        let us = stm_of(v);
        let victim = if us == 0 { (ep - 8) as u64 } else { (ep + 8) as u64 };
        &&& (us == 0 ==> 40 <= ep < 48)
        &&& (us == 1 ==> 16 <= ep < 24)
        &&& !has_bit(v.sides[0] | v.sides[1], ep)
        &&& has_bit(v.sides[1 - us], victim)
        &&& has_bit(v.pieces[0], victim)
    }
}

/// Each castling right held has its rook on the rook's home square.
pub open spec fn castle_ok(v: PositionView) -> bool {
    forall|s: usize, ks: bool|
        s < 2 && v.state.castle_rights & #[trigger] right_bit(s, ks) > 0 ==> has_bit(
            piece_of(v, s as int, 3),
            super::position::rook_home(v.rooks, s, ks),
        )
}

/// Side `s` has exactly one king.
pub open spec fn king_single(v: PositionView, s: int) -> bool {
    &&& piece_of(v, s, 5) != 0
    &&& piece_of(v, s, 5) == crate::bits::bit(king_sq(v, s))
}

/// The king of the side that has just moved is not attacked.
pub open spec fn opp_safe(v: PositionView) -> bool {
    let them = (1 - stm_of(v)) as usize;
    !attacked_spec(v, king_sq(v, them as int), them, occ_of(v))
}

/// Each castling right held is lost once its king or its rook leaves home:
/// the rights mask clears it on both home squares.
pub open spec fn mask_ok(v: PositionView) -> bool {
    forall|s: usize, ks: bool|
        s < 2 && v.state.castle_rights & #[trigger] right_bit(s, ks) > 0 ==> {
            &&& v.mask[king_sq(v, s as int) as int] & right_bit(s, ks) == 0
            &&& v.mask[rook_home(v.rooks, s, ks) as int] & right_bit(s, ks) == 0
        }
}

/// A position in which every piece stands on its own square, each side has
/// one king, the side that has just moved is not in check, and the en
/// passant square and castling rights are consistent.
pub open spec fn pos_valid(v: PositionView) -> bool {
    &&& gen_ok(v)
    &&& king_single(v, 0)
    &&& king_single(v, 1)
    &&& sides_disjoint(v)
    &&& board_ok(v)
    &&& ep_ok(v)
    &&& castle_ok(v)
    &&& opp_safe(v)
    &&& mask_ok(v)
}

/// On a square that holds at most one piece, the board lookup finds its kind.
pub proof fn lemma_get_piece(v: PositionView, q: u64)
    requires
        super::position::lens_ok(v),
        q < 64,
        sq_ok(v, q),
    ensures
        super::position::get_piece_spec(v.pieces, crate::bits::bit(q), super::position::occ_of(v))
            == kind_at(v, q),
{
    let b = crate::bits::bit(q);
    let p = v.pieces;
    lemma_bit_ops(v.sides[0], v.sides[1], q);
    lemma_bit_ops(super::position::occ_of(v), b, q);
    lemma_bit_ops(p[1] | p[3], p[5], q);
    lemma_bit_ops(p[1], p[3], q);
    lemma_bit_ops(p[2], p[3], q);
    lemma_bit_ops(p[4], p[5], q);
    lemma_bit_ops(p[1] | p[3] | p[5], b, q);
    lemma_bit_ops(p[2] | p[3], b, q);
    lemma_bit_ops(p[4] | p[5], b, q);
    crate::bits::lemma_bit_single(q, q);
    lemma_and_single(super::position::occ_of(v), q);
    lemma_and_single(p[1] | p[3] | p[5], q);
    lemma_and_single(p[2] | p[3], q);
    lemma_and_single(p[4] | p[5], q);
}

proof fn lemma_and_single(x: u64, q: u64)
    requires
        q < 64,
    ensures
        (x & crate::bits::bit(q) > 0) == has_bit(x, q),
        (x & crate::bits::bit(q) == 0) == !has_bit(x, q),
{
    assert(q < 64 ==> ((x & (1u64 << q)) > 0) == ((x >> q) & 1 == 1) && ((x & (1u64 << q)) == 0) == !((x
        >> q) & 1 == 1)) by (bit_vector);
}

/// Bit `q` of the squares a move toggles on the board of piece kind `p`.
pub open spec fn pd_bit(rooks: Seq<u8>, m: u16, side: usize, moved: usize, captured: usize, p: int, q: u64) -> bool {
    let f = mv_from(m);
    let t = mv_to(m);
    let fl = mv_flag(m);
    let ks = fl == 0x2000;
    ((p == moved as int) && ((f == q) != (t == q))) != ((captured != 6 && p == captured as int) && t
        == q) != ((is_castle_flag(fl) && p == 3) && ((rook_home(rooks, side, ks) == q) != (rook_target(
        side,
        ks,
    ) == q))) != ((fl == 0x5000 && p == 0) && ep_victim(side, t) == q) != ((fl >= 0x8000 && p == 0)
        && t == q) != ((fl >= 0x8000 && p == promo_piece(fl)) && t == q)
}

/// Bit `q` of the squares a move toggles on the board of side `s`.
pub open spec fn sd_bit(rooks: Seq<u8>, m: u16, side: usize, captured: usize, s: int, q: u64) -> bool {
    let f = mv_from(m);
    let t = mv_to(m);
    let fl = mv_flag(m);
    let ks = fl == 0x2000;
    ((s == side as int) && ((f == q) != (t == q))) != ((captured != 6 && s == 1 - side) && t == q) != ((
    is_castle_flag(fl) && s == side as int) && ((rook_home(rooks, side, ks) == q) != (rook_target(
        side,
        ks,
    ) == q))) != ((fl == 0x5000 && s == 1 - side) && ep_victim(side, t) == q)
}

/// The squares in range for the deltas of a move.
pub open spec fn delta_squares_ok(rooks: Seq<u8>, m: u16, side: usize) -> bool {
    let t = mv_to(m);
    &&& mv_from(m) < 64
    &&& t < 64
    &&& rooks.len() == 2
    &&& rooks[0] < 8
    &&& rooks[1] < 8
    &&& side < 2
    &&& (mv_flag(m) == 0x5000 ==> ep_victim(side, t) < 64)
}

/// Bit `q` of a piece board's delta.
pub proof fn lemma_pd_bit(rooks: Seq<u8>, m: u16, side: usize, moved: usize, captured: usize, p: int, q: u64)
    requires
        delta_squares_ok(rooks, m, side),
        q < 64,
    ensures
        has_bit(piece_delta(rooks, m, side, moved, captured, p), q) == pd_bit(
            rooks,
            m,
            side,
            moved,
            captured,
            p,
            q,
        ),
{
    let f = mv_from(m);
    let t = mv_to(m);
    let fl = mv_flag(m);
    let ks = fl == 0x2000;
    let h = rook_home(rooks, side, ks);
    let r = rook_target(side, ks);
    let bf = crate::bits::bit(f);
    let bt = crate::bits::bit(t);
    crate::bits::lemma_bit_single(f, q);
    crate::bits::lemma_bit_single(t, q);
    crate::bits::lemma_bit_single(h, q);
    crate::bits::lemma_bit_single(r, q);
    let a1: u64 = if p == moved as int { bf ^ bt } else { 0 };
    let a2: u64 = if captured != 6 && p == captured as int { bt } else { 0 };
    let a3: u64 = if is_castle_flag(fl) && p == 3 {
        crate::bits::bit(h) ^ crate::bits::bit(r)
    } else {
        0
    };
    let a4: u64 = if fl == 0x5000 && p == 0 { crate::bits::bit(ep_victim(side, t)) } else { 0 };
    let a5: u64 = if fl >= 0x8000 && p == 0 { bt } else { 0 };
    let a6: u64 = if fl >= 0x8000 && p == promo_piece(fl) { bt } else { 0 };
    if fl == 0x5000 {
        crate::bits::lemma_bit_single(ep_victim(side, t), q);
    }
    lemma_bit_ops(bf, bt, q);
    lemma_bit_ops(crate::bits::bit(h), crate::bits::bit(r), q);
    lemma_bit_ops(0, 0, q);
    lemma_bit_ops(a1, a2, q);
    lemma_bit_ops(a1 ^ a2, a3, q);
    lemma_bit_ops(a1 ^ a2 ^ a3, a4, q);
    lemma_bit_ops(a1 ^ a2 ^ a3 ^ a4, a5, q);
    lemma_bit_ops(a1 ^ a2 ^ a3 ^ a4 ^ a5, a6, q);
}

/// Bit `q` of a side board's delta.
pub proof fn lemma_sd_bit(rooks: Seq<u8>, m: u16, side: usize, captured: usize, s: int, q: u64)
    requires
        delta_squares_ok(rooks, m, side),
        q < 64,
    ensures
        has_bit(side_delta(rooks, m, side, captured, s), q) == sd_bit(rooks, m, side, captured, s, q),
{
    let f = mv_from(m);
    let t = mv_to(m);
    let fl = mv_flag(m);
    let ks = fl == 0x2000;
    let h = rook_home(rooks, side, ks);
    let r = rook_target(side, ks);
    let bf = crate::bits::bit(f);
    let bt = crate::bits::bit(t);
    crate::bits::lemma_bit_single(f, q);
    crate::bits::lemma_bit_single(t, q);
    crate::bits::lemma_bit_single(h, q);
    crate::bits::lemma_bit_single(r, q);
    let a1: u64 = if s == side as int { bf ^ bt } else { 0 };
    let a2: u64 = if captured != 6 && s == 1 - side { bt } else { 0 };
    let a3: u64 = if is_castle_flag(fl) && s == side as int {
        crate::bits::bit(h) ^ crate::bits::bit(r)
    } else {
        0
    };
    let a4: u64 = if fl == 0x5000 && s == 1 - side { crate::bits::bit(ep_victim(side, t)) } else { 0 };
    if fl == 0x5000 {
        crate::bits::lemma_bit_single(ep_victim(side, t), q);
    }
    lemma_bit_ops(bf, bt, q);
    lemma_bit_ops(crate::bits::bit(h), crate::bits::bit(r), q);
    lemma_bit_ops(0, 0, q);
    lemma_bit_ops(a1, a2, q);
    lemma_bit_ops(a1 ^ a2, a3, q);
    lemma_bit_ops(a1 ^ a2 ^ a3, a4, q);
}

pub proof fn lemma_between_end(a: u64, c: u64)
    requires
        a < 64,
        c < 64,
        a != c,
    ensures
        has_bit(between_spec(crate::bits::bit(a), crate::bits::bit(c)) ^ crate::bits::bit(c), c),
{
    let ba = crate::bits::bit(a);
    let bc = crate::bits::bit(c);
    assert(a < 64 && c < 64 && a != c ==> (((if (1u64 << a) >= (1u64 << c) {
        1u64 << a
    } else {
        1u64 << c
    }) - (if (1u64 << a) >= (1u64 << c) {
        1u64 << c
    } else {
        1u64 << a
    })) as u64 ^ (if (1u64 << a) >= (1u64 << c) {
        1u64 << c
    } else {
        1u64 << a
    }) ^ (1u64 << c)) >> c & 1 == 1) by (bit_vector);
}

pub proof fn lemma_double_rank(side: usize, t: u64)
    requires
        side < 2,
        t < 64,
        has_bit(spec_double(side), t),
    ensures
        side == 0 ==> 24 <= t < 32,
        side == 1 ==> 32 <= t < 40,
{
    assert(t < 64 ==> (has_bit(0xFF000000u64, t) ==> 24 <= t < 32) && (has_bit(0xFF00000000u64, t)
        ==> 32 <= t < 40)) by (bit_vector);
}

pub proof fn lemma_flag_values(m: u16)
    ensures
        mv_flag(m) == 0 || mv_flag(m) == 0x1000 || mv_flag(m) == 0x2000 || mv_flag(m) == 0x3000
            || mv_flag(m) == 0x4000 || mv_flag(m) == 0x5000 || mv_flag(m) == 0x6000 || mv_flag(m)
            == 0x7000 || mv_flag(m) == 0x8000 || mv_flag(m) == 0x9000 || mv_flag(m) == 0xA000
            || mv_flag(m) == 0xB000 || mv_flag(m) == 0xC000 || mv_flag(m) == 0xD000 || mv_flag(m)
            == 0xE000 || mv_flag(m) == 0xF000,
        (mv_flag(m) & 0x4000 == 0) == (mv_flag(m) < 0x4000 || (0x8000 <= mv_flag(m) && mv_flag(m)
            < 0xC000)),
{
    let fl = m & 0xF000;
    assert(fl == m & 0xF000 ==> (fl == 0 || fl == 0x1000 || fl == 0x2000 || fl == 0x3000 || fl == 0x4000
        || fl == 0x5000 || fl == 0x6000 || fl == 0x7000 || fl == 0x8000 || fl == 0x9000 || fl == 0xA000
        || fl == 0xB000 || fl == 0xC000 || fl == 0xD000 || fl == 0xE000 || fl == 0xF000) && ((fl
        & 0x4000 == 0) == (fl < 0x4000 || (0x8000 <= fl && fl < 0xC000)))) by (bit_vector);
}

/// Facts about the squares of a move of the right shape in a valid position.
pub proof fn lemma_move_squares(v: PositionView, m: u16)
    requires
        pos_valid(v),
        move_shape(v, m),
    ensures
        mv_from(m) < 64,
        mv_to(m) < 64,
        moved_of(v, m) == kind_at(v, mv_from(m)),
        kind_at(v, mv_from(m)) < 6,
        !is_castle_flag(mv_flag(m)) ==> !has_bit(v.sides[stm_of(v) as int], mv_to(m)),
        !is_castle_flag(mv_flag(m)) ==> mv_from(m) != mv_to(m),
        captured_of(v, m) <= 6,
        captured_of(v, m) != 6 ==> captured_of(v, m) == kind_at(v, mv_to(m)) && has_bit(
            v.sides[1 - stm_of(v)],
            mv_to(m),
        ),
        !is_castle_flag(mv_flag(m)) ==> (has_bit(v.pieces[5], mv_to(m)) == (captured_of(v, m) == 5)),
        is_castle_flag(mv_flag(m)) ==> captured_of(v, m) == 6,
        mv_flag(m) == 0x5000 ==> (stm_of(v) == 0 ==> mv_to(m) >= 40) && (stm_of(v) == 1 ==> mv_to(m)
            < 24),
        delta_squares_ok(v.rooks, m, stm_of(v)),
        mv_flag(m) == 0x5000 ==> has_bit(v.sides[1 - stm_of(v)], ep_victim(stm_of(v), mv_to(m))),
{
    let us = stm_of(v) as int;
    let f = mv_from(m);
    let t = mv_to(m);
    let fl = mv_flag(m);
    super::position::lemma_move_fields(m);
    lemma_flag_values(m);
    assert(sq_ok(v, f));
    assert(sq_ok(v, t));
    lemma_get_piece(v, f);
    lemma_get_piece(v, t);
    lemma_bit_ops(v.sides[0], v.sides[1], f);
    lemma_bit_ops(v.sides[0], v.sides[1], t);
    lemma_bit_ops(0, 0, t);
    if fl == 0x5000 {
        let ep = v.state.en_passant as u64;
        assert(ep == t);
        let victim = ep_victim(us as usize, t);
        assert(victim < 64);
    }
}

/// Every move of the right shape in a valid position can be made: the
/// precondition of making a move holds for it.
pub proof fn lemma_shaped_move_makeable(v: PositionView, m: u16)
    requires
        pos_valid(v),
        move_shape(v, m),
    ensures
        do_ok(v, m),
{
    let us = stm_of(v) as int;
    let f = mv_from(m);
    let t = mv_to(m);
    let fl = mv_flag(m);
    let ks = fl == 0x2000;
    lemma_move_squares(v, m);
    super::position::lemma_move_fields(m);
    lemma_flag_values(m);
    let moved = moved_of(v, m);
    let captured = captured_of(v, m);
    if fl == 0x1000 {
        lemma_double_rank(us as usize, t);
    }
    let w = make_spec(v, m);
    assert(w.pieces[5] == v.pieces[5] ^ piece_delta(v.rooks, m, us as usize, moved, captured, 5));
    assert(w.sides[us] == v.sides[us] ^ side_delta(v.rooks, m, us as usize, captured, us));
    let k = king_sq(v, us);
    crate::bits::lemma_ls1b(piece_of(v, us, 5));
    lemma_bit_ops(v.sides[us], v.pieces[5], k);
    let q = if moved == 5 {
        t
    } else {
        k
    };
    assert(q < 64);
    lemma_pd_bit(v.rooks, m, us as usize, moved, captured, 5, q);
    lemma_sd_bit(v.rooks, m, us as usize, captured, us, q);
    lemma_bit_ops(v.pieces[5], piece_delta(v.rooks, m, us as usize, moved, captured, 5), q);
    lemma_bit_ops(v.sides[us], side_delta(v.rooks, m, us as usize, captured, us), q);
    assert(sq_ok(v, q));
    assert(sq_ok(v, k));
    if moved == 5 {
        if is_castle_flag(fl) {
            let h = rook_home(v.rooks, us as usize, ks);
            assert(v.state.castle_rights & right_bit(us as usize, ks) > 0);
            assert(has_bit(piece_of(v, us, 3), h));
            lemma_bit_ops(v.sides[us], v.pieces[3], h);
            assert(h < 64);
            assert(sq_ok(v, h));
            assert(f == k);
            if f != t {
                let occ = v.sides[us] ^ v.sides[1 - us];
                let bh = crate::bits::bit(h);
                let mask = between_spec(piece_of(v, us, 5), crate::bits::bit(t)) ^ crate::bits::bit(t);
                lemma_between_end(f, t);
                lemma_bit_ops(occ ^ bh, mask, t);
                lemma_bit_ops(occ, bh, t);
                lemma_bit_ops(v.sides[us], v.sides[1 - us], t);
                lemma_bit_ops(v.sides[0], v.sides[1], t);
                lemma_bit_ops(0, 0, t);
                crate::bits::lemma_bit_single(h, t);
            }
        }
    } else {
        assert(!is_castle_flag(fl));
        assert(kind_at(v, k) == 5);
        assert(f != k);
        assert(t != k);
        if fl == 0x5000 {
            lemma_bit_ops(v.sides[0], v.sides[1], k);
            assert(ep_victim(us as usize, t) != k);
        }
        assert(!pd_bit(v.rooks, m, us as usize, moved, captured, 5, k));
    }
    lemma_bit_ops(w.sides[us], w.pieces[5], q);
    assert(has_bit(w.pieces[5], q));
    assert(has_bit(w.sides[us], q));
    assert(piece_of(w, us, 5) != 0);
    let ctx = super::position::MoveContext { mov: m, moved: moved as u8, captured: captured as u8, state: v.state };
    assert(super::position::ctx_ok(v.rooks, ctx, us as usize));
    assert(lens_ok(v));
}

/// Every move generated in a valid position can be made.
pub proof fn lemma_generated_moves_makeable(v: PositionView, quiet: bool, i: int)
    requires
        pos_valid(v),
        0 <= i < gen_spec(v, quiet).len(),
    ensures
        do_ok(v, gen_spec(v, quiet)[i]),
{
    lemma_generated_moves_shape(v, quiet);
    lemma_shaped_move_makeable(v, gen_spec(v, quiet)[i]);
}

} // verus!
