//! Completeness of move generation: every move the side to move can make by
//! the rules of piece movement (before the check on its own king) is among
//! the generated moves, piece by piece, pawn by pawn, and castling.
use vstd::prelude::*;
use crate::bits::{clear_ls1b, has_bit, lemma_bit_ops, lemma_clear_ls1b};
use super::consts::{spec_double, spec_pawn, spec_penultimate, spec_side_rights, MoveFlag};
use super::position::{
    can_castle_spec, castles_seq, gen_spec, in_check_spec, king_target, occ_of, piece_of,
    right_bit, stm_of, PositionView,
};
use super::movegen::{
    double_pushers, encode_seq, ep_seq, pawn_caps_seq, pawn_captures_seq, pawn_pushes_seq,
    piece_attacks, piece_moves_seq, promo4, promo_caps_seq, promo_push_seq, promo_targets_seq,
    push_seq, single_pushers, spec_idx_shift, spec_shift,
};
use super::laws::{lemma_occ, pos_valid};

verus! {

proof fn lemma_contains_left(a: Seq<u16>, b: Seq<u16>, x: u16)
    requires
        a.contains(x),
    ensures
        (a + b).contains(x),
{
    let i = choose|i: int| 0 <= i < a.len() && a[i] == x;
    assert((a + b)[i] == x);
}

proof fn lemma_contains_right(a: Seq<u16>, b: Seq<u16>, x: u16)
    requires
        b.contains(x),
    ensures
        (a + b).contains(x),
{
    let i = choose|i: int| 0 <= i < b.len() && b[i] == x;
    assert((a + b)[a.len() + i] == x);
}

/// `encode_seq` holds the move to each square of its board.
proof fn lemma_encode_seq_has(base: u16, bb: u64, t: u64)
    requires
        t < 64,
        has_bit(bb, t),
    ensures
        encode_seq(base, bb).contains(base | ((t as u16) << 6u16)),
    decreases bb,
{
    lemma_bit_ops(bb, 0, t);
    lemma_clear_ls1b(bb);
    let head = seq![base | ((bb.trailing_zeros() as u16) << 6u16)];
    let tail = encode_seq(base, clear_ls1b(bb));
    assert(encode_seq(base, bb) == head + tail);
    if t == bb.trailing_zeros() as u64 {
        assert(head[0] == base | ((t as u16) << 6u16));
        assert(head.contains(base | ((t as u16) << 6u16)));
        lemma_contains_left(head, tail, base | ((t as u16) << 6u16));
    } else {
        assert(has_bit(clear_ls1b(bb), t));
        lemma_encode_seq_has(base, clear_ls1b(bb), t);
        lemma_contains_right(head, tail, base | ((t as u16) << 6u16));
    }
}

/// `piece_moves_seq` holds, for each piece of `attackers` and each square it
/// attacks, the capture when the square holds an opponent piece and, when
/// quiet moves are asked for, the quiet move when the square is empty.
proof fn lemma_piece_moves_has(
    pc: usize,
    quiets: bool,
    occ: u64,
    opps: u64,
    attackers: u64,
    f: u64,
    t: u64,
)
    requires
        f < 64,
        t < 64,
        has_bit(attackers, f),
        has_bit(piece_attacks(pc, f, occ), t),
    ensures
        has_bit(opps, t) ==> piece_moves_seq(pc, quiets, occ, opps, attackers).contains(
            ((f as u16) | MoveFlag::CAPTURE) | ((t as u16) << 6u16),
        ),
        quiets && !has_bit(occ, t) ==> piece_moves_seq(pc, quiets, occ, opps, attackers).contains(
            ((f as u16) | MoveFlag::QUIET) | ((t as u16) << 6u16),
        ),
    decreases attackers,
{
    lemma_bit_ops(attackers, 0, f);
    lemma_clear_ls1b(attackers);
    let from = attackers.trailing_zeros() as u16;
    let a = piece_attacks(pc, from as u64, occ);
    let caps = encode_seq(from | MoveFlag::CAPTURE, a & opps);
    let qs = if quiets {
        encode_seq(from | MoveFlag::QUIET, a & !occ)
    } else {
        Seq::empty()
    };
    let rest = piece_moves_seq(pc, quiets, occ, opps, clear_ls1b(attackers));
    assert(piece_moves_seq(pc, quiets, occ, opps, attackers) == caps + qs + rest);
    let cm = ((f as u16) | MoveFlag::CAPTURE) | ((t as u16) << 6u16);
    let qm = ((f as u16) | MoveFlag::QUIET) | ((t as u16) << 6u16);
    if f == attackers.trailing_zeros() as u64 {
        assert(from as u64 == f);
        lemma_bit_ops(a, opps, t);
        lemma_bit_ops(a, !occ, t);
        lemma_bit_ops(occ, 0, t);
        if has_bit(opps, t) {
            lemma_encode_seq_has(from | MoveFlag::CAPTURE, a & opps, t);
            lemma_contains_left(caps, qs, cm);
            lemma_contains_left(caps + qs, rest, cm);
        }
        if quiets && !has_bit(occ, t) {
            lemma_encode_seq_has(from | MoveFlag::QUIET, a & !occ, t);
            lemma_contains_right(caps, qs, qm);
            lemma_contains_left(caps + qs, rest, qm);
        }
    } else {
        assert(has_bit(clear_ls1b(attackers), f));
        lemma_piece_moves_has(pc, quiets, occ, opps, clear_ls1b(attackers), f, t);
        if has_bit(opps, t) {
            lemma_contains_right(caps + qs, rest, cm);
        }
        if quiets && !has_bit(occ, t) {
            lemma_contains_right(caps + qs, rest, qm);
        }
    }
}

/// Every move of a knight, bishop, rook, queen or king of the side to move
/// to a square it attacks is generated, castling aside: the capture of an
/// opponent piece on that square, also when only captures are generated, and
/// the quiet move to that square when it is empty.
pub proof fn lemma_piece_moves_generated(v: PositionView, pc: usize, f: u64, t: u64)
    requires
        pos_valid(v),
        1 <= pc <= 5,
        f < 64,
        t < 64,
        has_bit(piece_of(v, stm_of(v) as int, pc as int), f),
        has_bit(piece_attacks(pc, f, occ_of(v)), t),
    ensures
        has_bit(v.sides[1 - stm_of(v)], t) ==> gen_spec(v, false).contains(
            ((f as u16) | MoveFlag::CAPTURE) | ((t as u16) << 6u16),
        ),
        has_bit(v.sides[1 - stm_of(v)], t) ==> gen_spec(v, true).contains(
            ((f as u16) | MoveFlag::CAPTURE) | ((t as u16) << 6u16),
        ),
        !has_bit(occ_of(v), t) ==> gen_spec(v, true).contains(
            ((f as u16) | MoveFlag::QUIET) | ((t as u16) << 6u16),
        ),
{
    let us = stm_of(v) as int;
    let opps = v.sides[1 - us];
    let occ = v.sides[us] ^ opps;
    lemma_occ(v);
    assert(occ == occ_of(v));
    let attackers = piece_of(v, us, pc as int);
    lemma_piece_moves_has(pc, false, occ, opps, attackers, f, t);
    lemma_piece_moves_has(pc, true, occ, opps, attackers, f, t);
    reveal(gen_spec);
    let cm = ((f as u16) | MoveFlag::CAPTURE) | ((t as u16) << 6u16);
    let qm = ((f as u16) | MoveFlag::QUIET) | ((t as u16) << 6u16);
    assert forall|quiet: bool, m: u16|
        (#[trigger] piece_moves_seq(pc, quiet, occ, opps, attackers).contains(m)) implies gen_spec(
        v,
        quiet,
    ).contains(m) by {
        let side = stm_of(v);
        let pawns = piece_of(v, side as int, 0);
        let ep = v.state.en_passant as u16;
        let p0 = (if quiet {
            (if v.state.castle_rights & spec_side_rights(side) > 0
                && !in_check_spec(v) {
                castles_seq(v, occ)
            } else {
                Seq::empty()
            }) + pawn_pushes_seq(side, occ, pawns)
        } else {
            Seq::empty()
        }) + (if ep > 0 {
            ep_seq(ep, spec_pawn((1 - side) as usize, ep as u64) & pawns)
        } else {
            Seq::empty()
        }) + pawn_captures_seq(pawns, opps, side);
        let s1 = piece_moves_seq(1, quiet, occ, opps, piece_of(v, side as int, 1));
        let s2 = piece_moves_seq(2, quiet, occ, opps, piece_of(v, side as int, 2));
        let s3 = piece_moves_seq(3, quiet, occ, opps, piece_of(v, side as int, 3));
        let s4 = piece_moves_seq(4, quiet, occ, opps, piece_of(v, side as int, 4));
        let s5 = piece_moves_seq(5, quiet, occ, opps, piece_of(v, side as int, 5));
        assert(gen_spec(v, quiet) == p0 + s1 + s2 + s3 + s4 + s5);
        if pc == 1 {
            lemma_contains_right(p0, s1, m);
            lemma_contains_left(p0 + s1, s2, m);
            lemma_contains_left(p0 + s1 + s2, s3, m);
            lemma_contains_left(p0 + s1 + s2 + s3, s4, m);
            lemma_contains_left(p0 + s1 + s2 + s3 + s4, s5, m);
        } else if pc == 2 {
            lemma_contains_right(p0 + s1, s2, m);
            lemma_contains_left(p0 + s1 + s2, s3, m);
            lemma_contains_left(p0 + s1 + s2 + s3, s4, m);
            lemma_contains_left(p0 + s1 + s2 + s3 + s4, s5, m);
        } else if pc == 3 {
            lemma_contains_right(p0 + s1 + s2, s3, m);
            lemma_contains_left(p0 + s1 + s2 + s3, s4, m);
            lemma_contains_left(p0 + s1 + s2 + s3 + s4, s5, m);
        } else if pc == 4 {
            lemma_contains_right(p0 + s1 + s2 + s3, s4, m);
            lemma_contains_left(p0 + s1 + s2 + s3 + s4, s5, m);
        } else {
            lemma_contains_right(p0 + s1 + s2 + s3 + s4, s5, m);
        }
    }
}

/// The moves of `gen_spec` before the pieces other than pawns: castling and
/// pawn pushes (quiet moves only), en passant, then pawn captures.
spec fn gen_front(v: PositionView, quiet: bool) -> (Seq<u16>, Seq<u16>, Seq<u16>) {
    let side = stm_of(v);
    let friends = v.sides[side as int];
    let opps = v.sides[1 - side];
    let occ = friends ^ opps;
    let pawns = piece_of(v, side as int, 0);
    let ep = v.state.en_passant as u16;
    (
        (if quiet {
            (if v.state.castle_rights & spec_side_rights(side) > 0 && !in_check_spec(v) {
                castles_seq(v, occ)
            } else {
                Seq::empty()
            }) + pawn_pushes_seq(side, occ, pawns)
        } else {
            Seq::empty()
        }),
        (if ep > 0 {
            ep_seq(ep, spec_pawn((1 - side) as usize, ep as u64) & pawns)
        } else {
            Seq::empty()
        }),
        pawn_captures_seq(pawns, opps, side),
    )
}

/// Whatever the front of `gen_spec` holds, `gen_spec` holds.
proof fn lemma_front_in_gen(v: PositionView, quiet: bool, m: u16)
    requires
        gen_front(v, quiet).0.contains(m) || gen_front(v, quiet).1.contains(m) || gen_front(
            v,
            quiet,
        ).2.contains(m),
    ensures
        gen_spec(v, quiet).contains(m),
{
    reveal(gen_spec);
    let side = stm_of(v);
    let opps = v.sides[1 - side];
    let occ = v.sides[side as int] ^ opps;
    let (a, b, c) = gen_front(v, quiet);
    let s1 = piece_moves_seq(1, quiet, occ, opps, piece_of(v, side as int, 1));
    let s2 = piece_moves_seq(2, quiet, occ, opps, piece_of(v, side as int, 2));
    let s3 = piece_moves_seq(3, quiet, occ, opps, piece_of(v, side as int, 3));
    let s4 = piece_moves_seq(4, quiet, occ, opps, piece_of(v, side as int, 4));
    let s5 = piece_moves_seq(5, quiet, occ, opps, piece_of(v, side as int, 5));
    assert(gen_spec(v, quiet) == a + b + c + s1 + s2 + s3 + s4 + s5);
    if a.contains(m) {
        lemma_contains_left(a, b, m);
        lemma_contains_left(a + b, c, m);
    } else if b.contains(m) {
        lemma_contains_right(a, b, m);
        lemma_contains_left(a + b, c, m);
    } else {
        lemma_contains_right(a + b, c, m);
    }
    lemma_contains_left(a + b + c, s1, m);
    lemma_contains_left(a + b + c + s1, s2, m);
    lemma_contains_left(a + b + c + s1 + s2, s3, m);
    lemma_contains_left(a + b + c + s1 + s2 + s3, s4, m);
    lemma_contains_left(a + b + c + s1 + s2 + s3 + s4, s5, m);
}

/// `pawn_caps_seq` holds each capture of a pawn of `att` onto an opponent
/// piece it attacks.
proof fn lemma_pawn_caps_has(c: usize, opps: u64, att: u64, f: u64, t: u64)
    requires
        f < 64,
        t < 64,
        has_bit(att, f),
        has_bit(spec_pawn(c, f), t),
        has_bit(opps, t),
    ensures
        pawn_caps_seq(c, opps, att).contains(((f as u16) | MoveFlag::CAPTURE) | ((t as u16) << 6u16)),
    decreases att,
{
    lemma_bit_ops(att, 0, f);
    lemma_clear_ls1b(att);
    let from = att.trailing_zeros() as u16;
    let head = encode_seq(from | MoveFlag::CAPTURE, spec_pawn(c, from as u64) & opps);
    let rest = pawn_caps_seq(c, opps, clear_ls1b(att));
    let m = ((f as u16) | MoveFlag::CAPTURE) | ((t as u16) << 6u16);
    assert(pawn_caps_seq(c, opps, att) == head + rest);
    if f == att.trailing_zeros() as u64 {
        assert(from as u64 == f);
        lemma_bit_ops(spec_pawn(c, f), opps, t);
        lemma_encode_seq_has(from | MoveFlag::CAPTURE, spec_pawn(c, from as u64) & opps, t);
        lemma_contains_left(head, rest, m);
    } else {
        assert(has_bit(clear_ls1b(att), f));
        lemma_pawn_caps_has(c, opps, clear_ls1b(att), f, t);
        lemma_contains_right(head, rest, m);
    }
}

/// `promo_targets_seq` holds the four promotions onto each square of its board.
proof fn lemma_promo_targets_has(f: u16, bb: u64, t: u64, i: int)
    requires
        t < 64,
        has_bit(bb, t),
        0 <= i < 4,
    ensures
        promo_targets_seq(f, bb).contains(promo4(f | ((t as u16) << 6u16), true)[i]),
    decreases bb,
{
    lemma_bit_ops(bb, 0, t);
    lemma_clear_ls1b(bb);
    let head = promo4(f | ((bb.trailing_zeros() as u16) << 6u16), true);
    let rest = promo_targets_seq(f, clear_ls1b(bb));
    let m = promo4(f | ((t as u16) << 6u16), true)[i];
    assert(promo_targets_seq(f, bb) == head + rest);
    if t == bb.trailing_zeros() as u64 {
        assert(head[i] == m);
        lemma_contains_left(head, rest, m);
    } else {
        assert(has_bit(clear_ls1b(bb), t));
        lemma_promo_targets_has(f, clear_ls1b(bb), t, i);
        lemma_contains_right(head, rest, m);
    }
}

/// `promo_caps_seq` holds the four promotions of each capture of a pawn of
/// `promo` onto an opponent piece it attacks.
proof fn lemma_promo_caps_has(c: usize, opps: u64, promo: u64, f: u64, t: u64, i: int)
    requires
        f < 64,
        t < 64,
        has_bit(promo, f),
        has_bit(spec_pawn(c, f), t),
        has_bit(opps, t),
        0 <= i < 4,
    ensures
        promo_caps_seq(c, opps, promo).contains(promo4((f as u16) | ((t as u16) << 6u16), true)[i]),
    decreases promo,
{
    lemma_bit_ops(promo, 0, f);
    lemma_clear_ls1b(promo);
    let from = promo.trailing_zeros() as u16;
    let head = promo_targets_seq(from, spec_pawn(c, from as u64) & opps);
    let rest = promo_caps_seq(c, opps, clear_ls1b(promo));
    let m = promo4((f as u16) | ((t as u16) << 6u16), true)[i];
    assert(promo_caps_seq(c, opps, promo) == head + rest);
    if f == promo.trailing_zeros() as u64 {
        assert(from as u64 == f);
        lemma_bit_ops(spec_pawn(c, f), opps, t);
        lemma_promo_targets_has(from, spec_pawn(c, from as u64) & opps, t, i);
        lemma_contains_left(head, rest, m);
    } else {
        assert(has_bit(clear_ls1b(promo), f));
        lemma_promo_caps_has(c, opps, clear_ls1b(promo), f, t, i);
        lemma_contains_right(head, rest, m);
    }
}

/// Every pawn capture of the side to move is generated, also when only
/// captures are generated: from a pawn onto an opponent piece it attacks, a
/// plain capture below the last rank but one and the four promoting captures
/// from that rank.
pub proof fn lemma_pawn_captures_generated(v: PositionView, quiet: bool, f: u64, t: u64)
    requires
        pos_valid(v),
        f < 64,
        t < 64,
        has_bit(piece_of(v, stm_of(v) as int, 0), f),
        has_bit(spec_pawn(stm_of(v), f), t),
        has_bit(v.sides[1 - stm_of(v)], t),
    ensures
        !has_bit(spec_penultimate(stm_of(v)), f) ==> gen_spec(v, quiet).contains(
            ((f as u16) | MoveFlag::CAPTURE) | ((t as u16) << 6u16),
        ),
        has_bit(spec_penultimate(stm_of(v)), f) ==> forall|i: int|
            0 <= i < 4 ==> gen_spec(v, quiet).contains(
                #[trigger] promo4((f as u16) | ((t as u16) << 6u16), true)[i],
            ),
{
    let side = stm_of(v);
    let pawns = piece_of(v, side as int, 0);
    let opps = v.sides[1 - side];
    let pen = spec_penultimate(side);
    let caps = pawn_caps_seq(side, opps, pawns & !pen);
    let promos = promo_caps_seq(side, opps, pawns & pen);
    assert(gen_front(v, quiet).2 == caps + promos);
    lemma_bit_ops(pawns, pen, f);
    lemma_bit_ops(pawns, !pen, f);
    lemma_bit_ops(pen, 0, f);
    if !has_bit(pen, f) {
        let m = ((f as u16) | MoveFlag::CAPTURE) | ((t as u16) << 6u16);
        lemma_pawn_caps_has(side, opps, pawns & !pen, f, t);
        lemma_contains_left(caps, promos, m);
        lemma_front_in_gen(v, quiet, m);
    } else {
        assert forall|i: int| 0 <= i < 4 implies gen_spec(v, quiet).contains(
            #[trigger] promo4((f as u16) | ((t as u16) << 6u16), true)[i],
        ) by {
            let m = promo4((f as u16) | ((t as u16) << 6u16), true)[i];
            lemma_promo_caps_has(side, opps, pawns & pen, f, t, i);
            lemma_contains_right(caps, promos, m);
            lemma_front_in_gen(v, quiet, m);
        }
    }
}

/// `ep_seq` holds the en passant capture of each pawn of `att`.
proof fn lemma_ep_has(sq: u16, att: u64, f: u64)
    requires
        f < 64,
        has_bit(att, f),
    ensures
        ep_seq(sq, att).contains((f as u16) | (sq << 6u16) | MoveFlag::EN_PASSANT),
    decreases att,
{
    lemma_bit_ops(att, 0, f);
    lemma_clear_ls1b(att);
    let head = seq![(att.trailing_zeros() as u16) | (sq << 6u16) | MoveFlag::EN_PASSANT];
    let rest = ep_seq(sq, clear_ls1b(att));
    let m = (f as u16) | (sq << 6u16) | MoveFlag::EN_PASSANT;
    assert(ep_seq(sq, att) == head + rest);
    if f == att.trailing_zeros() as u64 {
        assert(head[0] == m);
        lemma_contains_left(head, rest, m);
    } else {
        assert(has_bit(clear_ls1b(att), f));
        lemma_ep_has(sq, clear_ls1b(att), f);
        lemma_contains_right(head, rest, m);
    }
}

/// Every en passant capture of the side to move is generated, also when only
/// captures are generated: from each of its pawns that attacks the en passant
/// square, when there is one.
pub proof fn lemma_en_passant_generated(v: PositionView, quiet: bool, f: u64)
    requires
        pos_valid(v),
        v.state.en_passant > 0,
        f < 64,
        has_bit(piece_of(v, stm_of(v) as int, 0), f),
        has_bit(spec_pawn((1 - stm_of(v)) as usize, v.state.en_passant as u64), f),
    ensures
        gen_spec(v, quiet).contains(
            (f as u16) | ((v.state.en_passant as u16) << 6u16) | MoveFlag::EN_PASSANT,
        ),
{
    let side = stm_of(v);
    let pawns = piece_of(v, side as int, 0);
    let ep = v.state.en_passant as u16;
    let att = spec_pawn((1 - side) as usize, ep as u64) & pawns;
    lemma_bit_ops(spec_pawn((1 - side) as usize, ep as u64), pawns, f);
    assert(ep > 0);
    assert(gen_front(v, quiet).1 == ep_seq(ep, att));
    lemma_ep_has(ep, att, f);
    lemma_front_in_gen(v, quiet, (f as u16) | (ep << 6u16) | MoveFlag::EN_PASSANT);
}

/// Every castling move open to the side to move is generated with the quiet
/// moves: when it is not in check, keeps the right, and the squares the king
/// and rook cross are free and the king's path is safe.
pub proof fn lemma_castling_generated(v: PositionView, ks: bool)
    requires
        pos_valid(v),
        !in_check_spec(v),
        v.state.castle_rights & right_bit(stm_of(v), ks) > 0,
        can_castle_spec(
            v,
            stm_of(v),
            ks,
            occ_of(v),
            piece_of(v, stm_of(v) as int, 5),
        ),
    ensures
        gen_spec(v, true).contains(
            (if ks {
                0x2000u16
            } else {
                0x3000u16
            }) | ((king_target(stm_of(v), ks) as u16) << 6u16) | (piece_of(
                v,
                stm_of(v) as int,
                5,
            ).trailing_zeros() as u16),
        ),
{
    let side = stm_of(v);
    let r = v.state.castle_rights;
    let occ = v.sides[side as int] ^ v.sides[1 - side];
    lemma_occ(v);
    assert(occ == occ_of(v));
    assert((r & 4u8 > 0 || r & 8u8 > 0 ==> r & 12u8 > 0) && (r & 1u8 > 0 || r & 2u8 > 0 ==> r & 3u8
        > 0)) by (bit_vector);
    assert(r & spec_side_rights(side) > 0);
    let kbb = piece_of(v, side as int, 5);
    let ksq = kbb.trailing_zeros() as u16;
    let qs = if r & right_bit(side, false) > 0 && can_castle_spec(v, side, false, occ, kbb) {
        seq![0x3000u16 | ((king_target(side, false) as u16) << 6u16) | ksq]
    } else {
        Seq::empty()
    };
    let kss = if r & right_bit(side, true) > 0 && can_castle_spec(v, side, true, occ, kbb) {
        seq![0x2000u16 | ((king_target(side, true) as u16) << 6u16) | ksq]
    } else {
        Seq::empty()
    };
    let m = (if ks {
        0x2000u16
    } else {
        0x3000u16
    }) | ((king_target(side, ks) as u16) << 6u16) | ksq;
    assert(castles_seq(v, occ) == qs + kss);
    if ks {
        assert(kss[0] == m);
        lemma_contains_right(qs, kss, m);
    } else {
        assert(qs[0] == m);
        lemma_contains_left(qs, kss, m);
    }
    let pushes = pawn_pushes_seq(side, occ, piece_of(v, side as int, 0));
    lemma_contains_left(castles_seq(v, occ), pushes, m);
    assert(gen_front(v, true).0 == castles_seq(v, occ) + pushes);
    lemma_front_in_gen(v, true, m);
}

/// Moving a board one rank moves each of its squares one rank.
proof fn lemma_shift_rank(x: u64, f: u64)
    requires
        f < 64,
    ensures
        f + 8 < 64 ==> has_bit(x >> 8u64, f) == has_bit(x, (f + 8) as u64),
        f >= 8 ==> has_bit(x << 8u64, f) == has_bit(x, (f - 8) as u64),
{
    assert((f + 8 < 64 ==> ((x >> 8u64) >> f) & 1 == (x >> ((f + 8) as u64)) & 1) && (f >= 8 ==> ((x
        << 8u64) >> f) & 1 == (x >> ((f - 8) as u64)) & 1)) by (bit_vector)
        requires
            f < 64,
    ;
}

/// The square `n` ranks ahead of `f` for `side`.
pub open spec fn ahead(side: usize, f: u64, n: u64) -> int {
    if side == 0 {
        f + 8 * n
    } else {
        f - 8 * n
    }
}

/// A board moved one rank back for `side` holds `f` when the board holds the
/// square one rank ahead of `f`.
proof fn lemma_shift_ahead(side: usize, x: u64, f: u64)
    requires
        side < 2,
        f < 64,
        0 <= ahead(side, f, 1) < 64,
    ensures
        has_bit(spec_shift(side, x), f) == has_bit(x, ahead(side, f, 1) as u64),
{
    lemma_shift_rank(x, f);
}

/// `push_seq` holds the push of each pawn of its board.
proof fn lemma_push_seq_has(side: usize, amount: u16, flag: u16, bb: u64, f: u64)
    requires
        f < 64,
        has_bit(bb, f),
    ensures
        push_seq(side, amount, flag, bb).contains(
            (f as u16) | (spec_idx_shift(side, amount, f as u16) << 6u16) | flag,
        ),
    decreases bb,
{
    lemma_bit_ops(bb, 0, f);
    lemma_clear_ls1b(bb);
    let from = bb.trailing_zeros() as u16;
    let head = seq![from | (spec_idx_shift(side, amount, from) << 6u16) | flag];
    let rest = push_seq(side, amount, flag, clear_ls1b(bb));
    let m = (f as u16) | (spec_idx_shift(side, amount, f as u16) << 6u16) | flag;
    assert(push_seq(side, amount, flag, bb) == head + rest);
    if f == bb.trailing_zeros() as u64 {
        assert(from == f as u16);
        assert(head[0] == m);
        lemma_contains_left(head, rest, m);
    } else {
        assert(has_bit(clear_ls1b(bb), f));
        lemma_push_seq_has(side, amount, flag, clear_ls1b(bb), f);
        lemma_contains_right(head, rest, m);
    }
}

/// `promo_push_seq` holds the four promotions of each pawn of its board.
proof fn lemma_promo_push_has(side: usize, bb: u64, f: u64, i: int)
    requires
        f < 64,
        has_bit(bb, f),
        0 <= i < 4,
    ensures
        promo_push_seq(side, bb).contains(
            promo4((f as u16) | (spec_idx_shift(side, 8, f as u16) << 6u16), false)[i],
        ),
    decreases bb,
{
    lemma_bit_ops(bb, 0, f);
    lemma_clear_ls1b(bb);
    let from = bb.trailing_zeros() as u16;
    let head = promo4(from | (spec_idx_shift(side, 8, from) << 6u16), false);
    let rest = promo_push_seq(side, clear_ls1b(bb));
    let m = promo4((f as u16) | (spec_idx_shift(side, 8, f as u16) << 6u16), false)[i];
    assert(promo_push_seq(side, bb) == head + rest);
    if f == bb.trailing_zeros() as u64 {
        assert(from == f as u16);
        assert(head[i] == m);
        lemma_contains_left(head, rest, m);
    } else {
        assert(has_bit(clear_ls1b(bb), f));
        lemma_promo_push_has(side, clear_ls1b(bb), f, i);
        lemma_contains_right(head, rest, m);
    }
}

/// Whatever the pawn pushes hold is generated with the quiet moves.
proof fn lemma_pushes_in_gen(v: PositionView, m: u16)
    requires
        pawn_pushes_seq(
            stm_of(v),
            v.sides[stm_of(v) as int] ^ v.sides[1 - stm_of(v)],
            piece_of(v, stm_of(v) as int, 0),
        ).contains(m),
    ensures
        gen_spec(v, true).contains(m),
{
    let side = stm_of(v);
    let occ = v.sides[side as int] ^ v.sides[1 - side];
    let cs = if v.state.castle_rights & spec_side_rights(side) > 0 && !in_check_spec(v) {
        castles_seq(v, occ)
    } else {
        Seq::empty()
    };
    let pushes = pawn_pushes_seq(side, occ, piece_of(v, side as int, 0));
    assert(gen_front(v, true).0 == cs + pushes);
    lemma_contains_right(cs, pushes, m);
    lemma_front_in_gen(v, true, m);
}

/// Every pawn push of the side to move onto an empty square is generated with
/// the quiet moves: the single push below the last rank but one, the four
/// promotions from that rank, and the double push from the starting rank
/// when both squares ahead are empty.
pub proof fn lemma_pawn_pushes_generated(v: PositionView, f: u64)
    requires
        pos_valid(v),
        f < 64,
        has_bit(piece_of(v, stm_of(v) as int, 0), f),
        0 <= ahead(stm_of(v), f, 1) < 64,
        !has_bit(occ_of(v), ahead(stm_of(v), f, 1) as u64),
    ensures
        !has_bit(spec_penultimate(stm_of(v)), f) ==> gen_spec(v, true).contains(
            (f as u16) | ((ahead(stm_of(v), f, 1) as u16) << 6u16) | MoveFlag::QUIET,
        ),
        has_bit(spec_penultimate(stm_of(v)), f) ==> forall|i: int|
            0 <= i < 4 ==> gen_spec(v, true).contains(
                #[trigger] promo4((f as u16) | ((ahead(stm_of(v), f, 1) as u16) << 6u16), false)[i],
            ),
        0 <= ahead(stm_of(v), f, 2) < 64 && has_bit(spec_double(stm_of(v)), ahead(stm_of(v), f, 2) as u64)
            && !has_bit(occ_of(v), ahead(stm_of(v), f, 2) as u64) ==> gen_spec(v, true).contains(
            (f as u16) | ((ahead(stm_of(v), f, 2) as u16) << 6u16) | MoveFlag::DBL_PUSH,
        ),
{
    let side = stm_of(v);
    let occ = v.sides[side as int] ^ v.sides[1 - side];
    lemma_occ(v);
    assert(occ == occ_of(v));
    let pawns = piece_of(v, side as int, 0);
    let pen = spec_penultimate(side);
    let t1 = ahead(side, f, 1) as u64;
    let push = single_pushers(side, occ, pawns);
    lemma_shift_ahead(side, !occ, f);
    lemma_bit_ops(occ, 0, t1);
    lemma_bit_ops(spec_shift(side, !occ), pawns, f);
    assert(has_bit(push, f));
    assert(spec_idx_shift(side, 8, f as u16) == t1 as u16);
    lemma_bit_ops(push, pen, f);
    lemma_bit_ops(push, !pen, f);
    lemma_bit_ops(pen, 0, f);
    let s1 = push_seq(side, 8, MoveFlag::QUIET, push & !pen);
    let s2 = promo_push_seq(side, push & pen);
    let s3 = push_seq(side, 16, MoveFlag::DBL_PUSH, double_pushers(side, occ, pawns));
    assert(pawn_pushes_seq(side, occ, pawns) == s1 + s2 + s3);
    if !has_bit(pen, f) {
        let m = (f as u16) | ((t1 as u16) << 6u16) | MoveFlag::QUIET;
        lemma_push_seq_has(side, 8, MoveFlag::QUIET, push & !pen, f);
        lemma_contains_left(s1, s2, m);
        lemma_contains_left(s1 + s2, s3, m);
        lemma_pushes_in_gen(v, m);
    } else {
        assert forall|i: int| 0 <= i < 4 implies gen_spec(v, true).contains(
            #[trigger] promo4((f as u16) | ((t1 as u16) << 6u16), false)[i],
        ) by {
            let m = promo4((f as u16) | ((t1 as u16) << 6u16), false)[i];
            lemma_promo_push_has(side, push & pen, f, i);
            lemma_contains_right(s1, s2, m);
            lemma_contains_left(s1 + s2, s3, m);
            lemma_pushes_in_gen(v, m);
        }
    }
    let t2 = ahead(side, f, 2);
    if 0 <= t2 < 64 && has_bit(spec_double(side), t2 as u64) && !has_bit(occ_of(v), t2 as u64) {
        let e = !occ & spec_double(side);
        lemma_bit_ops(occ, 0, t2 as u64);
        lemma_bit_ops(!occ, spec_double(side), t2 as u64);
        lemma_shift_ahead(side, e, t1);
        assert(ahead(side, t1, 1) == t2);
        lemma_bit_ops(spec_shift(side, e), !occ, t1);
        lemma_shift_ahead(side, spec_shift(side, e) & !occ, f);
        lemma_bit_ops(spec_shift(side, spec_shift(side, e) & !occ), pawns, f);
        assert(has_bit(double_pushers(side, occ, pawns), f));
        assert(spec_idx_shift(side, 16, f as u16) == t2 as u16);
        let m = (f as u16) | ((t2 as u16) << 6u16) | MoveFlag::DBL_PUSH;
        lemma_push_seq_has(side, 16, MoveFlag::DBL_PUSH, double_pushers(side, occ, pawns), f);
        lemma_contains_right(s1 + s2, s3, m);
        lemma_pushes_in_gen(v, m);
    }
}

} // verus!
