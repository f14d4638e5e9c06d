//! Move generation lists each move once: no move appears twice among the
//! generated moves of a position.
use vstd::prelude::*;
use crate::bits::{clear_ls1b, has_bit, lemma_bit_ops, lemma_clear_ls1b};
use super::position::{lemma_move_encode, mv_flag, mv_from, mv_to};
use super::consts::{spec_double, spec_pawn, spec_penultimate, spec_side_rights};
use super::movegen::{
    double_pushers, encode_seq, ep_seq, pawn_caps_seq, pawn_captures_seq, pawn_pushes_seq,
    piece_attacks, piece_moves_seq, promo4, promo_caps_seq, promo_push_seq, promo_targets_seq,
    push_seq, single_pushers, spec_idx_shift, spec_shift,
};
use super::position::{
    castles_seq, gen_spec, in_check_spec, king_target, piece_of, right_bit, can_castle_spec, stm_of,
    PositionView,
};
use super::laws::{all_of, b2i, lemma_castle_encode, lemma_flags, lemma_shift_bits, pos_valid, sq_ok};

verus! {

/// No move satisfies both `p` and `q`.
pub open spec fn exclusive(p: spec_fn(u16) -> bool, q: spec_fn(u16) -> bool) -> bool {
    forall|m: u16| !(#[trigger] p(m) && q(m))
}

/// Two lists without repeats, whose moves fall under exclusive predicates,
/// make a list without repeats.
proof fn lemma_concat_distinct(a: Seq<u16>, b: Seq<u16>, p: spec_fn(u16) -> bool, q: spec_fn(u16) -> bool)
    requires
        a.no_duplicates(),
        b.no_duplicates(),
        all_of(a, p),
        all_of(b, q),
        exclusive(p, q),
    ensures
        (a + b).no_duplicates(),
        all_of(a + b, |m: u16| p(m) || q(m)),
{
    let s = a + b;
    assert forall|i: int, j: int| 0 <= i < s.len() && 0 <= j < s.len() && i != j implies s[i] != s[j] by {
        if i < a.len() && j < a.len() {
        } else if i >= a.len() && j >= a.len() {
            assert(s[i] == b[i - a.len()] && s[j] == b[j - a.len()]);
        } else if i < a.len() {
            assert(p(s[i]) && q(s[j]));
            assert(!(p(s[j]) && q(s[j])));
        } else {
            assert(q(s[i]) && p(s[j]));
            assert(!(p(s[i]) && q(s[i])));
        }
    }
    assert forall|i: int| 0 <= i < s.len() implies p(#[trigger] s[i]) || q(s[i]) by {
        if i < a.len() {
            assert(p(a[i]));
        } else {
            assert(q(b[i - a.len()]));
        }
    }
}

proof fn lemma_all_in_weaken(s: Seq<u16>, p: spec_fn(u16) -> bool, q: spec_fn(u16) -> bool)
    requires
        all_of(s, p),
        forall|m: u16| #[trigger] p(m) ==> q(m),
    ensures
        all_of(s, q),
{
    assert forall|i: int| 0 <= i < s.len() implies #[trigger] q(s[i]) by {
        assert(p(s[i]));
    }
}

/// The moves of `encode_seq(f | fl, bb)` go from `f` with flag `fl` to the
/// squares of `bb`, each once.
proof fn lemma_encode_distinct(f: u16, fl: u16, bb: u64)
    requires
        f < 64,
        fl & 0x0FFF == 0,
    ensures
        encode_seq(f | fl, bb).no_duplicates(),
        all_of(
            encode_seq(f | fl, bb),
            |m: u16| mv_from(m) == f && mv_flag(m) == fl && has_bit(bb, mv_to(m)),
        ),
    decreases bb,
{
    let p = |m: u16| mv_from(m) == f && mv_flag(m) == fl && has_bit(bb, mv_to(m));
    if bb == 0 {
        assert(encode_seq(f | fl, bb) =~= Seq::<u16>::empty());
    } else {
        lemma_clear_ls1b(bb);
        let t = bb.trailing_zeros() as u16;
        let rb = clear_ls1b(bb);
        lemma_encode_distinct(f, fl, rb);
        lemma_move_encode(f, t, fl);
        let head = seq![(f | fl) | (t << 6u16)];
        let rest = encode_seq(f | fl, rb);
        assert(encode_seq(f | fl, bb) == head + rest);
        let pr = |m: u16| mv_from(m) == f && mv_flag(m) == fl && has_bit(rb, mv_to(m));
        let ph = |m: u16| mv_from(m) == f && mv_flag(m) == fl && mv_to(m) == t as u64;
        assert(all_of(head, ph));
        assert(head.no_duplicates());
        assert forall|m: u16| !(#[trigger] ph(m) && pr(m)) by {}
        lemma_concat_distinct(head, rest, ph, pr);
        assert forall|m: u16| ph(m) || pr(m) implies #[trigger] p(m) by {
            if pr(m) {
                assert(mv_to(m) < 64) by {
                    crate::state::position::lemma_move_fields(m);
                }
            }
        }
        lemma_all_in_weaken(head + rest, |m: u16| ph(m) || pr(m), p);
    }
}

/// The moves of `piece_moves_seq` go from the squares of `attackers`, as
/// captures or quiet moves, each once.
proof fn lemma_piece_moves_distinct(pc: usize, quiets: bool, occ: u64, opps: u64, attackers: u64)
    ensures
        piece_moves_seq(pc, quiets, occ, opps, attackers).no_duplicates(),
        all_of(
            piece_moves_seq(pc, quiets, occ, opps, attackers),
            |m: u16| has_bit(attackers, mv_from(m)) && (mv_flag(m) == 0 || mv_flag(m) == 0x4000),
        ),
    decreases attackers,
{
    let p = |m: u16| has_bit(attackers, mv_from(m)) && (mv_flag(m) == 0 || mv_flag(m) == 0x4000);
    if attackers == 0 {
        assert(piece_moves_seq(pc, quiets, occ, opps, attackers) =~= Seq::<u16>::empty());
    } else {
        lemma_clear_ls1b(attackers);
        let from = attackers.trailing_zeros() as u16;
        let ra = clear_ls1b(attackers);
        let a = piece_attacks(pc, from as u64, occ);
        let caps = encode_seq(from | 0x4000u16, a & opps);
        let qs = if quiets {
            encode_seq(from | 0u16, a & !occ)
        } else {
            Seq::empty()
        };
        let rest = piece_moves_seq(pc, quiets, occ, opps, ra);
        assert(piece_moves_seq(pc, quiets, occ, opps, attackers) == caps + qs + rest);
        super::laws::lemma_flags();
        lemma_encode_distinct(from, 0x4000u16, a & opps);
        lemma_encode_distinct(from, 0u16, a & !occ);
        lemma_piece_moves_distinct(pc, quiets, occ, opps, ra);
        let pc_ = |m: u16| mv_from(m) == from && mv_flag(m) == 0x4000u16 && has_bit(a & opps, mv_to(m));
        let pq = |m: u16| mv_from(m) == from && mv_flag(m) == 0u16 && has_bit(a & !occ, mv_to(m));
        let pq0 = |m: u16| mv_from(m) == from && mv_flag(m) == 0u16;
        if quiets {
            lemma_all_in_weaken(qs, pq, pq0);
        } else {
            assert(qs.no_duplicates());
            assert(all_of(qs, pq0));
        }
        assert forall|m: u16| !(#[trigger] pc_(m) && pq0(m)) by {}
        lemma_concat_distinct(caps, qs, pc_, pq0);
        let pb = |m: u16| pc_(m) || pq0(m);
        let pr = |m: u16| has_bit(ra, mv_from(m)) && (mv_flag(m) == 0 || mv_flag(m) == 0x4000);
        assert forall|m: u16| !(#[trigger] pb(m) && pr(m)) by {
            if pb(m) && pr(m) {
                assert(mv_from(m) == from as u64);
            }
        }
        lemma_concat_distinct(caps + qs, rest, pb, pr);
        assert forall|m: u16| pb(m) || pr(m) implies #[trigger] p(m) by {
            if pr(m) {
                assert(mv_from(m) < 64) by {
                    crate::state::position::lemma_move_fields(m);
                }
            }
        }
        lemma_all_in_weaken(caps + qs + rest, |m: u16| pb(m) || pr(m), p);
    }
}

/// Whether `fl` is one of the four promotion flags, capturing or not.
pub open spec fn promo_flag(fl: u16, capture: bool) -> bool {
    if capture {
        fl == 0xC000u16 || fl == 0xD000u16 || fl == 0xE000u16 || fl == 0xF000u16
    } else {
        fl == 0x8000u16 || fl == 0x9000u16 || fl == 0xA000u16 || fl == 0xB000u16
    }
}

/// The four promotions of a move from `f` to `t` are four moves from `f` to
/// `t`, with the four promotion flags.
proof fn lemma_promo4_distinct(f: u16, t: u16, capture: bool)
    requires
        f < 64,
        t < 64,
    ensures
        promo4(f | (t << 6u16), capture).no_duplicates(),
        all_of(
            promo4(f | (t << 6u16), capture),
            |m: u16| mv_from(m) == f && mv_to(m) == t && promo_flag(mv_flag(m), capture),
        ),
{
    super::laws::lemma_flags();
    lemma_move_encode(f, t, 0x8000u16);
    lemma_move_encode(f, t, 0x9000u16);
    lemma_move_encode(f, t, 0xA000u16);
    lemma_move_encode(f, t, 0xB000u16);
    lemma_move_encode(f, t, 0xC000u16);
    lemma_move_encode(f, t, 0xD000u16);
    lemma_move_encode(f, t, 0xE000u16);
    lemma_move_encode(f, t, 0xF000u16);
    let s = promo4(f | (t << 6u16), capture);
    assert(s.len() == 4);
    assert forall|i: int, j: int| 0 <= i < 4 && 0 <= j < 4 && i != j implies s[i] != s[j] by {
        assert(mv_flag(s[i]) != mv_flag(s[j]));
    }
}

/// The moves of `promo_targets_seq(f, bb)` are the promoting captures from
/// `f` onto the squares of `bb`, each once.
proof fn lemma_promo_targets_distinct(f: u16, bb: u64)
    requires
        f < 64,
    ensures
        promo_targets_seq(f, bb).no_duplicates(),
        all_of(
            promo_targets_seq(f, bb),
            |m: u16| mv_from(m) == f && has_bit(bb, mv_to(m)) && promo_flag(mv_flag(m), true),
        ),
    decreases bb,
{
    let p = |m: u16| mv_from(m) == f && has_bit(bb, mv_to(m)) && promo_flag(mv_flag(m), true);
    if bb == 0 {
        assert(promo_targets_seq(f, bb) =~= Seq::<u16>::empty());
    } else {
        lemma_clear_ls1b(bb);
        let t = bb.trailing_zeros() as u16;
        let rb = clear_ls1b(bb);
        lemma_promo_targets_distinct(f, rb);
        lemma_promo4_distinct(f, t, true);
        let head = promo4(f | (t << 6u16), true);
        let rest = promo_targets_seq(f, rb);
        assert(promo_targets_seq(f, bb) == head + rest);
        let ph = |m: u16| mv_from(m) == f && mv_to(m) == t && promo_flag(mv_flag(m), true);
        let pr = |m: u16| mv_from(m) == f && has_bit(rb, mv_to(m)) && promo_flag(mv_flag(m), true);
        assert forall|m: u16| !(#[trigger] ph(m) && pr(m)) by {}
        lemma_concat_distinct(head, rest, ph, pr);
        assert forall|m: u16| ph(m) || pr(m) implies #[trigger] p(m) by {
            crate::state::position::lemma_move_fields(m);
        }
        lemma_all_in_weaken(head + rest, |m: u16| ph(m) || pr(m), p);
    }
}

/// The moves of `pawn_caps_seq` are captures from the squares of `att`,
/// each once.
proof fn lemma_pawn_caps_distinct(c: usize, opps: u64, att: u64)
    ensures
        pawn_caps_seq(c, opps, att).no_duplicates(),
        all_of(pawn_caps_seq(c, opps, att), |m: u16| has_bit(att, mv_from(m)) && mv_flag(m) == 0x4000),
    decreases att,
{
    let p = |m: u16| has_bit(att, mv_from(m)) && mv_flag(m) == 0x4000;
    if att == 0 {
        assert(pawn_caps_seq(c, opps, att) =~= Seq::<u16>::empty());
    } else {
        lemma_clear_ls1b(att);
        let from = att.trailing_zeros() as u16;
        let ra = clear_ls1b(att);
        super::laws::lemma_flags();
        let head = encode_seq(from | 0x4000u16, spec_pawn(c, from as u64) & opps);
        let rest = pawn_caps_seq(c, opps, ra);
        assert(pawn_caps_seq(c, opps, att) == head + rest);
        lemma_encode_distinct(from, 0x4000u16, spec_pawn(c, from as u64) & opps);
        lemma_pawn_caps_distinct(c, opps, ra);
        let ph0 = |m: u16| mv_from(m) == from && mv_flag(m) == 0x4000u16 && has_bit(
            spec_pawn(c, from as u64) & opps,
            mv_to(m),
        );
        let ph = |m: u16| mv_from(m) == from && mv_flag(m) == 0x4000u16;
        lemma_all_in_weaken(head, ph0, ph);
        let pr = |m: u16| has_bit(ra, mv_from(m)) && mv_flag(m) == 0x4000;
        assert forall|m: u16| !(#[trigger] ph(m) && pr(m)) by {}
        lemma_concat_distinct(head, rest, ph, pr);
        assert forall|m: u16| ph(m) || pr(m) implies #[trigger] p(m) by {
            crate::state::position::lemma_move_fields(m);
        }
        lemma_all_in_weaken(head + rest, |m: u16| ph(m) || pr(m), p);
    }
}

/// The moves of `promo_caps_seq` are promoting captures from the squares of
/// `promo`, each once.
proof fn lemma_promo_caps_distinct(c: usize, opps: u64, promo: u64)
    ensures
        promo_caps_seq(c, opps, promo).no_duplicates(),
        all_of(
            promo_caps_seq(c, opps, promo),
            |m: u16| has_bit(promo, mv_from(m)) && promo_flag(mv_flag(m), true),
        ),
    decreases promo,
{
    let p = |m: u16| has_bit(promo, mv_from(m)) && promo_flag(mv_flag(m), true);
    if promo == 0 {
        assert(promo_caps_seq(c, opps, promo) =~= Seq::<u16>::empty());
    } else {
        lemma_clear_ls1b(promo);
        let from = promo.trailing_zeros() as u16;
        let rp = clear_ls1b(promo);
        let head = promo_targets_seq(from, spec_pawn(c, from as u64) & opps);
        let rest = promo_caps_seq(c, opps, rp);
        assert(promo_caps_seq(c, opps, promo) == head + rest);
        lemma_promo_targets_distinct(from, spec_pawn(c, from as u64) & opps);
        lemma_promo_caps_distinct(c, opps, rp);
        let ph0 = |m: u16| mv_from(m) == from && has_bit(spec_pawn(c, from as u64) & opps, mv_to(m))
            && promo_flag(mv_flag(m), true);
        let ph = |m: u16| mv_from(m) == from && promo_flag(mv_flag(m), true);
        lemma_all_in_weaken(head, ph0, ph);
        let pr = |m: u16| has_bit(rp, mv_from(m)) && promo_flag(mv_flag(m), true);
        assert forall|m: u16| !(#[trigger] ph(m) && pr(m)) by {}
        lemma_concat_distinct(head, rest, ph, pr);
        assert forall|m: u16| ph(m) || pr(m) implies #[trigger] p(m) by {
            crate::state::position::lemma_move_fields(m);
        }
        lemma_all_in_weaken(head + rest, |m: u16| ph(m) || pr(m), p);
    }
}

/// The moves of `ep_seq` are en passant captures from the squares of `att`,
/// each once.
proof fn lemma_ep_distinct(sq: u16, att: u64)
    requires
        sq < 64,
    ensures
        ep_seq(sq, att).no_duplicates(),
        all_of(ep_seq(sq, att), |m: u16| has_bit(att, mv_from(m)) && mv_flag(m) == 0x5000),
    decreases att,
{
    let p = |m: u16| has_bit(att, mv_from(m)) && mv_flag(m) == 0x5000;
    if att == 0 {
        assert(ep_seq(sq, att) =~= Seq::<u16>::empty());
    } else {
        lemma_clear_ls1b(att);
        let from = att.trailing_zeros() as u16;
        let ra = clear_ls1b(att);
        super::laws::lemma_flags();
        lemma_move_encode(from, sq, 0x5000u16);
        let head = seq![from | (sq << 6u16) | 0x5000u16];
        let rest = ep_seq(sq, ra);
        assert(ep_seq(sq, att) == head + rest);
        lemma_ep_distinct(sq, ra);
        let ph = |m: u16| mv_from(m) == from && mv_flag(m) == 0x5000;
        assert(all_of(head, ph));
        let pr = |m: u16| has_bit(ra, mv_from(m)) && mv_flag(m) == 0x5000;
        assert forall|m: u16| !(#[trigger] ph(m) && pr(m)) by {}
        lemma_concat_distinct(head, rest, ph, pr);
        assert forall|m: u16| ph(m) || pr(m) implies #[trigger] p(m) by {
            crate::state::position::lemma_move_fields(m);
        }
        lemma_all_in_weaken(head + rest, |m: u16| ph(m) || pr(m), p);
    }
}

/// The moves of `push_seq` are pushes from the squares of `bb` with flag
/// `flag`, each once, when every push lands on the board.
proof fn lemma_push_distinct(side: usize, amount: u16, flag: u16, bb: u64)
    requires
        flag & 0x0FFF == 0,
        forall|f: u64| f < 64 && #[trigger] has_bit(bb, f) ==> spec_idx_shift(side, amount, f as u16) < 64,
    ensures
        push_seq(side, amount, flag, bb).no_duplicates(),
        all_of(push_seq(side, amount, flag, bb), |m: u16| has_bit(bb, mv_from(m)) && mv_flag(m) == flag),
    decreases bb,
{
    let p = |m: u16| has_bit(bb, mv_from(m)) && mv_flag(m) == flag;
    if bb == 0 {
        assert(push_seq(side, amount, flag, bb) =~= Seq::<u16>::empty());
    } else {
        lemma_clear_ls1b(bb);
        let from = bb.trailing_zeros() as u16;
        let rb = clear_ls1b(bb);
        let t = spec_idx_shift(side, amount, from);
        assert(has_bit(bb, from as u64));
        lemma_move_encode(from, t, flag);
        let head = seq![from | (t << 6u16) | flag];
        let rest = push_seq(side, amount, flag, rb);
        assert(push_seq(side, amount, flag, bb) == head + rest);
        lemma_push_distinct(side, amount, flag, rb);
        let ph = |m: u16| mv_from(m) == from && mv_flag(m) == flag;
        assert(all_of(head, ph));
        let pr = |m: u16| has_bit(rb, mv_from(m)) && mv_flag(m) == flag;
        assert forall|m: u16| !(#[trigger] ph(m) && pr(m)) by {}
        lemma_concat_distinct(head, rest, ph, pr);
        assert forall|m: u16| ph(m) || pr(m) implies #[trigger] p(m) by {
            crate::state::position::lemma_move_fields(m);
        }
        lemma_all_in_weaken(head + rest, |m: u16| ph(m) || pr(m), p);
    }
}

/// The moves of `promo_push_seq` are promoting pushes from the squares of
/// `bb`, each once, when every push lands on the board.
proof fn lemma_promo_push_distinct(side: usize, bb: u64)
    requires
        forall|f: u64| f < 64 && #[trigger] has_bit(bb, f) ==> spec_idx_shift(side, 8, f as u16) < 64,
    ensures
        promo_push_seq(side, bb).no_duplicates(),
        all_of(promo_push_seq(side, bb), |m: u16| has_bit(bb, mv_from(m)) && promo_flag(mv_flag(m), false)),
    decreases bb,
{
    let p = |m: u16| has_bit(bb, mv_from(m)) && promo_flag(mv_flag(m), false);
    if bb == 0 {
        assert(promo_push_seq(side, bb) =~= Seq::<u16>::empty());
    } else {
        lemma_clear_ls1b(bb);
        let from = bb.trailing_zeros() as u16;
        let rb = clear_ls1b(bb);
        let t = spec_idx_shift(side, 8, from);
        assert(has_bit(bb, from as u64));
        lemma_promo4_distinct(from, t, false);
        let head = promo4(from | (t << 6u16), false);
        let rest = promo_push_seq(side, rb);
        assert(promo_push_seq(side, bb) == head + rest);
        lemma_promo_push_distinct(side, rb);
        let ph0 = |m: u16| mv_from(m) == from && mv_to(m) == t && promo_flag(mv_flag(m), false);
        let ph = |m: u16| mv_from(m) == from && promo_flag(mv_flag(m), false);
        lemma_all_in_weaken(head, ph0, ph);
        let pr = |m: u16| has_bit(rb, mv_from(m)) && promo_flag(mv_flag(m), false);
        assert forall|m: u16| !(#[trigger] ph(m) && pr(m)) by {}
        lemma_concat_distinct(head, rest, ph, pr);
        assert forall|m: u16| ph(m) || pr(m) implies #[trigger] p(m) by {
            crate::state::position::lemma_move_fields(m);
        }
        lemma_all_in_weaken(head + rest, |m: u16| ph(m) || pr(m), p);
    }
}

/// A square holds pieces of one kind at most.
proof fn lemma_one_kind(v: PositionView, f: u64, j: int, k: int)
    requires
        pos_valid(v),
        f < 64,
        0 <= j < 6,
        0 <= k < 6,
        has_bit(piece_of(v, stm_of(v) as int, j), f),
        has_bit(piece_of(v, stm_of(v) as int, k), f),
    ensures
        j == k,
{
    let us = stm_of(v) as int;
    lemma_bit_ops(v.sides[us], v.pieces[j], f);
    lemma_bit_ops(v.sides[us], v.pieces[k], f);
    assert(sq_ok(v, f));
    assert(b2i(has_bit(v.sides[0], f) || has_bit(v.sides[1], f)) == 1);
}

/// The castling moves, each once, with their two flags.
proof fn lemma_castles_distinct(v: PositionView, occ: u64)
    requires
        pos_valid(v),
    ensures
        castles_seq(v, occ).no_duplicates(),
        all_of(castles_seq(v, occ), |m: u16| mv_flag(m) == 0x2000 || mv_flag(m) == 0x3000),
{
    let side = stm_of(v);
    let kbb = piece_of(v, side as int, 5);
    crate::bits::lemma_ls1b(kbb);
    let ksq = kbb.trailing_zeros() as u16;
    lemma_flags();
    let kq = king_target(side, false) as u16;
    let kk = king_target(side, true) as u16;
    lemma_castle_encode(ksq, kq, 0x3000u16);
    lemma_castle_encode(ksq, kk, 0x2000u16);
    lemma_move_encode(ksq, kq, 0x3000u16);
    lemma_move_encode(ksq, kk, 0x2000u16);
    let r = v.state.castle_rights;
    let qs = if r & right_bit(side, false) > 0 && can_castle_spec(v, side, false, occ, kbb) {
        seq![0x3000u16 | (kq << 6u16) | ksq]
    } else {
        Seq::empty()
    };
    let ks = if r & right_bit(side, true) > 0 && can_castle_spec(v, side, true, occ, kbb) {
        seq![0x2000u16 | (kk << 6u16) | ksq]
    } else {
        Seq::empty()
    };
    assert(castles_seq(v, occ) == qs + ks);
    let pq = |m: u16| mv_flag(m) == 0x3000;
    let pk = |m: u16| mv_flag(m) == 0x2000;
    assert(all_of(qs, pq));
    assert(all_of(ks, pk));
    assert forall|m: u16| !(#[trigger] pq(m) && pk(m)) by {}
    lemma_concat_distinct(qs, ks, pq, pk);
    lemma_all_in_weaken(qs + ks, |m: u16| pq(m) || pk(m), |m: u16| mv_flag(m) == 0x2000 || mv_flag(m) == 0x3000);
}

/// The pawn pushes, each once: single pushes and double pushes from the
/// pawns, and promotions.
proof fn lemma_pushes_distinct(v: PositionView)
    requires
        pos_valid(v),
    ensures
        ({
            let side = stm_of(v);
            let occ = v.sides[side as int] ^ v.sides[1 - side];
            let pawns = piece_of(v, side as int, 0);
            &&& pawn_pushes_seq(side, occ, pawns).no_duplicates()
            &&& all_of(
                pawn_pushes_seq(side, occ, pawns),
                |m: u16| (has_bit(pawns, mv_from(m)) && mv_flag(m) == 0) || promo_flag(mv_flag(m), false)
                    || mv_flag(m) == 0x1000,
            )
        }),
{
    let side = stm_of(v);
    let occ = v.sides[side as int] ^ v.sides[1 - side];
    let pawns = piece_of(v, side as int, 0);
    let pen = spec_penultimate(side);
    let push = single_pushers(side, occ, pawns);
    let dbl = double_pushers(side, occ, pawns);
    lemma_flags();
    assert forall|f: u64| f < 64 && #[trigger] has_bit(push, f) implies spec_idx_shift(side, 8, f as u16)
        < 64 && has_bit(pawns, f) by {
        lemma_bit_ops(spec_shift(side, !occ), pawns, f);
        lemma_shift_bits(!occ, f);
    }
    assert forall|f: u64| f < 64 && #[trigger] has_bit(push & !pen, f) implies spec_idx_shift(side, 8, f as u16)
        < 64 && has_bit(pawns, f) by {
        lemma_bit_ops(push, !pen, f);
        assert(has_bit(push, f));
    }
    assert forall|f: u64| f < 64 && #[trigger] has_bit(push & pen, f) implies spec_idx_shift(side, 8, f as u16)
        < 64 by {
        lemma_bit_ops(push, pen, f);
        assert(has_bit(push, f));
    }
    assert forall|f: u64| f < 64 && #[trigger] has_bit(dbl, f) implies spec_idx_shift(side, 16, f as u16)
        < 64 by {
        let e = !occ & spec_double(side);
        let y = spec_shift(side, e) & !occ;
        lemma_bit_ops(spec_shift(side, y), pawns, f);
        lemma_shift_bits(y, f);
        if side == 0 {
            lemma_bit_ops(spec_shift(side, e), !occ, (f + 8) as u64);
            lemma_shift_bits(e, (f + 8) as u64);
        } else {
            lemma_bit_ops(spec_shift(side, e), !occ, (f - 8) as u64);
            lemma_shift_bits(e, (f - 8) as u64);
        }
    }
    let s1 = push_seq(side, 8, 0u16, push & !pen);
    let s2 = promo_push_seq(side, push & pen);
    let s3 = push_seq(side, 16, 0x1000u16, dbl);
    assert(pawn_pushes_seq(side, occ, pawns) == s1 + s2 + s3);
    lemma_push_distinct(side, 8, 0u16, push & !pen);
    lemma_promo_push_distinct(side, push & pen);
    lemma_push_distinct(side, 16, 0x1000u16, dbl);
    let p10 = |m: u16| has_bit(push & !pen, mv_from(m)) && mv_flag(m) == 0u16;
    let p1 = |m: u16| has_bit(pawns, mv_from(m)) && mv_flag(m) == 0;
    assert forall|m: u16| #[trigger] p10(m) implies p1(m) by {
        crate::state::position::lemma_move_fields(m);
    }
    lemma_all_in_weaken(s1, p10, p1);
    let p20 = |m: u16| has_bit(push & pen, mv_from(m)) && promo_flag(mv_flag(m), false);
    let p2 = |m: u16| promo_flag(mv_flag(m), false);
    lemma_all_in_weaken(s2, p20, p2);
    let p30 = |m: u16| has_bit(dbl, mv_from(m)) && mv_flag(m) == 0x1000u16;
    let p3 = |m: u16| mv_flag(m) == 0x1000;
    lemma_all_in_weaken(s3, p30, p3);
    assert forall|m: u16| !(#[trigger] p1(m) && p2(m)) by {}
    lemma_concat_distinct(s1, s2, p1, p2);
    let p12 = |m: u16| p1(m) || p2(m);
    assert forall|m: u16| !(#[trigger] p12(m) && p3(m)) by {}
    lemma_concat_distinct(s1 + s2, s3, p12, p3);
    lemma_all_in_weaken(
        s1 + s2 + s3,
        |m: u16| p12(m) || p3(m),
        |m: u16| (has_bit(pawns, mv_from(m)) && mv_flag(m) == 0) || promo_flag(mv_flag(m), false)
            || mv_flag(m) == 0x1000,
    );
}

/// The pawn captures, each once: plain captures from the pawns, and
/// promoting captures.
proof fn lemma_pawn_captures_distinct(pawns: u64, opps: u64, side: usize)
    ensures
        pawn_captures_seq(pawns, opps, side).no_duplicates(),
        all_of(
            pawn_captures_seq(pawns, opps, side),
            |m: u16| (has_bit(pawns, mv_from(m)) && mv_flag(m) == 0x4000) || promo_flag(mv_flag(m), true),
        ),
{
    let pen = spec_penultimate(side);
    let caps = pawn_caps_seq(side, opps, pawns & !pen);
    let promos = promo_caps_seq(side, opps, pawns & pen);
    lemma_pawn_caps_distinct(side, opps, pawns & !pen);
    lemma_promo_caps_distinct(side, opps, pawns & pen);
    let pc0 = |m: u16| has_bit(pawns & !pen, mv_from(m)) && mv_flag(m) == 0x4000;
    let pc = |m: u16| has_bit(pawns, mv_from(m)) && mv_flag(m) == 0x4000;
    assert forall|m: u16| #[trigger] pc0(m) implies pc(m) by {
        crate::state::position::lemma_move_fields(m);
        lemma_bit_ops(pawns, !pen, mv_from(m));
    }
    lemma_all_in_weaken(caps, pc0, pc);
    let pp0 = |m: u16| has_bit(pawns & pen, mv_from(m)) && promo_flag(mv_flag(m), true);
    let pp = |m: u16| promo_flag(mv_flag(m), true);
    lemma_all_in_weaken(promos, pp0, pp);
    assert forall|m: u16| !(#[trigger] pc(m) && pp(m)) by {}
    lemma_concat_distinct(caps, promos, pc, pp);
    assert(pawn_captures_seq(pawns, opps, side) == caps + promos);
    lemma_all_in_weaken(
        caps + promos,
        |m: u16| pc(m) || pp(m),
        |m: u16| (has_bit(pawns, mv_from(m)) && mv_flag(m) == 0x4000) || promo_flag(mv_flag(m), true),
    );
}

/// The generated moves before those of the pieces other than pawns:
/// castling and pawn pushes (quiet moves only), en passant, pawn captures.
spec fn front(v: PositionView, quiet: bool) -> Seq<u16> {
    let side = stm_of(v);
    let opps = v.sides[1 - side];
    let occ = v.sides[side as int] ^ opps;
    let pawns = piece_of(v, side as int, 0);
    let ep = v.state.en_passant as u16;
    (if quiet {
        (if v.state.castle_rights & spec_side_rights(side) > 0 && !in_check_spec(v) {
            castles_seq(v, occ)
        } else {
            Seq::empty()
        }) + pawn_pushes_seq(side, occ, pawns)
    } else {
        Seq::empty()
    }) + (if ep > 0 {
        ep_seq(ep, spec_pawn((1 - side) as usize, ep as u64) & pawns)
    } else {
        Seq::empty()
    }) + pawn_captures_seq(pawns, opps, side)
}

/// What the front moves look like: castling, en passant, promotions and
/// double pushes by their flags, and the other pawn moves from a pawn.
spec fn front_pred(v: PositionView) -> spec_fn(u16) -> bool {
    |m: u16|
        mv_flag(m) == 0x2000 || mv_flag(m) == 0x3000 || mv_flag(m) == 0x1000 || mv_flag(m) == 0x5000
            || promo_flag(mv_flag(m), false) || promo_flag(mv_flag(m), true) || (has_bit(
            piece_of(v, stm_of(v) as int, 0),
            mv_from(m),
        ) && (mv_flag(m) == 0 || mv_flag(m) == 0x4000))
}

proof fn lemma_front_distinct(v: PositionView, quiet: bool)
    requires
        pos_valid(v),
    ensures
        front(v, quiet).no_duplicates(),
        all_of(front(v, quiet), front_pred(v)),
{
    let side = stm_of(v);
    let us = side as int;
    let opps = v.sides[1 - side];
    let occ = v.sides[us] ^ opps;
    let pawns = piece_of(v, us, 0);
    let ep = v.state.en_passant as u16;
    lemma_flags();
    let cs = if v.state.castle_rights & spec_side_rights(side) > 0 && !in_check_spec(v) {
        castles_seq(v, occ)
    } else {
        Seq::empty()
    };
    let pushes = pawn_pushes_seq(side, occ, pawns);
    let a = if quiet {
        cs + pushes
    } else {
        Seq::empty()
    };
    let b = if ep > 0 {
        ep_seq(ep, spec_pawn((1 - side) as usize, ep as u64) & pawns)
    } else {
        Seq::empty()
    };
    let c = pawn_captures_seq(pawns, opps, side);
    assert(front(v, quiet) == a + b + c);
    let pcs = |m: u16| mv_flag(m) == 0x2000 || mv_flag(m) == 0x3000;
    let ppu = |m: u16| (has_bit(pawns, mv_from(m)) && mv_flag(m) == 0) || promo_flag(mv_flag(m), false)
        || mv_flag(m) == 0x1000;
    let pa = |m: u16| pcs(m) || ppu(m);
    let pb = |m: u16| mv_flag(m) == 0x5000;
    let pc = |m: u16| (has_bit(pawns, mv_from(m)) && mv_flag(m) == 0x4000) || promo_flag(mv_flag(m), true);
    if v.state.castle_rights & spec_side_rights(side) > 0 && !in_check_spec(v) {
        lemma_castles_distinct(v, occ);
    } else {
        assert(cs.no_duplicates() && all_of(cs, pcs));
    }
    lemma_pushes_distinct(v);
    assert forall|m: u16| !(#[trigger] pcs(m) && ppu(m)) by {}
    lemma_concat_distinct(cs, pushes, pcs, ppu);
    if !quiet {
        assert(a.no_duplicates() && all_of(a, pa));
    }
    if ep > 0 {
        lemma_ep_distinct(ep, spec_pawn((1 - side) as usize, ep as u64) & pawns);
        lemma_all_in_weaken(
            b,
            |m: u16| has_bit(spec_pawn((1 - side) as usize, ep as u64) & pawns, mv_from(m)) && mv_flag(m)
                == 0x5000,
            pb,
        );
    } else {
        assert(b.no_duplicates() && all_of(b, pb));
    }
    assert forall|m: u16| !(#[trigger] pa(m) && pb(m)) by {}
    lemma_concat_distinct(a, b, pa, pb);
    let pab = |m: u16| pa(m) || pb(m);
    lemma_pawn_captures_distinct(pawns, opps, side);
    assert forall|m: u16| !(#[trigger] pab(m) && pc(m)) by {}
    lemma_concat_distinct(a + b, c, pab, pc);
    lemma_all_in_weaken(a + b + c, |m: u16| pab(m) || pc(m), front_pred(v));
}

/// The moves of the pieces of kind `pc`, from the squares of those pieces.
spec fn piece_pred(v: PositionView, pc: int) -> spec_fn(u16) -> bool {
    |m: u16| has_bit(piece_of(v, stm_of(v) as int, pc), mv_from(m)) && (mv_flag(m) == 0 || mv_flag(m)
        == 0x4000)
}

/// The moves of the pieces of kind `pc` are no front moves, and no moves of
/// the pieces of a lower kind.
proof fn lemma_piece_pred_apart(v: PositionView, k: int, m: u16)
    requires
        pos_valid(v),
        1 <= k < 6,
        piece_pred(v, k)(m),
    ensures
        !front_pred(v)(m),
        forall|j: int| 1 <= j < k ==> !#[trigger] piece_pred(v, j)(m),
{
    crate::state::position::lemma_move_fields(m);
    if front_pred(v)(m) {
        lemma_one_kind(v, mv_from(m), 0, k);
    }
    assert forall|j: int| 1 <= j < k implies !#[trigger] piece_pred(v, j)(m) by {
        if piece_pred(v, j)(m) {
            lemma_one_kind(v, mv_from(m), j, k);
        }
    }
}

/// No move is generated twice: the moves generated for a position, quiet
/// moves included or not, are pairwise distinct.
pub proof fn lemma_generated_moves_distinct(v: PositionView, quiet: bool)
    requires
        pos_valid(v),
    ensures
        gen_spec(v, quiet).no_duplicates(),
{
    reveal(gen_spec);
    let side = stm_of(v);
    let us = side as int;
    let opps = v.sides[1 - side];
    let occ = v.sides[us] ^ opps;
    let f0 = front(v, quiet);
    let s1 = piece_moves_seq(1, quiet, occ, opps, piece_of(v, us, 1));
    let s2 = piece_moves_seq(2, quiet, occ, opps, piece_of(v, us, 2));
    let s3 = piece_moves_seq(3, quiet, occ, opps, piece_of(v, us, 3));
    let s4 = piece_moves_seq(4, quiet, occ, opps, piece_of(v, us, 4));
    let s5 = piece_moves_seq(5, quiet, occ, opps, piece_of(v, us, 5));
    assert(gen_spec(v, quiet) == f0 + s1 + s2 + s3 + s4 + s5);
    lemma_front_distinct(v, quiet);
    lemma_piece_moves_distinct(1, quiet, occ, opps, piece_of(v, us, 1));
    lemma_piece_moves_distinct(2, quiet, occ, opps, piece_of(v, us, 2));
    lemma_piece_moves_distinct(3, quiet, occ, opps, piece_of(v, us, 3));
    lemma_piece_moves_distinct(4, quiet, occ, opps, piece_of(v, us, 4));
    lemma_piece_moves_distinct(5, quiet, occ, opps, piece_of(v, us, 5));
    let p0 = front_pred(v);
    let q1 = piece_pred(v, 1);
    let q2 = piece_pred(v, 2);
    let q3 = piece_pred(v, 3);
    let q4 = piece_pred(v, 4);
    let q5 = piece_pred(v, 5);
    assert(all_of(s1, q1));
    assert(all_of(s2, q2));
    assert(all_of(s3, q3));
    assert(all_of(s4, q4));
    assert(all_of(s5, q5));
    assert forall|m: u16| !(#[trigger] p0(m) && q1(m)) by {
        if q1(m) {
            lemma_piece_pred_apart(v, 1, m);
        }
    }
    lemma_concat_distinct(f0, s1, p0, q1);
    let r1 = |m: u16| p0(m) || q1(m);
    assert forall|m: u16| !(#[trigger] r1(m) && q2(m)) by {
        if q2(m) {
            lemma_piece_pred_apart(v, 2, m);
        }
    }
    lemma_concat_distinct(f0 + s1, s2, r1, q2);
    let r2 = |m: u16| r1(m) || q2(m);
    assert forall|m: u16| !(#[trigger] r2(m) && q3(m)) by {
        if q3(m) {
            lemma_piece_pred_apart(v, 3, m);
        }
    }
    lemma_concat_distinct(f0 + s1 + s2, s3, r2, q3);
    let r3 = |m: u16| r2(m) || q3(m);
    assert forall|m: u16| !(#[trigger] r3(m) && q4(m)) by {
        if q4(m) {
            lemma_piece_pred_apart(v, 4, m);
        }
    }
    lemma_concat_distinct(f0 + s1 + s2 + s3, s4, r3, q4);
    let r4 = |m: u16| r3(m) || q4(m);
    assert forall|m: u16| !(#[trigger] r4(m) && q5(m)) by {
        if q5(m) {
            lemma_piece_pred_apart(v, 5, m);
        }
    }
    lemma_concat_distinct(f0 + s1 + s2 + s3 + s4, s5, r4, q5);
}

} // verus!
