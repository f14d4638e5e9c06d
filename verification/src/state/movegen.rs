//! Pseudo-legal move generation for each kind of piece.
use vstd::prelude::*;
use crate::bits::{clear_ls1b, lemma_clear_ls1b, lemma_low_clear, low_mask};
use super::consts::{
    spec_bishop, spec_king, spec_knight, spec_pawn, spec_penultimate, spec_double, spec_rook,
    Attacks, MoveFlag, Piece, Rank,
};
use super::moves::{MoveList, unscored, lemma_unscored_push};

verus! {

/// Moves `base | to << 6` for each set bit `to` of `bb`, lowest first.
pub open spec fn encode_seq(base: u16, bb: u64) -> Seq<u16>
    decreases bb,
{
    if bb == 0 {
        Seq::empty()
    } else {
        proof {
            lemma_clear_ls1b(bb);
        }
        seq![base | ((bb.trailing_zeros() as u16) << 6u16)] + encode_seq(base, clear_ls1b(bb))
    }
}

/// Appends one move per set bit of `attacks`, all from `from` with flag `FLAG`.
pub fn encode<const FLAG: u16>(moves: &mut MoveList, attacks: u64, from: u16)
    requires
        from < 64,
    ensures
        final(moves)@ == old(moves)@ + unscored(encode_seq(from | FLAG, attacks)),
{
    let base = from | FLAG;
    let mut bb = attacks;
    while bb != 0
        invariant
            moves@ + unscored(encode_seq(base, bb)) == old(moves)@ + unscored(
                encode_seq(base, attacks),
            ),
        decreases bb,
    {
        proof {
            lemma_clear_ls1b(bb);
        }
        let to = bb.trailing_zeros() as u16;
        proof {
            lemma_unscored_push(moves@, base | (to << 6u16), encode_seq(base, clear_ls1b(bb)));
        }
        bb = bb & (bb - 1);
        moves.add(base | (to << 6u16));
    }
    assert(moves@ + unscored(encode_seq(base, 0)) =~= moves@);
}

/// The attack set of piece kind `pc` on `f`.
pub open spec fn piece_attacks(pc: usize, f: u64, occ: u64) -> u64 {
    if pc == Piece::KNIGHT {
        spec_knight(f)
    } else if pc == Piece::ROOK {
        spec_rook(f, occ)
    } else if pc == Piece::BISHOP {
        spec_bishop(f, occ)
    } else if pc == Piece::QUEEN {
        spec_rook(f, occ) | spec_bishop(f, occ)
    } else if pc == Piece::KING {
        spec_king(f)
    } else {
        0
    }
}

/// The moves of the pieces `attackers` of kind `pc`: captures of `opps`
/// first, then (if `quiets`) moves to empty squares, square by square.
pub open spec fn piece_moves_seq(pc: usize, quiets: bool, occ: u64, opps: u64, attackers: u64) -> Seq<
    u16,
>
    decreases attackers,
{
    if attackers == 0 {
        Seq::empty()
    } else {
        proof {
            lemma_clear_ls1b(attackers);
        }
        let from = attackers.trailing_zeros() as u16;
        let a = piece_attacks(pc, from as u64, occ);
        encode_seq(from | MoveFlag::CAPTURE, a & opps) + (if quiets {
            encode_seq(from | MoveFlag::QUIET, a & !occ)
        } else {
            Seq::empty()
        }) + piece_moves_seq(pc, quiets, occ, opps, clear_ls1b(attackers))
    }
}

/// Generates the moves of the pieces `attackers` of kind `PC`.
pub fn piece_moves<const PC: usize, const QUIETS: bool>(
    moves: &mut MoveList,
    occ: u64,
    opps: u64,
    attackers: u64,
)
    ensures
        final(moves)@ == old(moves)@ + unscored(piece_moves_seq(PC, QUIETS, occ, opps, attackers)),
{
    let mut bb = attackers;
    while bb != 0
        invariant
            moves@ + unscored(piece_moves_seq(PC, QUIETS, occ, opps, bb)) == old(moves)@ + unscored(
                piece_moves_seq(PC, QUIETS, occ, opps, attackers),
            ),
        decreases bb,
    {
        proof {
            lemma_clear_ls1b(bb);
        }
        let from = bb.trailing_zeros() as u16;
        let f = from as usize;
        let attacks = if PC == Piece::KNIGHT {
            Attacks::knight(f)
        } else if PC == Piece::ROOK {
            Attacks::rook(f, occ)
        } else if PC == Piece::BISHOP {
            Attacks::bishop(f, occ)
        } else if PC == Piece::QUEEN {
            Attacks::rook(f, occ) | Attacks::bishop(f, occ)
        } else if PC == Piece::KING {
            Attacks::king(f)
        } else {
            0
        };
        let ghost before = moves@;
        let ghost rest = clear_ls1b(bb);
        bb = bb & (bb - 1);
        encode::<0x4000>(moves, attacks & opps, from);
        if QUIETS {
            encode::<0x0000>(moves, attacks & !occ, from);
        }
        proof {
            let c = encode_seq(from | MoveFlag::CAPTURE, attacks & opps);
            let q = if QUIETS {
                encode_seq(from | MoveFlag::QUIET, attacks & !occ)
            } else {
                Seq::empty()
            };
            let tail = piece_moves_seq(PC, QUIETS, occ, opps, rest);
            assert(piece_moves_seq(PC, QUIETS, occ, opps, bb) == tail);
            assert(moves@ =~= before + unscored(c) + unscored(q));
            assert(unscored(c + q + tail) =~= unscored(c) + unscored(q) + unscored(tail));
        }
    }
    assert(moves@ + unscored(piece_moves_seq(PC, QUIETS, occ, opps, 0)) =~= moves@);
}

/// The four promotions (knight, bishop, rook, queen) of the move `x`.
pub open spec fn promo4(x: u16, capture: bool) -> Seq<u16> {
    if capture {
        seq![x | MoveFlag::KNIGHT_PROMO_CAPTURE, x | MoveFlag::BISHOP_PROMO_CAPTURE, x
            | MoveFlag::ROOK_PROMO_CAPTURE, x | MoveFlag::QUEEN_PROMO_CAPTURE]
    } else {
        seq![x | MoveFlag::KNIGHT_PROMO, x | MoveFlag::BISHOP_PROMO, x | MoveFlag::ROOK_PROMO, x
            | MoveFlag::QUEEN_PROMO]
    }
}

/// Promotion captures from the square `f` onto each set bit of `bb`.
pub open spec fn promo_targets_seq(f: u16, bb: u64) -> Seq<u16>
    decreases bb,
{
    if bb == 0 {
        Seq::empty()
    } else {
        proof {
            lemma_clear_ls1b(bb);
        }
        promo4(f | ((bb.trailing_zeros() as u16) << 6u16), true) + promo_targets_seq(f, clear_ls1b(bb))
    }
}

/// Non-promoting pawn captures of the pawns `att`.
pub open spec fn pawn_caps_seq(c: usize, opps: u64, att: u64) -> Seq<u16>
    decreases att,
{
    if att == 0 {
        Seq::empty()
    } else {
        proof {
            lemma_clear_ls1b(att);
        }
        let from = att.trailing_zeros() as u16;
        encode_seq(from | MoveFlag::CAPTURE, spec_pawn(c, from as u64) & opps)
            + pawn_caps_seq(c, opps, clear_ls1b(att))
    }
}

/// Promoting pawn captures of the pawns `promo`.
pub open spec fn promo_caps_seq(c: usize, opps: u64, promo: u64) -> Seq<u16>
    decreases promo,
{
    if promo == 0 {
        Seq::empty()
    } else {
        proof {
            lemma_clear_ls1b(promo);
        }
        let from = promo.trailing_zeros() as u16;
        promo_targets_seq(from, spec_pawn(c, from as u64) & opps) + promo_caps_seq(
            c,
            opps,
            clear_ls1b(promo),
        )
    }
}

/// All pawn captures of side `c`'s pawns `attackers`.
pub open spec fn pawn_captures_seq(attackers: u64, opps: u64, c: usize) -> Seq<u16> {
    pawn_caps_seq(c, opps, attackers & !spec_penultimate(c)) + promo_caps_seq(
        c,
        opps,
        attackers & spec_penultimate(c),
    )
}

/// Generates the pawn captures, promoting ones last.
pub fn pawn_captures(moves: &mut MoveList, attackers: u64, opps: u64, c: usize)
    requires
        c < 2,
    ensures
        final(moves)@ == old(moves)@ + unscored(pawn_captures_seq(attackers, opps, c)),
{
    let pen = Rank::penultimate(c);
    let mut promo = attackers & pen;
    let mut att = attackers & !pen;
    let ghost start = old(moves)@;
    while att != 0
        invariant
            c < 2,
            moves@ + unscored(pawn_caps_seq(c, opps, att)) == start + unscored(
                pawn_caps_seq(c, opps, attackers & !spec_penultimate(c)),
            ),
        decreases att,
    {
        proof {
            lemma_clear_ls1b(att);
        }
        let from = att.trailing_zeros() as u16;
        let ghost before = moves@;
        let ghost rest = clear_ls1b(att);
        att = att & (att - 1);
        encode::<0x4000>(moves, Attacks::pawn(c, from as usize) & opps, from);
        proof {
            let e = encode_seq(from | MoveFlag::CAPTURE, spec_pawn(c, from as u64) & opps);
            assert(unscored(e + pawn_caps_seq(c, opps, rest)) =~= unscored(e) + unscored(
                pawn_caps_seq(c, opps, rest),
            ));
        }
    }
    let ghost mid = moves@;
    assert(mid =~= start + unscored(pawn_caps_seq(c, opps, attackers & !spec_penultimate(c))));
    while promo != 0
        invariant
            c < 2,
            moves@ + unscored(promo_caps_seq(c, opps, promo)) == mid + unscored(
                promo_caps_seq(c, opps, attackers & spec_penultimate(c)),
            ),
        decreases promo,
    {
        proof {
            lemma_clear_ls1b(promo);
        }
        let from = promo.trailing_zeros() as u16;
        let ghost rest = clear_ls1b(promo);
        let ghost outer = moves@;
        let mut attacks = Attacks::pawn(c, from as usize) & opps;
        let ghost all = attacks;
        let f = from;
        while attacks != 0
            invariant
                moves@ + unscored(promo_targets_seq(f, attacks)) == outer + unscored(
                    promo_targets_seq(f, all),
                ),
            decreases attacks,
        {
            proof {
                lemma_clear_ls1b(attacks);
            }
            let to = attacks.trailing_zeros() as u16;
            let ghost before = moves@;
            let ghost r2 = clear_ls1b(attacks);
            moves.add(f | (to << 6u16) | MoveFlag::KNIGHT_PROMO_CAPTURE);
            moves.add(f | (to << 6u16) | MoveFlag::BISHOP_PROMO_CAPTURE);
            moves.add(f | (to << 6u16) | MoveFlag::ROOK_PROMO_CAPTURE);
            moves.add(f | (to << 6u16) | MoveFlag::QUEEN_PROMO_CAPTURE);
            attacks = attacks & (attacks - 1);
            proof {
                let p = promo4(f | (to << 6u16), true);
                assert(moves@ =~= before + unscored(p));
                assert(unscored(p + promo_targets_seq(f, r2)) =~= unscored(p) + unscored(
                    promo_targets_seq(f, r2),
                ));
            }
        }
        promo = promo & (promo - 1);
        proof {
            let t = promo_targets_seq(f, all);
            assert(unscored(t + promo_caps_seq(c, opps, rest)) =~= unscored(t) + unscored(
                promo_caps_seq(c, opps, rest),
            ));
            assert(moves@ + unscored(promo_targets_seq(f, 0)) =~= moves@);
        }
    }
    proof {
        assert(moves@ + unscored(promo_caps_seq(c, opps, 0)) =~= moves@);
        let a = pawn_caps_seq(c, opps, attackers & !spec_penultimate(c));
        let b = promo_caps_seq(c, opps, attackers & spec_penultimate(c));
        assert(unscored(a + b) =~= unscored(a) + unscored(b));
    }
}

/// En passant captures onto `sq` by the pawns `att`.
pub open spec fn ep_seq(sq: u16, att: u64) -> Seq<u16>
    decreases att,
{
    if att == 0 {
        Seq::empty()
    } else {
        proof {
            lemma_clear_ls1b(att);
        }
        seq![(att.trailing_zeros() as u16) | (sq << 6u16) | MoveFlag::EN_PASSANT] + ep_seq(
            sq,
            clear_ls1b(att),
        )
    }
}

/// Generates the en passant captures onto `sq` by side `c`'s `pawns`.
pub fn en_passants(moves: &mut MoveList, pawns: u64, sq: u16, c: usize)
    requires
        c < 2,
        sq < 64,
    ensures
        final(moves)@ == old(moves)@ + unscored(
            ep_seq(sq, spec_pawn((1 - c) as usize, sq as u64) & pawns),
        ),
{
    let mut attackers = Attacks::pawn(1 - c, sq as usize) & pawns;
    let ghost all = attackers;
    while attackers != 0
        invariant
            moves@ + unscored(ep_seq(sq, attackers)) == old(moves)@ + unscored(ep_seq(sq, all)),
        decreases attackers,
    {
        proof {
            lemma_clear_ls1b(attackers);
        }
        let from = attackers.trailing_zeros() as u16;
        proof {
            lemma_unscored_push(
                moves@,
                from | (sq << 6u16) | MoveFlag::EN_PASSANT,
                ep_seq(sq, clear_ls1b(attackers)),
            );
        }
        attackers = attackers & (attackers - 1);
        moves.add(from | sq << 6u16 | MoveFlag::EN_PASSANT);
    }
    assert(moves@ + unscored(ep_seq(sq, 0)) =~= moves@);
}

/// One rank towards the pawns of `side` (the square a pawn pushes from).
pub open spec fn spec_shift(side: usize, bb: u64) -> u64 {
    if side == 0 {
        bb >> 8u64
    } else {
        bb << 8u64
    }
}

/// Moves the board one rank back, as seen from `SIDE`.
pub fn shift<const SIDE: usize>(bb: u64) -> (r: u64)
    ensures
        r == spec_shift(SIDE, bb),
{
    if SIDE == 0 {
        bb >> 8u64
    } else {
        bb << 8u64
    }
}

/// The square `amount` squares ahead of `idx` for `side`.
pub open spec fn spec_idx_shift(side: usize, amount: u16, idx: u16) -> u16 {
    if side == 0 {
        (idx + amount) as u16
    } else {
        (idx - amount) as u16
    }
}

/// The square `AMOUNT` squares ahead of `idx` for `SIDE`.
pub fn idx_shift<const SIDE: usize, const AMOUNT: u16>(idx: u16) -> (r: u16)
    requires
        SIDE == 0 ==> idx + AMOUNT <= u16::MAX,
        SIDE != 0 ==> idx >= AMOUNT,
    ensures
        r == spec_idx_shift(SIDE, AMOUNT, idx),
{
    if SIDE == 0 {
        idx + AMOUNT
    } else {
        idx - AMOUNT
    }
}

/// One move per pawn in `bb`, `amount` squares ahead with `flag`.
pub open spec fn push_seq(side: usize, amount: u16, flag: u16, bb: u64) -> Seq<u16>
    decreases bb,
{
    if bb == 0 {
        Seq::empty()
    } else {
        proof {
            lemma_clear_ls1b(bb);
        }
        let from = bb.trailing_zeros() as u16;
        seq![from | (spec_idx_shift(side, amount, from) << 6u16) | flag] + push_seq(
            side,
            amount,
            flag,
            clear_ls1b(bb),
        )
    }
}

/// The four promotions of each pawn in `bb` pushing one square.
pub open spec fn promo_push_seq(side: usize, bb: u64) -> Seq<u16>
    decreases bb,
{
    if bb == 0 {
        Seq::empty()
    } else {
        proof {
            lemma_clear_ls1b(bb);
        }
        let from = bb.trailing_zeros() as u16;
        promo4(from | (spec_idx_shift(side, 8, from) << 6u16), false) + promo_push_seq(
            side,
            clear_ls1b(bb),
        )
    }
}

/// Pawns of `side` that can push one square.
pub open spec fn single_pushers(side: usize, occ: u64, pawns: u64) -> u64 {
    spec_shift(side, !occ) & pawns
}

/// Pawns of `side` that can push two squares.
pub open spec fn double_pushers(side: usize, occ: u64, pawns: u64) -> u64 {
    spec_shift(side, spec_shift(side, !occ & spec_double(side)) & !occ) & pawns
}

/// All pawn pushes: single pushes, then promotions, then double pushes.
pub open spec fn pawn_pushes_seq(side: usize, occ: u64, pawns: u64) -> Seq<u16> {
    let push = single_pushers(side, occ, pawns);
    push_seq(side, 8, MoveFlag::QUIET, push & !spec_penultimate(side)) + promo_push_seq(
        side,
        push & spec_penultimate(side),
    ) + push_seq(side, 16, MoveFlag::DBL_PUSH, double_pushers(side, occ, pawns))
}

/// Generates the pawn pushes of `SIDE`.
pub fn pawn_pushes<const SIDE: usize>(moves: &mut MoveList, occ: u64, pawns: u64)
    requires
        SIDE < 2,
    ensures
        final(moves)@ == old(moves)@ + unscored(pawn_pushes_seq(SIDE, occ, pawns)),
{
    let empty = !occ;
    let mut dbl = shift::<SIDE>(shift::<SIDE>(empty & Rank::double(SIDE)) & empty) & pawns;
    let mut push = shift::<SIDE>(empty) & pawns;
    let pen = Rank::penultimate(SIDE);
    let mut promo = push & pen;
    push = push & !pen;
    let ghost push0 = push;
    let ghost promo0 = promo;
    let ghost dbl0 = dbl;
    proof {
        if SIDE == 1 {
            let e = empty;
            let d = spec_double(1);
            lemma_low_clear(e << 8u64, e, 8, 0);
            lemma_low_clear((e << 8u64) & pawns, !pen, 8, 0);
            lemma_low_clear((e << 8u64) & pawns, pen, 8, 0);
            lemma_low_clear(e << 8u64, pawns, 8, 0);
            lemma_low_clear((e & d) << 8u64, e & d, 8, 0);
            lemma_low_clear((e & d) << 8u64, e, 8, 0);
            lemma_low_clear(((e & d) << 8u64) & e, pawns, 8, 0);
            lemma_low_clear(((((e & d) << 8u64) & e) << 8u64), pawns, 16, 0);
        }
    }
    let ghost start = old(moves)@;
    while push != 0
        invariant
            SIDE < 2,
            SIDE == 1 ==> push & low_mask(8) == 0,
            moves@ + unscored(push_seq(SIDE, 8, MoveFlag::QUIET, push)) == start + unscored(
                push_seq(SIDE, 8, MoveFlag::QUIET, push0),
            ),
        decreases push,
    {
        proof {
            lemma_clear_ls1b(push);
            let t = push.trailing_zeros() as u64;
            if SIDE == 1 {
                lemma_low_clear(push, 0, 8, t);
            }
        }
        let from = push.trailing_zeros() as u16;
        let to = idx_shift::<SIDE, 8>(from);
        proof {
            lemma_unscored_push(
                moves@,
                from | (to << 6u16) | MoveFlag::QUIET,
                push_seq(SIDE, 8, MoveFlag::QUIET, clear_ls1b(push)),
            );
        }
        push = push & (push - 1);
        moves.add(from | to << 6u16 | MoveFlag::QUIET);
    }
    let ghost mid1 = moves@;
    assert(mid1 =~= start + unscored(push_seq(SIDE, 8, MoveFlag::QUIET, push0)));
    while promo != 0
        invariant
            SIDE < 2,
            SIDE == 1 ==> promo & low_mask(8) == 0,
            moves@ + unscored(promo_push_seq(SIDE, promo)) == mid1 + unscored(
                promo_push_seq(SIDE, promo0),
            ),
        decreases promo,
    {
        proof {
            lemma_clear_ls1b(promo);
            let t = promo.trailing_zeros() as u64;
            if SIDE == 1 {
                lemma_low_clear(promo, 0, 8, t);
            }
        }
        let from = promo.trailing_zeros() as u16;
        let ghost before = moves@;
        let ghost rest = clear_ls1b(promo);
        let f = from;
        let to = idx_shift::<SIDE, 8>(from) << 6u16;
        moves.add(f | to | MoveFlag::KNIGHT_PROMO);
        moves.add(f | to | MoveFlag::BISHOP_PROMO);
        moves.add(f | to | MoveFlag::ROOK_PROMO);
        moves.add(f | to | MoveFlag::QUEEN_PROMO);
        promo = promo & (promo - 1);
        proof {
            let p = promo4(f | to, false);
            assert(moves@ =~= before + unscored(p));
            assert(unscored(p + promo_push_seq(SIDE, rest)) =~= unscored(p) + unscored(
                promo_push_seq(SIDE, rest),
            ));
        }
    }
    let ghost mid2 = moves@;
    assert(mid2 =~= mid1 + unscored(promo_push_seq(SIDE, promo0)));
    while dbl != 0
        invariant
            SIDE < 2,
            SIDE == 1 ==> dbl & low_mask(16) == 0,
            moves@ + unscored(push_seq(SIDE, 16, MoveFlag::DBL_PUSH, dbl)) == mid2 + unscored(
                push_seq(SIDE, 16, MoveFlag::DBL_PUSH, dbl0),
            ),
        decreases dbl,
    {
        proof {
            lemma_clear_ls1b(dbl);
            let t = dbl.trailing_zeros() as u64;
            if SIDE == 1 {
                lemma_low_clear(dbl, 0, 16, t);
            }
        }
        let from = dbl.trailing_zeros() as u16;
        let to = idx_shift::<SIDE, 16>(from);
        proof {
            lemma_unscored_push(
                moves@,
                from | (to << 6u16) | MoveFlag::DBL_PUSH,
                push_seq(SIDE, 16, MoveFlag::DBL_PUSH, clear_ls1b(dbl)),
            );
        }
        dbl = dbl & (dbl - 1);
        moves.add(from | to << 6u16 | MoveFlag::DBL_PUSH);
    }
    proof {
        assert(moves@ + unscored(push_seq(SIDE, 16, MoveFlag::DBL_PUSH, 0)) =~= moves@);
        let a = push_seq(SIDE, 8, MoveFlag::QUIET, push0);
        let b = promo_push_seq(SIDE, promo0);
        let d = push_seq(SIDE, 16, MoveFlag::DBL_PUSH, dbl0);
        assert(unscored(a + b + d) =~= unscored(a) + unscored(b) + unscored(d));
    }
}

} // verus!
