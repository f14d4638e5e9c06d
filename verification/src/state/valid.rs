//! Valid positions stay valid: making a legal move in a valid position gives
//! a valid position, so every position a search reaches is valid.
use vstd::prelude::*;
use crate::bits::{bit, has_bit, lemma_bit_ops, lemma_bit_single, lemma_bits_ext, lemma_ls1b};
use super::position::{
    attacked_spec, between_spec, captured_of, ep_victim, gen_spec, is_castle_flag, king_sq,
    legal_spec, lens_ok, make_spec, moved_of, mv_flag, mv_from, mv_to, occ_of, piece_delta,
    piece_of, promo_piece, right_bit, rook_home, rook_target, side_delta, stm_of, Position,
    PositionView,
};
use super::laws::{
    board_ok, castle_ok, delta_squares_ok, ep_ok, kind_at, king_single, lemma_between_end,
    lemma_double_rank, lemma_generated_moves_shape, lemma_get_piece, lemma_move_squares, lemma_occ,
    lemma_pd_bit, lemma_sd_bit, mask_ok, move_shape, pos_valid, sides_disjoint, sq_ok,
};

verus! {

/// Side owning the piece on `q`, 2 when the square is empty.
pub open spec fn side_at(v: PositionView, q: u64) -> int {
    if has_bit(v.sides[0], q) {
        0
    } else if has_bit(v.sides[1], q) {
        1
    } else {
        2
    }
}

/// Kind of the piece on `q` once `m` is made (6 for empty).
pub open spec fn kind_after(v: PositionView, m: u16, q: u64) -> int {
    let us = stm_of(v);
    let f = mv_from(m);
    let t = mv_to(m);
    let fl = mv_flag(m);
    if is_castle_flag(fl) {
        let ks = fl == 0x2000;
        if q == t {
            5
        } else if q == rook_target(us, ks) {
            3
        } else if q == f || q == rook_home(v.rooks, us, ks) {
            6
        } else {
            kind_at(v, q)
        }
    } else if q == t {
        if fl >= 0x8000 {
            promo_piece(fl)
        } else {
            moved_of(v, m) as int
        }
    } else if q == f || (fl == 0x5000 && q == ep_victim(us, t)) {
        6
    } else {
        kind_at(v, q)
    }
}

/// Side owning the piece on `q` once `m` is made (2 for empty).
pub open spec fn side_after(v: PositionView, m: u16, q: u64) -> int {
    let us = stm_of(v);
    let f = mv_from(m);
    let t = mv_to(m);
    let fl = mv_flag(m);
    if is_castle_flag(fl) {
        let ks = fl == 0x2000;
        if q == t || q == rook_target(us, ks) {
            us as int
        } else if q == f || q == rook_home(v.rooks, us, ks) {
            2
        } else {
            side_at(v, q)
        }
    } else if q == t {
        us as int
    } else if q == f || (fl == 0x5000 && q == ep_victim(us, t)) {
        2
    } else {
        side_at(v, q)
    }
}

/// On a square holding at most one piece, each board tells whether that
/// piece is on it.
pub proof fn lemma_square(v: PositionView, q: u64)
    requires
        lens_ok(v),
        q < 64,
        sq_ok(v, q),
    ensures
        forall|p: int| 0 <= p < 6 ==> #[trigger] has_bit(v.pieces[p], q) == (kind_at(v, q) == p),
        forall|s: int| 0 <= s < 2 ==> #[trigger] has_bit(v.sides[s], q) == (side_at(v, q) == s),
        (kind_at(v, q) == 6) == (side_at(v, q) == 2),
        0 <= kind_at(v, q) <= 6,
        0 <= side_at(v, q) <= 2,
{
}

/// A side's single king is on `q` exactly when `q` is its king square.
pub proof fn lemma_king_at(v: PositionView, s: int, q: u64)
    requires
        lens_ok(v),
        0 <= s < 2,
        king_single(v, s),
        q < 64,
    ensures
        king_sq(v, s) < 64,
        has_bit(piece_of(v, s, 5), q) == (q == king_sq(v, s)),
        has_bit(piece_of(v, s, 5), king_sq(v, s)),
{
    lemma_ls1b(piece_of(v, s, 5));
    lemma_bit_single(king_sq(v, s), q);
}

/// A board holding exactly the square `k` is a single king on `k`.
pub proof fn lemma_single_square(x: u64, k: u64)
    requires
        k < 64,
        forall|q: u64| q < 64 ==> #[trigger] has_bit(x, q) == (q == k),
    ensures
        x == bit(k),
        x != 0,
        x.trailing_zeros() as u64 == k,
{
    assert forall|q: u64| q < 64 implies #[trigger] has_bit(x, q) == has_bit(bit(k), q) by {
        lemma_bit_single(k, q);
    }
    lemma_bits_ext(x, bit(k));
    lemma_bit_single(k, k);
    lemma_ls1b(x);
    lemma_bit_single(k, x.trailing_zeros() as u64);
}

/// What a move of the right shape in a valid position finds on the squares
/// it touches.
pub proof fn lemma_move_facts(v: PositionView, m: u16)
    requires
        pos_valid(v),
        move_shape(v, m),
    ensures
        mv_from(m) < 64,
        mv_to(m) < 64,
        delta_squares_ok(v.rooks, m, stm_of(v)),
        moved_of(v, m) == kind_at(v, mv_from(m)),
        moved_of(v, m) < 6,
        side_at(v, mv_from(m)) == stm_of(v),
        !is_castle_flag(mv_flag(m)) ==> {
            &&& mv_from(m) != mv_to(m)
            &&& side_at(v, mv_to(m)) != stm_of(v)
            &&& captured_of(v, m) != 6 ==> captured_of(v, m) == kind_at(v, mv_to(m)) && side_at(
                v,
                mv_to(m),
            ) == 1 - stm_of(v)
            &&& captured_of(v, m) == 6 ==> kind_at(v, mv_to(m)) == 6 && side_at(v, mv_to(m)) == 2
        },
        mv_flag(m) >= 0x8000 ==> moved_of(v, m) == 0 && !is_castle_flag(mv_flag(m)),
        1 <= promo_piece(mv_flag(m)) <= 4,
        mv_flag(m) == 0x5000 ==> {
            let e = ep_victim(stm_of(v), mv_to(m));
            &&& e < 64
            &&& side_at(v, e) == 1 - stm_of(v)
            &&& kind_at(v, e) == 0
            &&& e != mv_from(m)
            &&& e != mv_to(m)
        },
        is_castle_flag(mv_flag(m)) ==> {
            let us = stm_of(v);
            let ks = mv_flag(m) == 0x2000;
            let f = mv_from(m);
            let t = mv_to(m);
            let h = rook_home(v.rooks, us, ks);
            let r = rook_target(us, ks);
            &&& moved_of(v, m) == 5
            &&& f == king_sq(v, us as int)
            &&& captured_of(v, m) == 6
            &&& h < 64
            &&& r < 64
            &&& kind_at(v, h) == 3
            &&& side_at(v, h) == us
            &&& h != f
            &&& t != r
            &&& t != f ==> (t == h || (kind_at(v, t) == 6 && side_at(v, t) == 2))
            &&& r != h ==> (r == f || (kind_at(v, r) == 6 && side_at(v, r) == 2))
        },
{
    let us = stm_of(v);
    let f = mv_from(m);
    let t = mv_to(m);
    let fl = mv_flag(m);
    lemma_move_squares(v, m);
    super::laws::lemma_flag_values(m);
    super::position::lemma_move_fields(m);
    lemma_square(v, f);
    lemma_square(v, t);
    lemma_bit_ops(v.sides[0], v.sides[1], t);
    lemma_get_piece(v, t);
    if fl == 0x5000 {
        let e = ep_victim(us, t);
        assert(sq_ok(v, e));
        lemma_square(v, e);
    }
    if is_castle_flag(fl) {
        let ks = fl == 0x2000;
        let h = rook_home(v.rooks, us, ks);
        let r = rook_target(us, ks);
        let occ = occ_of(v);
        let kbb = piece_of(v, us as int, 5);
        lemma_king_at(v, us as int, f);
        lemma_bit_ops(v.sides[us as int], v.pieces[5], f);
        assert(has_bit(piece_of(v, us as int, 3), h));
        lemma_bit_ops(v.sides[us as int], v.pieces[3], h);
        assert(sq_ok(v, h));
        assert(sq_ok(v, r));
        lemma_square(v, h);
        lemma_square(v, r);
        lemma_occ(v);
        lemma_bit_ops(v.sides[0], v.sides[1], t);
        lemma_bit_ops(v.sides[0], v.sides[1], r);
        assert(kbb == bit(f));
        if t != f {
            lemma_between_end(f, t);
            let mask = between_spec(kbb, bit(t)) ^ bit(t);
            lemma_bit_ops(occ ^ bit(h), mask, t);
            lemma_bit_ops(occ, bit(h), t);
            lemma_bit_ops(0, 0, t);
            lemma_bit_single(h, t);
        }
        if r != h {
            lemma_between_end(h, r);
            let mask = between_spec(bit(h), bit(r)) ^ bit(r);
            lemma_bit_ops(occ ^ kbb, mask, r);
            lemma_bit_ops(occ, kbb, r);
            lemma_bit_ops(0, 0, r);
            lemma_bit_single(f, r);
        }
    }
}

/// The boards after `m`: every square holds what `kind_after` and
/// `side_after` say, one piece of one side or nothing.
pub proof fn lemma_after(v: PositionView, m: u16, q: u64)
    requires
        pos_valid(v),
        move_shape(v, m),
        q < 64,
    ensures
        forall|p: int|
            0 <= p < 6 ==> #[trigger] has_bit(make_spec(v, m).pieces[p], q) == (kind_after(v, m, q)
                == p),
        forall|s: int|
            0 <= s < 2 ==> #[trigger] has_bit(make_spec(v, m).sides[s], q) == (side_after(v, m, q)
                == s),
        (kind_after(v, m, q) == 6) == (side_after(v, m, q) == 2),
        0 <= kind_after(v, m, q) <= 6,
        0 <= side_after(v, m, q) <= 2,
{
    let w = make_spec(v, m);
    let us = stm_of(v);
    let moved = moved_of(v, m);
    let captured = captured_of(v, m);
    let fl = mv_flag(m);
    lemma_move_facts(v, m);
    assert(sq_ok(v, q));
    lemma_square(v, q);
    assert forall|p: int| 0 <= p < 6 implies #[trigger] has_bit(w.pieces[p], q) == (kind_after(
        v,
        m,
        q,
    ) == p) by {
        let d = piece_delta(v.rooks, m, us, moved, captured, p);
        assert(w.pieces[p] == v.pieces[p] ^ d);
        lemma_bit_ops(v.pieces[p], d, q);
        lemma_pd_bit(v.rooks, m, us, moved, captured, p, q);
    }
    assert forall|s: int| 0 <= s < 2 implies #[trigger] has_bit(w.sides[s], q) == (side_after(
        v,
        m,
        q,
    ) == s) by {
        let d = side_delta(v.rooks, m, us, captured, s);
        assert(w.sides[s] == v.sides[s] ^ d);
        lemma_bit_ops(v.sides[s], d, q);
        lemma_sd_bit(v.rooks, m, us, captured, s, q);
    }
}

/// A generated move never captures a king: the side that has just moved is
/// not in check.
pub proof fn lemma_no_king_capture(v: PositionView, m: u16)
    requires
        pos_valid(v),
        move_shape(v, m),
    ensures
        captured_of(v, m) != 5,
{
    lemma_move_facts(v, m);
    let us = stm_of(v);
    let them = 1 - us;
    let t = mv_to(m);
    super::laws::lemma_flag_values(m);
    if captured_of(v, m) == 5 {
        assert(sq_ok(v, t));
        lemma_square(v, t);
        lemma_bit_ops(v.sides[them], v.pieces[5], t);
        lemma_king_at(v, them, t);
        assert(t == king_sq(v, them));
        assert(attacked_spec(v, t, (1 - us) as usize, occ_of(v)));
    }
}

/// After `m`, each side still has one king: the mover's on the destination
/// if the king moved, the other side's where it was.
pub proof fn lemma_kings_after(v: PositionView, m: u16)
    requires
        pos_valid(v),
        move_shape(v, m),
    ensures
        king_single(make_spec(v, m), 0),
        king_single(make_spec(v, m), 1),
        king_sq(make_spec(v, m), stm_of(v) as int) == (if moved_of(v, m) == 5 {
            mv_to(m)
        } else {
            king_sq(v, stm_of(v) as int)
        }),
        king_sq(make_spec(v, m), 1 - stm_of(v)) == king_sq(v, 1 - stm_of(v)),
{
    let w = make_spec(v, m);
    let us = stm_of(v) as int;
    let them = 1 - us;
    let f = mv_from(m);
    let t = mv_to(m);
    let fl = mv_flag(m);
    lemma_move_facts(v, m);
    lemma_no_king_capture(v, m);
    let ku = if moved_of(v, m) == 5 {
        t
    } else {
        king_sq(v, us)
    };
    let kt = king_sq(v, them);
    lemma_king_at(v, us, f);
    lemma_king_at(v, them, f);
    lemma_bit_ops(v.sides[us], v.pieces[5], f);
    let k0 = king_sq(v, us);
    lemma_king_at(v, us, k0);
    lemma_king_at(v, them, kt);
    assert(sq_ok(v, k0));
    assert(sq_ok(v, kt));
    lemma_square(v, k0);
    lemma_square(v, kt);
    lemma_bit_ops(v.sides[us], v.pieces[5], k0);
    lemma_bit_ops(v.sides[them], v.pieces[5], kt);
    lemma_after(v, m, ku);
    lemma_after(v, m, kt);
    assert forall|q: u64| q < 64 implies #[trigger] has_bit(piece_of(w, us, 5), q) == (q == ku) by {
        lemma_after(v, m, q);
        assert(sq_ok(v, q));
        lemma_square(v, q);
        lemma_king_at(v, us, q);
        lemma_bit_ops(w.sides[us], w.pieces[5], q);
        lemma_bit_ops(v.sides[us], v.pieces[5], q);
    }
    assert forall|q: u64| q < 64 implies #[trigger] has_bit(piece_of(w, them, 5), q) == (q == kt) by {
        lemma_after(v, m, q);
        assert(sq_ok(v, q));
        lemma_square(v, q);
        lemma_king_at(v, them, q);
        lemma_bit_ops(w.sides[them], w.pieces[5], q);
        lemma_bit_ops(v.sides[them], v.pieces[5], q);
    }
    lemma_single_square(piece_of(w, us, 5), ku);
    lemma_single_square(piece_of(w, them, 5), kt);
}

/// After `m`, every square holds at most one piece and the sides share no
/// square.
pub proof fn lemma_board_after(v: PositionView, m: u16)
    requires
        pos_valid(v),
        move_shape(v, m),
    ensures
        board_ok(make_spec(v, m)),
        sides_disjoint(make_spec(v, m)),
{
    let w = make_spec(v, m);
    assert forall|q: u64| q < 64 implies #[trigger] sq_ok(w, q) by {
        lemma_after(v, m, q);
    }
    assert forall|q: u64| q < 64 implies #[trigger] has_bit(w.sides[0] & w.sides[1], q) == has_bit(
        0u64,
        q,
    ) by {
        lemma_after(v, m, q);
        lemma_bit_ops(w.sides[0], w.sides[1], q);
        lemma_bit_ops(0, 0, q);
    }
    lemma_bits_ext(w.sides[0] & w.sides[1], 0);
}

/// After `m`, the en passant square is unset, or is the empty square the
/// pawn that has just moved two squares passed over.
pub proof fn lemma_ep_after(v: PositionView, m: u16)
    requires
        pos_valid(v),
        move_shape(v, m),
    ensures
        ep_ok(make_spec(v, m)),
        make_spec(v, m).state.en_passant < 64,
{
    let w = make_spec(v, m);
    let us = stm_of(v);
    let t = mv_to(m);
    let fl = mv_flag(m);
    lemma_move_facts(v, m);
    if fl == 0x1000 {
        lemma_double_rank(us, t);
        let e = ep_victim(us, t);
        assert(w.state.en_passant as u64 == e);
        lemma_after(v, m, e);
        lemma_after(v, m, t);
        assert(sq_ok(v, e));
        lemma_square(v, e);
        lemma_bit_ops(v.sides[0], v.sides[1], e);
        lemma_bit_ops(w.sides[0], w.sides[1], e);
    }
}

/// After `m`, each castling right held still has its rook at home, and the
/// rights mask still clears it on the king's and the rook's squares.
pub proof fn lemma_castle_after(v: PositionView, m: u16)
    requires
        pos_valid(v),
        move_shape(v, m),
    ensures
        castle_ok(make_spec(v, m)),
        mask_ok(make_spec(v, m)),
{
    let w = make_spec(v, m);
    let us = stm_of(v);
    let f = mv_from(m);
    let t = mv_to(m);
    lemma_move_facts(v, m);
    lemma_kings_after(v, m);
    lemma_king_at(v, us as int, f);
    lemma_bit_ops(v.sides[us as int], v.pieces[5], f);
    assert(sq_ok(v, f));
    lemma_square(v, f);
    assert forall|s: usize, ks: bool|
        s < 2 && w.state.castle_rights & #[trigger] right_bit(s, ks) > 0 implies {
        &&& has_bit(piece_of(w, s as int, 3), rook_home(w.rooks, s, ks))
        &&& w.mask[king_sq(w, s as int) as int] & right_bit(s, ks) == 0
        &&& w.mask[rook_home(w.rooks, s, ks) as int] & right_bit(s, ks) == 0
    } by {
        let rb = right_bit(s, ks);
        let r0 = v.state.castle_rights;
        let mt = v.mask[t as int];
        let mf = v.mask[f as int];
        assert(r0 & mt & mf & rb > 0 ==> r0 & rb > 0 && mt & rb > 0 && mf & rb > 0) by (bit_vector);
        assert(v.state.castle_rights & right_bit(s, ks) > 0);
        let h = rook_home(v.rooks, s, ks);
        assert(has_bit(piece_of(v, s as int, 3), h));
        lemma_after(v, m, h);
        assert(sq_ok(v, h));
        lemma_square(v, h);
        lemma_bit_ops(v.sides[s as int], v.pieces[3], h);
        lemma_bit_ops(w.sides[s as int], w.pieces[3], h);
    }
}

/// Making a legal move of the shape the generator gives, in a valid
/// position, gives a valid position.
pub proof fn lemma_make_valid(v: PositionView, m: u16)
    requires
        pos_valid(v),
        move_shape(v, m),
        legal_spec(v, m),
    ensures
        pos_valid(make_spec(v, m)),
{
    let w = make_spec(v, m);
    lemma_kings_after(v, m);
    lemma_board_after(v, m);
    lemma_ep_after(v, m);
    lemma_castle_after(v, m);
    assert(stm_of(w) == 1 - stm_of(v));
    assert(lens_ok(w));
}

/// Every legal move the generator gives in a valid position leads to a valid
/// position.
pub proof fn lemma_generated_moves_keep_valid(v: PositionView, quiet: bool, i: int)
    requires
        pos_valid(v),
        0 <= i < gen_spec(v, quiet).len(),
        legal_spec(v, gen_spec(v, quiet)[i]),
    ensures
        pos_valid(make_spec(v, gen_spec(v, quiet)[i])),
{
    lemma_generated_moves_shape(v, quiet);
    lemma_make_valid(v, gen_spec(v, quiet)[i]);
}

/// A castling right of `side` on the king side (`ks`) or queen side: if it is
/// held, its rook is at home and the rights mask clears it on the king's and
/// the rook's squares.
pub open spec fn right_ok(v: PositionView, side: usize, ks: bool) -> bool {
    let rb = right_bit(side, ks);
    let h = rook_home(v.rooks, side, ks);
    v.state.castle_rights & rb > 0 ==> {
        &&& has_bit(piece_of(v, side as int, 3), h)
        &&& v.mask[king_sq(v, side as int) as int] & rb == 0
        &&& v.mask[h as int] & rb == 0
    }
}

impl Position {
    /// Whether the square `q` is empty or holds one piece of one side.
    fn square_ok(&self, q: u64) -> (r: bool)
        requires
            q < 64,
        ensures
            r == sq_ok(self@, q),
    {
        proof {
            self.lemma_lens();
        }
        let s0 = (self.side(0) >> q) & 1 == 1;
        let s1 = (self.side(1) >> q) & 1 == 1;
        let b0: u64 = if (self.kind_board(0) >> q) & 1 == 1 { 1 } else { 0 };
        let b1: u64 = if (self.kind_board(1) >> q) & 1 == 1 { 1 } else { 0 };
        let b2: u64 = if (self.kind_board(2) >> q) & 1 == 1 { 1 } else { 0 };
        let b3: u64 = if (self.kind_board(3) >> q) & 1 == 1 { 1 } else { 0 };
        let b4: u64 = if (self.kind_board(4) >> q) & 1 == 1 { 1 } else { 0 };
        let b5: u64 = if (self.kind_board(5) >> q) & 1 == 1 { 1 } else { 0 };
        let n = b0 + b1 + b2 + b3 + b4 + b5;
        !(s0 && s1) && n == (if s0 || s1 { 1 } else { 0 })
    }

    /// Whether `side` has exactly one king.
    fn king_ok(&self, side: usize) -> (r: bool)
        requires
            side < 2,
        ensures
            r == king_single(self@, side as int),
    {
        let k = self.piece(side, 5);
        if k == 0 {
            return false;
        }
        let sq = crate::bits::ls1b_scan(k);
        let sq64: u64 = sq as u64;
        k == 1u64 << sq64
    }

    /// Index of the (single) king of `side`.
    fn king_square(&self, side: usize) -> (r: usize)
        requires
            side < 2,
            king_single(self@, side as int),
        ensures
            r as u64 == king_sq(self@, side as int),
            r < 64,
    {
        proof {
            lemma_ls1b(piece_of(self@, side as int, 5));
        }
        crate::bits::ls1b_scan(self.piece(side, 5)) as usize
    }

    /// Whether a castling right is consistent with the board and the mask.
    fn right_consistent(&self, side: usize, ks: bool) -> (r: bool)
        requires
            side < 2,
            king_single(self@, side as int),
            self@.rooks[0] < 8,
            self@.rooks[1] < 8,
        ensures
            r == right_ok(self@, side, ks),
    {
        proof {
            self.lemma_lens();
        }
        let rb: u8 = if side == 0 {
            if ks {
                4
            } else {
                8
            }
        } else {
            if ks {
                1
            } else {
                2
            }
        };
        let rooks = self.castling_rooks();
        let file = if ks {
            rooks[1]
        } else {
            rooks[0]
        };
        let h: u64 = 56 * (side as u64) + file as u64;
        if self.state().castle_rights & rb == 0 {
            return true;
        }
        let k = self.king_square(side);
        (self.piece(side, 3) >> h) & 1 == 1 && self.castle_mask(k) & rb == 0 && self.castle_mask(
            h as usize,
        ) & rb == 0
    }

    /// Whether the position is valid: every piece stands on its own square,
    /// each side has one king, the side that has just moved is not in check,
    /// and the en passant square and castling rights are consistent.
    pub fn valid(&self) -> (r: bool)
        ensures
            r == pos_valid(self@),
    {
        proof {
            self.lemma_lens();
        }
        let v = Ghost(self@);
        let rooks = self.castling_rooks();
        let st = self.state();
        let us = self.stm();
        let them = 1 - us;
        if rooks[0] >= 8 || rooks[1] >= 8 || st.en_passant >= 64 {
            return false;
        }
        if !self.king_ok(0) || !self.king_ok(1) {
            return false;
        }
        if self.side(0) & self.side(1) != 0 {
            return false;
        }
        let mut q: u64 = 0;
        while q < 64
            invariant
                q <= 64,
                forall|x: u64| x < q ==> #[trigger] sq_ok(self@, x),
            decreases 64 - q,
        {
            if !self.square_ok(q) {
                return false;
            }
            q = q + 1;
        }
        assert(board_ok(self@));
        let ep = st.en_passant as u64;
        let occ = self.occ();
        let ep_good = if ep == 0 {
            true
        } else if us == 0 {
            40 <= ep && ep < 48 && (occ >> ep) & 1 != 1 && (self.side(1) >> (ep - 8)) & 1 == 1 && (
            self.kind_board(0) >> (ep - 8)) & 1 == 1
        } else {
            16 <= ep && ep < 24 && (occ >> ep) & 1 != 1 && (self.side(0) >> (ep + 8)) & 1 == 1 && (
            self.kind_board(0) >> (ep + 8)) & 1 == 1
        };
        if !ep_good {
            return false;
        }
        let c0 = self.right_consistent(0, false);
        let c1 = self.right_consistent(0, true);
        let c2 = self.right_consistent(1, false);
        let c3 = self.right_consistent(1, true);
        if !(c0 && c1 && c2 && c3) {
            return false;
        }
        assert forall|s: usize, ks: bool|
            s < 2 && v@.state.castle_rights & #[trigger] right_bit(s, ks) > 0 implies has_bit(
            piece_of(v@, s as int, 3),
            rook_home(v@.rooks, s, ks),
        ) && v@.mask[king_sq(v@, s as int) as int] & right_bit(s, ks) == 0 && v@.mask[rook_home(
            v@.rooks,
            s,
            ks,
        ) as int] & right_bit(s, ks) == 0 by {
            assert(right_ok(v@, s, ks));
        }
        let k = self.king_square(them);
        !self.is_square_attacked(k, them, occ)
    }
}

} // verus!
