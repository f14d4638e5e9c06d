//! Reading moves written in the notation of the interface.
use vstd::prelude::*;
use crate::state::fen::{square_index, square_ok, square_str_to_index};
use crate::state::moves::movs;
use crate::state::position::{gen_ok, gen_spec, mv_flag, mv_from, mv_to, promo_piece, Position};
use crate::engine::util::square_name;

verus! {

/// Flag named by the promotion letter of a move string (quiet when none).
pub open spec fn promo_flag(s: Seq<char>) -> u16 {
    let c = if s.len() > 4 { s[4] } else { 'f' };
    if c == 'n' {
        0x8000
    } else if c == 'b' {
        0x9000
    } else if c == 'r' {
        0xA000
    } else if c == 'q' {
        0xB000
    } else {
        0
    }
}

/// Whether generated move `m` is the one a move string with squares
/// `from`, `to` names: same squares, same promotion when one is written, and
/// not a castling move in Chess960 (where castling is written king takes rook).
pub open spec fn matches_move(m: u16, from: u16, to: u16, s: Seq<char>, chess960: bool) -> bool {
    let mflag = m & 0xF000;
    &&& (from | (to << 6u16)) == m & 0xFFF
    &&& (s.len() < 5 || promo_flag(s) == mflag & 0xB000)
    &&& (!chess960 || (mflag != 0x2000 && mflag != 0x3000))
}

/// First index of `ms` whose move matches, or -1.
pub open spec fn first_match(ms: Seq<u16>, from: u16, to: u16, s: Seq<char>, chess960: bool, n: int) -> int
    decreases n,
{
    if n <= 0 {
        -1
    } else if first_match(ms, from, to, s, chess960, n - 1) >= 0 {
        first_match(ms, from, to, s, chess960, n - 1)
    } else if matches_move(ms[n - 1], from, to, s, chess960) {
        n - 1
    } else {
        -1
    }
}

proof fn lemma_first_match_persists(ms: Seq<u16>, from: u16, to: u16, s: Seq<char>, c: bool, m: int, n: int)
    requires
        1 <= m <= n,
        first_match(ms, from, to, s, c, m) >= 0,
    ensures
        first_match(ms, from, to, s, c, n) == first_match(ms, from, to, s, c, m),
    decreases n - m,
{
    if n > m {
        lemma_first_match_persists(ms, from, to, s, c, m, n - 1);
    }
}

/// What a move string reads as in a position: in a Chess960 game a king
/// "taking" its own piece is castling with the rook on that square (queen
/// side for the first castling rook, else king side); otherwise the first
/// generated move with those squares and promotion, or an error.
pub open spec fn uci_move(pos: crate::state::position::PositionView, s: Seq<char>) -> Result<u16, Seq<char>> {
    let from = square_index(s.subrange(0, 2)) as u16;
    let to = square_index(s.subrange(2, 4)) as u16;
    let stm: int = if pos.stm { 1 } else { 0 };
    if pos.chess960 && (pos.sides[stm] & (1u64 << to)) > 0 {
        let side = 56 * (from / 56);
        if to == pos.rooks[0] + side {
            Ok((0x3000u16 | (((2 + side) as u16) << 6u16) | from) as u16)
        } else {
            Ok((0x2000u16 | (((6 + side) as u16) << 6u16) | from) as u16)
        }
    } else {
        let ms = gen_spec(pos, true);
        let k = first_match(ms, from, to, s, pos.chess960, ms.len() as int);
        if k >= 0 {
            Ok(ms[k])
        } else {
            Err("error parsing {m_str:?}"@)
        }
    }
}

proof fn lemma_first_match(ms: Seq<u16>, from: u16, to: u16, s: Seq<char>, c: bool, n: int)
    requires
        0 <= n <= ms.len(),
        first_match(ms, from, to, s, c, n) >= 0,
    ensures
        first_match(ms, from, to, s, c, n) < n,
        matches_move(ms[first_match(ms, from, to, s, c, n)], from, to, s, c),
    decreases n,
{
    if first_match(ms, from, to, s, c, n - 1) >= 0 {
        lemma_first_match(ms, from, to, s, c, n - 1);
    }
}

/// A move written with a promotion letter reads as a promotion to the piece
/// of that letter (as records write a black piece: `n`, `b`, `r`, `q`); the
/// from and to squares are those written.
pub proof fn lemma_reads_promotion(pos: crate::state::position::PositionView, s: Seq<char>, k: int)
    requires
        s.len() >= 5,
        0 <= square_index(s.subrange(0, 2)) < 64,
        1 <= k <= 4,
        s[4] == crate::io::fen::piece_char(6 + k),
        uci_move(pos, s) is Ok,
        crate::state::position::mv_flag(uci_move(pos, s)->Ok_0) != 0x2000,
        crate::state::position::mv_flag(uci_move(pos, s)->Ok_0) != 0x3000,
    ensures
        crate::state::position::mv_flag(uci_move(pos, s)->Ok_0) >= 0x8000,
        crate::state::position::promo_piece(crate::state::position::mv_flag(uci_move(pos, s)->Ok_0))
            == k,
        (uci_move(pos, s)->Ok_0 & 0xFFF) == square_index(s.subrange(0, 2)) as u16 | ((square_index(
            s.subrange(2, 4),
        ) as u16) << 6u16),
{
    let from = square_index(s.subrange(0, 2)) as u16;
    let to = square_index(s.subrange(2, 4)) as u16;
    let stm: int = if pos.stm { 1 } else { 0 };
    crate::state::laws::lemma_flags();
    if pos.chess960 && (pos.sides[stm] & (1u64 << to)) > 0 {
        let side = 56 * (from / 56);
        let t: u16 = if to == pos.rooks[0] + side {
            (2 + side) as u16
        } else {
            (6 + side) as u16
        };
        let fl: u16 = if to == pos.rooks[0] + side {
            0x3000
        } else {
            0x2000
        };
        crate::state::laws::lemma_castle_encode(from, t, fl);
        crate::state::position::lemma_move_encode(from, t, fl);
        assert(uci_move(pos, s)->Ok_0 == fl | (t << 6u16) | from);
    } else {
        let ms = gen_spec(pos, true);
        let i = first_match(ms, from, to, s, pos.chess960, ms.len() as int);
        lemma_first_match(ms, from, to, s, pos.chess960, ms.len() as int);
        let m = ms[i];
        assert(m == uci_move(pos, s)->Ok_0);
        assert(promo_flag(s) == (m & 0xF000) & 0xB000);
        assert(((m & 0xF000) & 0xB000 == 0x8000 ==> ((m & 0xF000) >> 12u16) & 3 == 0 && (m & 0xF000)
            >= 0x8000) && ((m & 0xF000) & 0xB000 == 0x9000 ==> ((m & 0xF000) >> 12u16) & 3 == 1 && (m
            & 0xF000) >= 0x8000) && ((m & 0xF000) & 0xB000 == 0xA000 ==> ((m & 0xF000) >> 12u16) & 3
            == 2 && (m & 0xF000) >= 0x8000) && ((m & 0xF000) & 0xB000 == 0xB000 ==> ((m & 0xF000)
            >> 12u16) & 3 == 3 && (m & 0xF000) >= 0x8000)) by (bit_vector);
    }
}

/// A square's name reads back as that square.
pub proof fn lemma_square_name_index(i: u16)
    requires
        i < 64,
    ensures
        square_ok(crate::engine::util::square_name(i)),
        square_index(crate::engine::util::square_name(i)) == i,
{
    crate::bits::lemma_square_index(i as u64);
    assert((i & 7) as u64 == (i as u64) & 7);
    let n = crate::engine::util::square_name(i);
    assert(n[0] as u32 == (i & 7) + 97);
    assert(n[1] as u32 == i / 8 + 49);
}

proof fn lemma_first_match_found(ms: Seq<u16>, from: u16, to: u16, s: Seq<char>, c: bool, j: int, n: int)
    requires
        0 <= j < n <= ms.len(),
        matches_move(ms[j], from, to, s, c),
    ensures
        first_match(ms, from, to, s, c, n) >= 0,
    decreases n,
{
    if n - 1 > j {
        lemma_first_match_found(ms, from, to, s, c, j, n - 1);
    }
}

/// Writing a generated promotion and reading the written move back (its
/// squares and promotion letter) in the same position gives the same move,
/// in a standard or a Chess960 game.
pub proof fn lemma_promotion_round_trip(pos: crate::state::position::PositionView, m: u16)
    requires
        crate::state::laws::pos_valid(pos),
        gen_spec(pos, true).contains(m),
        crate::state::position::mv_flag(m) >= 0x8000,
    ensures
        uci_move(pos, crate::engine::util::uci_spec(pos.chess960, pos.rooks, m).subrange(0, 5)) == Ok::<
            u16,
            Seq<char>,
        >(m),
{
    crate::state::position::lemma_move_fields(m);
    let f = mv_flag(m);
    let from = mv_from(m) as u16;
    let to = mv_to(m) as u16;
    let k = promo_piece(f);
    crate::engine::util::lemma_promotion_letter(pos.chess960, pos.rooks, m);
    let full = crate::engine::util::uci_spec(pos.chess960, pos.rooks, m);
    let s = full.subrange(0, 5);
    assert(s.subrange(0, 2) =~= square_name(from));
    assert(s.subrange(2, 4) =~= square_name(to));
    assert(s[4] == crate::io::fen::piece_char(6 + k));
    lemma_square_name_index(from);
    lemma_square_name_index(to);
    assert(promo_flag(s) == 0x8000 + 0x1000 * (k - 1));
    let ms = gen_spec(pos, true);
    let j = choose|j: int| 0 <= j < ms.len() && ms[j] == m;
    crate::state::laws::lemma_generated_moves_shape(pos, true);
    assert(crate::state::laws::move_shape(pos, ms[j]));
    let us: int = if pos.stm { 1 } else { 0 };
    let t = to as u64;
    crate::bits::lemma_bit_ops(pos.sides[0], pos.sides[1], t);
    crate::bits::lemma_bit_ops(pos.sides[us], 0, t);
    crate::bits::lemma_bit_ops(0, 0, t);
    assert(!crate::bits::has_bit(pos.sides[us], t));
    assert(pos.sides[us] & (1u64 << to) == 0);
    assert(((m & 0xF000) >= 0x8000 ==> (m & 0xF000) & 0xB000 == 0x8000 + 0x1000 * (((m & 0xF000)
        >> 12u16) & 3)) && ((m & 63) | (((m >> 6u16) & 63) << 6u16)) == m & 0xFFF) by (bit_vector);
    assert(matches_move(m, from, to, s, pos.chess960));
    lemma_first_match_found(ms, from, to, s, pos.chess960, j, ms.len() as int);
    let i = first_match(ms, from, to, s, pos.chess960, ms.len() as int);
    lemma_first_match(ms, from, to, s, pos.chess960, ms.len() as int);
    let m2 = ms[i];
    assert(crate::state::laws::move_shape(pos, m2));
    let f2 = mv_flag(m2);
    assert((m2 & 0xF000) & 0xB000 == (m & 0xF000) & 0xB000 && (m & 0xF000) >= 0x8000 && m2 & 0xFFF
        == m & 0xFFF ==> (m2 & 0xF000) >= 0x8000 && (m2 == m || ((m2 & 0xF000) >= 0xC000) != ((m
        & 0xF000) >= 0xC000)) && (m2 >> 6u16) & 63 == (m >> 6u16) & 63) by (bit_vector);
    assert(m2 == m);
}

fn sub4(s: &str) -> (r: (String, String))
    requires
        s@.len() >= 4,
    ensures
        r.0@ == s@.subrange(0, 2),
        r.1@ == s@.subrange(2, 4),
{
    let mut a = String::new();
    let mut b = String::new();
    crate::engine::util::push_char(&mut a, s.get_char(0));
    crate::engine::util::push_char(&mut a, s.get_char(1));
    crate::engine::util::push_char(&mut b, s.get_char(2));
    crate::engine::util::push_char(&mut b, s.get_char(3));
    assert(a@ =~= s@.subrange(0, 2));
    assert(b@ =~= s@.subrange(2, 4));
    (a, b)
}

/// Reads move `m_str` in position `pos`.
pub fn uci_to_u16(pos: &Position, m_str: &str) -> (r: Result<u16, String>)
    requires
        m_str@.len() >= 4,
        forall|i: int| 0 <= i < 4 ==> (#[trigger] m_str@[i] as u32) < 128,
        square_ok(m_str@.subrange(0, 2)),
        square_ok(m_str@.subrange(2, 4)),
        pos@.chess960 ==> square_index(m_str@.subrange(2, 4)) < 64,
        gen_ok(pos@),
    ensures
        match uci_move(pos@, m_str@) {
            Ok(m) => r == Ok::<u16, String>(m),
            Err(e) => r matches Err(x) && x@ == e,
        },
{
    let (a, b) = sub4(m_str);
    let from = match square_str_to_index(a.as_str()) {
        Ok(x) => x,
        Err(e) => {
            return Err(e);
        },
    };
    let to = match square_str_to_index(b.as_str()) {
        Ok(x) => x,
        Err(e) => {
            return Err(e);
        },
    };
    let stm = pos.stm();
    if pos.chess960() && pos.side(stm) & (1u64 << to) > 0 {
        let side = 56 * (from / 56);
        let rooks = pos.castling_rooks();
        let (to2, castle) = if to == rooks[0] as u16 + side {
            (2 + side, 0x3000u16)
        } else {
            (6 + side, 0x2000u16)
        };
        return Ok(castle | to2 << 6 | from);
    }
    let mv = from | to << 6;
    let c = if m_str.unicode_len() > 4 {
        m_str.get_char(4)
    } else {
        'f'
    };
    let flag: u16 = if c == 'n' {
        0x8000
    } else if c == 'b' {
        0x9000
    } else if c == 'r' {
        0xA000
    } else if c == 'q' {
        0xB000
    } else {
        0
    };
    let long = m_str.unicode_len() >= 5;
    let possible_moves = pos.generate::<true>();
    let ghost ms = gen_spec(pos@, true);
    assert(movs(possible_moves@) =~= ms);
    let chess960 = pos.chess960();
    let mut i: usize = 0;
    while i < possible_moves.len()
        invariant
            i <= possible_moves@.len(),
            movs(possible_moves@) == ms,
            first_match(ms, from, to, m_str@, chess960, i as int) == -1,
            flag == promo_flag(m_str@),
            long == (m_str@.len() >= 5),
            mv == from | (to << 6u16),
            chess960 == pos@.chess960,
            ms == gen_spec(pos@, true),
            from == square_index(m_str@.subrange(0, 2)) as u16,
            to == square_index(m_str@.subrange(2, 4)) as u16,
            !(pos@.chess960 && (pos@.sides[if pos@.stm { 1int } else { 0int }] & (1u64 << to)) > 0),
        decreases possible_moves@.len() - i,
    {
        let m = possible_moves.at(i).mov();
        let mflag = m & 0xF000;
        assert(m == ms[i as int]);
        if mv == m & 0xFFF && (!long || flag == mflag & 0xB000) && (!chess960 || (mflag != 0x2000
            && mflag != 0x3000)) {
            proof {
                assert(matches_move(ms[i as int], from, to, m_str@, chess960));
                assert(first_match(ms, from, to, m_str@, chess960, i + 1) == i);
                assert forall|n: int| i + 1 <= n <= ms.len() implies #[trigger] first_match(
                    ms,
                    from,
                    to,
                    m_str@,
                    chess960,
                    n,
                ) == i by {
                    lemma_first_match_persists(ms, from, to, m_str@, chess960, i as int + 1, n);
                }
            }
            return Ok(m);
        }
        i += 1;
    }
    Err(String::from_str("error parsing {m_str:?}"))
}

} // verus!
