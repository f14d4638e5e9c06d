//! Reading a position from Forsyth-Edwards Notation, with the Shredder
//! extension for Chess960 castling rights (rook files as letters).
use vstd::prelude::*;
use crate::bits::bit;
use super::position::{Position, PositionView, State};

verus! {

// ---------------------------------------------------------------------------
// splitting on whitespace

/// Unicode whitespace, as `char::is_whitespace` defines it.
pub open spec fn is_ws(c: char) -> bool {
    let u = c as u32;
    (0x9 <= u <= 0xD) || u == 0x20 || u == 0x85 || u == 0xA0 || u == 0x1680 || (0x2000 <= u <= 0x200A)
        || u == 0x2028 || u == 0x2029 || u == 0x202F || u == 0x205F || u == 0x3000
}

fn is_whitespace(c: char) -> (r: bool)
    ensures
        r == is_ws(c),
{
    let u = c as u32;
    (0x9 <= u && u <= 0xD) || u == 0x20 || u == 0x85 || u == 0xA0 || u == 0x1680 || (0x2000 <= u && u
        <= 0x200A) || u == 0x2028 || u == 0x2029 || u == 0x202F || u == 0x205F || u == 0x3000
}

/// Words of the first `n` characters of `s` and the word being read.
pub open spec fn split_acc(s: Seq<char>, n: int) -> (Seq<Seq<char>>, Seq<char>)
    decreases n,
{
    if n <= 0 {
        (Seq::empty(), Seq::empty())
    } else {
        let (toks, cur) = split_acc(s, n - 1);
        let c = s[n - 1];
        if is_ws(c) {
            if cur.len() > 0 {
                (toks.push(cur), Seq::empty())
            } else {
                (toks, cur)
            }
        } else {
            (toks, cur.push(c))
        }
    }
}

/// The maximal runs of non-whitespace characters of `s`, in order.
pub open spec fn words(s: Seq<char>) -> Seq<Seq<char>> {
    let (toks, cur) = split_acc(s, s.len() as int);
    if cur.len() > 0 {
        toks.push(cur)
    } else {
        toks
    }
}

fn split_whitespace(s: &str) -> (r: Vec<Vec<char>>)
    ensures
        r@.len() == words(s@).len(),
        forall|i: int| 0 <= i < r@.len() ==> (#[trigger] r@[i])@ == words(s@)[i],
{
    let n = s.unicode_len();
    let mut toks: Vec<Vec<char>> = Vec::new();
    let mut cur: Vec<char> = Vec::new();
    let mut i: usize = 0;
    while i < n
        invariant
            i <= n,
            n == s@.len(),
            toks@.len() == split_acc(s@, i as int).0.len(),
            forall|k: int| 0 <= k < toks@.len() ==> (#[trigger] toks@[k])@ == split_acc(s@, i as int).0[k],
            cur@ == split_acc(s@, i as int).1,
        decreases n - i,
    {
        let c = s.get_char(i);
        if is_whitespace(c) {
            if cur.len() > 0 {
                toks.push(cur);
                cur = Vec::new();
            }
        } else {
            cur.push(c);
        }
        i += 1;
    }
    if cur.len() > 0 {
        toks.push(cur);
    }
    toks
}

// ---------------------------------------------------------------------------
// the board field

/// Index of a piece letter in `PNBRQKpnbrqk`, or -1.
pub open spec fn piece_index(c: char) -> int {
    if c == 'P' {
        0
    } else if c == 'N' {
        1
    } else if c == 'B' {
        2
    } else if c == 'R' {
        3
    } else if c == 'Q' {
        4
    } else if c == 'K' {
        5
    } else if c == 'p' {
        6
    } else if c == 'n' {
        7
    } else if c == 'b' {
        8
    } else if c == 'r' {
        9
    } else if c == 'q' {
        10
    } else if c == 'k' {
        11
    } else {
        -1
    }
}

fn piece_letter(c: char) -> (r: Option<usize>)
    ensures
        piece_index(c) < 0 ==> r is None,
        piece_index(c) >= 0 ==> r == Some(piece_index(c) as usize),
{
    if c == 'P' {
        Some(0)
    } else if c == 'N' {
        Some(1)
    } else if c == 'B' {
        Some(2)
    } else if c == 'R' {
        Some(3)
    } else if c == 'Q' {
        Some(4)
    } else if c == 'K' {
        Some(5)
    } else if c == 'p' {
        Some(6)
    } else if c == 'n' {
        Some(7)
    } else if c == 'b' {
        Some(8)
    } else if c == 'r' {
        Some(9)
    } else if c == 'q' {
        Some(10)
    } else if c == 'k' {
        Some(11)
    } else {
        None
    }
}

/// Whether `c` is an ASCII digit.
pub open spec fn is_digit(c: char) -> bool {
    '0' <= c <= '9'
}

/// State of reading the board field: piece and side boards, current row and
/// column, and a status: 0 reading, 1 bad count of empty squares, 2 bad
/// letter, 3 arithmetic out of range (the reader would panic).
pub struct BoardAcc {
    pub pieces: Seq<u64>,
    pub sides: Seq<u64>,
    pub row: int,
    pub col: int,
    pub status: int,
}

pub open spec fn in_i16(x: int) -> bool {
    i16::MIN <= x <= i16::MAX
}

/// Reading one character of the board field: `/` starts the next row down,
/// a digit from 1 to 8 skips that many squares, a piece letter toggles the
/// piece on the current square and moves one square right.
pub open spec fn board_step(a: BoardAcc, c: char) -> BoardAcc {
    if a.status != 0 {
        a
    } else if c == '/' {
        if in_i16(a.row - 1) {
            BoardAcc { row: a.row - 1, col: 0, ..a }
        } else {
            BoardAcc { status: 3, ..a }
        }
    } else if is_digit(c) {
        let d = (c as u32) - 48;
        if d < 1 || d > 8 {
            BoardAcc { status: 1, ..a }
        } else if in_i16(a.col + d) {
            BoardAcc { col: a.col + d, ..a }
        } else {
            BoardAcc { status: 3, ..a }
        }
    } else if piece_index(c) < 0 {
        BoardAcc { status: 2, ..a }
    } else {
        let k = piece_index(c);
        let side: int = if k > 5 { 1 } else { 0 };
        let piece = k - 6 * side;
        let sq = 8 * a.row + a.col;
        if !in_i16(8 * a.row) || !in_i16(sq) || sq < 0 || sq >= 64 || !in_i16(a.col + 1) {
            BoardAcc { status: 3, ..a }
        } else {
            BoardAcc {
                pieces: a.pieces.update(piece, a.pieces[piece] ^ bit(sq as u64)),
                sides: a.sides.update(side, a.sides[side] ^ bit(sq as u64)),
                col: a.col + 1,
                ..a
            }
        }
    }
}

/// State after reading the first `n` characters of the board field.
pub open spec fn board_fold(s: Seq<char>, n: int) -> BoardAcc
    decreases n,
{
    if n <= 0 {
        BoardAcc {
            pieces: seq![0u64, 0u64, 0u64, 0u64, 0u64, 0u64],
            sides: seq![0u64, 0u64],
            row: 7,
            col: 0,
            status: 0,
        }
    } else {
        board_step(board_fold(s, n - 1), s[n - 1])
    }
}

proof fn lemma_board_fold_shape(s: Seq<char>, n: int)
    requires
        0 <= n,
    ensures
        board_fold(s, n).pieces.len() == 6,
        board_fold(s, n).sides.len() == 2,
        0 <= board_fold(s, n).status <= 3,
        board_fold(s, n).status == 0 ==> in_i16(board_fold(s, n).row) && in_i16(board_fold(s, n).col),
    decreases n,
{
    if n > 0 {
        lemma_board_fold_shape(s, n - 1);
    }
}

proof fn lemma_board_status_stays(s: Seq<char>, m: int, n: int)
    requires
        0 <= m <= n,
        board_fold(s, m).status != 0,
    ensures
        board_fold(s, n).status == board_fold(s, m).status,
    decreases n - m,
{
    if n > m {
        lemma_board_status_stays(s, m, n - 1);
    }
}

/// Outcome of reading a board field: the boards, or the status it stopped on.
fn read_board(s: &Vec<char>) -> (r: Result<([u64; 6], [u64; 2]), u8>)
    ensures
        ({
            let b = board_fold(s@, s@.len() as int);
            &&& b.status == 0 ==> (r matches Ok((p, sd)) && p@ == b.pieces && sd@ == b.sides)
            &&& b.status != 0 ==> r == Err::<([u64; 6], [u64; 2]), u8>(b.status as u8)
        }),
{
    let mut pieces = [0u64; 6];
    let mut sides = [0u64; 2];
    let mut row: i16 = 7;
    let mut col: i16 = 0;
    let n = s.len();
    let mut i: usize = 0;
    proof {
        assert(pieces@ =~= board_fold(s@, 0).pieces);
        assert(sides@ =~= board_fold(s@, 0).sides);
    }
    while i < n
        invariant
            i <= n,
            n == s@.len(),
            ({
                let b = board_fold(s@, i as int);
                &&& b.status == 0
                &&& pieces@ == b.pieces
                &&& sides@ == b.sides
                &&& row == b.row
                &&& col == b.col
            }),
        decreases n - i,
    {
        let c = s[i];
        proof {
            lemma_board_fold_shape(s@, i as int);
            lemma_board_fold_shape(s@, i + 1);
            if board_fold(s@, i + 1).status != 0 {
                lemma_board_status_stays(s@, i + 1, n as int);
            }
        }
        if c == '/' {
            if row == i16::MIN {
                return Err(3);
            }
            row = row - 1;
            col = 0;
        } else if '0' <= c && c <= '9' {
            let d = (c as u32) - 48;
            if d < 1 || d > 8 {
                return Err(1);
            }
            if (col as i32) + (d as i32) > i16::MAX as i32 {
                return Err(3);
            }
            col = col + (d as i16);
        } else {
            match piece_letter(c) {
                None => {
                    return Err(2);
                },
                Some(k) => {
                    let side: usize = if k > 5 { 1 } else { 0 };
                    let piece = k - 6 * side;
                    let r8 = 8 * (row as i32);
                    let sq32 = r8 + (col as i32);
                    if r8 < i16::MIN as i32 || r8 > i16::MAX as i32 || sq32 < 0 || sq32 >= 64 || col
                        == i16::MAX {
                        return Err(3);
                    }
                    let sq = 8 * row + col;
                    let b = 1u64 << (sq as u64);
                    pieces[piece] = pieces[piece] ^ b;
                    sides[side] = sides[side] ^ b;
                    col = col + 1;
                    proof {
                        assert(pieces@ =~= board_fold(s@, i + 1).pieces);
                        assert(sides@ =~= board_fold(s@, i + 1).sides);
                    }
                },
            }
        }
        i += 1;
    }
    Ok((pieces, sides))
}

// ---------------------------------------------------------------------------
// squares and numbers

/// Whether `square_str_to_index` can read `sq`: at least two characters, the
/// second a digit, and the result in range.
pub open spec fn square_ok(sq: Seq<char>) -> bool {
    &&& sq.len() >= 2
    &&& is_digit(sq[1])
    &&& 8 * ((sq[1] as u32) - 48) + ((sq[0] as u32) as u16) >= 105
    &&& 8 * ((sq[1] as u32) - 48) + ((sq[0] as u32) as u16) <= u16::MAX
}

/// Index of a square written as file letter and rank digit.
pub open spec fn square_index(sq: Seq<char>) -> int {
    8 * ((sq[1] as u32) - 48) + ((sq[0] as u32) as u16) - 105
}

fn square_chars(sq: &Vec<char>) -> (r: u16)
    requires
        square_ok(sq@),
    ensures
        r == square_index(sq@),
{
    let d = (sq[1] as u32) - 48;
    let f = (sq[0] as u32) as u16;
    8 * (d as u16) + f - 105
}

fn square_readable(sq: &Vec<char>) -> (r: bool)
    ensures
        r == square_ok(sq@),
{
    if sq.len() < 2 {
        return false;
    }
    let c = sq[1];
    if !('0' <= c && c <= '9') {
        return false;
    }
    let v = 8 * ((c as u32) - 48) + (((sq[0] as u32) as u16) as u32);
    v >= 105 && v <= 65535
}

/// Index of a square written as file letter and rank digit, such as `e3`.
pub fn square_str_to_index(sq: &str) -> (r: Result<u16, String>)
    requires
        square_ok(sq@),
    ensures
        r == Ok::<u16, String>(square_index(sq@) as u16),
{
    let mut chars: Vec<char> = Vec::new();
    let n = sq.unicode_len();
    let mut i: usize = 0;
    while i < n
        invariant
            i <= n,
            n == sq@.len(),
            chars@ == sq@.take(i as int),
        decreases n - i,
    {
        chars.push(sq.get_char(i));
        i += 1;
    }
    assert(chars@ =~= sq@);
    Ok(square_chars(&chars))
}

/// Value of decimal digits.
pub open spec fn digits_value(s: Seq<char>) -> int
    decreases s.len(),
{
    if s.len() == 0 {
        0
    } else {
        10 * digits_value(s.drop_last()) + ((s.last() as u32) - 48)
    }
}

/// Whether every character of `d` is a decimal digit.
pub open spec fn all_digits(d: Seq<char>) -> bool {
    forall|i: int| 0 <= i < d.len() ==> is_digit(#[trigger] d[i])
}

/// The 8-bit unsigned integer `s` writes, as Rust reads one: an optional `+`
/// then at least one decimal digit, the value at most 255.
pub open spec fn parse_u8_spec(s: Seq<char>) -> Option<u8> {
    let d = if s.len() > 0 && s[0] == '+' {
        s.drop_first()
    } else {
        s
    };
    if d.len() > 0 && all_digits(d) && digits_value(d) <= 255 {
        Some(digits_value(d) as u8)
    } else {
        None
    }
}

proof fn lemma_digits_mono(s: Seq<char>, n: int)
    requires
        0 <= n <= s.len(),
        forall|i: int| 0 <= i < s.len() ==> is_digit(#[trigger] s[i]),
    ensures
        digits_value(s.take(n)) <= digits_value(s),
        digits_value(s.take(n)) >= 0,
    decreases s.len() - n,
{
    if n < s.len() {
        lemma_digits_mono(s, n + 1);
        assert(s.take(n + 1).drop_last() =~= s.take(n));
        lemma_digits_nonneg(s.take(n));
    } else {
        assert(s.take(n) =~= s);
        lemma_digits_nonneg(s);
    }
}

proof fn lemma_digits_nonneg(s: Seq<char>)
    requires
        forall|i: int| 0 <= i < s.len() ==> is_digit(#[trigger] s[i]),
    ensures
        digits_value(s) >= 0,
    decreases s.len(),
{
    if s.len() > 0 {
        lemma_digits_nonneg(s.drop_last());
    }
}

fn parse_u8(s: &Vec<char>) -> (r: Option<u8>)
    ensures
        r == parse_u8_spec(s@),
{
    let n = s.len();
    let start: usize = if n > 0 && s[0] == '+' { 1 } else { 0 };
    let ghost d = if s@.len() > 0 && s@[0] == '+' {
        s@.drop_first()
    } else {
        s@
    };
    assert(d =~= s@.subrange(start as int, n as int));
    if start >= n {
        return None;
    }
    let mut v: u32 = 0;
    let mut i = start;
    while i < n
        invariant
            start <= i <= n,
            n == s@.len(),
            d == s@.subrange(start as int, n as int),
            d == (if s@.len() > 0 && s@[0] == '+' {
                s@.drop_first()
            } else {
                s@
            }),
            forall|k: int| 0 <= k < i - start ==> is_digit(#[trigger] d[k]),
            v == digits_value(d.take(i - start)),
            v <= 255,
        decreases n - i,
    {
        let c = s[i];
        assert(c == d[i - start]);
        if !('0' <= c && c <= '9') {
            assert(!is_digit(c));
            assert(0 <= i - start < d.len());
            assert(!is_digit(d[i - start]));
            assert(!all_digits(d));
            return None;
        }
        let nv = 10 * v + ((c as u32) - 48);
        proof {
            assert(d.take(i - start + 1).drop_last() =~= d.take(i - start));
        }
        if nv > 255 {
            proof {
                assert forall|k: int| 0 <= k < i - start + 1 implies is_digit(#[trigger] d.take(i - start + 1)[k]) by {
                    if k < i - start {
                        assert(is_digit(d[k]));
                    }
                }
                assert(d.take(i - start + 1).last() == c);
                assert(digits_value(d.take(i - start + 1)) == nv);
                if all_digits(d) {
                    lemma_digits_mono(d, i - start + 1);
                }
            }
            return None;
        }
        v = nv;
        i += 1;
    }
    assert(d.take(n - start) =~= d);
    Some(v as u8)
}

// ---------------------------------------------------------------------------
// castling field

/// State of reading the castling field: rights, castling rook files,
/// whether rook files were given, and the king's file.
pub struct CastleAcc {
    pub rights: u8,
    pub rooks: Seq<u8>,
    pub chess960: bool,
    pub king_col: int,
}

/// File of the king of `side` given its board (0 when there is none).
pub open spec fn king_file(kbb: u64) -> u8 {
    (kbb.trailing_zeros() as u8) & 7
}

/// Reading one character of the castling field, with the boards read from
/// the board field: `KQkq` set rights; a file letter (upper case for white)
/// names a castling rook, on the king side if not left of the king; any
/// other character is ignored.
pub open spec fn castle_step(a: CastleAcc, c: char, pieces: Seq<u64>, sides: Seq<u64>) -> CastleAcc {
    let b = (c as u32) as u8;
    if b == 81 {
        CastleAcc { rights: a.rights | 8, ..a }
    } else if b == 75 {
        CastleAcc { rights: a.rights | 4, ..a }
    } else if b == 113 {
        CastleAcc { rights: a.rights | 2, ..a }
    } else if b == 107 {
        CastleAcc { rights: a.rights | 1, ..a }
    } else if 65 <= b <= 72 {
        let kc = king_file(sides[0] & pieces[5]);
        let rc = (b - 65) as u8;
        if rc < kc {
            CastleAcc { rights: a.rights | 8, rooks: a.rooks.update(0, rc), chess960: true, king_col: kc as int }
        } else {
            CastleAcc { rights: a.rights | 4, rooks: a.rooks.update(1, rc), chess960: true, king_col: kc as int }
        }
    } else if 97 <= b <= 104 {
        let kc = king_file(sides[1] & pieces[5]);
        let rc = (b - 97) as u8;
        if rc < kc {
            CastleAcc { rights: a.rights | 2, rooks: a.rooks.update(0, rc), chess960: true, king_col: kc as int }
        } else {
            CastleAcc { rights: a.rights | 1, rooks: a.rooks.update(1, rc), chess960: true, king_col: kc as int }
        }
    } else {
        a
    }
}

pub open spec fn castle_fold(s: Seq<char>, n: int, pieces: Seq<u64>, sides: Seq<u64>) -> CastleAcc
    decreases n,
{
    if n <= 0 {
        CastleAcc { rights: 0, rooks: seq![0u8, 7u8], chess960: false, king_col: 4 }
    } else {
        castle_step(castle_fold(s, n - 1, pieces, sides), s[n - 1], pieces, sides)
    }
}

proof fn lemma_castle_fold(s: Seq<char>, n: int, pieces: Seq<u64>, sides: Seq<u64>)
    requires
        0 <= n,
    ensures
        castle_fold(s, n, pieces, sides).rooks.len() == 2,
        castle_fold(s, n, pieces, sides).rooks[0] < 8,
        castle_fold(s, n, pieces, sides).rooks[1] < 8,
        0 <= castle_fold(s, n, pieces, sides).king_col < 8,
    decreases n,
{
    if n > 0 {
        lemma_castle_fold(s, n - 1, pieces, sides);
        let k0 = king_file(sides[0] & pieces[5]);
        let k1 = king_file(sides[1] & pieces[5]);
        let x0 = ((sides[0] & pieces[5]).trailing_zeros() as u8);
        let x1 = ((sides[1] & pieces[5]).trailing_zeros() as u8);
        assert(x0 & 7 < 8 && x1 & 7 < 8) by (bit_vector);
    }
}

/// The castling rights mask after reading the field: 15 everywhere except on
/// the castling rooks' and kings' home squares, where it clears the rights
/// they affect.
pub open spec fn castle_mask(a: CastleAcc) -> Seq<u8> {
    Seq::new(64, |i: int| 15u8).update(a.rooks[0] as int, 7u8).update(a.rooks[1] as int, 11u8).update(
        56 + a.rooks[0],
        13u8,
    ).update(56 + a.rooks[1], 14u8).update(a.king_col, 3u8).update(56 + a.king_col, 12u8)
}

// ---------------------------------------------------------------------------
// the whole record

/// What reading a record gives: a position, an error message, or an error
/// for input outside what the reader handles (numbers out of range, squares
/// off the board).
pub enum FenOutcome {
    Parsed(PositionView),
    Failed(Seq<char>),
    Panics,
}

/// The position a record describes, with the fields read in the order the
/// reader reads them: board, side to move, en passant square, halfmove
/// clock (0 when absent), then castling rights. The move counter is not read.
pub open spec fn fen_outcome(s: Seq<char>) -> FenOutcome {
    let w = words(s);
    if w.len() == 0 {
        FenOutcome::Failed("empty string"@)
    } else {
        let b = board_fold(w[0], w[0].len() as int);
        if b.status == 1 {
            FenOutcome::Failed("invalid number of empty squares"@)
        } else if b.status == 2 {
            FenOutcome::Failed("invalid letter in fen"@)
        } else if b.status == 3 {
            FenOutcome::Panics
        } else if w.len() < 2 {
            FenOutcome::Failed("no side to move provided"@)
        } else if w.len() < 4 {
            FenOutcome::Failed("no en passant square provided"@)
        } else if !(w[3] == seq!['-']) && !square_ok(w[3]) {
            FenOutcome::Panics
        } else if w.len() >= 5 && parse_u8_spec(w[4]) is None {
            FenOutcome::Panics
        } else {
            let ep: u8 = if w[3] == seq!['-'] {
                0
            } else {
                (square_index(w[3]) as u16) as u8
            };
            let half: u8 = if w.len() >= 5 {
                parse_u8_spec(w[4])->Some_0
            } else {
                0
            };
            let c = castle_fold(w[2], w[2].len() as int, b.pieces, b.sides);
            FenOutcome::Parsed(
                PositionView {
                    pieces: b.pieces,
                    sides: b.sides,
                    stm: w[1] == seq!['b'],
                    state: State { castle_rights: c.rights, en_passant: ep, halfmove_clock: half, zobrist: 0 },
                    phase: 0,
                    null_counter: 0,
                    stack: Seq::empty(),
                    mask: castle_mask(c),
                    rooks: c.rooks,
                    chess960: c.chess960,
                },
            )
        }
    }
}

fn is_single(w: &Vec<char>, c: char) -> (r: bool)
    ensures
        r == (w@ == seq![c]),
{
    if w.len() == 1 && w[0] == c {
        assert(w@ =~= seq![c]);
        true
    } else {
        proof {
            if w@ == seq![c] {
                assert(w@.len() == 1);
            }
        }
        false
    }
}

fn err_msg(s: &str) -> (r: Result<Position, String>)
    ensures
        r matches Err(e) && e@ == s@,
{
    Err(String::from_str(s))
}

impl Position {
    /// Reads a position from a record; see `fen_outcome` for what is read
    /// and which errors are reported.
    pub fn from_fen(s: &str) -> (r: Result<Position, String>)
        ensures
            fen_outcome(s@) is Panics ==> (r matches Err(e) && e@ == "invalid fen"@),
            fen_outcome(s@) matches FenOutcome::Parsed(v) ==> (r matches Ok(p) && p@ == v),
            fen_outcome(s@) matches FenOutcome::Failed(msg) ==> (r matches Err(e) && e@ == msg),
    {
        let split = split_whitespace(s);
        let ghost w = words(s@);
        if split.len() == 0 {
            return err_msg("empty string");
        }
        proof {
            assert(split@[0]@ == w[0]);
            lemma_board_fold_shape(w[0], w[0].len() as int);
        }
        let (pieces, sides) = match read_board(&split[0]) {
            Ok(b) => b,
            Err(code) => {
                if code == 1 {
                    return err_msg("invalid number of empty squares");
                } else if code == 2 {
                    return err_msg("invalid letter in fen");
                } else {
                    return err_msg("invalid fen");
                }
            },
        };
        if split.len() < 2 {
            return err_msg("no side to move provided");
        }
        proof {
            assert(split@[1]@ == w[1]);
        }
        let stm = is_single(&split[1], 'b');
        if split.len() < 4 {
            return err_msg("no en passant square provided");
        }
        proof {
            assert(split@[2]@ == w[2]);
            assert(split@[3]@ == w[3]);
        }
        let en_passant: u8 = if is_single(&split[3], '-') {
            0
        } else if square_readable(&split[3]) {
            (square_chars(&split[3])) as u8
        } else {
            return err_msg("invalid fen");
        };
        let halfmove_clock: u8 = if split.len() >= 5 {
            proof {
                assert(split@[4]@ == w[4]);
            }
            match parse_u8(&split[4]) {
                Some(h) => h,
                None => {
                    return err_msg("invalid fen");
                },
            }
        } else {
            0
        };

        // castling
        let cs = &split[2];
        let mut rights: u8 = 0;
        let mut rooks: [u8; 2] = [0, 7];
        let mut chess960 = false;
        let mut king_col: usize = 4;
        let ghost bp = pieces@;
        let ghost bs = sides@;
        let mut i: usize = 0;
        proof {
            assert(rooks@ =~= seq![0u8, 7u8]);
        }
        while i < cs.len()
            invariant
                i <= cs@.len(),
                pieces@ == bp,
                sides@ == bs,
                bp.len() == 6,
                bs.len() == 2,
                ({
                    let a = castle_fold(cs@, i as int, bp, bs);
                    &&& rights == a.rights
                    &&& rooks@ == a.rooks
                    &&& chess960 == a.chess960
                    &&& king_col == a.king_col
                }),
            decreases cs@.len() - i,
        {
            proof {
                lemma_castle_fold(cs@, i as int, bp, bs);
            }
            let ch = cs[i];
            let b = (ch as u32) as u8;
            if b == 81 {
                rights = rights | 8;
            } else if b == 75 {
                rights = rights | 4;
            } else if b == 113 {
                rights = rights | 2;
            } else if b == 107 {
                rights = rights | 1;
            } else if 65 <= b && b <= 72 {
                chess960 = true;
                let kbb = sides[0] & pieces[5];
                let wkc = (kbb.trailing_zeros() as u8) & 7;
                king_col = wkc as usize;
                let rook_col = b - 65;
                if rook_col < wkc {
                    rooks[0] = rook_col;
                    rights = rights | 8;
                } else {
                    rooks[1] = rook_col;
                    rights = rights | 4;
                }
            } else if 97 <= b && b <= 104 {
                chess960 = true;
                let kbb = sides[1] & pieces[5];
                let bkc = (kbb.trailing_zeros() as u8) & 7;
                king_col = bkc as usize;
                let rook_col = b - 97;
                if rook_col < bkc {
                    rooks[0] = rook_col;
                    rights = rights | 2;
                } else {
                    rooks[1] = rook_col;
                    rights = rights | 1;
                }
            }
            i += 1;
        }
        proof {
            lemma_castle_fold(cs@, cs@.len() as int, bp, bs);
        }
        let mut mask = [15u8; 64];
        mask[rooks[0] as usize] = 7;
        mask[rooks[1] as usize] = 11;
        mask[56 + rooks[0] as usize] = 13;
        mask[56 + rooks[1] as usize] = 14;
        mask[king_col] = 3;
        mask[56 + king_col] = 12;
        let ghost a = castle_fold(cs@, cs@.len() as int, bp, bs);
        assert(mask@ =~= castle_mask(a));
        let state = State { castle_rights: rights, en_passant, halfmove_clock, zobrist: 0 };
        Ok(Position::from_parts(pieces, sides, stm, state, mask, rooks, chess960))
    }
}

impl std::str::FromStr for Position {
    type Err = String;

    /// Reads a position as `Position::from_fen` does.
    fn from_str(s: &str) -> (r: Result<Position, String>)
        ensures
            fen_outcome(s@) is Panics ==> (r matches Err(e) && e@ == "invalid fen"@),
            fen_outcome(s@) matches FenOutcome::Parsed(v) ==> (r matches Ok(p) && p@ == v),
            fen_outcome(s@) matches FenOutcome::Failed(msg) ==> (r matches Err(e) && e@ == msg),
    {
        Position::from_fen(s)
    }
}

} // verus!
