//! Pieces of the record format: piece letters, the board field, castling
//! rights and squares.
use vstd::prelude::*;
use crate::engine::util::push_char;
use crate::io::outputs::{decimal, push_decimal};
use crate::state::fen::{is_digit, piece_index};

verus! {

/// The record could not be read.
#[derive(Debug, Clone, Copy)]
pub struct FenError;

/// Piece letters: white `PNBRQK` then black `pnbrqk`.
pub open spec fn piece_char(i: int) -> char {
    if i == 0 {
        'P'
    } else if i == 1 {
        'N'
    } else if i == 2 {
        'B'
    } else if i == 3 {
        'R'
    } else if i == 4 {
        'Q'
    } else if i == 5 {
        'K'
    } else if i == 6 {
        'p'
    } else if i == 7 {
        'n'
    } else if i == 8 {
        'b'
    } else if i == 9 {
        'r'
    } else if i == 10 {
        'q'
    } else {
        'k'
    }
}

/// Letter of piece `pc.1` of side `pc.0`.
pub fn piece_out(pc: (usize, usize)) -> (r: char)
    requires
        pc.1 + pc.0 * 6 < 12,
    ensures
        r == piece_char(pc.1 + pc.0 * 6),
{
    let i = pc.1 + pc.0 * 6;
    if i == 0 {
        'P'
    } else if i == 1 {
        'N'
    } else if i == 2 {
        'B'
    } else if i == 3 {
        'R'
    } else if i == 4 {
        'Q'
    } else if i == 5 {
        'K'
    } else if i == 6 {
        'p'
    } else if i == 7 {
        'n'
    } else if i == 8 {
        'b'
    } else if i == 9 {
        'r'
    } else if i == 10 {
        'q'
    } else {
        'k'
    }
}

/// Side and piece of a piece letter.
pub fn piece_in(ch: char) -> (r: Result<(usize, usize), FenError>)
    ensures
        (exists|i: int| 0 <= i < 12 && piece_char(i) == ch) <==> r is Ok,
        r matches Ok((s, p)) ==> s < 2 && p < 6 && piece_char(p + 6 * s) == ch,
{
    let mut idx: usize = 0;
    while idx < 12
        invariant
            idx <= 12,
            forall|j: int| 0 <= j < idx ==> piece_char(j) != ch,
        decreases 12 - idx,
    {
        if piece_out((0, idx)) == ch {
            let side: usize = if idx > 5 { 1 } else { 0 };
            return Ok((side, idx - 6 * side));
        }
        idx += 1;
    }
    Err(FenError)
}

/// Rows read from the first `n` characters of a board field, and the row
/// being read; `/` ends a row.
pub open spec fn rows_acc(s: Seq<char>, n: int) -> (Seq<Seq<char>>, Seq<char>)
    decreases n,
{
    if n <= 0 {
        (Seq::empty(), Seq::empty())
    } else {
        let (rows, cur) = rows_acc(s, n - 1);
        if s[n - 1] == '/' {
            (rows.push(cur), Seq::empty())
        } else {
            (rows, cur.push(s[n - 1]))
        }
    }
}

/// The rows of a board field: the pieces between `/` separators, empty
/// ones included.
pub open spec fn board_rows(s: Seq<char>) -> Seq<Seq<char>> {
    let (rows, cur) = rows_acc(s, s.len() as int);
    rows.push(cur)
}

/// Squares a character of a row covers: a digit its value, anything else one.
pub open spec fn char_width(c: char) -> int {
    if is_digit(c) {
        (c as u32) - 48
    } else {
        1
    }
}

/// Squares covered by the last `n` characters of `row`.
pub open spec fn row_span(row: Seq<char>, n: int) -> int
    decreases n,
{
    if n <= 0 {
        0
    } else {
        row_span(row, n - 1) + char_width(row[row.len() - n])
    }
}

/// A row of a board field: digits and piece letters covering eight squares.
pub open spec fn row_ok(row: Seq<char>) -> bool {
    &&& forall|i: int| 0 <= i < row.len() ==> is_digit(#[trigger] row[i]) || piece_index(row[i]) >= 0
    &&& row_span(row, row.len() as int) == 8
}

/// A board field: eight rows, each covering eight squares.
pub open spec fn layout_ok(s: Seq<char>) -> bool {
    &&& board_rows(s).len() == 8
    &&& forall|r: int| 0 <= r < 8 ==> #[trigger] row_ok(board_rows(s)[r])
}

/// Squares of the pieces with letter index `k` among the last `n` characters
/// of a row whose rightmost square is `top`, read right to left.
pub open spec fn row_squares(row: Seq<char>, k: int, top: int, n: int) -> Seq<int>
    decreases n,
{
    if n <= 0 {
        Seq::empty()
    } else {
        let prev = row_squares(row, k, top, n - 1);
        if piece_index(row[row.len() - n]) == k {
            prev.push(top - row_span(row, n - 1))
        } else {
            prev
        }
    }
}

/// Squares of the pieces with letter index `k` in the first `r` rows, the
/// top row (squares 56 to 63) first.
pub open spec fn board_squares(rows: Seq<Seq<char>>, k: int, r: int) -> Seq<int>
    decreases r,
{
    if r <= 0 {
        Seq::empty()
    } else {
        board_squares(rows, k, r - 1) + row_squares(rows[r - 1], k, 63 - 8 * (r - 1), rows[r - 1].len() as int)
    }
}

/// The rows of a board field.
fn split_rows(s: &str) -> (r: Vec<Vec<char>>)
    ensures
        r@.len() == board_rows(s@).len(),
        forall|i: int| 0 <= i < r@.len() ==> (#[trigger] r@[i])@ == board_rows(s@)[i],
{
    let n = s.unicode_len();
    let mut rows: Vec<Vec<char>> = Vec::new();
    let mut cur: Vec<char> = Vec::new();
    let mut i: usize = 0;
    while i < n
        invariant
            i <= n,
            n == s@.len(),
            rows@.len() == rows_acc(s@, i as int).0.len(),
            forall|k: int| 0 <= k < rows@.len() ==> (#[trigger] rows@[k])@ == rows_acc(s@, i as int).0[k],
            cur@ == rows_acc(s@, i as int).1,
        decreases n - i,
    {
        let c = s.get_char(i);
        if c == '/' {
            rows.push(cur);
            cur = Vec::new();
        } else {
            cur.push(c);
        }
        i += 1;
    }
    rows.push(cur);
    rows
}

/// Squares covered never shrink as more of a row is read.
proof fn lemma_row_span_mono(row: Seq<char>, m: int, n: int)
    requires
        0 <= m <= n <= row.len(),
    ensures
        row_span(row, m) <= row_span(row, n),
    decreases n - m,
{
    if m < n {
        lemma_row_span_mono(row, m, n - 1);
    }
}

/// Whether a row of a board field is well formed.
fn check_row(row: &Vec<char>) -> (r: bool)
    ensures
        r == row_ok(row@),
{
    let len = row.len();
    let mut count: usize = 0;
    let mut n: usize = 0;
    while n < len
        invariant
            n <= len,
            len == row@.len(),
            count == row_span(row@, n as int),
            count <= 8,
            forall|i: int| len - n <= i < len ==> is_digit(#[trigger] row@[i]) || piece_index(row@[i]) >= 0,
        decreases len - n,
    {
        let c = row[len - 1 - n];
        proof {
            lemma_row_span_mono(row@, n as int + 1, len as int);
        }
        if '0' <= c && c <= '9' {
            let d = (c as u32 - 48) as usize;
            if count + d > 8 {
                return false;
            }
            count = count + d;
        } else {
            match piece_in(c) {
                Ok(_) => {},
                Err(_) => {
                    proof {
                        lemma_piece_index_char(c);
                    }
                    return false;
                },
            }
            proof {
                lemma_piece_index_char(c);
            }
            if count + 1 > 8 {
                return false;
            }
            count = count + 1;
        }
        n += 1;
    }
    count == 8
}

/// A character is a piece letter exactly when it has a letter index.
proof fn lemma_piece_index_char(c: char)
    ensures
        (exists|i: int| 0 <= i < 12 && piece_char(i) == c) <==> piece_index(c) >= 0,
        piece_index(c) >= 0 ==> piece_char(piece_index(c)) == c,
{
    if piece_index(c) >= 0 {
        assert(piece_char(piece_index(c)) == c);
    }
}

/// The rows of a board field as character sequences.
pub open spec fn rows_view(rows: Seq<Vec<char>>) -> Seq<Seq<char>> {
    rows.map_values(|v: Vec<char>| v@)
}

/// A list of squares as integers.
pub open spec fn usizes(v: Seq<usize>) -> Seq<int> {
    v.map_values(|x: usize| x as int)
}

/// A piece letter's index is the index of its letter.
proof fn lemma_piece_char_index(i: int)
    requires
        0 <= i < 12,
    ensures
        piece_index(piece_char(i)) == i,
{
}

/// Squares of the pieces with letter index `k` in a well formed board field.
fn kind_squares(rows: &Vec<Vec<char>>, k: usize) -> (v: Vec<usize>)
    requires
        rows@.len() == 8,
        forall|r: int| 0 <= r < 8 ==> #[trigger] row_ok(rows@[r]@),
    ensures
        usizes(v@) == board_squares(rows_view(rows@), k as int, 8),
        forall|i: int| 0 <= i < v@.len() ==> #[trigger] v@[i] < 64,
{
    let ghost rv = rows_view(rows@);
    let mut v: Vec<usize> = Vec::new();
    let mut r: usize = 0;
    while r < 8
        invariant
            r <= 8,
            rows@.len() == 8,
            rv == rows_view(rows@),
            forall|q: int| 0 <= q < 8 ==> #[trigger] row_ok(rows@[q]@),
            usizes(v@) == board_squares(rv, k as int, r as int),
            forall|i: int| 0 <= i < v@.len() ==> #[trigger] v@[i] < 64,
        decreases 8 - r,
    {
        let row = &rows[r];
        let len = row.len();
        let top: usize = 63 - 8 * r;
        let ghost base = v@;
        assert(rv[r as int] == row@);
        assert(row_ok(row@));
        let mut span: usize = 0;
        let mut n: usize = 0;
        while n < len
            invariant
                n <= len,
                len == row@.len(),
                row_ok(row@),
                r < 8,
                top == 63 - 8 * r,
                span == row_span(row@, n as int),
                span <= 8,
                usizes(v@) == usizes(base) + row_squares(row@, k as int, top as int, n as int),
                forall|i: int| 0 <= i < v@.len() ==> #[trigger] v@[i] < 64,
            decreases len - n,
        {
            let c = row[len - 1 - n];
            proof {
                lemma_row_span_mono(row@, n as int + 1, len as int);
                assert(is_digit(row@[len - 1 - n]) || piece_index(row@[len - 1 - n]) >= 0);
            }
            if '0' <= c && c <= '9' {
                span = span + (c as u32 - 48) as usize;
            } else {
                if let Ok((sd, pc)) = piece_in(c) {
                    proof {
                        lemma_piece_char_index(pc + 6 * sd);
                    }
                    if pc + 6 * sd == k {
                        let ghost old_v = v@;
                        v.push(top - span);
                        assert(usizes(v@) =~= usizes(old_v).push((top - span) as int));
                    }
                } else {
                    proof {
                        lemma_piece_index_char(c);
                    }
                }
                span = span + 1;
            }
            n += 1;
        }
        proof {
            assert(row_squares(row@, k as int, top as int, len as int) == row_squares(
                rv[r as int],
                k as int,
                63 - 8 * r,
                rv[r as int].len() as int,
            ));
        }
        r += 1;
    }
    v
}

/// Squares of each piece of each side in a board field: white's then
/// black's, pawns to king, each list from the top row down and right to left
/// within a row.
pub fn piece_idxs(s: &str) -> (r: Result<[[Vec<usize>; 6]; 2], FenError>)
    ensures
        r is Ok <==> layout_ok(s@),
        r matches Ok(l) ==> forall|side: int, pc: int|
            0 <= side < 2 && 0 <= pc < 6 ==> usizes(#[trigger] l@[side]@[pc]@) == board_squares(
                board_rows(s@),
                6 * side + pc,
                8,
            ),
        r matches Ok(l) ==> forall|side: int, pc: int, i: int|
            0 <= side < 2 && 0 <= pc < 6 && 0 <= i < l@[side]@[pc]@.len() ==> #[trigger] l@[side]@[pc]@[i]
                < 64,
{
    let rows = split_rows(s);
    proof {
        assert(rows_view(rows@) =~= board_rows(s@));
    }
    if rows.len() != 8 {
        return Err(FenError);
    }
    let mut r: usize = 0;
    while r < 8
        invariant
            r <= 8,
            rows@.len() == 8,
            rows_view(rows@) == board_rows(s@),
            forall|q: int| 0 <= q < r ==> #[trigger] row_ok(rows@[q]@),
        decreases 8 - r,
    {
        if !check_row(&rows[r]) {
            proof {
                assert(board_rows(s@)[r as int] == rows@[r as int]@);
            }
            return Err(FenError);
        }
        r += 1;
    }
    proof {
        assert forall|q: int| 0 <= q < 8 implies #[trigger] row_ok(board_rows(s@)[q]) by {
            assert(board_rows(s@)[q] == rows@[q]@);
        }
    }
    let l = [
        [
            kind_squares(&rows, 0),
            kind_squares(&rows, 1),
            kind_squares(&rows, 2),
            kind_squares(&rows, 3),
            kind_squares(&rows, 4),
            kind_squares(&rows, 5),
        ],
        [
            kind_squares(&rows, 6),
            kind_squares(&rows, 7),
            kind_squares(&rows, 8),
            kind_squares(&rows, 9),
            kind_squares(&rows, 10),
            kind_squares(&rows, 11),
        ],
    ];
    Ok(l)
}

/// The board with the squares of `v` set.
pub open spec fn bits_of(v: Seq<int>) -> u64
    decreases v.len(),
{
    if v.len() == 0 {
        0
    } else {
        bits_of(v.drop_last()) | crate::bits::bit(v.last() as u64)
    }
}

/// The board with the squares listed in `v` set.
fn squares_board(v: &Vec<usize>) -> (r: u64)
    requires
        forall|i: int| 0 <= i < v@.len() ==> #[trigger] v@[i] < 64,
    ensures
        r == bits_of(usizes(v@)),
{
    let mut b: u64 = 0;
    let mut i: usize = 0;
    while i < v.len()
        invariant
            i <= v@.len(),
            forall|j: int| 0 <= j < v@.len() ==> #[trigger] v@[j] < 64,
            b == bits_of(usizes(v@).take(i as int)),
        decreases v@.len() - i,
    {
        let idx = v[i];
        proof {
            assert(usizes(v@).take(i as int + 1).drop_last() =~= usizes(v@).take(i as int));
        }
        b = b | (1u64 << (idx as u64));
        i += 1;
    }
    proof {
        assert(usizes(v@).take(v@.len() as int) =~= usizes(v@));
    }
    b
}

/// Piece boards of each side read from a board field.
pub fn get_pieces(s: &str) -> (r: Result<[[u64; 6]; 2], FenError>)
    ensures
        r is Ok <==> layout_ok(s@),
        r matches Ok(p) ==> forall|side: int, pc: int|
            0 <= side < 2 && 0 <= pc < 6 ==> #[trigger] p@[side]@[pc] == bits_of(
                board_squares(board_rows(s@), 6 * side + pc, 8),
            ),
{
    let indxs = match piece_idxs(s) {
        Ok(l) => l,
        Err(e) => {
            return Err(e);
        },
    };
    let w = &indxs[0];
    let b = &indxs[1];
    let p = [
        [
            squares_board(&w[0]),
            squares_board(&w[1]),
            squares_board(&w[2]),
            squares_board(&w[3]),
            squares_board(&w[4]),
            squares_board(&w[5]),
        ],
        [
            squares_board(&b[0]),
            squares_board(&b[1]),
            squares_board(&b[2]),
            squares_board(&b[3]),
            squares_board(&b[4]),
            squares_board(&b[5]),
        ],
    ];
    Ok(p)
}

/// Letter of the piece of kind `kind` on square `idx`, black when `black`
/// has the square.
pub open spec fn square_letter(kind: u8, black: u64, idx: int) -> char {
    piece_char(kind + 6 * (if crate::bits::has_bit(black, idx as u64) {
        1int
    } else {
        0int
    }))
}

/// Text of the first `n` squares of rank `rank`, left to right, and the
/// number of empty squares read but not yet written.
pub open spec fn rank_acc(sqs: Seq<u8>, black: u64, rank: int, n: int) -> (Seq<char>, nat)
    decreases n,
{
    if n <= 0 {
        (Seq::empty(), 0)
    } else {
        let (t, e) = rank_acc(sqs, black, rank, n - 1);
        let idx = 8 * rank + n - 1;
        if sqs[idx] == 6 {
            (t, e + 1)
        } else {
            let t1 = if e > 0 {
                t + decimal(e)
            } else {
                t
            };
            (t1.push(square_letter(sqs[idx], black, idx)), 0)
        }
    }
}

/// A rank as written in a record: piece letters, runs of empty squares as
/// their count.
pub open spec fn rank_text(sqs: Seq<u8>, black: u64, rank: int) -> Seq<char> {
    let (t, e) = rank_acc(sqs, black, rank, 8);
    if e > 0 {
        t + decimal(e)
    } else {
        t
    }
}

/// The first `n` ranks of a record's board, from rank 8 down, each but the
/// last followed by `/`.
pub open spec fn board_text(sqs: Seq<u8>, black: u64, n: int) -> Seq<char>
    decreases n,
{
    if n <= 0 {
        Seq::empty()
    } else {
        board_text(sqs, black, n - 1) + rank_text(sqs, black, 8 - n) + (if n < 8 {
            seq!['/']
        } else {
            Seq::empty()
        })
    }
}

/// The board field of a record, from the piece kind on each square (6 for
/// empty) and the two sides' boards.
pub fn board(sqs: [u8; 64], sides: [u64; 2]) -> (r: String)
    requires
        forall|i: int|
            0 <= i < 64 ==> #[trigger] sqs@[i] == 6 || sqs@[i] + 6 * (if crate::bits::has_bit(
                sides@[1],
                i as u64,
            ) {
                1int
            } else {
                0int
            }) < 12,
    ensures
        r@ == board_text(sqs@, sides@[1], 8),
{
    let black = sides[1];
    let mut fen = String::new();
    let mut i: usize = 0;
    while i < 8
        invariant
            i <= 8,
            black == sides@[1],
            fen@ == board_text(sqs@, black, i as int),
            forall|q: int|
                0 <= q < 64 ==> #[trigger] sqs@[q] == 6 || sqs@[q] + 6 * (if crate::bits::has_bit(
                    black,
                    q as u64,
                ) {
                    1int
                } else {
                    0int
                }) < 12,
        decreases 8 - i,
    {
        let rank: usize = 7 - i;
        let ghost start = fen@;
        let mut empty_count: u64 = 0;
        let mut j: usize = 0;
        while j < 8
            invariant
                j <= 8,
                rank < 8,
                black == sides@[1],
                fen@ == start + rank_acc(sqs@, black, rank as int, j as int).0,
                empty_count == rank_acc(sqs@, black, rank as int, j as int).1,
                empty_count <= j,
                forall|q: int|
                    0 <= q < 64 ==> #[trigger] sqs@[q] == 6 || sqs@[q] + 6 * (if crate::bits::has_bit(
                        black,
                        q as u64,
                    ) {
                        1int
                    } else {
                        0int
                    }) < 12,
            decreases 8 - j,
        {
            let idx = j + 8 * rank;
            let sq = sqs[idx];
            let ghost before = fen@;
            if sq == 6 {
                empty_count += 1;
            } else {
                if empty_count > 0 {
                    push_decimal(&mut fen, empty_count);
                }
                empty_count = 0;
                proof {
                    crate::bits::lemma_bit_ops(black, 0, idx as u64);
                }
                let side: usize = if black & (1u64 << (idx as u64)) > 0 {
                    1
                } else {
                    0
                };
                push_char(&mut fen, piece_out((side, sq as usize)));
                assert(fen@ =~= start + rank_acc(sqs@, black, rank as int, j as int + 1).0);
            }
            j += 1;
        }
        if empty_count > 0 {
            push_decimal(&mut fen, empty_count);
        }
        assert(fen@ =~= start + rank_text(sqs@, black, rank as int));
        if i != 7 {
            push_char(&mut fen, '/');
        }
        assert(fen@ =~= board_text(sqs@, black, i as int + 1));
        i += 1;
    }
    fen
}

/// Castling rights letters: `K`, `Q`, `k`, `q` for bits 4, 8, 1, 2, or `-`.
pub open spec fn rights_string(rights: u8) -> Seq<char> {
    if rights == 0 {
        seq!['-']
    } else {
        (if rights & 4 > 0 { seq!['K'] } else { Seq::empty() }) + (if rights & 8 > 0 {
            seq!['Q']
        } else {
            Seq::empty()
        }) + (if rights & 1 > 0 { seq!['k'] } else { Seq::empty() }) + (if rights & 2 > 0 {
            seq!['q']
        } else {
            Seq::empty()
        })
    }
}

/// The castling rights field.
pub fn castle_rights(rights: u8) -> (r: String)
    ensures
        r@ == rights_string(rights),
{
    let mut s = String::new();
    if rights == 0 {
        push_char(&mut s, '-');
        assert(s@ =~= rights_string(rights));
        return s;
    }
    if rights & 4 > 0 {
        push_char(&mut s, 'K');
    }
    if rights & 8 > 0 {
        push_char(&mut s, 'Q');
    }
    if rights & 1 > 0 {
        push_char(&mut s, 'k');
    }
    if rights & 2 > 0 {
        push_char(&mut s, 'q');
    }
    assert(s@ =~= rights_string(rights));
    s
}

/// Rights named by a castling field: `-` for none, else each of `QKqk`
/// adds its right and any other character is an error.
pub open spec fn rights_fold(s: Seq<char>, n: int) -> Option<u8>
    decreases n,
{
    if n <= 0 {
        Some(0u8)
    } else {
        match rights_fold(s, n - 1) {
            None => None,
            Some(r) => {
                let c = s[n - 1];
                if c == 'Q' {
                    Some(r | 8)
                } else if c == 'K' {
                    Some(r | 4)
                } else if c == 'q' {
                    Some(r | 2)
                } else if c == 'k' {
                    Some(r | 1)
                } else {
                    None
                }
            },
        }
    }
}

/// Reads a castling field.
pub fn get_castling_rights(s: &str) -> (r: Result<u8, FenError>)
    ensures
        s@ == seq!['-'] ==> r == Ok::<u8, FenError>(0),
        s@ != seq!['-'] ==> (rights_fold(s@, s@.len() as int) matches Some(v) ==> r == Ok::<
            u8,
            FenError,
        >(v)),
        s@ != seq!['-'] ==> (rights_fold(s@, s@.len() as int) is None ==> r is Err),
{
    let n = s.unicode_len();
    if n == 1 && s.get_char(0) == '-' {
        assert(s@ =~= seq!['-']);
        return Ok(0);
    }
    proof {
        if s@ == seq!['-'] {
            assert(s@[0] == '-');
        }
    }
    let mut castle: u8 = 0;
    let mut i: usize = 0;
    while i < n
        invariant
            i <= n,
            n == s@.len(),
            rights_fold(s@, i as int) == Some(castle),
            s@ != seq!['-'],
        decreases n - i,
    {
        let ch = s.get_char(i);
        let right = if ch == 'Q' {
            8
        } else if ch == 'K' {
            4
        } else if ch == 'q' {
            2
        } else if ch == 'k' {
            1
        } else {
            proof {
                assert forall|m: int| i + 1 <= m <= n implies #[trigger] rights_fold(s@, m) is None by {
                    lemma_rights_none(s@, i as int + 1, m);
                }
            }
            return Err(FenError);
        };
        castle = castle | right;
        i += 1;
    }
    Ok(castle)
}

proof fn lemma_rights_none(s: Seq<char>, m: int, n: int)
    requires
        1 <= m <= n,
        rights_fold(s, m) is None,
    ensures
        rights_fold(s, n) is None,
    decreases n - m,
{
    if n > m {
        lemma_rights_none(s, m, n - 1);
    }
}

/// File of a file letter in either case, or -1.
pub open spec fn file_of(c: char) -> int {
    if c == 'A' || c == 'a' {
        0
    } else if c == 'B' || c == 'b' {
        1
    } else if c == 'C' || c == 'c' {
        2
    } else if c == 'D' || c == 'd' {
        3
    } else if c == 'E' || c == 'e' {
        4
    } else if c == 'F' || c == 'f' {
        5
    } else if c == 'G' || c == 'g' {
        6
    } else if c == 'H' || c == 'h' {
        7
    } else {
        -1
    }
}

/// What a square field reads as: `-` is 0, two characters a file letter and
/// a rank digit, anything else an error.
pub open spec fn square_field(s: Seq<char>) -> Option<u16> {
    if s == seq!['-'] {
        Some(0u16)
    } else if s.len() != 2 || file_of(s[0]) < 0 || !('0' <= s[1] <= '9') {
        None
    } else {
        Some((8 * ((s[1] as u32) - 49) + file_of(s[0])) as u16)
    }
}

/// Reads a square field.
pub fn get_square(s: &str) -> (r: Result<u16, FenError>)
    requires
        !(s@.len() == 2 && file_of(s@[0]) >= 0 && s@[1] == '0'),
    ensures
        square_field(s@) matches Some(v) ==> r == Ok::<u16, FenError>(v),
        square_field(s@) is None ==> r is Err,
{
    let n = s.unicode_len();
    if n == 1 && s.get_char(0) == '-' {
        assert(s@ =~= seq!['-']);
        return Ok(0);
    }
    proof {
        if s@ == seq!['-'] {
            assert(s@[0] == '-');
        }
    }
    if n != 2 {
        return Err(FenError);
    }
    let x = s.get_char(0);
    let y = s.get_char(1);
    let file: u32 = if x == 'A' || x == 'a' {
        0
    } else if x == 'B' || x == 'b' {
        1
    } else if x == 'C' || x == 'c' {
        2
    } else if x == 'D' || x == 'd' {
        3
    } else if x == 'E' || x == 'e' {
        4
    } else if x == 'F' || x == 'f' {
        5
    } else if x == 'G' || x == 'g' {
        6
    } else if x == 'H' || x == 'h' {
        7
    } else {
        return Err(FenError);
    };
    if !('0' <= y && y <= '9') {
        return Err(FenError);
    }
    let rank = (y as u32) - 49;
    Ok((8 * rank + file) as u16)
}

/// Occupancy of each side: the union of its piece boards.
pub fn get_sides(pieces: [[u64; 6]; 2]) -> (r: [u64; 2])
    ensures
        forall|s: int| 0 <= s < 2 ==> r@[s] == pieces@[s]@[0] | pieces@[s]@[1] | pieces@[s]@[2]
            | pieces@[s]@[3] | pieces@[s]@[4] | pieces@[s]@[5],
{
    let w = pieces[0];
    let b = pieces[1];
    [w[0] | w[1] | w[2] | w[3] | w[4] | w[5], b[0] | b[1] | b[2] | b[3] | b[4] | b[5]]
}

/// Piece kind on each square: the last of white pawn .. white king, black
/// pawn .. black king whose board has the square, or 6 when none does.
pub open spec fn square_kind(pieces: [[u64; 6]; 2], idx: u64, n: int) -> u8
    decreases n,
{
    if n <= 0 {
        6
    } else {
        let s = (n - 1) / 6;
        let p = (n - 1) % 6;
        if (pieces@[s]@[p] >> idx) & 1 == 1 {
            p as u8
        } else {
            square_kind(pieces, idx, n - 1)
        }
    }
}

/// The piece kind on each square.
pub fn pieces_to_squares(pieces: [[u64; 6]; 2]) -> (r: [u8; 64])
    ensures
        forall|i: int| 0 <= i < 64 ==> r@[i] == square_kind(pieces, i as u64, 12),
{
    let mut squares = [6u8; 64];
    let mut n: usize = 0;
    while n < 12
        invariant
            n <= 12,
            forall|j: int| 0 <= j < 64 ==> squares@[j] == square_kind(pieces, j as u64, n as int),
        decreases 12 - n,
    {
        let side = n / 6;
        let pc = n % 6;
        let bb = pieces[side][pc];
        let mut idx: usize = 0;
        while idx < 64
            invariant
                idx <= 64,
                n < 12,
                side == n / 6,
                pc == n % 6,
                bb == pieces@[side as int]@[pc as int],
                forall|j: int| 0 <= j < idx ==> squares@[j] == square_kind(pieces, j as u64, n + 1),
                forall|j: int| idx <= j < 64 ==> squares@[j] == square_kind(pieces, j as u64, n as int),
            decreases 64 - idx,
        {
            if (bb >> (idx as u64)) & 1 == 1 {
                squares[idx] = pc as u8;
            }
            idx += 1;
        }
        n += 1;
    }
    squares
}

} // verus!
