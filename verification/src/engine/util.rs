//! Move notation, the principal variation, and perft.
use vstd::prelude::*;
use crate::state::moves::movs;
use crate::state::position::{
    ctx_ok, do_ok, gen_spec, legal_spec, lens_ok, make_spec, PositionView,
};
use crate::state::position::Position;
use crate::state::laws::{lemma_generated_moves_makeable, pos_valid};
use crate::state::valid::lemma_generated_moves_keep_valid;

verus! {

/// Appends a character to a string (`String::push`).
#[verifier::external_body]
pub(crate) fn push_char(s: &mut String, c: char)
    ensures
        final(s)@ == old(s)@.push(c),
{
    s.push(c)
}

/// File letter of a square.
pub open spec fn file_char(i: u16) -> char {
    (((i & 7) as u8) + 97) as char
}

/// Rank digit of a square on the board.
pub open spec fn rank_char(i: u16) -> char {
    ((i / 8) + 49) as char
}

/// Name of a square, such as `e4`.
pub open spec fn square_name(i: u16) -> Seq<char> {
    seq![file_char(i), rank_char(i)]
}

fn push_square(s: &mut String, i: u16)
    requires
        i < 64,
    ensures
        final(s)@ == old(s)@ + square_name(i),
{
    proof {
        crate::bits::lemma_square_index(i as u64);
        assert((i & 7) as u64 == (i as u64) & 7);
    }
    let f = (((i & 7) as u8) + 97u8) as char;
    let r = (((i / 8) as u8) + 49u8) as char;
    push_char(s, f);
    push_char(s, r);
    assert(s@ =~= old(s)@ + square_name(i));
}

/// Letter of the piece a promotion flag promotes to.
pub open spec fn promo_char(flag: u16) -> char {
    let k = (flag >> 12u16) & 3;
    if k == 0 {
        'n'
    } else if k == 1 {
        'b'
    } else if k == 2 {
        'r'
    } else {
        'q'
    }
}

/// Notation of `m`: from and to squares, then the promotion letter if any,
/// then a space; a castling move of a Chess960 game is written as the king
/// taking its own rook, with no space.
pub open spec fn uci_spec(chess960: bool, rooks: Seq<u8>, m: u16) -> Seq<char> {
    let from = m & 63;
    let to = (m >> 6u16) & 63;
    let flag = m & 0xF000;
    if chess960 && (flag == 0x2000 || flag == 0x3000) {
        let rook = (rooks[if flag == 0x2000 { 1int } else { 0int }] + 56 * (from / 56)) as u16;
        square_name(from) + square_name(rook)
    } else {
        square_name(from) + square_name(to) + (if flag >= 0x8000 {
            seq![promo_char(flag)]
        } else {
            Seq::empty()
        }) + seq![' ']
    }
}

/// Writes `m` in the notation of the interface.
pub fn u16_to_uci(pos: &Position, m: u16) -> (r: String)
    requires
        pos@.rooks.len() == 2,
        pos@.rooks[0] < 8,
        pos@.rooks[1] < 8,
    ensures
        r@ == uci_spec(pos@.chess960, pos@.rooks, m),
{
    let mut s = String::new();
    let from_idx = m & 63;
    let to = (m >> 6) & 63;
    let flag = m & 0xF000;
    proof {
        crate::state::position::lemma_move_fields(m);
    }
    if pos.chess960() && (flag == 0x2000 || flag == 0x3000) {
        let rooks = pos.castling_rooks();
        let ks: usize = if flag == 0x2000 { 1 } else { 0 };
        let rook = rooks[ks] as u16 + 56 * (from_idx / 56);
        push_square(&mut s, from_idx);
        push_square(&mut s, rook);
    } else {
        push_square(&mut s, from_idx);
        push_square(&mut s, to);
        if flag >= 0x8000 {
            let k = (flag >> 12) & 3;
            let c = if k == 0 {
                'n'
            } else if k == 1 {
                'b'
            } else if k == 2 {
                'r'
            } else {
                'q'
            };
            push_char(&mut s, c);
        }
        push_char(&mut s, ' ');
        assert(s@ =~= uci_spec(pos@.chess960, pos@.rooks, m));
    }
    s
}

/// A promotion is written with the letter of the piece it promotes to, as
/// records write a black piece (`n`, `b`, `r`, `q`), after its from and to
/// squares and before the closing space.
pub proof fn lemma_promotion_letter(chess960: bool, rooks: Seq<u8>, m: u16)
    requires
        crate::state::position::mv_flag(m) >= 0x8000,
    ensures
        1 <= crate::state::position::promo_piece(crate::state::position::mv_flag(m)) <= 4,
        uci_spec(chess960, rooks, m) == square_name(crate::state::position::mv_from(m) as u16)
            + square_name(crate::state::position::mv_to(m) as u16) + seq![
            crate::io::fen::piece_char(6 + crate::state::position::promo_piece(crate::state::position::mv_flag(m))),
            ' ',
        ],
{
    crate::state::position::lemma_move_fields(m);
    let flag = m & 0xF000;
    assert(uci_spec(chess960, rooks, m) =~= square_name(crate::state::position::mv_from(m) as u16)
        + square_name(crate::state::position::mv_to(m) as u16) + seq![promo_char(flag), ' ']);
}

/// The principal variation: the line of best moves found.
pub struct PvLine(Vec<u16>);

impl View for PvLine {
    type V = Seq<u16>;

    closed spec fn view(&self) -> Seq<u16> {
        self.0@
    }
}

/// Notation of a line of moves, each written as `uci_spec` writes it.
pub open spec fn line_spec(chess960: bool, rooks: Seq<u8>, ms: Seq<u16>) -> Seq<char>
    decreases ms.len(),
{
    if ms.len() == 0 {
        Seq::empty()
    } else {
        line_spec(chess960, rooks, ms.drop_last()) + uci_spec(chess960, rooks, ms.last())
    }
}

/// A line is written move after move: the notation of two lines one after
/// the other is the notation of the first followed by that of the second,
/// and a single move is written as `uci_spec` writes it.
pub proof fn lemma_line_concat(chess960: bool, rooks: Seq<u8>, a: Seq<u16>, b: Seq<u16>)
    ensures
        line_spec(chess960, rooks, a + b) == line_spec(chess960, rooks, a) + line_spec(chess960, rooks, b),
        forall|m: u16| #[trigger] line_spec(chess960, rooks, seq![m]) == uci_spec(chess960, rooks, m),
    decreases b.len(),
{
    assert forall|m: u16| #[trigger] line_spec(chess960, rooks, seq![m]) == uci_spec(chess960, rooks, m) by {
        let one = seq![m];
        assert(one.drop_last() =~= Seq::<u16>::empty());
        assert(line_spec(chess960, rooks, one.drop_last()) == Seq::<char>::empty());
        assert(one.last() == m);
        assert(Seq::<char>::empty() + uci_spec(chess960, rooks, m) =~= uci_spec(chess960, rooks, m));
    }
    if b.len() == 0 {
        assert(a + b =~= a);
        assert(line_spec(chess960, rooks, a) + line_spec(chess960, rooks, b) =~= line_spec(
            chess960,
            rooks,
            a,
        ));
    } else {
        lemma_line_concat(chess960, rooks, a, b.drop_last());
        assert((a + b).drop_last() =~= a + b.drop_last());
        assert((a + b).last() == b.last());
        assert(line_spec(chess960, rooks, a) + line_spec(chess960, rooks, b) =~= line_spec(
            chess960,
            rooks,
            a,
        ) + line_spec(chess960, rooks, b.drop_last()) + uci_spec(chess960, rooks, b.last()));
    }
}

impl PvLine {
    /// An empty line with room for `capacity` moves.
    pub fn with_capacity(capacity: i8) -> (r: Self)
        requires
            capacity >= 0,
        ensures
            r@ == Seq::<u16>::empty(),
    {
        PvLine(Vec::with_capacity(capacity as usize))
    }

    /// The first move of the line, or the null move if it is empty.
    pub fn first(&self) -> (r: u16)
        ensures
            self@.len() > 0 ==> r == self@[0],
            self@.len() == 0 ==> r == 0,
    {
        if self.0.len() > 0 {
            self.0[0]
        } else {
            0
        }
    }

    /// The line in the notation of the interface.
    pub fn to_string(&self, pos: &Position) -> (r: String)
        requires
            pos@.rooks.len() == 2,
            pos@.rooks[0] < 8,
            pos@.rooks[1] < 8,
        ensures
            r@ == line_spec(pos@.chess960, pos@.rooks, self@),
    {
        let mut s = String::new();
        let mut i: usize = 0;
        while i < self.0.len()
            invariant
                i <= self.0@.len(),
                pos@.rooks.len() == 2,
                pos@.rooks[0] < 8,
                pos@.rooks[1] < 8,
                s@ == line_spec(pos@.chess960, pos@.rooks, self.0@.take(i as int)),
            decreases self.0@.len() - i,
        {
            let part = u16_to_uci(pos, self.0[i]);
            let mut j: usize = 0;
            let ghost before = s@;
            proof {
                assert(self.0@.take(i + 1).drop_last() =~= self.0@.take(i as int));
            }
            let n = part.as_str().unicode_len();
            while j < n
                invariant
                    j <= n,
                    n == part@.len(),
                    s@ == before + part@.take(j as int),
                decreases n - j,
            {
                let c = part.as_str().get_char(j);
                push_char(&mut s, c);
                proof {
                    assert(part@.take(j + 1) =~= part@.take(j as int).push(c));
                }
                j += 1;
            }
            proof {
                assert(part@.take(n as int) =~= part@);
            }
            i += 1;
        }
        proof {
            assert(self.0@.take(self.0@.len() as int) =~= self.0@);
        }
        s
    }

    /// Empties the line.
    pub fn clear(&mut self)
        ensures
            final(self)@ == Seq::<u16>::empty(),
    {
        self.0.clear();
    }

    /// Makes the line `m` followed by `sub_pv`, which is left empty.
    pub fn update(&mut self, m: u16, sub_pv: &mut PvLine)
        ensures
            final(self)@ == seq![m] + old(sub_pv)@,
            final(sub_pv)@ == Seq::<u16>::empty(),
    {
        self.clear();
        self.0.push(m);
        self.0.append(&mut sub_pv.0);
        assert(self@ =~= seq![m] + old(sub_pv)@);
    }
}

impl Default for PvLine {
    fn default() -> (r: Self)
        ensures
            r@ == Seq::<u16>::empty(),
    {
        PvLine(Vec::new())
    }
}

/// Number of leaf positions at `depth` plies: legal moves only, a depth of
/// zero counting as one.
pub open spec fn perft_count(v: PositionView, depth: nat) -> nat
    decreases depth, 1nat, 0nat,
{
    perft_sum(v, gen_spec(v, true), depth)
}

/// Leaves under the moves `ms` of `v`.
pub open spec fn perft_sum(v: PositionView, ms: Seq<u16>, depth: nat) -> nat
    decreases depth, 0nat, ms.len(),
{
    if ms.len() == 0 {
        0
    } else {
        perft_sum(v, ms.drop_last(), depth) + perft_leaf(v, ms.last(), depth)
    }
}

/// Leaves under one move: none if it is illegal, one at the last ply, else
/// those of the position it leads to.
pub open spec fn perft_leaf(v: PositionView, m: u16, depth: nat) -> nat
    decreases depth, 0nat, 0nat,
{
    if legal_spec(v, m) {
        if depth > 1 {
            perft_count(make_spec(v, m), (depth - 1) as nat)
        } else {
            1nat
        }
    } else {
        0nat
    }
}

#[verifier::spinoff_prover]
#[verifier::rlimit(40)]
proof fn lemma_perft_step(v: PositionView, depth: nat, i: int)
    requires
        pos_valid(v),
        0 <= i < gen_spec(v, true).len(),
    ensures
        do_ok(v, gen_spec(v, true)[i]),
        legal_spec(v, gen_spec(v, true)[i]) ==> pos_valid(make_spec(v, gen_spec(v, true)[i])),
        perft_sum(v, gen_spec(v, true).take(i + 1), depth) == perft_sum(
            v,
            gen_spec(v, true).take(i),
            depth,
        ) + perft_leaf(v, gen_spec(v, true)[i], depth),
        perft_sum(v, gen_spec(v, true).take(i + 1), depth) <= perft_count(v, depth),
{
    let g = gen_spec(v, true);
    lemma_generated_moves_makeable(v, true, i);
    if legal_spec(v, g[i]) {
        lemma_generated_moves_keep_valid(v, true, i);
    }
    assert(g.take(i + 1).drop_last() =~= g.take(i));
    assert(g.take(i + 1).last() == g[i]);

    lemma_perft_sum_prefix(v, g, depth, i + 1);
    lemma_perft_count_def(v, depth);
}

proof fn lemma_perft_sum_prefix(v: PositionView, ms: Seq<u16>, depth: nat, i: int)
    requires
        0 <= i <= ms.len(),
    ensures
        perft_sum(v, ms.take(i), depth) <= perft_sum(v, ms, depth),
    decreases ms.len() - i,
{

    if i < ms.len() {
        lemma_perft_sum_prefix(v, ms, depth, i + 1);
        assert(ms.take(i + 1).drop_last() =~= ms.take(i));
    } else {
        assert(ms.take(i) =~= ms);
    }
}

/// Counts the leaf positions `depth` plies below `pos`, leaving it as it was.
pub fn perft(pos: &mut Position, depth: u8) -> (r: u64)
    requires
        pos_valid(old(pos)@),
        perft_count(old(pos)@, depth as nat) <= u64::MAX,
    ensures
        r == perft_count(old(pos)@, depth as nat),
        final(pos)@ == old(pos)@,
    decreases depth,
{
    let ghost v = pos@;
    let ghost g = gen_spec(v, true);
    let moves = pos.generate::<true>();
    let mut positions: u64 = 0;
    let mut i: usize = 0;
    proof {
        assert(movs(moves@) =~= g);
        assert(g.take(0) =~= Seq::<u16>::empty());
        lemma_perft_sum_empty(v, depth as nat);
    }
    while i < moves.len()
        invariant
            pos@ == v,
            moves@.len() == g.len(),
            movs(moves@) == g,
            i <= g.len(),
            pos_valid(v),
            perft_count(v, depth as nat) <= u64::MAX,
            g == gen_spec(v, true),
            positions == perft_sum(v, g.take(i as int), depth as nat),
        decreases g.len() - i,
    {
        let m = moves.at(i).mov();
        proof {
            assert(m == g[i as int]);
            lemma_perft_step(v, depth as nat, i as int);
        }
        if !pos.do_move(m) {
            i += 1;
            continue;
        }
        let count = if depth > 1 {
            perft(pos, depth - 1)
        } else {
            1
        };
        proof {
            crate::state::position::lemma_unmake_make(v, m);
            lemma_make_undo_ok(v, m);
        }
        pos.undo();
        positions += count;
        i += 1;
    }
    proof {
        assert(g.take(g.len() as int) =~= g);
        lemma_perft_count_def(v, depth as nat);
    }
    positions
}

proof fn lemma_perft_count_def(v: PositionView, depth: nat)
    ensures
        perft_count(v, depth) == perft_sum(v, gen_spec(v, true), depth),
{
}

proof fn lemma_perft_sum_empty(v: PositionView, depth: nat)
    ensures
        perft_sum(v, Seq::<u16>::empty(), depth) == 0,
{

}

proof fn lemma_make_undo_ok(v: PositionView, m: u16)
    requires
        do_ok(v, m),
    ensures
        make_spec(v, m).stack.len() > 0,
        lens_ok(make_spec(v, m)),
        ctx_ok(make_spec(v, m).rooks, make_spec(v, m).stack.last(), if make_spec(v, m).stm { 0 } else { 1 }),
{
}

} // verus!
