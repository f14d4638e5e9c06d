//! Tapered evaluation: blending a midgame and an endgame score by game phase;
//! draws by repetition and by the fifty-move rule.
use vstd::prelude::*;
use super::GameState;

verus! {

/// Phase of a position with all pieces on the board.
pub const TOTALPHASE: i32 = 24;

/// Integer division rounding toward zero, as the machine divides.
pub open spec fn trunc_div(a: int, b: int) -> int {
    if a >= 0 {
        a / b
    } else {
        -((-a) / b)
    }
}

/// The blend of `mg` and `eg` at `phase`, before narrowing.
pub open spec fn taper_value(phase: int, mg: int, eg: int) -> int {
    trunc_div(phase * mg + (24 - phase) * eg, 24)
}

/// Whether computing the blend at `phase` stays within 32-bit arithmetic.
pub open spec fn taper_fits(phase: int, mg: int, eg: int) -> bool {
    &&& i32::MIN <= phase * mg <= i32::MAX
    &&& i32::MIN <= 24 - phase <= i32::MAX
    &&& i32::MIN <= (24 - phase) * eg <= i32::MAX
    &&& i32::MIN <= phase * mg + (24 - phase) * eg <= i32::MAX
}

/// Blends a midgame and an endgame score: `phase` parts midgame to
/// `24 - phase` parts endgame, rounded toward zero and narrowed to 16 bits.
pub fn taper(phase: i32, mg: i16, eg: i16) -> (r: i16)
    requires
        taper_fits(phase as int, mg as int, eg as int),
    ensures
        r == taper_value(phase as int, mg as int, eg as int) as i16,
{
    let a = phase * (mg as i32);
    let b = (TOTALPHASE - phase) * (eg as i32);
    let s = a + b;
    let q = s / TOTALPHASE;
    assert(q == trunc_div(s as int, 24));
    q as i16
}

/// Tapered score of the side to move's advantage, from per-side midgame and
/// endgame scores.
pub fn eval_factor(phase: i32, mg: [i16; 2], eg: [i16; 2]) -> (r: i16)
    requires
        i16::MIN <= mg[0] - mg[1] <= i16::MAX,
        i16::MIN <= eg[0] - eg[1] <= i16::MAX,
        taper_fits(phase as int, mg[0] - mg[1], eg[0] - eg[1]),
    ensures
        r == taper_value(phase as int, mg[0] - mg[1], eg[0] - eg[1]) as i16,
{
    let eval_mg = mg[0] - mg[1];
    let eval_eg = eg[0] - eg[1];
    taper(phase, eval_mg, eval_eg)
}

/// Entries `i`, `i - 2`, `i - 4`, ... down to `from` of `stack` whose hash
/// is `zobrist`.
pub open spec fn repetitions(stack: Seq<GameState>, zobrist: u64, from: int, i: int) -> nat
    decreases i - from + 2,
{
    if i < from {
        0
    } else {
        (if stack[i].zobrist == zobrist {
            1nat
        } else {
            0nat
        }) + repetitions(stack, zobrist, from, i - 2)
    }
}

/// First stack entry that can repeat the position: the one the halfmove
/// clock reaches back to, or the bottom of the stack when the clock reaches
/// past it.
pub open spec fn repetition_window(len: int, halfmove_clock: u8) -> int {
    if halfmove_clock > len || len - halfmove_clock > 1024 {
        0
    } else {
        len - halfmove_clock
    }
}

/// Whether the position with hash `zobrist` has occurred `num` times: at
/// least six moves played and no null move on the board, and the position
/// found again, counting itself, `num` times among the entries a multiple of
/// two moves back within the halfmove clock's window (found at least once).
pub open spec fn repetition_draw(
    stack: Seq<GameState>,
    zobrist: u64,
    halfmove_clock: u8,
    null_counter: u8,
    num: u8,
) -> bool {
    let l = stack.len() as int;
    let m = repetitions(stack, zobrist, repetition_window(l, halfmove_clock), l - 2);
    &&& l >= 6
    &&& null_counter == 0
    &&& m >= 1
    &&& 1 + m >= num
}

proof fn lemma_repetitions_step(stack: Seq<GameState>, zobrist: u64, from: int, i: int)
    requires
        from <= i,
    ensures
        repetitions(stack, zobrist, from, i) == (if stack[i].zobrist == zobrist {
            1nat
        } else {
            0nat
        }) + repetitions(stack, zobrist, from, i - 2),
{
}

/// Whether the position, with hash `zobrist` and the moves `state_stack`
/// played before it, is drawn by its `num`-th occurrence.
pub fn is_draw_by_repetition(
    state_stack: &Vec<GameState>,
    zobrist: u64,
    halfmove_clock: u8,
    null_counter: u8,
    num: u8,
) -> (r: bool)
    ensures
        r == repetition_draw(state_stack@, zobrist, halfmove_clock, null_counter, num),
{
    let l = state_stack.len();
    if l < 6 || null_counter > 0 {
        return false;
    }
    let to = l - 1;
    let mut from = l.wrapping_sub(halfmove_clock as usize);
    if from > 1024 {
        from = 0;
    }
    let ghost w = repetition_window(l as int, halfmove_clock);
    assert(from == w);
    let mut repetitions_count: u64 = 1;
    let mut i: usize = to + 1;
    let ghost total = repetitions(state_stack@, zobrist, w, l - 2);
    while i >= from + 2
        invariant
            l == state_stack@.len(),
            6 <= l,
            from == w,
            from <= 1024,
            i <= l,
            repetitions_count >= 1,
            total == (repetitions_count - 1) + repetitions(state_stack@, zobrist, w, i - 2),
            repetitions_count - 1 == 0 || repetitions_count < num,
            repetitions_count + i <= l + 1,
            null_counter == 0,
            w == repetition_window(l as int, halfmove_clock),
            total == repetitions(state_stack@, zobrist, w, l - 2),
        decreases i,
    {
        let k = i - 2;
        proof {
            lemma_repetitions_step(state_stack@, zobrist, w, k as int);
        }
        if state_stack[k].zobrist == zobrist {
            repetitions_count += 1;
            if repetitions_count >= num as u64 {
                assert(repetitions(state_stack@, zobrist, w, k as int) >= 1);
                assert(total >= repetitions_count - 1);
                return true;
            }
        }
        i = i - 2;
    }
    false
}

/// Whether the fifty-move rule draws the game: a hundred halfmoves without a
/// capture or pawn move, no null move on the board.
pub fn is_draw_by_50(null_counter: u8, halfmove_clock: u8) -> (r: bool)
    ensures
        r == (null_counter == 0 && halfmove_clock >= 100),
{
    null_counter == 0 && halfmove_clock >= 100
}

} // verus!
