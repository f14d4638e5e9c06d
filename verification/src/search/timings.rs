//! Clock information given by the interface, and the time allotted to a move.
use vstd::prelude::*;

verus! {

/// Move timing info.
#[derive(Default, PartialEq, Eq)]
pub struct Times {
    /// White time on clock.
    pub wtime: u64,
    /// Black time on clock.
    pub btime: u64,
    /// White time increment.
    pub winc: u64,
    /// Black time increment.
    pub binc: u64,
    /// Moves until next time control.
    pub moves_to_go: Option<u8>,
}

/// Time for one move: the mover's clock split over the moves to go when
/// given, else over twice the phase plus one.
pub open spec fn movetime_spec(t: Times, side: usize, phase: i16) -> u64 {
    let available = if side == 0 {
        t.wtime
    } else {
        t.btime
    };
    match t.moves_to_go {
        Some(n) => (available / (n as u64)) as u64,
        None => (available / (2 * (phase + 1)) as u64) as u64,
    }
}

impl Times {
    /// Whether no clock information was given.
    pub fn is_default(&self) -> (r: bool)
        ensures
            r == (self.wtime == 0 && self.btime == 0 && self.winc == 0 && self.binc == 0
                && self.moves_to_go is None),
    {
        self.wtime == 0 && self.btime == 0 && self.winc == 0 && self.binc == 0
            && self.moves_to_go.is_none()
    }

    /// Time to spend on the next move of `side`.
    pub fn to_movetime(&self, side: usize, phase: i16) -> (r: u64)
        requires
            side < 2,
            self.moves_to_go matches Some(n) ==> n > 0,
            self.moves_to_go is None ==> phase >= 0,
        ensures
            r == movetime_spec(*self, side, phase),
    {
        let available = if side == 0 {
            self.wtime
        } else {
            self.btime
        };
        match self.moves_to_go {
            Some(n) => available / (n as u64),
            None => available / (2 * (phase as u64 + 1)),
        }
    }
}

/// The time for a move depends on the mover's clock alone: two clocks that
/// agree on the mover's remaining time and on the moves to go give the same
/// time, whatever the other side's clock and the increments.
pub proof fn lemma_movetime_own_clock(t1: Times, t2: Times, side: usize, phase: i16)
    requires
        side < 2,
        side == 0 ==> t1.wtime == t2.wtime,
        side == 1 ==> t1.btime == t2.btime,
        t1.moves_to_go == t2.moves_to_go,
    ensures
        movetime_spec(t1, side, phase) == movetime_spec(t2, side, phase),
{
}

/// With the moves to go given, the mover's remaining time is split evenly
/// over them: `n` moves of the allotted time fit in the mover's clock, and
/// `n` moves of one millisecond more do not.
pub proof fn lemma_movetime_split(t: Times, side: usize, phase: i16, n: u8)
    requires
        side < 2,
        t.moves_to_go == Some(n),
        n > 0,
    ensures
        ({
            let own = if side == 0 {
                t.wtime
            } else {
                t.btime
            };
            let r = movetime_spec(t, side, phase);
            &&& r * n <= own
            &&& own < (r + 1) * n
        }),
{
    let own: u64 = if side == 0 {
        t.wtime
    } else {
        t.btime
    };
    let q = own / (n as u64);
    assert(q * n <= own && own < (q + 1) * n) by (nonlinear_arith)
        requires
            q == own / (n as u64),
            n > 0,
    ;
}

/// Without moves to go, the mover's remaining time is split evenly over
/// twice the phase plus one moves.
pub proof fn lemma_movetime_split_by_phase(t: Times, side: usize, phase: i16)
    requires
        side < 2,
        t.moves_to_go is None,
        phase >= 0,
    ensures
        ({
            let own = if side == 0 {
                t.wtime
            } else {
                t.btime
            };
            let r = movetime_spec(t, side, phase);
            let k = 2 * (phase + 1);
            &&& r * k <= own
            &&& own < (r + 1) * k
        }),
{
    let own: u64 = if side == 0 {
        t.wtime
    } else {
        t.btime
    };
    let k: u64 = (2 * (phase + 1)) as u64;
    let q = own / k;
    assert(q * k <= own && own < (q + 1) * k) by (nonlinear_arith)
        requires
            q == own / k,
            k > 0,
    ;
}

} // verus!
