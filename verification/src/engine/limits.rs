//! Search limits: depth, node and time budgets, and the shared abort signal.
use vstd::prelude::*;
use std::sync::Arc;
use std::sync::atomic::AtomicBool;
use std::sync::atomic::Ordering;
use std::time::Duration;
use std::time::Instant;

verus! {

#[verifier::external_type_specification]
#[verifier::external_body]
pub struct ExInstant(Instant);

/// The current time (`Instant::now`); nothing is claimed of it.
#[verifier::external_body]
pub(crate) fn time_now() -> Instant {
    Instant::now()
}

/// Time passed since `t` (`Instant::elapsed`); it depends on the clock, so
/// nothing is claimed of it.
#[verifier::external_body]
fn time_since(t: &Instant) -> Duration {
    t.elapsed()
}

/// Whole milliseconds of a duration (`Duration::as_millis`); nothing is
/// claimed of the value.
#[verifier::external_body]
fn duration_millis(d: &Duration) -> u128 {
    d.as_millis()
}

/// Whether a search that has visited `nodes` nodes, `elapsed_ms`
/// milliseconds into a budget of `max_time` milliseconds and `max_nodes`
/// nodes, stops: checked every 1024 nodes.
pub open spec fn abort_decision(nodes: u64, elapsed_ms: u128, max_time: u128, max_nodes: u64) -> bool {
    nodes & 1023 == 0 && (elapsed_ms > max_time || nodes >= max_nodes)
}

/// The time budget given the remaining time, the increment and the moves to
/// the next time control (25 when not given).
pub open spec fn allotted_time(remaining: u128, increment: u128, moves_to_go: Option<u128>) -> int {
    let n = match moves_to_go {
        Some(n) => n,
        None => 25,
    };
    remaining / n + 3 * increment / 4 - 10
}

/// Decides `abort_decision` for a measured elapsed time.
pub fn abort_check(nodes: u64, elapsed_ms: u128, max_time: u128, max_nodes: u64) -> (r: bool)
    ensures
        r == abort_decision(nodes, elapsed_ms, max_time, max_nodes),
{
    nodes & 1023 == 0 && (elapsed_ms > max_time || nodes >= max_nodes)
}

pub struct Limits {
    time: Instant,
    abort_signal: Arc<AtomicBool>,
    max_time: u128,
    max_depth: i8,
    max_nodes: u64,
}

impl Limits {
    /// Time budget in milliseconds.
    pub closed spec fn max_time(&self) -> u128 {
        self.max_time
    }

    /// Depth limit.
    pub closed spec fn max_depth(&self) -> i8 {
        self.max_depth
    }

    /// Node budget.
    pub closed spec fn max_nodes(&self) -> u64 {
        self.max_nodes
    }

    /// Limits with a budget of one second, depth 0 and no nodes, sharing
    /// `abort_signal`.
    pub fn new(abort_signal: Arc<AtomicBool>) -> (r: Self)
        ensures
            r.max_time() == 1000,
            r.max_depth() == 0,
            r.max_nodes() == 0,
    {
        Self { time: time_now(), abort_signal, max_time: 1000, max_depth: 0, max_nodes: 0 }
    }

    /// The depth limit.
    pub fn depth(&self) -> (r: i8)
        ensures
            r == self.max_depth(),
    {
        self.max_depth
    }

    /// Time passed since the search started.
    pub fn elapsed(&self) -> Duration {
        time_since(&self.time)
    }

    pub fn set_depth(&mut self, depth: i8)
        ensures
            final(self).max_depth() == depth,
            final(self).max_time() == old(self).max_time(),
            final(self).max_nodes() == old(self).max_nodes(),
    {
        self.max_depth = depth;
    }

    pub fn set_nodes(&mut self, nodes: u64)
        ensures
            final(self).max_nodes() == nodes,
            final(self).max_time() == old(self).max_time(),
            final(self).max_depth() == old(self).max_depth(),
    {
        self.max_nodes = nodes;
    }

    pub fn set_time(&mut self, time: u128)
        ensures
            final(self).max_time() == time,
            final(self).max_depth() == old(self).max_depth(),
            final(self).max_nodes() == old(self).max_nodes(),
    {
        self.max_time = time;
    }

    /// Whether the search has been told to stop; another thread may set the
    /// signal at any time.
    pub fn aborting(&self) -> bool {
        self.abort_signal.load(Ordering::Relaxed)
    }

    /// Clears the abort signal and restarts the clock.
    pub fn reset(&mut self)
        ensures
            final(self).max_time() == old(self).max_time(),
            final(self).max_depth() == old(self).max_depth(),
            final(self).max_nodes() == old(self).max_nodes(),
    {
        self.abort_signal.store(false, Ordering::Relaxed);
        self.time = time_now();
    }

    /// Whether the search must stop after `nodes` nodes; if so the abort
    /// signal is raised. Only every 1024th node is checked: then the search
    /// stops once the node budget is reached or the time budget exceeded.
    pub fn should_abort(&mut self, nodes: u64) -> (r: bool)
        ensures
            r ==> nodes & 1023 == 0,
            nodes & 1023 == 0 && nodes >= old(self).max_nodes() ==> r,
            final(self).max_time() == old(self).max_time(),
            final(self).max_depth() == old(self).max_depth(),
            final(self).max_nodes() == old(self).max_nodes(),
    {
        if nodes & 1023 == 0 {
            let d = self.elapsed();
            let ms = duration_millis(&d);
            if abort_check(nodes, ms, self.max_time, self.max_nodes) {
                self.abort_signal.store(true, Ordering::Relaxed);
                return true;
            }
        }
        false
    }

    /// Sets the time budget from the clock: the remaining time split over the
    /// moves to go, plus three quarters of the increment, less a 10 ms margin.
    pub fn allocate_time(&mut self, remaining: u128, increment: u128, moves_to_go: Option<u128>)
        requires
            moves_to_go != Some(0u128),
            3 * increment <= u128::MAX,
            allotted_time(remaining, increment, moves_to_go) >= 0,
            remaining / (match moves_to_go {
                Some(n) => n,
                None => 25,
            }) + 3 * increment / 4 <= u128::MAX,
        ensures
            final(self).max_time() == allotted_time(remaining, increment, moves_to_go),
            final(self).max_depth() == old(self).max_depth(),
            final(self).max_nodes() == old(self).max_nodes(),
    {
        let n = match moves_to_go {
            Some(n) => n,
            None => 25,
        };
        self.max_time = remaining / n + 3 * increment / 4 - 10;
    }
}

/// The time allotted from the clock: the remaining time split evenly over
/// the moves to go (25 when not given), plus three quarters of the
/// increment, less a 10 ms margin.
pub proof fn lemma_allotted_time_split(remaining: u128, increment: u128, moves_to_go: Option<u128>)
    requires
        moves_to_go != Some(0u128),
    ensures
        ({
            let n: int = match moves_to_go {
                Some(n) => n as int,
                None => 25,
            };
            let share = allotted_time(remaining, increment, moves_to_go) + 10 - 3 * increment / 4;
            &&& share * n <= remaining
            &&& remaining < (share + 1) * n
        }),
        allotted_time(remaining, increment, moves_to_go) - allotted_time(remaining, 0, moves_to_go) == 3
            * increment / 4,
{
    let n: u128 = match moves_to_go {
        Some(n) => n,
        None => 25,
    };
    let q = remaining / n;
    assert(q * n <= remaining && remaining < (q + 1) * n) by (nonlinear_arith)
        requires
            q == remaining / n,
            n > 0,
    ;
}

} // verus!
