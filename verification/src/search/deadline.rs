//! A cheap, poll-based time budget for search, plus (see `StopSignal`)
//! external cancellation for UCI `stop`/shutdown. Negamax checks a
//! `Deadline` periodically and unwinds early when time is up or a stop
//! has been requested, rather than search needing to be interrupted
//! from outside via a thread primitive of its own.

use crate::time::Duration;
use std::sync::atomic::AtomicBool;
use std::sync::Arc;
use vstd::prelude::*;

verus! {

/// How many nodes to visit between looks at the clock. Checking
/// every single node would make the clock syscall a meaningful
/// fraction of search time; checking too rarely makes the deadline
/// imprecise.
pub const CHECK_INTERVAL_NODES: u64 = 2048;

/// A reading of the system's monotonic clock.
#[verifier::external_type_specification]
#[verifier::external_body]
pub struct ExInstant(std::time::Instant);

/// `std::time::Instant::now`: the current reading of the monotonic clock.
/// Nothing is claimed of it.
#[verifier::external_body]
fn clock_reading() -> std::time::Instant {
    std::time::Instant::now()
}

/// `std::time::Instant::elapsed`: the nanoseconds since a clock reading.
/// Nothing is claimed of the number, which depends on when it is asked for.
#[verifier::external_body]
fn nanos_since(start: &std::time::Instant) -> u128 {
    start.elapsed().as_nanos()
}

/// A point in time from which the time that has passed can be measured.
#[derive(Debug, Clone, Copy)]
pub struct Stopwatch {
    start: std::time::Instant,
}

impl Stopwatch {
    /// Starts measuring now.
    #[must_use]
    pub fn start() -> Stopwatch {
        Stopwatch { start: clock_reading() }
    }

    /// How much time has passed since the start. That is up to the clock;
    /// `time_to_stop` says what it means for a budget.
    #[must_use]
    pub fn elapsed(&self) -> Duration {
        Duration::from_nanos(nanos_since(&self.start))
    }
}

/// A cheaply cloneable, thread-shared "please stop now" flag -- the
/// mechanism a UCI `stop` (or a shutdown) uses to cancel a search
/// running on another thread. Checked on every node (not gated to
/// `CHECK_INTERVAL_NODES` like the wall-clock check): an atomic load is
/// cheap enough to afford unconditionally, and an explicit `stop`
/// should take effect immediately.
#[derive(Debug)]
pub struct StopSignal(Arc<AtomicBool>);

/// `Arc::clone`: another pointer to the same flag.
#[verifier::external_body]
fn same_flag(flag: &Arc<AtomicBool>) -> (other: Arc<AtomicBool>)
    ensures
        other == *flag,
{
    Arc::clone(flag)
}

impl Clone for StopSignal {
    fn clone(&self) -> (other: StopSignal)
        ensures
            other == *self,
    {
        StopSignal(same_flag(&self.0))
    }
}

impl Default for StopSignal {
    fn default() -> StopSignal {
        StopSignal(Arc::new(AtomicBool::new(false)))
    }
}

impl StopSignal {
    /// A fresh signal, not yet requested -- one per `go`, so a
    /// previous search's cancellation can never leak into the next
    /// one.
    #[must_use]
    pub fn new() -> StopSignal {
        StopSignal::default()
    }

    /// Requests that any search sharing this signal stop as soon as
    /// it next checks (see `Deadline::is_expired`) -- idempotent, and
    /// takes effect for every clone of this signal, not just this one.
    pub fn request_stop(&self) {
        self.0.store(true, std::sync::atomic::Ordering::Relaxed);
    }

    /// Whether a stop has been requested through this signal or a clone of it.
    /// Either answer is possible at any time, since other threads may hold
    /// clones; `time_to_stop` says what each of them means.
    #[must_use]
    pub fn is_stop_requested(&self) -> bool {
        self.0.load(std::sync::atomic::Ordering::Relaxed)
    }
}

/// A budget of time and when it started to run.
#[derive(Debug, Clone, Copy)]
pub struct TimeLimit {
    watch: Stopwatch,
    budget: Duration,
}

/// A point in time search must stop by, plus an optional external
/// `StopSignal`. `Deadline::none()` means "no time limit and no
/// external cancellation" (used by fixed-depth search, e.g. in tests),
/// which never reports as expired.
#[derive(Debug, Clone)]
pub struct Deadline {
    limit: Option<TimeLimit>,
    stop: Option<StopSignal>,
}

/// Whether the clock is looked at after so many nodes.
pub open spec fn is_check_boundary(nodes: u64) -> bool {
    nodes % CHECK_INTERVAL_NODES == 0
}

/// Whether the clock is looked at after so many nodes.
pub fn clock_check_due(nodes: u64) -> (due: bool)
    ensures
        due == is_check_boundary(nodes),
{
    nodes % CHECK_INTERVAL_NODES == 0
}

/// Whether a budget is used up once `elapsed` has passed: from the moment on
/// at which exactly the budget has passed.
pub fn budget_used_up(elapsed: Duration, budget: Duration) -> (used_up: bool)
    ensures
        used_up == (elapsed.ns() >= budget.ns()),
{
    elapsed.as_nanos() >= budget.as_nanos()
}

/// Whether it is time to stop: because that was requested, or because a look
/// at the clock, if there was one, found the budget used up. `reading` is what
/// had elapsed and the budget.
pub fn time_to_stop(stop_requested: bool, reading: Option<(Duration, Duration)>) -> (stops: bool)
    ensures
        stops == (stop_requested || (reading matches Some((elapsed, budget)) && elapsed.ns()
            >= budget.ns())),
{
    stop_requested || match reading {
        Some((elapsed, budget)) => budget_used_up(elapsed, budget),
        None => false,
    }
}

impl Deadline {
    /// Whether there is a time limit.
    pub closed spec fn has_limit(self) -> bool {
        self.limit is Some
    }

    /// The nanoseconds of the time limit, if there is one.
    pub closed spec fn budget_ns(self) -> nat {
        match self.limit {
            Some(limit) => limit.budget.ns(),
            None => 0,
        }
    }

    /// The stop signal that is attached, if there is one.
    pub closed spec fn signal(self) -> Option<StopSignal> {
        self.stop
    }

    /// Whether there is a stop signal.
    pub open spec fn has_signal(self) -> bool {
        self.signal() is Some
    }

    /// Whether this deadline can ever be reported as expired.
    pub open spec fn can_expire(self) -> bool {
        self.has_limit() || self.has_signal()
    }

    /// Whether there is nothing left of the time limit from the start.
    pub open spec fn has_no_time(self) -> bool {
        self.has_limit() && self.budget_ns() == 0
    }

    /// Whether this deadline has the given time limit and stop signal.
    pub open spec fn is_for(self, budget_ns: nat, stop: Option<StopSignal>) -> bool {
        self.has_limit() && self.budget_ns() == budget_ns && self.signal() == stop
    }

    /// Whether this deadline may give such an answer after so many nodes: what
    /// the stop signal and the clock say is open. Without either, and between
    /// clock checks, nothing expires, and at a clock check a budget of nothing
    /// always has.
    pub open spec fn may_answer(self, nodes: u64, expired: bool) -> bool {
        &&& !self.can_expire() ==> !expired
        &&& !self.has_signal() && !is_check_boundary(nodes) ==> !expired
        &&& self.has_no_time() && is_check_boundary(nodes) ==> expired
    }

    /// Whether a search under this deadline may end as it did, finished or cut
    /// off, given whether a look at the clock fell due on the way. Without a
    /// stop signal nothing but a look at the clock can cut it off, and with
    /// nothing left of the time limit any look at the clock does.
    pub open spec fn may_end(self, finished: bool, clock_due: bool) -> bool {
        &&& !self.can_expire() ==> finished
        &&& !self.has_signal() && !clock_due ==> finished
        &&& self.has_no_time() && clock_due ==> !finished
    }

    /// No time limit and no external cancellation: `is_expired` never
    /// returns `true`.
    #[must_use]
    pub fn none() -> (deadline: Deadline)
        ensures
            !deadline.has_limit(),
            !deadline.has_signal(),
    {
        Deadline { limit: None, stop: None }
    }

    /// A deadline `budget` from now, with no external cancellation.
    /// See `with_stop_signal` to also attach one.
    #[must_use]
    pub fn from_now(budget: Duration) -> (deadline: Deadline)
        ensures
            deadline.has_limit(),
            deadline.budget_ns() == budget.ns(),
            !deadline.has_signal(),
    {
        Deadline { limit: Some(TimeLimit { watch: Stopwatch::start(), budget }), stop: None }
    }

    /// Returns a copy of this deadline that also treats `stop` as an
    /// expiry condition -- see `StopSignal`'s docs. Chainable with
    /// `from_now`/`none` (a `go infinite` search, say, has no time limit but
    /// still needs to honor `stop`).
    #[must_use]
    pub fn with_stop_signal(self, stop: StopSignal) -> (deadline: Deadline)
        ensures
            deadline.has_limit() == self.has_limit(),
            deadline.budget_ns() == self.budget_ns(),
            deadline.signal() == Some(stop),
    {
        Deadline { limit: self.limit, stop: Some(stop) }
    }

    /// Whether an external stop has been requested (checked
    /// unconditionally -- see `StopSignal`'s docs) or, if `nodes`
    /// visited so far justifies an actual clock check (see
    /// `CHECK_INTERVAL_NODES`), whether the wall-clock deadline has
    /// passed. See `may_answer` for what that depends on.
    #[must_use]
    pub fn is_expired(&self, nodes: u64) -> (expired: bool)
        ensures
            self.may_answer(nodes, expired),
    {
        let stop_requested = match &self.stop {
            Some(stop) => stop.is_stop_requested(),
            None => false,
        };
        let reading: Option<(Duration, Duration)> = match &self.limit {
            Some(limit) if !stop_requested && clock_check_due(nodes) => Some(
                (limit.watch.elapsed(), limit.budget),
            ),
            _ => None,
        };
        time_to_stop(stop_requested, reading)
    }
}

} // verus!
