//! Turns a UCI `go` command's clock fields into concrete search
//! deadlines, so nothing below this module ever needs to know what
//! `wtime`/`btime`/`winc`/`binc`/`movestogo` mean.
//!
//! Bee does not maintain its own chess clock: every `go` carries the
//! authoritative current time for both sides (per the UCI protocol),
//! and [`ClockTimeControl`] captures just the side-relative slice of
//! that a single move decision needs -- "my time left, my increment,
//! how many moves (if known) I still have to make it through."
//! [`allocate_time`] turns that into a [`TimeBudget`]: a *soft* target
//! (iterative deepening should not start another depth once this has
//! passed) and a *hard* limit (search must abort mid-depth rather than
//! cross this, no matter what).
//!
//! Everything here is a pure function of its inputs -- no clocks, no
//! sleeping. Ratios are computed in double precision, see [`super::double`].

use super::double;
use crate::text;
use crate::time::{Duration, MAX_NANOS};
use vstd::prelude::*;
use vstd::string::StringExecFns;

verus! {

/// The side-relative clock state a single `go` command carries, once
/// UCI's `wtime`/`btime`/`winc`/`binc`/`movestogo` fields have already
/// been resolved to "my side's" numbers.
#[derive(Debug, Clone, Copy, PartialEq, Eq, Structural)]
pub struct ClockTimeControl {
    /// Time left on the mover's own clock right now, per the most
    /// recent `go`'s `wtime`/`btime`.
    pub time_left: Duration,
    /// Increment the mover's clock gains after making this move, per
    /// `winc`/`binc`. Zero if the time control has no increment.
    pub increment: Duration,
    /// Moves remaining until the next time control, per `movestogo`,
    /// if the GUI supplied it. `None` means an unknown/effectively
    /// unbounded horizon, in which case [`allocate_time`] falls
    /// back to `TimeManagerConfig::estimated_moves_remaining`.
    pub moves_to_go: Option<u32>,
}

/// Tunable constants for [`allocate_time`], kept separate from
/// [`ClockTimeControl`] since these describe *policy* (how cautious to
/// be) rather than anything the GUI told us about the actual clock.
#[derive(Debug, Clone, Copy, PartialEq, Eq, Structural)]
pub struct TimeManagerConfig {
    /// Fixed slice of every move's time budget reserved for protocol/
    /// process/network overhead -- the time between "search decides on
    /// a move" and "the GUI/server actually sees `bestmove`".
    pub move_overhead: Duration,
    /// Always-untouchable slice of `time_left` itself, on top of
    /// `move_overhead`, so a string of moves that each slightly
    /// underestimate their own overhead can never collectively run the
    /// clock to zero.
    pub emergency_reserve: Duration,
    /// How many moves to assume remain in the game when `movestogo`
    /// isn't given.
    pub estimated_moves_remaining: u32,
    /// The hard limit is this many times the soft target, clamped so
    /// it can never eat into `emergency_reserve`. It is the soft target
    /// itself if this is zero.
    pub hard_limit_multiplier: u32,
}

impl TimeManagerConfig {
    /// The configuration that is used unless told otherwise.
    pub open spec fn standard() -> TimeManagerConfig {
        TimeManagerConfig {
            move_overhead: Duration::of(DEFAULT_MOVE_OVERHEAD_MS as nat * 1_000_000),
            emergency_reserve: Duration::of(50_000_000),
            estimated_moves_remaining: 30,
            hard_limit_multiplier: 3,
        }
    }
}

impl Default for TimeManagerConfig {
    fn default() -> (config: TimeManagerConfig)
        ensures
            config == TimeManagerConfig::standard(),
            config.move_overhead.ns() == DEFAULT_MOVE_OVERHEAD_MS * 1_000_000,
            config.emergency_reserve.ns() == 50_000_000,
            config.estimated_moves_remaining == 30,
            config.hard_limit_multiplier == 3,
    {
        TimeManagerConfig {
            move_overhead: Duration::from_millis(DEFAULT_MOVE_OVERHEAD_MS),
            emergency_reserve: Duration::from_millis(50),
            estimated_moves_remaining: 30,
            hard_limit_multiplier: 3,
        }
    }
}

/// How much longer the next depth is expected to take than the last one, as a
/// multiple of 2^-52: as much longer as that took than the one before it, but
/// at least one and a half times and at most four times as long, and twice as
/// long if nothing is known.
pub open spec fn growth(last: nat, previous: Option<u64>) -> nat {
    match previous {
        Some(before) if before > 0 => {
            let late = double::rounded(last);
            let early = double::rounded(before as nat);
            if 2 * late <= 3 * early {
                (double::ONE + double::HALF) as nat
            } else if late >= 4 * early {
                (4 * double::ONE) as nat
            } else {
                double::small_quotient(late, early)
            }
        },
        _ => (2 * double::ONE) as nat,
    }
}

/// How long the next depth is expected to take, in milliseconds: the last one
/// times the growth, to the nearest integer.
pub open spec fn projected_cost(last: nat, previous: Option<u64>) -> nat {
    double::to_integer(double::rounded(double::rounded(last) * growth(last, previous)))
}

/// How much headroom a prediction requires beyond the estimated cost itself
/// before allowing a new depth to start: the double nearest to 1.15, as a
/// multiple of 2^-52. Deliberately conservative, since the estimate is a rough
/// one.
pub const PREDICTION_SAFETY_MARGIN: u128 = 5_179_139_571_476_070;

/// Whether an estimated cost, with the safety margin, and the time already
/// spent together fit into the hard limit, all in milliseconds.
pub open spec fn affordable(elapsed: nat, estimate: nat, hard: nat) -> bool {
    let padded = double::rounded(double::rounded(estimate) * PREDICTION_SAFETY_MARGIN as nat);
    double::rounded(double::rounded(elapsed) * double::ONE as nat + padded) <= double::rounded(hard)
        * double::ONE
}

/// A number as 64 bits hold it: the largest one stands for anything larger.
pub open spec fn at_most_u64(n: nat) -> nat {
    if n > u64::MAX {
        u64::MAX as nat
    } else {
        n
    }
}

/// A 128-bit number as 64 bits hold it.
fn saturated_u64(n: u128) -> (result: u64)
    ensures
        result == at_most_u64(n as nat),
{
    if n > u64::MAX as u128 {
        u64::MAX
    } else {
        n as u64
    }
}

/// Estimates how long the *next* depth will take, in milliseconds,
/// from `last_depth_ms` (the most recently completed depth's own
/// wall-clock time) and `previous_depth_ms` (the depth before that,
/// `None` if only one depth has completed so far this search).
///
/// The growth factor between the last two completed depths (clamped)
/// is projected forward one more ply; a factor of two stands in for that
/// ratio when there's no second data point yet.
#[must_use]
pub fn estimate_next_depth_cost(last_depth_ms: u64, previous_depth_ms: Option<u64>) -> (cost: u64)
    ensures
        cost == at_most_u64(projected_cost(last_depth_ms as nat, previous_depth_ms)),
{
    let late: u128 = double::round(last_depth_ms as u128);
    let factor: u128 = match previous_depth_ms {
        Some(previous) if previous > 0 => {
            let early: u128 = double::round(previous as u128);
            proof {
                lemma_rounded_positive(previous as nat);
            }
            clamped_quotient(late, early)
        },
        _ => 2 * double::ONE,
    };
    assert(late * factor <= 0x2_0000_0000_0000_0000 * (4 * double::ONE)) by (nonlinear_arith)
        requires
            late <= 0x2_0000_0000_0000_0000,
            factor <= 4 * double::ONE,
    ;
    let product: u128 = double::round(late * factor);
    saturated_u64((product + double::HALF) / double::ONE)
}

/// A number that is not zero does not round to zero.
proof fn lemma_rounded_positive(n: nat)
    requires
        n > 0,
    ensures
        double::rounded(n) > 0,
{
    let unit = double::unit_of(n);
    double::lemma_unit(n);
    assert(n / unit >= 1) by (nonlinear_arith)
        requires
            n >= unit,
            unit >= 1,
    ;
    assert(double::nearest(n, unit) * unit > 0) by (nonlinear_arith)
        requires
            double::nearest(n, unit) >= 1,
            unit >= 1,
    ;
}

/// The quotient of two numbers, but at least one and a half and at most four.
fn clamped_quotient(late: u128, early: u128) -> (factor: u128)
    requires
        late <= 0x2_0000_0000_0000_0000,
        0 < early <= 0x2_0000_0000_0000_0000,
    ensures
        factor == (if 2 * late <= 3 * early {
            (double::ONE + double::HALF) as nat
        } else if late >= 4 * early {
            (4 * double::ONE) as nat
        } else {
            double::small_quotient(late as nat, early as nat)
        }),
        factor <= 4 * double::ONE,
{
    if 2 * late <= 3 * early {
        return double::ONE + double::HALF;
    }
    if late >= 4 * early {
        return 4 * double::ONE;
    }
    proof {
        lemma_quotient_bound(late as nat, early as nat);
    }
    if late < 2 * early {
        double::nearest_of(late * double::ONE, early)
    } else {
        2 * double::nearest_of(late * double::HALF, early)
    }
}

proof fn lemma_quotient_bound(num: nat, den: nat)
    requires
        0 < den,
        num < 4 * den,
    ensures
        num < 2 * den ==> double::nearest(num * double::ONE as nat, den) <= 2 * double::ONE,
        double::nearest(num * double::HALF as nat, den) <= 2 * double::ONE,
{
    double::lemma_nearest_at_most(num * double::HALF as nat, den, (2 * double::ONE) as nat);
    if num < 2 * den {
        double::lemma_nearest_at_most(num * double::ONE as nat, den, (2 * double::ONE) as nat);
    }
}

/// Whether a depth estimated to cost `estimated_next_depth_ms` should
/// be started at all, given `elapsed_ms` already spent this search and
/// `hard_ms` the absolute ceiling: fifteen percent more than the estimate
/// still have to fit -- see `PREDICTION_SAFETY_MARGIN`.
#[must_use]
pub fn next_depth_is_affordable(elapsed_ms: u64, estimated_next_depth_ms: u64, hard_ms: u64) -> (result:
    bool)
    ensures
        result == affordable(elapsed_ms as nat, estimated_next_depth_ms as nat, hard_ms as nat),
{
    let estimate: u128 = double::round(estimated_next_depth_ms as u128);
    let padded: u128 = double::round(estimate * PREDICTION_SAFETY_MARGIN);
    let spent: u128 = double::round(elapsed_ms as u128) * double::ONE;
    double::round(spent + padded) <= double::round(hard_ms as u128) * double::ONE
}

/// A quotient above one and a half and below four is one when rounded, too.
proof fn lemma_small_quotient(late: nat, early: nat)
    requires
        0 < early,
        3 * early < 2 * late,
        late < 4 * early,
    ensures
        3 * double::HALF <= double::small_quotient(late, early) <= 8 * double::HALF,
{
    lemma_quotient_bound(late, early);
    if late < 2 * early {
        double::lemma_nearest_at_least(
            late * double::ONE as nat,
            early,
            (3 * double::HALF) as nat,
        );
    } else {
        double::lemma_nearest_at_least(
            late * double::HALF as nat,
            early,
            (2 * double::HALF) as nat,
        );
    }
}

/// A growth is at least one and a half and at most four.
proof fn lemma_growth_bounds(last: nat, previous: Option<u64>)
    ensures
        3 * double::HALF <= growth(last, previous) <= 8 * double::HALF,
{
    if let Some(before) = previous {
        let late = double::rounded(last);
        let early = double::rounded(before as nat);
        if before > 0 && 2 * late > 3 * early && late < 4 * early {
            lemma_rounded_positive(before as nat);
            lemma_small_quotient(late, early);
        }
    }
}

/// Rounding to an integer respects halves.
proof fn lemma_to_integer(n: nat, low: nat, high: nat)
    requires
        low * double::HALF <= n <= high * double::HALF,
        high % 2 == 0,
    ensures
        low <= 2 * double::to_integer(n) <= high,
{
}

/// However two depths compare, the next one is expected to take at least one
/// and a half times and at most four times as long as the last one.
pub proof fn growth_is_clamped(last: nat, previous: Option<u64>)
    requires
        8 * last < double::EXACT,
    ensures
        3 * last <= 2 * projected_cost(last, previous) <= 8 * last,
{
    let factor = growth(last, previous);
    let half = double::HALF as nat;
    double::lemma_rounded_exact(last);
    lemma_growth_bounds(last, previous);
    assert((3 * last) * half <= last * factor <= (8 * last) * half) by (nonlinear_arith)
        requires
            3 * half <= factor <= 8 * half,
    ;
    double::lemma_rounded_at_least(last * factor, 3 * last);
    double::lemma_rounded_at_most(last * factor, 8 * last);
    lemma_to_integer(double::rounded(last * factor), 3 * last, 8 * last);
}

/// As long as all times are below 2^40 milliseconds, some thirty years, the
/// safety margin is one of exactly fifteen percent.
pub proof fn the_safety_margin_is_fifteen_percent(elapsed: nat, estimate: nat, hard: nat)
    requires
        elapsed < 0x100_0000_0000,
        estimate < 0x100_0000_0000,
        hard < 0x100_0000_0000,
    ensures
        affordable(elapsed, estimate, hard) <==> 100 * elapsed + 115 * estimate <= 100 * hard,
{
    let exact = estimate * PREDICTION_SAFETY_MARGIN as nat;
    let padded = double::rounded(exact);
    let sum = elapsed * double::ONE as nat + padded;
    double::lemma_rounded_exact(elapsed);
    double::lemma_rounded_exact(estimate);
    double::lemma_rounded_exact(hard);
    double::lemma_rounding_error(exact);
    double::lemma_rounding_error(sum);
    if 100 * elapsed + 115 * estimate == 100 * hard {
        let whole = (hard - elapsed) as nat;
        double::lemma_rounded_at_most(exact, 2 * whole);
        double::lemma_rounded_at_most(sum, 2 * hard);
    }
}

/// Nodes per second, from a node count and a time in milliseconds.
pub open spec fn node_rate(nodes: nat, elapsed_ms: nat) -> nat {
    if elapsed_ms == 0 {
        0
    } else {
        (nodes * 1000 / elapsed_ms) % 0x1_0000_0000_0000_0000
    }
}

/// Nodes visited per second, from a total node count and the wall-
/// clock time it took -- the single number both the live `nps` UCI
/// field and `TimeManagementTelemetry::avg_nps` are built from. Returns
/// `0` for a time of less than a millisecond rather than dividing by zero.
#[must_use]
pub fn nodes_per_second(nodes: u64, elapsed: Duration) -> (rate: u64)
    ensures
        rate == node_rate(nodes as nat, elapsed.ms()),
{
    let elapsed_ms: u128 = elapsed.as_millis();
    if elapsed_ms == 0 {
        return 0;
    }
    ((nodes as u128 * 1000 / elapsed_ms) % 0x1_0000_0000_0000_0000) as u64
}

/// Default `move_overhead`, in milliseconds -- shared with the `uci`
/// module's advertised `MoveOverhead` UCI option default, so the two
/// can never drift apart.
pub const DEFAULT_MOVE_OVERHEAD_MS: u64 = 30;

/// The two deadlines iterative deepening actually needs. `soft <= hard`
/// holds of every budget that is allocated.
///
/// * `soft`: once this has elapsed, don't start another iteration --
///   play whatever the last *completed* depth found.
/// * `hard`: the absolute ceiling. If an iteration is still running
///   when this is reached, it must be aborted (its result discarded)
///   rather than allowed to run any longer.
#[derive(Debug, Clone, Copy, PartialEq, Eq, Structural)]
pub struct TimeBudget {
    pub soft: Duration,
    pub hard: Duration,
}

/// Version of the `bee-tm` telemetry line's field set -- bump this
/// whenever a field is removed or changes meaning (adding a new field
/// is not a breaking change: consumers are required to ignore unknown
/// keys).
pub const BEE_TM_VERSION: u32 = 1;

/// Per-move time-management telemetry: everything about *how* a clock-
/// bounded search actually spent its budget that only the engine
/// itself can know.
///
/// Rendered as a single `info string bee-tm ...` line (see
/// `to_bee_tm_line`) -- a machine-readable record. Consumers must treat
/// this as append-only: recognize the `bee-tm` prefix, split on whitespace
/// then each token once on `=`, and silently ignore any key they don't
/// recognize.
#[derive(Debug, Clone, Copy, PartialEq, Eq, Structural)]
pub struct TimeManagementTelemetry {
    /// This move's allocated `TimeBudget`, unpacked.
    pub soft_ms: u64,
    pub hard_ms: u64,
    /// The depth iterative deepening actually completed and reported
    /// as its `SearchResult`.
    pub completed_depth: u32,
    /// Wall-clock time spent on the one iteration (if any) that was
    /// started but never completed. Zero if every started iteration
    /// completed.
    pub aborted_ms: u64,
    /// How many times the best move at the root changed between one
    /// completed depth and the next.
    pub best_move_changes: u32,
    /// Signed centipawn difference between the last two completed
    /// depths' scores (`last - previous`) -- `None` if fewer than two
    /// depths completed.
    pub score_delta_cp: Option<i32>,
    /// Overall nodes-per-second rate for the whole search: total nodes
    /// visited across every *completed* depth divided by wall-clock time
    /// since the search began -- see `nodes_per_second`.
    pub avg_nps: u64,
}

impl Default for TimeManagementTelemetry {
    fn default() -> (telemetry: TimeManagementTelemetry)
        ensures
            telemetry == (TimeManagementTelemetry {
                soft_ms: 0,
                hard_ms: 0,
                completed_depth: 0,
                aborted_ms: 0,
                best_move_changes: 0,
                score_delta_cp: None,
                avg_nps: 0,
            }),
    {
        TimeManagementTelemetry {
            soft_ms: 0,
            hard_ms: 0,
            completed_depth: 0,
            aborted_ms: 0,
            best_move_changes: 0,
            score_delta_cp: None,
            avg_nps: 0,
        }
    }
}

impl TimeManagementTelemetry {
    /// The record as a line of `key=value` tokens.
    pub open spec fn line(self) -> Seq<char> {
        let fields = "v="@ + text::decimal(BEE_TM_VERSION as nat) + " soft_ms="@ + text::decimal(
            self.soft_ms as nat,
        ) + " hard_ms="@ + text::decimal(self.hard_ms as nat) + " completed_depth="@
            + text::decimal(self.completed_depth as nat) + " aborted_ms="@ + text::decimal(
            self.aborted_ms as nat,
        ) + " best_move_changes="@ + text::decimal(self.best_move_changes as nat) + " avg_nps="@
            + text::decimal(self.avg_nps as nat);
        match self.score_delta_cp {
            Some(delta) => fields + " score_delta_cp="@ + text::decimal_int(delta as int),
            None => fields,
        }
    }

    /// Renders this record as the payload of an `info string bee-tm
    /// ...` line (the `info string bee-tm ` prefix itself is the
    /// caller's job).
    #[must_use]
    pub fn to_bee_tm_line(self) -> (line: String)
        ensures
            line@ == self.line(),
    {
        let mut line = String::new();
        line.append("v=");
        text::push_u64(&mut line, BEE_TM_VERSION as u64);
        line.append(" soft_ms=");
        text::push_u64(&mut line, self.soft_ms);
        line.append(" hard_ms=");
        text::push_u64(&mut line, self.hard_ms);
        line.append(" completed_depth=");
        text::push_u64(&mut line, self.completed_depth as u64);
        line.append(" aborted_ms=");
        text::push_u64(&mut line, self.aborted_ms);
        line.append(" best_move_changes=");
        text::push_u64(&mut line, self.best_move_changes as u64);
        line.append(" avg_nps=");
        text::push_u64(&mut line, self.avg_nps);
        if let Some(delta) = self.score_delta_cp {
            line.append(" score_delta_cp=");
            text::push_i32(&mut line, delta);
        }
        assert(line@ =~= self.line());
        line
    }
}

/// A span of time as it is kept: the longest one stands for anything longer.
pub open spec fn kept_span(ns: int) -> int {
    if ns > MAX_NANOS {
        MAX_NANOS as int
    } else {
        ns
    }
}

/// The time a move may use at all: what is left beyond the overhead and the
/// reserve.
pub open spec fn usable_ns(control: ClockTimeControl, config: TimeManagerConfig) -> int {
    let protected = kept_span(config.move_overhead.ns() as int + config.emergency_reserve.ns());
    if control.time_left.ns() < protected {
        0
    } else {
        control.time_left.ns() - protected
    }
}

/// How many moves the usable time is shared among: those up to the next time
/// control if that is known, an estimate otherwise, and one at least.
pub open spec fn moves_sharing(control: ClockTimeControl, config: TimeManagerConfig) -> int {
    match control.moves_to_go {
        Some(n) if n > 0 => n as int,
        _ => if config.estimated_moves_remaining > 0 {
            config.estimated_moves_remaining as int
        } else {
            1
        },
    }
}

/// The soft target: an equal share of the usable time and half the increment,
/// and no more than the usable time.
pub open spec fn soft_ns(control: ClockTimeControl, config: TimeManagerConfig) -> int {
    let usable = usable_ns(control, config);
    let share = kept_span(
        usable / moves_sharing(control, config) + control.increment.ns() as int / 2,
    );
    if share <= usable {
        share
    } else {
        usable
    }
}

/// How many times the soft target the hard limit may be: once at least.
pub open spec fn stretch(config: TimeManagerConfig) -> int {
    if config.hard_limit_multiplier > 0 {
        config.hard_limit_multiplier as int
    } else {
        1
    }
}

/// The hard limit: so many times the soft target, and no more than the usable
/// time.
pub open spec fn hard_ns(control: ClockTimeControl, config: TimeManagerConfig) -> int {
    let usable = usable_ns(control, config);
    let stretched = kept_span(soft_ns(control, config) * stretch(config));
    if stretched <= usable {
        stretched
    } else {
        usable
    }
}

/// Computes a [`TimeBudget`] for one move from `control` and `config`.
///
/// Spends roughly `usable_time / moves_remaining`, plus a fraction of the
/// increment (since that time is replenished every move regardless of
/// how this one goes), as the soft target; allows up to
/// `hard_limit_multiplier` times that as the hard limit, clamped so it
/// never eats into `emergency_reserve` and never falls below the soft target.
#[must_use]
pub fn allocate_time(control: ClockTimeControl, config: &TimeManagerConfig) -> (budget: TimeBudget)
    ensures
        budget.soft.ns() == soft_ns(control, *config),
        budget.hard.ns() == hard_ns(control, *config),
{
    // Never plan to spend the reserve or the per-move overhead --
    // `usable` is the only time this function will ever allocate from.
    let protected = config.move_overhead.saturating_add(config.emergency_reserve);
    let usable = control.time_left.saturating_sub(protected);
    let estimate: u32 = if config.estimated_moves_remaining > 0 {
        config.estimated_moves_remaining
    } else {
        1
    };
    let moves_remaining: u32 = match control.moves_to_go {
        Some(n) => if n > 0 {
            n
        } else {
            estimate
        },
        None => estimate,
    };
    let base = usable.divided_by(moves_remaining);
    // Half the increment: the other half is slack for the *next*
    // move's own allocation, rather than this move greedily spending
    // all of it up front.
    let increment_bonus = control.increment.divided_by(2);
    let soft = base.saturating_add(increment_bonus).shorter(usable);
    let stretch: u32 = if config.hard_limit_multiplier > 0 {
        config.hard_limit_multiplier
    } else {
        1
    };
    let hard = soft.saturating_mul(stretch).shorter(usable);
    TimeBudget { soft, hard }
}

/// The soft target never exceeds the hard limit, and the hard limit never
/// exceeds the usable time, so that neither overhead nor reserve is ever
/// planned for.
pub proof fn soft_is_within_hard_is_within_usable(
    control: ClockTimeControl,
    config: TimeManagerConfig,
)
    requires
        control.time_left.bounded(),
    ensures
        0 <= soft_ns(control, config) <= hard_ns(control, config) <= usable_ns(control, config),
{
    let usable = usable_ns(control, config);
    let soft = soft_ns(control, config);
    let m = stretch(config);
    assert(usable / moves_sharing(control, config) >= 0) by {
        vstd::arithmetic::div_mod::lemma_div_pos_is_pos(usable, moves_sharing(control, config));
    }
    assert(soft * m >= soft) by (nonlinear_arith)
        requires
            soft >= 0,
            m >= 1,
    ;
}

/// With no more on the clock than the overhead and the reserve, nothing is
/// allocated at all.
pub proof fn no_usable_time_means_no_budget(control: ClockTimeControl, config: TimeManagerConfig)
    requires
        control.time_left.ns() <= config.move_overhead.ns() + config.emergency_reserve.ns(),
        control.time_left.bounded(),
    ensures
        soft_ns(control, config) == 0,
        hard_ns(control, config) == 0,
{
    vstd::arithmetic::div_mod::lemma_div_basics(moves_sharing(control, config));
    assert(soft_ns(control, config) * stretch(config) == 0) by (nonlinear_arith)
        requires
            soft_ns(control, config) == 0,
    ;
}

/// No moves to go is the same as not knowing how many.
pub proof fn no_moves_to_go_is_unknown(control: ClockTimeControl, config: TimeManagerConfig)
    ensures
        ({
            let zero = ClockTimeControl { moves_to_go: Some(0), ..control };
            let unknown = ClockTimeControl { moves_to_go: None, ..control };
            soft_ns(zero, config) == soft_ns(unknown, config) && hard_ns(zero, config) == hard_ns(
                unknown,
                config,
            )
        }),
{
}

/// A larger increment never makes the soft target smaller.
pub proof fn more_increment_never_shrinks_the_soft_target(
    control: ClockTimeControl,
    longer: Duration,
    config: TimeManagerConfig,
)
    requires
        control.increment.ns() <= longer.ns(),
    ensures
        soft_ns(control, config) <= soft_ns(
            (ClockTimeControl { increment: longer, ..control }),
            config,
        ),
{
}

/// More time on the clock never makes the soft target smaller.
pub proof fn more_time_never_shrinks_the_soft_target(
    control: ClockTimeControl,
    longer: Duration,
    config: TimeManagerConfig,
)
    requires
        control.time_left.ns() <= longer.ns(),
    ensures
        soft_ns(control, config) <= soft_ns(
            (ClockTimeControl { time_left: longer, ..control }),
            config,
        ),
{
    let more = ClockTimeControl { time_left: longer, ..control };
    vstd::arithmetic::div_mod::lemma_div_is_ordered(
        usable_ns(control, config),
        usable_ns(more, config),
        moves_sharing(control, config),
    );
}

} // verus!
