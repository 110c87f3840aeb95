//! What a time budget promises, in terms of the clock it is made for.

use super::time_manager::{self, ClockTimeControl, TimeManagerConfig};
use crate::time::Duration;
use vstd::prelude::*;

verus! {

/// What is left on the clock once overhead and reserve are set aside; negative
/// if they are more than the clock shows.
pub open spec fn left_to_plan(control: ClockTimeControl, config: TimeManagerConfig) -> int {
    control.time_left.ns() - config.move_overhead.ns() - config.emergency_reserve.ns()
}

proof fn lemma_usable(control: ClockTimeControl, config: TimeManagerConfig)
    requires
        control.time_left.bounded(),
    ensures
        left_to_plan(control, config) >= 0 ==> time_manager::usable_ns(control, config)
            == left_to_plan(control, config),
        left_to_plan(control, config) < 0 ==> time_manager::usable_ns(control, config) == 0,
        0 <= time_manager::usable_ns(control, config) <= crate::time::MAX_NANOS,
{
}

proof fn lemma_share(usable: int, n: int)
    requires
        usable >= 0,
        n > 0,
    ensures
        0 <= usable / n <= usable,
        n * (usable / n) <= usable < n * (usable / n) + n,
{
    vstd::arithmetic::div_mod::lemma_fundamental_div_mod(usable, n);
    vstd::arithmetic::div_mod::lemma_mod_bound(usable, n);
    vstd::arithmetic::div_mod::lemma_div_pos_is_pos(usable, n);
    vstd::arithmetic::div_mod::lemma_div_is_ordered_by_denominator(usable, 1, n);
    vstd::arithmetic::div_mod::lemma_div_basics(usable);
}

/// Without an increment, `n` moves to go share what is left beyond overhead and
/// reserve: all of them together are never planned more than that, and less by
/// under a nanosecond each.
pub proof fn moves_to_go_share_the_clock(control: ClockTimeControl, config: TimeManagerConfig, n: u32)
    requires
        control.moves_to_go == Some(n),
        n > 0,
        control.increment.ns() == 0,
        control.time_left.bounded(),
        left_to_plan(control, config) >= 0,
    ensures
        n * time_manager::soft_ns(control, config) <= left_to_plan(control, config),
        left_to_plan(control, config) < n * time_manager::soft_ns(control, config) + n,
{
    lemma_usable(control, config);
    lemma_share(left_to_plan(control, config), n as int);
}

/// More moves to go never give a larger soft target.
pub proof fn more_moves_to_go_never_grow_the_soft_target(
    control: ClockTimeControl,
    config: TimeManagerConfig,
    fewer: u32,
    more: u32,
)
    requires
        0 < fewer <= more,
        control.time_left.bounded(),
    ensures
        time_manager::soft_ns((ClockTimeControl { moves_to_go: Some(more), ..control }), config)
            <= time_manager::soft_ns(
            (ClockTimeControl { moves_to_go: Some(fewer), ..control }),
            config,
        ),
{
    lemma_usable(control, config);
    vstd::arithmetic::div_mod::lemma_div_is_ordered_by_denominator(
        time_manager::usable_ns(control, config),
        fewer as int,
        more as int,
    );
}

/// An unknown number of moves to go is the number that the configuration
/// estimates, and one if it estimates none.
pub proof fn unknown_moves_to_go_are_estimated(control: ClockTimeControl, config: TimeManagerConfig)
    requires
        control.moves_to_go is None,
    ensures
        ({
            let estimate = ClockTimeControl {
                moves_to_go: Some(
                    if config.estimated_moves_remaining > 0 {
                        config.estimated_moves_remaining
                    } else {
                        1
                    },
                ),
                ..control
            };
            &&& time_manager::soft_ns(control, config) == time_manager::soft_ns(estimate, config)
            &&& time_manager::hard_ns(control, config) == time_manager::hard_ns(estimate, config)
        }),
{
}

/// An increment adds half of itself to the soft target, to the nanosecond,
/// unless that would be more than what is left to plan with.
pub proof fn half_the_increment_is_added(
    control: ClockTimeControl,
    config: TimeManagerConfig,
    none: Duration,
)
    requires
        none.ns() == 0,
        control.time_left.bounded(),
        control.increment.bounded(),
        left_to_plan(control, config) >= 0,
    ensures
        ({
            let without = time_manager::soft_ns(
                (ClockTimeControl { increment: none, ..control }),
                config,
            );
            let with = time_manager::soft_ns(control, config);
            &&& without <= with <= left_to_plan(control, config)
            &&& 2 * (with - without) <= control.increment.ns()
            &&& with == left_to_plan(control, config) || control.increment.ns() < 2 * (with
                - without) + 2
        }),
{
    lemma_usable(control, config);
    lemma_share(
        time_manager::usable_ns(control, config),
        time_manager::moves_sharing(control, config),
    );
}

/// The hard limit is so many times the soft target as configured, or all that
/// is left to plan with if that is less; a multiple of zero counts as one.
pub proof fn the_hard_limit_is_a_multiple_of_the_soft_target(
    control: ClockTimeControl,
    config: TimeManagerConfig,
)
    requires
        control.time_left.bounded(),
        left_to_plan(control, config) >= 0,
    ensures
        ({
            let soft = time_manager::soft_ns(control, config);
            let hard = time_manager::hard_ns(control, config);
            &&& config.hard_limit_multiplier <= 1 ==> hard == soft
            &&& config.hard_limit_multiplier * soft <= left_to_plan(control, config)
                && config.hard_limit_multiplier > 0 ==> hard == config.hard_limit_multiplier * soft
            &&& config.hard_limit_multiplier * soft > left_to_plan(control, config) ==> hard
                == left_to_plan(control, config)
        }),
{
    lemma_usable(control, config);
    time_manager::soft_is_within_hard_is_within_usable(control, config);
    let soft = time_manager::soft_ns(control, config);
    let m = config.hard_limit_multiplier as int;
    let stretch = time_manager::stretch(config);
    assert(m * soft == soft * m) by (nonlinear_arith);
    if m <= 1 {
        assert(soft * stretch == soft) by (nonlinear_arith)
            requires
                stretch == 1,
        ;
        assert(m * soft <= soft) by (nonlinear_arith)
            requires
                0 <= m <= 1,
                soft >= 0,
        ;
    }
}

/// Whatever is planned leaves overhead and reserve on the clock, and nothing is
/// planned if the clock shows no more than these.
pub proof fn overhead_and_reserve_stay_on_the_clock(
    control: ClockTimeControl,
    config: TimeManagerConfig,
)
    requires
        control.time_left.bounded(),
    ensures
        time_manager::hard_ns(control, config) > 0 ==> time_manager::hard_ns(control, config)
            + config.move_overhead.ns() + config.emergency_reserve.ns() <= control.time_left.ns(),
        left_to_plan(control, config) <= 0 ==> time_manager::hard_ns(control, config) == 0
            && time_manager::soft_ns(control, config) == 0,
{
    lemma_usable(control, config);
    time_manager::soft_is_within_hard_is_within_usable(control, config);
}

/// With anything to share and no fewer nanoseconds than moves, something is
/// planned.
pub proof fn usable_time_is_used(control: ClockTimeControl, config: TimeManagerConfig, n: u32)
    requires
        control.moves_to_go == Some(n),
        n > 0,
        control.time_left.bounded(),
        left_to_plan(control, config) >= n,
    ensures
        time_manager::soft_ns(control, config) > 0,
        time_manager::hard_ns(control, config) > 0,
{
    lemma_usable(control, config);
    let usable = left_to_plan(control, config);
    lemma_share(usable, n as int);
    assert(usable / (n as int) > 0) by (nonlinear_arith)
        requires
            usable >= n,
            n > 0,
            usable < n * (usable / (n as int)) + n,
    ;
    time_manager::soft_is_within_hard_is_within_usable(control, config);
}

/// A node rate is the number of nodes per thousand milliseconds, rounded down,
/// as long as it fits into 64 bits.
pub proof fn node_rates_are_nodes_per_second(nodes: nat, elapsed_ms: nat)
    requires
        elapsed_ms > 0,
        nodes * 1000 <= u64::MAX,
    ensures
        time_manager::node_rate(nodes, elapsed_ms) * elapsed_ms <= nodes * 1000,
        nodes * 1000 < (time_manager::node_rate(nodes, elapsed_ms) + 1) * elapsed_ms,
{
    let total = (nodes * 1000) as int;
    let ms = elapsed_ms as int;
    lemma_share(total, ms);
    let rate = time_manager::node_rate(nodes, elapsed_ms) as int;
    assert(rate == total / ms);
    assert(rate * ms == ms * rate && (rate + 1) * ms == ms * rate + ms) by (nonlinear_arith);
}

/// After one depth alone, the next one is expected to take twice as long.
pub proof fn the_first_prediction_doubles(last: nat, previous: Option<u64>)
    requires
        8 * last < super::double::EXACT,
        previous is None || previous == Some(0u64),
    ensures
        time_manager::projected_cost(last, previous) == 2 * last,
{
    super::double::lemma_rounded_exact(last);
    let product = last * (2 * super::double::ONE) as nat;
    assert(product == (4 * last) * super::double::HALF) by (nonlinear_arith)
        requires
            product == last * (2 * super::double::ONE),
            super::double::ONE == 2 * super::double::HALF,
    ;
    super::double::lemma_rounded_at_least(product, 4 * last);
    super::double::lemma_rounded_at_most(product, 4 * last);
}

/// The nearest integer to a quotient is no further from it than one half.
proof fn lemma_nearest(num: nat, den: nat)
    requires
        den > 0,
    ensures
        -(den as int) <= 2 * (super::double::nearest(num, den) * den - num) <= den,
{
    let q = num / den;
    let r = num % den;
    vstd::arithmetic::div_mod::lemma_fundamental_div_mod(num as int, den as int);
    assert((q + 1) * den == q * den + den && q * den == den * q) by (nonlinear_arith);
}

/// The growth of the last depth over the one before is what the next one is
/// expected to grow by: the prediction is to the last time as that is to the one
/// before it, to the millisecond, where the last depth took between one and a half
/// and four times as long; and one and a half or four times the last time beyond.
pub proof fn growth_goes_on(last: nat, before: u64)
    requires
        0 < before < 0x100_0000_0000,
        last < 0x100_0000_0000,
    ensures
        ({
            let next = time_manager::projected_cost(last, Some(before));
            &&& 2 * last <= 3 * before ==> next == (3 * last + 1) / 2
            &&& last >= 4 * before ==> next == 4 * last
            &&& 2 * last > 3 * before && last < 4 * before ==> -(before as int) <= next * before
                - last * last <= before
        }),
{
    let early = before as nat;
    super::double::lemma_rounded_exact(last);
    super::double::lemma_rounded_exact(early);
    let half = super::double::HALF as nat;
    let one = super::double::ONE as nat;
    let factor = time_manager::growth(last, Some(before));
    let product = last * factor;
    if 2 * last <= 3 * before {
        assert(product == (3 * last) * half) by (nonlinear_arith)
            requires
                product == last * factor,
                factor == 3 * half,
        ;
        super::double::lemma_rounded_at_least(product, 3 * last);
        super::double::lemma_rounded_at_most(product, 3 * last);
    } else if last >= 4 * before {
        assert(product == (8 * last) * half) by (nonlinear_arith)
            requires
                product == last * factor,
                factor == 8 * half,
        ;
        super::double::lemma_rounded_at_least(product, 8 * last);
        super::double::lemma_rounded_at_most(product, 8 * last);
    } else {
        assert(-(early as int) <= factor * early - last * one <= early) by {
            if last < 2 * early {
                lemma_nearest(last * one, early);
            } else {
                lemma_nearest(last * half, early);
                let n = super::double::nearest(last * half, early);
                assert((2 * n) * early == 2 * (n * early)) by (nonlinear_arith);
            }
        }
        let around = super::double::rounded(product);
        let unit = super::double::unit_of(product);
        super::double::lemma_rounding_error(product);
        let next = super::double::to_integer(around);
        assert(-(one as int) <= 2 * (next * one) - 2 * around <= one);
        lemma_ratio(last, early, factor, product, around, unit, next);
    }
}

/// How the errors of the steps add up.
proof fn lemma_ratio(
    last: nat,
    early: nat,
    factor: nat,
    product: nat,
    around: nat,
    unit: nat,
    next: nat,
)
    requires
        0 < early < 0x100_0000_0000,
        last < 0x100_0000_0000,
        last < 4 * early,
        product == last * factor,
        -(early as int) <= factor * early - last * super::double::ONE <= early,
        -(unit as int) <= 2 * (around - product) <= unit,
        unit == 1 || unit * super::double::ONE <= product,
        -(super::double::ONE as int) <= 2 * (next * super::double::ONE) - 2 * around
            <= super::double::ONE,
    ensures
        -(early as int) <= next * early - last * last <= early,
{
    let one = super::double::ONE as int;
    let a = factor * early - last * one;
    assert(factor <= 4 * one + 1) by (nonlinear_arith)
        requires
            factor * early - last * one <= early,
            last < 4 * early,
            early > 0,
            one > 0,
    ;
    assert(product <= last * (4 * one + 1)) by (nonlinear_arith)
        requires
            product == last * factor,
            factor <= 4 * one + 1,
    ;
    assert(unit <= 5 * last + 1) by (nonlinear_arith)
        requires
            unit == 1 || unit * one <= product,
            product <= last * (4 * one + 1),
            one > 1,
    ;
    // how far the whole is off, in units of 2^-52
    let off = next * one - product;
    assert(2 * off <= one + unit && 2 * off >= -one - unit);
    assert(product * early - last * last * one == last * a) by (nonlinear_arith)
        requires
            product == last * factor,
            a == factor * early - last * one,
    ;
    let gap = next * early - last * last;
    assert(gap * one == off * early + last * a) by (nonlinear_arith)
        requires
            gap == next * early - last * last,
            off == next * one - product,
            product * early - last * last * one == last * a,
    ;
    let most = one / 2 + 3 * last + 1;
    assert(2 * off <= 2 * most && 2 * off >= -2 * most);
    assert(off * early <= most * early && off * early >= -(most * early)) by (nonlinear_arith)
        requires
            -most <= off <= most,
            early > 0,
    ;
    assert(last * a <= last * early && last * a >= -(last * early)) by (nonlinear_arith)
        requires
            -(early as int) <= a <= early,
            last >= 0,
    ;
    assert(most * early + last * early <= one * early) by (nonlinear_arith)
        requires
            most + last <= one,
            early > 0,
    ;
    assert(gap * one <= early * one && gap * one >= -(early * one)) by (nonlinear_arith)
        requires
            gap * one == off * early + last * a,
            off * early <= most * early,
            off * early >= -(most * early),
            last * a <= last * early,
            last * a >= -(last * early),
            most * early + last * early <= one * early,
    ;
    assert(gap <= early && gap >= -(early as int)) by (nonlinear_arith)
        requires
            gap * one <= early * one,
            gap * one >= -(early * one),
            one > 0,
    ;
}

} // verus!
