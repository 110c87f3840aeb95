use bee_chess::search::time_manager::{estimate_next_depth_cost, next_depth_is_affordable};
use bee_chess::search::{
    allocate_time, nodes_per_second, ClockTimeControl, TimeManagementTelemetry, TimeManagerConfig,
};
use bee_chess::time::Duration;

fn control(time_left_ms: u64, increment_ms: u64, moves_to_go: Option<u32>) -> ClockTimeControl {
    ClockTimeControl {
        time_left: Duration::from_millis(time_left_ms),
        increment: Duration::from_millis(increment_ms),
        moves_to_go,
    }
}

#[test]
fn bee_tm_line_includes_the_version_and_every_field() {
    let telemetry = TimeManagementTelemetry {
        soft_ms: 220,
        hard_ms: 660,
        completed_depth: 7,
        aborted_ms: 201,
        best_move_changes: 3,
        score_delta_cp: Some(-42),
        avg_nps: 1_500_000,
    };

    assert_eq!(
        telemetry.to_bee_tm_line(),
        "v=1 soft_ms=220 hard_ms=660 completed_depth=7 aborted_ms=201 best_move_changes=3 avg_nps=1500000 score_delta_cp=-42"
    );
}

#[test]
fn bee_tm_line_omits_score_delta_when_fewer_than_two_depths_completed() {
    let telemetry = TimeManagementTelemetry {
        soft_ms: 220,
        hard_ms: 660,
        completed_depth: 1,
        aborted_ms: 0,
        best_move_changes: 0,
        score_delta_cp: None,
        avg_nps: 0,
    };

    let line = telemetry.to_bee_tm_line();
    assert!(!line.contains("score_delta_cp"), "got: {line}");
    // Every other field is still present -- a missing key is only
    // ever the *consumer's* signal to skip it, not a reason for
    // the emitter to omit anything it does have.
    assert!(line.contains("completed_depth=1"));
}

#[test]
fn bee_tm_line_has_no_whitespace_inside_any_value() {
    // Consumers split the whole line on whitespace first, then
    // each token once on '=' -- see the type's docs on the wire
    // format's stability rules. A value containing a space would
    // silently corrupt that parse.
    let telemetry = TimeManagementTelemetry {
        soft_ms: 220,
        hard_ms: 660,
        completed_depth: 7,
        aborted_ms: 0,
        best_move_changes: 1,
        score_delta_cp: Some(12),
        avg_nps: 850_000,
    };

    for token in telemetry.to_bee_tm_line().split(' ') {
        assert_eq!(token.matches('=').count(), 1, "malformed token: {token}");
    }
}

#[test]
fn soft_is_never_greater_than_hard() {
    for (time_left, increment, moves_to_go) in [
        (60_000, 0, None),
        (60_000, 2_000, None),
        (3_000, 0, None),
        (50, 0, None),
        (10_000, 100, Some(1)),
        (10_000, 100, Some(40)),
    ] {
        let budget = allocate_time(
            control(time_left, increment, moves_to_go),
            &TimeManagerConfig::default(),
        );
        assert!(
            budget.soft <= budget.hard,
            "soft ({:?}) must never exceed hard ({:?}) for time_left={time_left}ms increment={increment}ms movestogo={moves_to_go:?}",
            budget.soft,
            budget.hard,
        );
    }
}

#[test]
fn more_increment_gives_a_larger_soft_budget() {
    let config = TimeManagerConfig::default();
    let no_increment = allocate_time(control(60_000, 0, None), &config);
    let with_increment = allocate_time(control(60_000, 2_000, None), &config);

    assert!(with_increment.soft > no_increment.soft);
}

#[test]
fn low_time_left_gives_a_conservative_budget() {
    let config = TimeManagerConfig::default();
    let plenty = allocate_time(control(60_000, 0, None), &config);
    let low = allocate_time(control(3_000, 0, None), &config);

    assert!(low.soft < plenty.soft);
    assert!(low.hard < plenty.hard);
}

#[test]
fn near_zero_time_left_still_produces_a_tiny_but_valid_budget() {
    // 50ms remaining, all of it eaten by move_overhead +
    // emergency_reserve in the default config (30ms + 50ms) --
    // usable time bottoms out at zero, and the budget must reflect
    // that rather than underflowing or panicking.
    let config = TimeManagerConfig::default();
    let budget = allocate_time(control(50, 0, None), &config);

    assert_eq!(budget.soft, Duration::zero());
    assert_eq!(budget.hard, Duration::zero());
}

#[test]
fn movestogo_one_allows_spending_much_more_than_the_default_horizon() {
    let config = TimeManagerConfig::default();
    let default_horizon = allocate_time(control(60_000, 0, None), &config);
    let last_move_before_control = allocate_time(control(60_000, 0, Some(1)), &config);

    assert!(last_move_before_control.soft > default_horizon.soft);
}

#[test]
fn hard_limit_never_exceeds_usable_time() {
    // A large hard_limit_multiplier must still be clamped by
    // usable time -- the hard limit can never eat into the
    // move_overhead/emergency_reserve that's supposed to be
    // permanently protected.
    let config = TimeManagerConfig {
        hard_limit_multiplier: 100,
        ..TimeManagerConfig::default()
    };
    let budget = allocate_time(control(1_000, 0, None), &config);
    let protected = config.move_overhead.saturating_add(config.emergency_reserve);

    assert!(budget.hard <= Duration::from_millis(1_000).saturating_sub(protected));
}

#[test]
fn zero_moves_to_go_is_treated_like_unknown_rather_than_dividing_by_zero() {
    // A malformed/defensive `movestogo 0` must not panic or
    // allocate an unbounded budget -- fall back to the configured
    // estimate exactly as if movestogo had been omitted.
    let config = TimeManagerConfig::default();
    let unknown = allocate_time(control(60_000, 0, None), &config);
    let zero = allocate_time(control(60_000, 0, Some(0)), &config);

    assert_eq!(unknown, zero);
}

#[test]
fn estimate_next_depth_cost_uses_default_growth_with_only_one_data_point() {
    // No `previous_depth_ms` yet (only depth 1 has completed) --
    // falls back to `DEFAULT_GROWTH` (2.0).
    assert_eq!(estimate_next_depth_cost(100, None), 200);
}

#[test]
fn estimate_next_depth_cost_projects_the_observed_growth_ratio() {
    // Depth grew from 50ms to 100ms (2x) -- project the same 2x
    // ratio forward.
    assert_eq!(estimate_next_depth_cost(100, Some(50)), 200);
}

#[test]
fn estimate_next_depth_cost_clamps_an_extreme_growth_ratio() {
    // A 20x jump between two real depths must not be projected
    // forward as-is -- clamped to MAX_GROWTH (4.0).
    assert_eq!(estimate_next_depth_cost(2000, Some(100)), 8000);
}

#[test]
fn estimate_next_depth_cost_clamps_a_shrinking_ratio_to_the_minimum() {
    // Depth 5 taking *less* time than depth 4 (plausible with
    // move-ordering/TT effects) must not make the next depth look
    // free -- clamped to MIN_GROWTH (1.5), not treated as < 1.
    assert_eq!(estimate_next_depth_cost(50, Some(100)), 75);
}

#[test]
fn estimate_next_depth_cost_treats_a_zero_previous_depth_as_no_history() {
    // A previous depth reported as 0ms (plausible for a trivial
    // position/depth) can't produce a meaningful ratio -- falls
    // back to DEFAULT_GROWTH rather than dividing by zero.
    assert_eq!(estimate_next_depth_cost(100, Some(0)), 200);
}

#[test]
fn next_depth_is_affordable_when_the_padded_estimate_fits() {
    // 50ms elapsed, estimate 100ms, padded to 115ms (1.15x) --
    // fits comfortably in a 300ms hard budget.
    assert!(next_depth_is_affordable(50, 100, 300));
}

#[test]
fn next_depth_is_affordable_is_false_when_the_padded_estimate_does_not_fit() {
    // 200ms elapsed, estimate 100ms (padded to 115ms) -- 200 + 115
    // = 315ms, past a 300ms hard budget.
    assert!(!next_depth_is_affordable(200, 100, 300));
}

#[test]
fn nodes_per_second_divides_nodes_by_elapsed_seconds() {
    assert_eq!(nodes_per_second(2_000_000, Duration::from_secs(2)), 1_000_000);
}

#[test]
fn nodes_per_second_is_zero_for_zero_elapsed_time() {
    // A search finishing in under a millisecond has no
    // meaningfully measurable rate -- must not divide by zero.
    assert_eq!(nodes_per_second(1_000, Duration::zero()), 0);
}

#[test]
fn nodes_per_second_handles_sub_second_elapsed_time() {
    assert_eq!(nodes_per_second(500_000, Duration::from_millis(500)), 1_000_000);
}

#[test]
fn next_depth_is_affordable_accounts_for_the_safety_margin_at_the_boundary() {
    // Without the 1.15x safety margin, 200 + 100 = 300 would
    // exactly fit -- the margin must make this reject it.
    assert!(!next_depth_is_affordable(200, 100, 300));
}
