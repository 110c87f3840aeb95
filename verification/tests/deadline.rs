use bee_chess::search::deadline::{Deadline, StopSignal, CHECK_INTERVAL_NODES};
use bee_chess::time::Duration;

/// Keeps busy until so many milliseconds have passed.
fn wait_at_least_ms(ms: u64) {
    let start = std::time::Instant::now();
    while start.elapsed() < std::time::Duration::from_millis(ms) {}
}


#[test]
fn none_never_expires() {
    let deadline = Deadline::none();
    assert!(!deadline.is_expired(0));
    assert!(!deadline.is_expired(CHECK_INTERVAL_NODES));
    assert!(!deadline.is_expired(u64::MAX));
}

#[test]
fn does_not_check_the_clock_off_the_interval_boundary() {
    // An already-passed deadline still reports "not expired" for
    // node counts that aren't a check boundary, since is_expired
    // is defined to only actually look at the clock then.
    let deadline = Deadline::from_now(Duration::from_secs(0));
    assert!(!deadline.is_expired(1));
    assert!(!deadline.is_expired(CHECK_INTERVAL_NODES - 1));
}

#[test]
fn expires_at_a_check_boundary_once_the_budget_has_passed() {
    let deadline = Deadline::from_now(Duration::from_millis(0));
    wait_at_least_ms(5);
    assert!(deadline.is_expired(CHECK_INTERVAL_NODES));
}

#[test]
fn does_not_expire_before_the_budget_has_passed() {
    let deadline = Deadline::from_now(Duration::from_secs(60));
    assert!(!deadline.is_expired(CHECK_INTERVAL_NODES));
}

#[test]
fn a_fresh_stop_signal_is_not_requested() {
    let stop = StopSignal::new();
    assert!(!stop.is_stop_requested());
}

#[test]
fn request_stop_is_visible_on_every_clone() {
    let stop = StopSignal::new();
    let clone = stop.clone();

    clone.request_stop();

    assert!(
        stop.is_stop_requested(),
        "stop must be visible through the original handle too"
    );
}

#[test]
fn deadline_with_stop_signal_expires_immediately_on_request_even_with_no_time_limit() {
    // No `at` at all (like `go infinite`'s deadline would have),
    // but a `StopSignal` still makes this expire the moment it's
    // requested -- and, crucially, at any node count, not gated to
    // CHECK_INTERVAL_NODES the way the wall-clock check is.
    let stop = StopSignal::new();
    let deadline = Deadline::none().with_stop_signal(stop.clone());
    assert!(!deadline.is_expired(1), "not requested yet");

    stop.request_stop();

    assert!(
        deadline.is_expired(1),
        "an off-boundary node count must still see the stop"
    );
}

#[test]
fn deadline_with_stop_signal_still_honors_the_wall_clock_deadline() {
    // Attaching a StopSignal that's never requested must not
    // interfere with the ordinary wall-clock expiry path.
    let stop = StopSignal::new();
    let deadline = Deadline::from_now(Duration::from_millis(0)).with_stop_signal(stop);
    wait_at_least_ms(5);
    assert!(deadline.is_expired(CHECK_INTERVAL_NODES));
}
