use rollping::probe::{saturating_nanoseconds, HostResult, ProbeOutcome, PAYLOAD_LEN};

#[test]
fn best_time_is_the_minimum_of_the_successes() {
    let outcomes = [
        ProbeOutcome::Succeeded(12),
        ProbeOutcome::Succeeded(9),
        ProbeOutcome::Succeeded(15),
    ];
    assert_eq!(HostResult::from_attempts(&outcomes).best_time_ns, Some(9));
}

#[test]
fn best_time_ignores_unsuccessful_attempts() {
    let outcomes = [
        ProbeOutcome::TimedOut,
        ProbeOutcome::Succeeded(30),
        ProbeOutcome::Failed,
    ];
    assert_eq!(HostResult::from_attempts(&outcomes).best_time_ns, Some(30));
}

#[test]
fn no_success_means_no_best_time() {
    let outcomes = [ProbeOutcome::TimedOut, ProbeOutcome::Failed, ProbeOutcome::TimedOut];
    let result = HostResult::from_attempts(&outcomes);
    assert_eq!(result.best_time_ns, None);
    assert!(!result.is_responsive());
    assert_eq!(HostResult::from_attempts(&[]).best_time_ns, None);
}

#[test]
fn best_time_does_not_depend_on_order() {
    let values = [
        ProbeOutcome::Succeeded(12),
        ProbeOutcome::Failed,
        ProbeOutcome::Succeeded(9),
        ProbeOutcome::TimedOut,
    ];
    let orders: [[usize; 4]; 6] = [
        [0, 1, 2, 3],
        [3, 2, 1, 0],
        [2, 0, 3, 1],
        [1, 3, 0, 2],
        [2, 3, 0, 1],
        [0, 2, 1, 3],
    ];
    for order in orders {
        let outcomes: Vec<ProbeOutcome> = order.iter().map(|i| values[*i]).collect();
        assert_eq!(HostResult::from_attempts(&outcomes).best_time_ns, Some(9));
    }
}

#[test]
fn recording_never_raises_the_best_time() {
    let mut result = HostResult::silent();
    assert_eq!(result.best_time_ns, None);
    result.record(ProbeOutcome::Failed);
    assert_eq!(result.best_time_ns, None);
    result.record(ProbeOutcome::Succeeded(20));
    assert_eq!(result.best_time_ns, Some(20));
    assert!(result.is_responsive());
    result.record(ProbeOutcome::Succeeded(25));
    assert_eq!(result.best_time_ns, Some(20));
    result.record(ProbeOutcome::TimedOut);
    assert_eq!(result.best_time_ns, Some(20));
    result.record(ProbeOutcome::Succeeded(20));
    assert_eq!(result.best_time_ns, Some(20));
    result.record(ProbeOutcome::Succeeded(0));
    assert_eq!(result.best_time_ns, Some(0));
}

#[test]
fn round_trip_of_an_outcome() {
    assert_eq!(ProbeOutcome::Succeeded(4).round_trip_ns(), Some(4));
    assert_eq!(ProbeOutcome::Failed.round_trip_ns(), None);
    assert_eq!(ProbeOutcome::TimedOut.round_trip_ns(), None);
}

#[test]
fn requests_carry_eight_bytes() {
    assert_eq!(PAYLOAD_LEN, 8);
}

#[test]
fn nanoseconds_of_a_span() {
    assert_eq!(saturating_nanoseconds(0, 0), 0);
    assert_eq!(saturating_nanoseconds(0, 9_000_000), 9_000_000);
    assert_eq!(saturating_nanoseconds(1, 0), 1_000_000_000);
    assert_eq!(saturating_nanoseconds(2, 500_000_000), 2_500_000_000);
    assert_eq!(saturating_nanoseconds(18_446_744_073, 709_551_615), u64::MAX);
    assert_eq!(saturating_nanoseconds(18_446_744_073, 709_551_614), u64::MAX - 1);
}

#[test]
fn nanoseconds_of_a_span_too_long_to_hold() {
    assert_eq!(saturating_nanoseconds(18_446_744_073, 709_551_616), u64::MAX);
    assert_eq!(saturating_nanoseconds(18_446_744_074, 0), u64::MAX);
    assert_eq!(saturating_nanoseconds(u64::MAX, 999_999_999), u64::MAX);
    assert_eq!(saturating_nanoseconds(u64::MAX, u32::MAX), u64::MAX);
}
