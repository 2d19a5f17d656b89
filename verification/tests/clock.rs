use benshi::clock::{Clock, SystemClock, TestClock, Timestamp};
use benshi::time::Duration;

#[test]
fn a_test_clock_advances_only_when_told() {
    let mut clock = TestClock::new();
    let first = clock.now();
    clock.advance(Duration::from_secs(20));
    let second = clock.now();

    assert_eq!(second.since(first), Duration::from_secs(20));
}

#[test]
fn twenty_seconds_of_pause_cost_no_wall_clock_time() {
    let started = std::time::Instant::now();
    let mut clock = TestClock::new();
    clock.advance(Duration::from_secs(20));
    assert!(started.elapsed() < std::time::Duration::from_millis(50));
}

#[test]
fn a_timestamp_round_trips_through_json_exactly() {
    let mut clock = TestClock::new();
    clock.advance(Duration::from_micros(1_234_567));
    let stamp = clock.now();

    let written = std::time::Duration::new(
        stamp.since_epoch().as_secs(),
        stamp.since_epoch().subsec_nanos(),
    );
    let text = serde_json::to_string(&written).expect("serialise");
    let read: std::time::Duration = serde_json::from_str(&text).expect("deserialise");
    let back = Timestamp::after_epoch(Duration::new(read.as_secs(), read.subsec_nanos()));

    assert_eq!(stamp, back);
    assert_eq!(text, r#"{"secs":1,"nanos":234567000}"#);
}

#[test]
fn a_moment_is_no_time_after_a_later_one() {
    let mut clock = TestClock::new();
    let first = clock.now();
    clock.advance(Duration::from_secs(20));
    let second = clock.now();

    assert_eq!(first.since(second), Duration::zero());
}

#[test]
fn a_system_clock_moves_on() {
    let clock = SystemClock::new();
    let first = clock.now();
    let started = std::time::Instant::now();
    while started.elapsed() < std::time::Duration::from_millis(5) {}
    let second = clock.now();

    assert!(second.since(first) >= Duration::from_millis(5));
}
