use benshi::time::Duration;

#[test]
fn a_span_is_written_in_its_largest_unit() {
    for nanos in [
        0,
        1,
        999,
        1_000,
        1_500,
        999_999,
        1_000_000,
        500_000_000,
        123_456_789,
        1_000_000_000,
        1_500_000_000,
        61_000_000_001,
        3_600_000_000_000,
        u64::MAX,
    ] {
        let written = Duration::from_nanos(nanos).written();
        let expected = format!("{:?}", std::time::Duration::from_nanos(nanos));
        assert_eq!(written, expected, "{nanos}");
    }
}

#[test]
fn a_span_is_taken_apart_and_put_together() {
    let span = Duration::new(93, 456_789_123);
    assert_eq!(span.as_secs(), 93);
    assert_eq!(span.subsec_nanos(), 456_789_123);
    assert_eq!(span.as_nanos(), 93_456_789_123);
    assert_eq!(Duration::from_hours(2), Duration::from_mins(120));
    assert_eq!(Duration::from_millis(1_500), Duration::new(1, 500_000_000));
    assert_eq!(Duration::from_micros(7), Duration::from_nanos(7_000));
}

#[test]
fn a_span_stops_at_nought_and_at_its_longest() {
    let second = Duration::from_secs(1);
    let longest = Duration::new(u64::MAX, 999_999_999);
    assert_eq!(second.saturating_sub(Duration::from_secs(2)), Duration::zero());
    assert_eq!(longest.saturating_add(second), longest);
    assert!(Duration::zero().is_zero());
    assert!(longest.exceeds(second) && !second.exceeds(second));
    assert_eq!(second.min(longest), second);
    assert_eq!(second.max(longest), longest);
    assert_eq!(second.times(3).divided_by(2), Duration::from_millis(1_500));
}
