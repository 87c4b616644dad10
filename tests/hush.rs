use vibetap::hush::{parse_duration, DurationError, HushDuration, HushState};

#[test]
fn test_parse_duration() {
    assert_eq!(parse_duration("30m").unwrap().as_secs(), 30 * 60);
    assert_eq!(parse_duration("1h").unwrap().as_secs(), 3600);
    assert_eq!(parse_duration("2h30m").unwrap().as_secs(), 2 * 3600 + 30 * 60);
    assert_eq!(parse_duration("1d").unwrap().as_secs(), 86400);
    assert_eq!(parse_duration("30s").unwrap().as_secs(), 30);
}

#[test]
fn bare_number_counts_minutes_and_case_is_ignored() {
    assert_eq!(parse_duration(" 45 ").unwrap().as_secs(), 45 * 60);
    assert_eq!(parse_duration("1H").unwrap().as_secs(), 3600);
}

#[test]
fn bad_durations_are_rejected() {
    assert_eq!(parse_duration("5x"), Err(DurationError::InvalidUnit('x')));
    assert_eq!(parse_duration("0m"), Err(DurationError::InvalidFormat));
    assert_eq!(parse_duration("soon"), Err(DurationError::InvalidFormat));
    assert_eq!(parse_duration("99999999999999999999s"), Err(DurationError::NumberTooLarge));
    assert_eq!(parse_duration("999999999999999999d"), Err(DurationError::TooLong));
    assert_eq!(
        DurationError::InvalidUnit('x').message(),
        "Invalid duration unit: x. Use s, m, h, or d."
    );
}

#[test]
fn hush_state_at_given_times() {
    let forever = HushState { hush_until: None };
    assert!(forever.is_hushed_at(100));
    assert_eq!(forever.remaining_at(100).as_deref(), Some("forever"));
    let cleared = HushState { hush_until: Some(0) };
    assert!(!cleared.is_hushed_at(100));
    assert_eq!(cleared.remaining_at(100), None);
    let later = HushState { hush_until: Some(100 + 2 * 3600 + 5 * 60 + 7) };
    assert!(later.is_hushed_at(100));
    assert_eq!(later.remaining_at(100).as_deref(), Some("2h 5m"));
    assert_eq!(later.remaining_at(later.hush_until.unwrap() - 42).as_deref(), Some("42s"));
    assert_eq!(later.remaining_at(later.hush_until.unwrap() - 600).as_deref(), Some("10m"));
    assert!(!later.is_hushed_at(later.hush_until.unwrap()));
    assert_eq!(later.remaining_at(later.hush_until.unwrap()), None);
    assert_eq!(HushState::until(10, HushDuration { secs: 5 }).hush_until, Some(15));
    assert_eq!(HushState::until(i64::MAX - 1, HushDuration { secs: 5 }).hush_until, Some(i64::MAX));
}
