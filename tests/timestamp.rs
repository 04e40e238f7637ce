use magicbox::error::ApiError;
use magicbox::tools::{
    default_mode, has_explicit_offset, non_blank_input, parse_i8, parse_timezone, split_unix,
    unix_instant, TimestampMode, TimestampUnit,
};

#[test]
fn conversions_default_to_now() {
    assert_eq!(default_mode(), TimestampMode::Now);
}

#[test]
fn i8_parsing_follows_std() {
    for s in ["0", "7", "+7", "-7", "127", "-128", "0127", "", "+", "-", "128", "-129", "1a", " 1", "--1"] {
        assert_eq!(parse_i8(s), s.parse::<i8>().ok(), "input {:?}", s);
    }
}

#[test]
fn timezone_labels() {
    assert_eq!(parse_timezone(""), None);
    assert_eq!(parse_timezone("  "), None);
    assert_eq!(parse_timezone("Local"), None);
    assert_eq!(parse_timezone("UTC"), Some((0, 0)));
    assert_eq!(parse_timezone(" utc "), Some((0, 0)));
    assert_eq!(parse_timezone("+08:00"), Some((8, 0)));
    assert_eq!(parse_timezone("8"), Some((8, 0)));
    assert_eq!(parse_timezone("-05:30"), Some((-5, -30)));
    assert_eq!(parse_timezone("+05:45:99"), Some((5, 45)));
    assert_eq!(parse_timezone("+x"), None);
    assert_eq!(parse_timezone("+05:"), None);
    assert_eq!(parse_timezone("--3"), Some((-3, 0)));
}

#[test]
fn blank_input_is_missing() {
    assert_eq!(non_blank_input(Some("  42 ")).unwrap(), "42");
    for input in [None, Some(""), Some(" \t")] {
        match non_blank_input(input) {
            Err(ApiError::BadRequest(m)) => assert_eq!(m, "missing input"),
            _ => panic!("expected a bad request"),
        }
    }
}

#[test]
fn unix_timestamps_split_by_unit() {
    assert_eq!(split_unix(1_700_000_000, TimestampUnit::Seconds), (1_700_000_000, 0));
    assert_eq!(split_unix(1_700_000_000_123, TimestampUnit::Milliseconds), (1_700_000_000, 123_000_000));
    assert_eq!(split_unix(-1_500, TimestampUnit::Milliseconds), (-1, -500_000_000));
    assert_eq!(split_unix(i128::MIN, TimestampUnit::Milliseconds).1, -728_000_000);
    assert_eq!(unix_instant(Some(" 86400 "), TimestampUnit::Seconds).unwrap(), (86_400, 0));
    match unix_instant(Some("12x"), TimestampUnit::Seconds) {
        Err(ApiError::BadRequest(m)) => assert_eq!(m, "invalid unix timestamp"),
        _ => panic!("expected a bad request"),
    }
    match unix_instant(None, TimestampUnit::Seconds) {
        Err(ApiError::BadRequest(m)) => assert_eq!(m, "missing input"),
        _ => panic!("expected a bad request"),
    }
}

#[test]
fn explicit_offsets_are_detected() {
    assert!(has_explicit_offset("2024-01-02T03:04:05Z"));
    assert!(has_explicit_offset("2024-01-02T03:04:05+08:00"));
    assert!(has_explicit_offset("2024-01-02T03:04:05-05:00"));
    assert!(!has_explicit_offset("2024-01-02T03:04:05"));
    assert!(!has_explicit_offset("2024-01-02 03:04:05"));
    assert!(!has_explicit_offset("Z+"));
}
