use agenda::announcements::{is_error_status, parse_timestamp, use_cached_announcements};

#[test]
fn parse_matches_std() {
    for s in [
        "0",
        "123",
        "007",
        "+42",
        "-42",
        "9223372036854775807",
        "-9223372036854775808",
        "9223372036854775808",
        "-9223372036854775809",
        "18446744073709551616",
        "99999999999999999999999999",
        "",
        "-",
        "+",
        "12a",
        "a12",
        " 12",
        "1 2",
        "--5",
        "+-5",
        "12.5",
    ] {
        assert_eq!(parse_timestamp(s), s.parse::<i64>().ok(), "on {:?}", s);
    }
}

#[test]
fn parse_exact_values() {
    assert_eq!(parse_timestamp("1686780000"), Some(1686780000));
    assert_eq!(parse_timestamp("-1"), Some(-1));
    assert_eq!(parse_timestamp("9223372036854775807"), Some(i64::MAX));
    assert_eq!(parse_timestamp("-9223372036854775808"), Some(i64::MIN));
    assert_eq!(parse_timestamp("9223372036854775808"), None);
}

#[test]
fn cache_is_served_within_twelve_hours() {
    let now = 1_000_000_000;
    assert!(use_cached_announcements(now - 43199, now, 1));
    assert!(!use_cached_announcements(now - 43200, now, 1));
    assert!(!use_cached_announcements(now - 43199, now, 0));
    assert!(use_cached_announcements(now + 5, now, 3));
}

#[test]
fn error_statuses() {
    assert!(is_error_status(400));
    assert!(is_error_status(500));
    assert!(!is_error_status(200));
    assert!(!is_error_status(404));
    assert!(!is_error_status(502));
}
