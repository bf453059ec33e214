use backend::time::{normalize_date, parse_offset_timestamp, parse_rfc3339, rfc3339_instant_seconds};

#[test]
fn test_normalize_offset_to_utc() {
    let out = normalize_date("2024-01-01 10:00:00 -0500");
    assert_eq!(out, "2024-01-01T15:00:00+00:00");
}

#[test]
fn test_normalize_positive_offset() {
    let out = normalize_date("2024-06-15 09:30:45 +0230");
    assert_eq!(out, "2024-06-15T07:00:45+00:00");
}

#[test]
fn test_normalize_day_rollover_forward() {
    let out = normalize_date("2024-01-01 23:30:00 -0500");
    assert_eq!(out, "2024-01-02T04:30:00+00:00");
}

#[test]
fn test_normalize_day_rollover_backward() {
    let out = normalize_date("2024-01-01 00:30:00 +0200");
    assert_eq!(out, "2023-12-31T22:30:00+00:00");
}

#[test]
fn test_normalize_year_rollover() {
    let out = normalize_date("2023-12-31 23:00:00 -0200");
    assert_eq!(out, "2024-01-01T01:00:00+00:00");
}

#[test]
fn test_normalize_leap_day() {
    let out = normalize_date("2024-02-28 23:00:00 -0500");
    assert_eq!(out, "2024-02-29T04:00:00+00:00");
    let out = normalize_date("2023-02-28 23:00:00 -0500");
    assert_eq!(out, "2023-03-01T04:00:00+00:00");
}

#[test]
fn test_normalize_passthrough() {
    assert_eq!(normalize_date("not a date"), "not a date");
    assert_eq!(
        normalize_date("2024-01-01T15:00:00+00:00"),
        "2024-01-01T15:00:00+00:00"
    );
    assert_eq!(normalize_date(""), "");
    assert_eq!(
        normalize_date("2024-13-01 10:00:00 -0500"),
        "2024-13-01 10:00:00 -0500"
    );
    assert_eq!(
        normalize_date("2023-02-29 10:00:00 -0500"),
        "2023-02-29 10:00:00 -0500"
    );
}

#[test]
fn test_normalize_is_idempotent() {
    let once = normalize_date("2024-01-01 10:00:00 -0500");
    let twice = normalize_date(&once);
    assert_eq!(once, twice);
}

#[test]
fn test_parse_offset_timestamp_fields() {
    let (dt, off) = parse_offset_timestamp("2024-01-01 10:00:00 -0500").unwrap();
    assert_eq!(dt.year, 2024);
    assert_eq!(dt.month, 1);
    assert_eq!(dt.day, 1);
    assert_eq!(dt.hour, 10);
    assert_eq!(off, -300);
    assert!(parse_offset_timestamp("2024-01-01 10:00:00 -5000").is_none());
}

#[test]
fn test_rfc3339_parse_and_duration() {
    let (dt, off) = parse_rfc3339("2024-01-01T22:00:00+00:00").unwrap();
    assert_eq!(dt.hour, 22);
    assert_eq!(off, 0);
    let (_, offz) = parse_rfc3339("2024-01-01T12:00:00Z").unwrap();
    assert_eq!(offz, 0);
    let s = rfc3339_instant_seconds("2024-01-01T22:00:00+00:00").unwrap();
    let e = rfc3339_instant_seconds("2024-01-01T23:30:00+00:00").unwrap();
    assert_eq!(e - s, 5400);
    let shifted = rfc3339_instant_seconds("2024-01-01T17:00:00-05:00").unwrap();
    assert_eq!(shifted, s);
}
