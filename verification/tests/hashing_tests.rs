use backend::hashing::record_uuid;

#[test]
fn test_record_uuid_stable_across_runs() {
    let a = record_uuid(
        "records",
        "heart_rate",
        "2024-01-01T15:00:00+00:00",
        "2024-01-01T15:01:00+00:00",
        "60",
    );
    let b = record_uuid(
        "records",
        "heart_rate",
        "2024-01-01T15:00:00+00:00",
        "2024-01-01T15:01:00+00:00",
        "60",
    );
    assert_eq!(a, b);
    assert_eq!(a.len(), 64);
    assert!(a.chars().all(|c| c.is_ascii_hexdigit() && !c.is_ascii_uppercase()));
}

#[test]
fn test_record_uuid_differs_by_value() {
    let a = record_uuid("records", "heart_rate", "s", "e", "60");
    let b = record_uuid("records", "heart_rate", "s", "e", "80");
    assert_ne!(a, b);
    assert_ne!(a, "60");
}

#[test]
fn test_record_uuid_known_digest() {
    // SHA-256 of the empty input, a published constant.
    let empty = record_uuid("", "", "", "", "");
    assert_eq!(
        empty,
        "e3b0c44298fc1c149afbf4c8996fb92427ae41e4649b934ca495991b7852b855"
    );
}
