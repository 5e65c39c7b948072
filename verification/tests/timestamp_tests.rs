//! Timestamp normalization on concrete texts: exact values, rejected
//! inputs, and order preservation.

use hsmslog::timestamp::parse_timestamp;

#[test]
fn epoch_and_neighbours() {
    assert_eq!(parse_timestamp("1970-01-01T00:00:00Z"), Some(0));
    assert_eq!(parse_timestamp("1970-01-02T00:00:00Z"), Some(86_400_000_000_000));
    assert_eq!(parse_timestamp("1969-12-31T23:59:59Z"), Some(-1_000_000_000));
}

#[test]
fn fractions_scale_to_nanoseconds() {
    assert_eq!(
        parse_timestamp("2025-11-03T09:12:14.123Z"),
        Some(1_762_161_134_123_000_000)
    );
    assert_eq!(
        parse_timestamp("2025-11-03T09:12:15.456Z"),
        Some(1_762_161_135_456_000_000)
    );
    assert_eq!(parse_timestamp("1970-01-01T00:00:00.000000001Z"), Some(1));
}

#[test]
fn offsets_shift_to_utc() {
    assert_eq!(parse_timestamp("1970-01-01T01:00:00+01:00"), Some(0));
    assert_eq!(parse_timestamp("1969-12-31T19:00:00-05:00"), Some(0));
}

#[test]
fn leap_years_are_honoured() {
    assert_eq!(
        parse_timestamp("2024-02-29T00:00:00Z"),
        Some(1_709_164_800_000_000_000)
    );
    assert_eq!(parse_timestamp("2023-02-29T00:00:00Z"), None);
}

#[test]
fn malformed_timestamps_are_rejected() {
    assert_eq!(parse_timestamp(""), None);
    assert_eq!(parse_timestamp("2025-13-01T00:00:00Z"), None);
    assert_eq!(parse_timestamp("2025-00-01T00:00:00Z"), None);
    assert_eq!(parse_timestamp("2025-01-32T00:00:00Z"), None);
    assert_eq!(parse_timestamp("2025-01-01T24:00:00Z"), None);
    assert_eq!(parse_timestamp("2025-01-01T00:00:60Z"), None);
    assert_eq!(parse_timestamp("2025-01-01T00:00:00"), None);
    assert_eq!(parse_timestamp("2025-01-01 00:00:00Z"), None);
    assert_eq!(parse_timestamp("2025-01-01T00:00:00.Z"), None);
    assert_eq!(parse_timestamp("2025-01-01T00:00:00.1234567890Z"), None);
    assert_eq!(parse_timestamp("2025-01-01T00:00:00+24:00"), None);
    assert_eq!(parse_timestamp("0001-01-01T00:00:00Z"), None);
}

#[test]
fn lexical_order_is_value_order() {
    // Equal length, same separator, same offset: text order must be
    // nanosecond order.
    let ordered = [
        "2024-12-31T23:59:59.999Z",
        "2025-01-01T00:00:00.000Z",
        "2025-01-01T00:00:00.001Z",
        "2025-01-31T23:59:59.000Z",
        "2025-02-01T00:00:00.000Z",
        "2025-11-03T09:12:14.123Z",
        "2025-11-03T09:12:14.124Z",
    ];
    let mut last: Option<i64> = None;
    for t in ordered.iter() {
        let v = parse_timestamp(t).unwrap();
        if let Some(p) = last {
            assert!(p < v, "{} should come before its successor", t);
        }
        last = Some(v);
    }
}

#[test]
fn lowercase_separator_is_accepted() {
    assert_eq!(
        parse_timestamp("1970-01-01t00:00:00z"),
        Some(0)
    );
}
