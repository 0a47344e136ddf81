use desyncd::timestamp::{approx_timestamp, parse_i64_bytes, Timestamp};

#[test]
fn database_time_reads_as_rough_seconds() {
    assert_eq!(approx_timestamp("2026-04-01 12:34:56"), Timestamp::Seconds(1775046896));
    assert_eq!(approx_timestamp("1970-01-01 00:00:00"), Timestamp::Seconds(0));
}

#[test]
fn years_before_1970_round_the_leap_days_toward_zero() {
    assert_eq!(approx_timestamp("1960-01-01 00:00:00"), Timestamp::Seconds(-315532800));
}

#[test]
fn fields_that_are_not_numbers_take_their_defaults() {
    assert_eq!(approx_timestamp("x-y-z a:b:c"), Timestamp::Seconds(1767225600));
    assert_eq!(approx_timestamp("99999999999999999999-01-01 00:00:00"), Timestamp::Seconds(1767225600));
}

#[test]
fn month_out_of_range_adds_no_days() {
    assert_eq!(approx_timestamp("1970-13-01 00:00:00"), Timestamp::Seconds(0));
    assert_eq!(approx_timestamp("1970-00-02 00:00:00"), Timestamp::Seconds(86400));
}

#[test]
fn too_few_fields_are_unreadable() {
    assert_eq!(approx_timestamp("2026-04-01"), Timestamp::Unreadable);
    assert_eq!(approx_timestamp(""), Timestamp::Unreadable);
}

#[test]
fn huge_years_leave_the_range() {
    assert_eq!(approx_timestamp("999999999999999-01-01 00:00:00"), Timestamp::OutOfRange);
}

#[test]
fn integer_parsing_follows_from_str() {
    assert_eq!(parse_i64_bytes(b"+5"), Some(5));
    assert_eq!(parse_i64_bytes(b"-42"), Some(-42));
    assert_eq!(parse_i64_bytes(b"-9223372036854775808"), Some(i64::MIN));
    assert_eq!(parse_i64_bytes(b"9223372036854775807"), Some(i64::MAX));
    assert_eq!(parse_i64_bytes(b"9223372036854775808"), None);
    assert_eq!(parse_i64_bytes(b"-"), None);
    assert_eq!(parse_i64_bytes(b""), None);
    assert_eq!(parse_i64_bytes(b"12a"), None);
}
