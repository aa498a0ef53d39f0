use ci_logs_to_otel::calendar::{days_from_unix_epoch, leap_year};
use ci_logs_to_otel::timestamp::{parse_timestamp, Timestamp};

fn at(secs: i64, nanos: u32) -> Option<Timestamp> {
    Some(Timestamp { secs, nanos })
}

#[test]
fn leap_years_follow_the_gregorian_rule() {
    assert!(leap_year(2024));
    assert!(!leap_year(2023));
    assert!(!leap_year(1900));
    assert!(leap_year(2000));
    assert!(leap_year(0));
}

#[test]
fn month_lengths() {
    let last_day = |year: u32, month: u32| {
        (28..=32u32).rev().find(|day| days_from_unix_epoch(year, month, *day).is_some())
    };
    assert_eq!(last_day(2024, 2), Some(29));
    assert_eq!(last_day(2023, 2), Some(28));
    assert_eq!(last_day(1900, 2), Some(28));
    assert_eq!(last_day(2000, 2), Some(29));
    for month in [4, 6, 9, 11] {
        assert_eq!(last_day(2023, month), Some(30));
    }
    for month in [1, 3, 5, 7, 8, 10, 12] {
        assert_eq!(last_day(2023, month), Some(31));
    }
}

#[test]
fn day_numbers_from_the_unix_epoch() {
    assert_eq!(days_from_unix_epoch(1970, 1, 1), Some(0));
    assert_eq!(days_from_unix_epoch(1970, 1, 2), Some(1));
    assert_eq!(days_from_unix_epoch(1969, 12, 31), Some(-1));
    assert_eq!(days_from_unix_epoch(2000, 3, 1), Some(11_017));
    assert_eq!(days_from_unix_epoch(2024, 1, 1), Some(19_723));
    assert_eq!(days_from_unix_epoch(0, 1, 1), Some(-719_528));
    assert_eq!(days_from_unix_epoch(9999, 12, 31), Some(2_932_896));
}

#[test]
fn days_that_do_not_exist() {
    assert_eq!(days_from_unix_epoch(10_000, 1, 1), None);
    assert_eq!(days_from_unix_epoch(2024, 0, 1), None);
    assert_eq!(days_from_unix_epoch(2024, 13, 1), None);
    assert_eq!(days_from_unix_epoch(2024, 1, 0), None);
    assert_eq!(days_from_unix_epoch(2023, 2, 29), None);
    assert_eq!(days_from_unix_epoch(2024, 2, 29), Some(19_782));
    assert_eq!(days_from_unix_epoch(2024, 4, 31), None);
}

#[test]
fn parses_a_utc_timestamp() {
    assert_eq!(parse_timestamp(b"2024-01-01T00:00:00Z"), at(1_704_067_200, 0));
    assert_eq!(parse_timestamp(b"2024-01-01T00:05:00Z"), at(1_704_067_500, 0));
    assert_eq!(parse_timestamp(b"1970-01-01T00:00:00Z"), at(0, 0));
    assert_eq!(parse_timestamp(b"1969-12-31T23:59:59Z"), at(-1, 0));
}

#[test]
fn parses_lower_case_marks() {
    assert_eq!(parse_timestamp(b"2024-01-01t00:00:00z"), at(1_704_067_200, 0));
}

#[test]
fn an_offset_is_taken_off_the_written_time() {
    assert_eq!(parse_timestamp(b"2024-01-01T01:00:00+01:00"), at(1_704_067_200, 0));
    assert_eq!(parse_timestamp(b"2023-12-31T18:30:00-05:30"), at(1_704_067_200, 0));
    assert_eq!(parse_timestamp(b"2024-01-01T00:00:00-00:00"), at(1_704_067_200, 0));
}

#[test]
fn a_fraction_counts_to_nine_digits() {
    assert_eq!(parse_timestamp(b"2024-01-01T00:00:00.5Z"), at(1_704_067_200, 500_000_000));
    assert_eq!(parse_timestamp(b"2024-01-01T00:00:00.000000001Z"), at(1_704_067_200, 1));
    assert_eq!(
        parse_timestamp(b"2024-01-01T00:00:00.1234567899999Z"),
        at(1_704_067_200, 123_456_789)
    );
    assert_eq!(
        parse_timestamp(b"2024-01-01T00:00:00.1234567+00:00"),
        at(1_704_067_200, 123_456_700)
    );
    assert_eq!(
        parse_timestamp(b"1969-12-31T23:59:59.25Z"),
        at(-1, 250_000_000)
    );
}

#[test]
fn the_widest_years() {
    assert_eq!(parse_timestamp(b"0000-01-01T00:00:00Z"), at(-62_167_219_200, 0));
    assert_eq!(parse_timestamp(b"9999-12-31T23:59:59Z"), at(253_402_300_799, 0));
    assert_eq!(parse_timestamp(b"0000-01-01T00:00:00+23:59"), at(-62_167_219_200 - 86_340, 0));
}

#[test]
fn rejects_what_is_no_timestamp() {
    assert_eq!(parse_timestamp(b""), None);
    assert_eq!(parse_timestamp(b"not-a-time"), None);
    assert_eq!(parse_timestamp(b"also-not-a-time"), None);
    assert_eq!(parse_timestamp(b"2024-01-01T00:00:00"), None);
    assert_eq!(parse_timestamp(b"2024-01-01 00:00:00Z"), None);
    assert_eq!(parse_timestamp(b"2024-01-01T00:00:00Zx"), None);
    assert_eq!(parse_timestamp(b"2024-01-01T00:00:00.Z"), None);
    assert_eq!(parse_timestamp(b"2024-01-01T00:00:00+0100"), None);
    assert_eq!(parse_timestamp(b"2024-01-01T00:00:00+01:00x"), None);
    assert_eq!(parse_timestamp(b"2024/01/01T00:00:00Z"), None);
    assert_eq!(parse_timestamp(b"20a4-01-01T00:00:00Z"), None);
}

#[test]
fn rejects_fields_out_of_range() {
    assert_eq!(parse_timestamp(b"2024-00-01T00:00:00Z"), None);
    assert_eq!(parse_timestamp(b"2024-13-01T00:00:00Z"), None);
    assert_eq!(parse_timestamp(b"2024-01-00T00:00:00Z"), None);
    assert_eq!(parse_timestamp(b"2024-01-32T00:00:00Z"), None);
    assert_eq!(parse_timestamp(b"2023-02-29T00:00:00Z"), None);
    assert_eq!(parse_timestamp(b"2024-01-01T24:00:00Z"), None);
    assert_eq!(parse_timestamp(b"2024-01-01T00:60:00Z"), None);
    assert_eq!(parse_timestamp(b"2024-01-01T00:00:60Z"), None);
    assert_eq!(parse_timestamp(b"2024-01-01T00:00:00+24:00"), None);
    assert_eq!(parse_timestamp(b"2024-01-01T00:00:00+00:60"), None);
    assert_eq!(parse_timestamp(b"2024-02-29T00:00:00Z"), at(1_709_164_800, 0));
}

#[test]
fn timestamps_are_ordered_by_seconds_then_nanoseconds() {
    let a = Timestamp { secs: 5, nanos: 10 };
    let b = Timestamp { secs: 5, nanos: 11 };
    let c = Timestamp { secs: 6, nanos: 0 };
    assert!(a.le(&a));
    assert!(a.le(&b));
    assert!(!b.le(&a));
    assert!(b.le(&c));
    assert!(!c.le(&a));
}

#[test]
fn stepping_back_by_seconds() {
    let t = Timestamp { secs: 100, nanos: 7 };
    assert_eq!(t.minus_secs(15), at(85, 7));
    assert_eq!(t.minus_secs(0), at(100, 7));
    assert_eq!(t.minus_secs(200), at(-100, 7));
    let low = Timestamp { secs: i64::MIN + 5, nanos: 0 };
    assert_eq!(low.minus_secs(5), at(i64::MIN, 0));
    assert_eq!(low.minus_secs(6), None);
    let high = Timestamp { secs: i64::MAX, nanos: 0 };
    assert_eq!(high.minus_secs(u64::MAX), at(i64::MIN, 0));
    let zero = Timestamp { secs: 0, nanos: 0 };
    assert_eq!(zero.minus_secs(1u64 << 63), at(i64::MIN, 0));
    assert_eq!(zero.minus_secs((1u64 << 63) + 1), None);
    assert_eq!(Timestamp { secs: -1, nanos: 0 }.minus_secs(1u64 << 63), None);
}
