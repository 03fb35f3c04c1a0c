use courseforge::timestamp::{civil_from_days, format_iso8601};

#[test]
fn iso8601_formatter_handles_known_dates() {
    assert_eq!(format_iso8601(0), "1970-01-01T00:00:00Z");
    assert_eq!(format_iso8601(86_400), "1970-01-02T00:00:00Z");
    assert_eq!(format_iso8601(951_868_800), "2000-03-01T00:00:00Z");
    assert_eq!(format_iso8601(45_296), "1970-01-01T12:34:56Z");
}

#[test]
fn civil_dates_around_leap_days() {
    assert_eq!(civil_from_days(0), (1970, 1, 1));
    assert_eq!(civil_from_days(-1), (1969, 12, 31));
    assert_eq!(civil_from_days(59), (1970, 3, 1));
    // 2000-02-29 (a leap day in a year divisible by 400).
    assert_eq!(civil_from_days(11_016), (2000, 2, 29));
    // 2100-03-01 follows 2100-02-28 (not a leap year).
    assert_eq!(civil_from_days(47_540), (2100, 2, 28));
    assert_eq!(civil_from_days(47_541), (2100, 3, 1));
    // Far in the past, before year 0.
    assert_eq!(civil_from_days(-719_529), (-1, 12, 31));
}

#[test]
fn formats_a_recent_timestamp_and_end_of_day() {
    assert_eq!(format_iso8601(1_700_000_000), "2023-11-14T22:13:20Z");
    assert_eq!(format_iso8601(86_399), "1970-01-01T23:59:59Z");
}

#[test]
fn years_beyond_i32_wrap_like_the_narrowing_cast() {
    // Day 784_351_576_777 is 2147483648-01-01; the year narrowed to i32 is
    // i32::MIN, printed with its sign inside the four-character width.
    let secs = 784_351_576_777u64 * 86_400;
    assert_eq!(format_iso8601(secs), "-2147483648-01-01T00:00:00Z");
}
