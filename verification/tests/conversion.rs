use adbc_spanner::conversion::{
    instant_micros, instant_nanos, parse_date_days, parse_numeric_i128, parse_timestamp_nanos,
};
use adbc_spanner::staleness::Instant;

#[test]
fn dates_are_days_since_1970() {
    for (text, days) in [
        ("1970-01-01", 0),
        ("1970-01-02", 1),
        ("1969-12-31", -1),
        ("2000-02-29", 11_016),
        ("2000-03-01", 11_017),
        ("2024-12-31", 20_088),
        ("0001-01-01", -719_162),
        ("9999-12-31", 2_932_896),
    ] {
        assert_eq!(parse_date_days(text), Some(days), "{text}");
    }
}

#[test]
fn what_names_no_day_is_no_date() {
    for text in [
        "",
        "1900-02-29",
        "2023-02-29",
        "2024-04-31",
        "2024-13-01",
        "2024-00-10",
        "2024-01-00",
        "0000-01-01",
        "2024-1-01",
        "2024/01/01",
        "20240-01-1",
        "2024-01-01 ",
        "-024-01-01",
        "２０24-01-01",
    ] {
        assert_eq!(parse_date_days(text), None, "{text}");
    }
}

#[test]
fn timestamps_are_nanoseconds_since_the_epoch() {
    assert_eq!(parse_timestamp_nanos("1970-01-01T00:00:00Z"), Some(0));
    assert_eq!(
        parse_timestamp_nanos("2024-01-02T03:04:05.000000006Z"),
        Some(1_704_164_645_000_000_006)
    );
    assert_eq!(parse_timestamp_nanos("1969-12-31T23:59:59.5Z"), Some(-500_000_000));
    assert_eq!(
        parse_timestamp_nanos("2262-04-11T23:47:16.854775807Z"),
        Some(i64::MAX)
    );
    assert_eq!(parse_timestamp_nanos("2262-04-11T23:47:16.854775808Z"), None);
    assert_eq!(parse_timestamp_nanos("9999-12-31T23:59:59Z"), None);
    assert_eq!(parse_timestamp_nanos("yesterday"), None);
}

#[test]
fn microseconds_hold_every_instant_and_cut_off_what_is_finer() {
    let late = Instant { secs: 253_402_300_799, nanos: 999_999_999 };
    assert_eq!(instant_micros(late), Some(253_402_300_799_999_999));
    assert_eq!(instant_nanos(late), None);
    let before = Instant { secs: -1, nanos: 500 };
    assert_eq!(instant_micros(before), Some(-1_000_000));
    assert_eq!(instant_nanos(before), Some(-999_999_500));
}

#[test]
fn numerics_are_billionths() {
    for (text, value) in [
        ("0", 0),
        ("1", 1_000_000_000),
        ("-1", -1_000_000_000),
        ("+1.5", 1_500_000_000),
        ("1.50", 1_500_000_000),
        ("0.000000001", 1),
        ("-0.000000001", -1),
        (
            "99999999999999999999999999999.999999999",
            99_999_999_999_999_999_999_999_999_999_999_999_999,
        ),
        ("-170141183460469231731687303715.884105728", i128::MIN),
        ("170141183460469231731687303715.884105727", i128::MAX),
    ] {
        assert_eq!(parse_numeric_i128(text), Some(value), "{text}");
    }
}

#[test]
fn what_is_no_decimal_or_does_not_fit_is_no_numeric() {
    for text in [
        "",
        "-",
        ".",
        "1.",
        ".5",
        "1.0000000001",
        "1e3",
        "NaN",
        " 1",
        "1 ",
        "--1",
        "1.2.3",
        "170141183460469231731687303715.884105728",
        "-170141183460469231731687303715.884105729",
        "1701411834604692317316873037158841057270",
    ] {
        assert_eq!(parse_numeric_i128(text), None, "{text}");
    }
}
