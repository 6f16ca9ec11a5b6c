use adbc_spanner::interval::{format_month_day_nano, parse_month_day_nano, seconds_to_nanos};

#[test]
fn formats_and_parses_the_validation_suite_values() {
    for (m, d, n) in [(-5, -5, -42_000i64), (0, 0, 0), (5, 5, 42_000)] {
        let s = format_month_day_nano(m, d, n);
        assert_eq!(
            parse_month_day_nano(&s),
            Some((m, d, n)),
            "round-trip failed for {m},{d},{n} via {s:?}"
        );
    }
}

#[test]
fn formats_negative_subsecond_with_sign() {
    assert_eq!(format_month_day_nano(-5, -5, -42_000), "P-5M-5DT-0.000042S");
    assert_eq!(format_month_day_nano(0, 0, 0), "P0M0DT0S");
    assert_eq!(format_month_day_nano(5, 5, 42_000), "P5M5DT0.000042S");
}

#[test]
fn parses_spanner_canonical_forms() {
    assert_eq!(parse_month_day_nano("P1Y2M3D"), Some((14, 3, 0)));
    assert_eq!(parse_month_day_nano("P1W"), Some((0, 7, 0)));
    assert_eq!(
        parse_month_day_nano("P1Y2M3DT4H5M6.789S"),
        Some((
            14,
            3,
            4 * 3_600_000_000_000 + 5 * 60_000_000_000 + 6_789_000_000
        )),
    );
    assert_eq!(parse_month_day_nano("PT0.5S"), Some((0, 0, 500_000_000)));
    assert_eq!(parse_month_day_nano("PT-0.000042S"), Some((0, 0, -42_000)));
}

#[test]
fn rejects_malformed_input() {
    assert_eq!(parse_month_day_nano("garbage"), None);
    assert_eq!(parse_month_day_nano("P5X"), None);
    assert_eq!(parse_month_day_nano("PT.S"), None);
}

#[test]
fn the_extreme_intervals_are_read_back() {
    let text = format_month_day_nano(0, 0, i64::MIN);
    assert_eq!(text, "P0M0DT-9223372036.854775808S");
    for (m, d, n) in [
        (0, 0, i64::MIN),
        (i32::MIN, i32::MAX, i64::MIN + 1),
        (i32::MAX, i32::MIN, i64::MAX),
    ] {
        let text = format_month_day_nano(m, d, n);
        assert_eq!(parse_month_day_nano(&text), Some((m, d, n)), "{text}");
    }
    assert_eq!(parse_month_day_nano("PT9223372036.854775808S"), None);
    assert_eq!(parse_month_day_nano("PT-9223372036.854775809S"), None);
}

#[test]
fn a_number_without_a_unit_is_malformed() {
    for text in ["P5", "P1Y2", "PT5", "PT1H5", "P5T1S", "P-", "PT."] {
        assert_eq!(parse_month_day_nano(text), None, "{text}");
    }
    assert_eq!(parse_month_day_nano("P"), Some((0, 0, 0)));
    assert_eq!(parse_month_day_nano("PT"), Some((0, 0, 0)));
}

#[test]
fn a_doubled_sign_is_malformed() {
    for text in ["PT--5S", "PT-+5S", "PT+-5S", "PT++5S", "P--5M", "PT5.-5S"] {
        assert_eq!(parse_month_day_nano(text), None, "{text}");
    }
}

fn seconds(text: &str) -> Option<i64> {
    seconds_to_nanos(&text.chars().collect::<Vec<char>>())
}

#[test]
fn a_sign_covers_the_whole_number_of_seconds() {
    for (text, nanos) in [
        ("5", 5_000_000_000),
        ("0.5", 500_000_000),
        (".000042", 42_000),
        ("1.9999999999", 1_999_999_999),
    ] {
        assert_eq!(seconds(text), Some(nanos));
        assert_eq!(seconds(&format!("+{text}")), Some(nanos));
        assert_eq!(seconds(&format!("-{text}")), Some(-nanos));
    }
    assert_eq!(seconds("--5"), None);
    assert_eq!(seconds("9223372036.854775808"), None);
    assert_eq!(seconds("-9223372036.854775808"), Some(i64::MIN));
}
