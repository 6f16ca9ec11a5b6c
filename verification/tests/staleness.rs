use std::time::Duration;

use adbc_spanner::error::{Error, Status};
use adbc_spanner::keys::OPTION_MAX_COMMIT_DELAY;
use adbc_spanner::options::OptionValue;
use adbc_spanner::staleness::{
    parse_duration, parse_duration_for, parse_instant, split_bound, split_duration,
    to_epoch_offset, DurationUnit, EpochOffset, Instant, ReadBound, ReadStaleness, TimeSpan,
};

fn span(secs: u64, nanos: u32) -> TimeSpan {
    TimeSpan { secs, nanos }
}

fn span_of(value: &str) -> Option<TimeSpan> {
    let (number, unit) = split_duration(value);
    let scale = match unit {
        DurationUnit::Hours => 3600.0,
        DurationUnit::Minutes => 60.0,
        DurationUnit::Seconds => 1.0,
        DurationUnit::Milliseconds => 1e-3,
        DurationUnit::Microseconds => 1e-6,
        DurationUnit::Nanoseconds => 1e-9,
    };
    let seconds = number.parse::<f64>().ok()? * scale;
    let d = Duration::try_from_secs_f64(seconds).ok()?;
    Some(span(d.as_secs(), d.subsec_nanos()))
}

fn bound_span(value: &str) -> Option<TimeSpan> {
    split_bound(value).and_then(|(_, argument)| span_of(&argument))
}

fn parse_read_bound(value: &str) -> Result<ReadBound, Error> {
    adbc_spanner::staleness::parse_read_bound(value, bound_span(value))
}

fn set(staleness: &mut ReadStaleness, value: impl Into<String>) -> Result<(), Error> {
    let value: String = value.into();
    let made = bound_span(&value);
    staleness.set_staleness(OptionValue::Text(value), made)
}

fn dt(s: &str) -> Instant {
    parse_instant(s).unwrap()
}

#[test]
fn parses_exact_and_max_staleness_with_units() {
    assert_eq!(
        parse_read_bound("exact:10").unwrap(),
        ReadBound::ExactStaleness(span(10, 0))
    );
    assert_eq!(
        parse_read_bound("exact:2.5s").unwrap(),
        ReadBound::ExactStaleness(span(2, 500_000_000))
    );
    assert_eq!(
        parse_read_bound("max:500ms").unwrap(),
        ReadBound::MaxStaleness(span(0, 500_000_000))
    );
    assert_eq!(
        parse_read_bound("max:1m").unwrap(),
        ReadBound::MaxStaleness(span(60, 0))
    );
    assert_eq!(
        parse_read_bound(" exact : 1h ").unwrap(),
        ReadBound::ExactStaleness(span(3600, 0))
    );
}

#[test]
fn parses_read_and_min_timestamp() {
    assert_eq!(
        parse_read_bound("2026-07-07T00:00:00Z").unwrap(),
        ReadBound::ReadTimestamp(dt("2026-07-07T00:00:00Z"))
    );
    assert_eq!(
        parse_read_bound("read:2026-07-07T00:00:00Z").unwrap(),
        ReadBound::ReadTimestamp(dt("2026-07-07T00:00:00Z"))
    );
    assert_eq!(
        parse_read_bound("min:2026-07-07T00:00:00+02:00").unwrap(),
        ReadBound::MinReadTimestamp(dt("2026-07-07T00:00:00+02:00"))
    );
    assert_eq!(
        parse_read_bound("read : 2026-07-07T00:00:00Z").unwrap(),
        ReadBound::ReadTimestamp(dt("2026-07-07T00:00:00Z"))
    );
}

#[test]
fn rejects_uppercase_and_mixed_case_prefixes() {
    for bad in [
        "EXACT:10s",
        "Exact:10s",
        "MAX:1m",
        "READ:2026-07-07T00:00:00Z",
        "Read:2026-07-07T00:00:00Z",
        "MIN:2026-07-07T00:00:00+02:00",
        "Min:2026-07-07T00:00:00+02:00",
    ] {
        let error = parse_read_bound(bad).unwrap_err();
        assert_eq!(error.status, Status::InvalidArguments, "{bad}");
    }
}

#[test]
fn rejects_bad_read_bound() {
    for bad in [
        "10s",
        "exact:",
        "exact:abc",
        "exact:-5",
        "soon:10s",
        "exact:1x",
        "not-a-time",
        "read:",
        "2026-07-07",
        "min:12345",
    ] {
        assert!(parse_read_bound(bad).is_err(), "expected error for {bad:?}");
    }
}

#[test]
fn rejects_oversized_duration_instead_of_panicking() {
    for bad in ["exact:1e20", "max:1e20", "exact:1e19h"] {
        let error = parse_read_bound(bad).unwrap_err();
        assert_eq!(error.status, Status::InvalidArguments, "{bad}");
    }
}

#[test]
fn single_option_holds_one_bound_and_can_be_replaced() {
    let mut s = ReadStaleness::new();
    assert!(s.timestamp_bound().is_none());

    set(&mut s, "exact:10s").unwrap();
    assert_eq!(s.staleness_string(), Some("exact:10s"));
    assert!(s.timestamp_bound().is_some());

    set(&mut s, "read:2026-07-07T00:00:00Z").unwrap();
    assert_eq!(s.staleness_string(), Some("read:2026-07-07T00:00:00Z"));
    assert!(s.timestamp_bound().is_some());

    set(&mut s, String::new()).unwrap();
    assert_eq!(s.staleness_string(), None);
    assert!(s.timestamp_bound().is_none());
}

#[test]
fn multi_use_pins_bounded_staleness_kinds() {
    let d = span(10, 0);
    let t = dt("2026-07-07T00:00:00Z");
    assert_eq!(
        ReadBound::ExactStaleness(d).pinned_for_multi_use(),
        ReadBound::ExactStaleness(d)
    );
    assert_eq!(
        ReadBound::ReadTimestamp(t).pinned_for_multi_use(),
        ReadBound::ReadTimestamp(t)
    );
    assert_eq!(
        ReadBound::MaxStaleness(d).pinned_for_multi_use(),
        ReadBound::ExactStaleness(d)
    );
    assert_eq!(
        ReadBound::MinReadTimestamp(t).pinned_for_multi_use(),
        ReadBound::ReadTimestamp(t)
    );

    let mut s = ReadStaleness::new();
    assert!(s.multi_use_timestamp_bound().is_none());
    set(&mut s, "max:500ms").unwrap();
    assert!(s.multi_use_timestamp_bound().is_some());
}

#[test]
fn to_system_time_round_trips_via_bound() {
    let after = to_epoch_offset(dt("2026-07-07T12:34:56.789Z"));
    assert_eq!(
        after,
        EpochOffset { back: 0, secs: 1_783_427_696, nanos: 789_000_000 }
    );
    let before = to_epoch_offset(dt("1969-12-31T23:59:58.5Z"));
    assert_eq!(before, EpochOffset { back: 2, secs: 0, nanos: 500_000_000 });
    let y2k = to_epoch_offset(dt("1999-12-31T23:59:59Z"));
    assert_eq!(y2k, EpochOffset { back: 0, secs: 946_684_799, nanos: 0 });
}

#[test]
fn grammar_rejection_echoes_the_value_and_omits_the_timestamp_parser_detail() {
    let error = parse_read_bound("stale:10s").unwrap_err();
    assert_eq!(error.status, Status::InvalidArguments);
    assert_eq!(
        error.message,
        "option spanner.read.staleness: \"stale:10s\" is not a valid read bound; expected \
         \"exact:<duration>\" (e.g. \"exact:10s\"), \"max:<duration>\" (e.g. \"max:500ms\"), \
         \"read:<rfc3339>\" (e.g. \"read:2026-07-07T00:00:00Z\") or \"min:<rfc3339>\" \
         (e.g. \"min:2026-07-07T00:00:00+02:00\")"
    );
    assert!(
        !error.message.contains("invalid characters"),
        "{}",
        error.message
    );
}

#[test]
fn timestamp_rejection_keeps_the_parser_detail() {
    for bad in ["read:nope", "min:12345"] {
        let error = parse_read_bound(bad).unwrap_err();
        assert_eq!(error.status, Status::InvalidArguments, "{bad}");
        assert!(
            error.message.starts_with(&format!(
                "option spanner.read.staleness: {bad:?} does not carry a valid RFC 3339 timestamp ("
            )),
            "{}",
            error.message
        );
        assert!(
            error.message.contains("expected \"exact:<duration>\""),
            "{}",
            error.message
        );
    }
}

#[test]
fn duration_rejection_names_its_option_and_the_units() {
    let error = parse_duration_for("1x", span_of("1x"), OPTION_MAX_COMMIT_DELAY).unwrap_err();
    assert_eq!(error.status, Status::InvalidArguments);
    assert_eq!(
        error.message,
        "option spanner.commit.max_delay: \"1x\" is not a valid duration; expected a number with \
         an optional unit suffix (s [default], ms, us/µs, ns, m, h), e.g. \"500ms\""
    );
    assert!(
        parse_duration("1x", span_of("1x"))
            .unwrap_err()
            .message
            .starts_with("option spanner.read.staleness: \"1x\" is not a valid duration;")
    );
}

#[test]
fn a_duration_is_taken_apart_at_its_unit() {
    for (value, number, unit) in [
        ("10", "10", DurationUnit::Seconds),
        ("2.5s", "2.5", DurationUnit::Seconds),
        ("500ms", "500", DurationUnit::Milliseconds),
        ("7us", "7", DurationUnit::Microseconds),
        ("7µs", "7", DurationUnit::Microseconds),
        ("7ns", "7", DurationUnit::Nanoseconds),
        ("1m", "1", DurationUnit::Minutes),
        ("1 h", "1", DurationUnit::Hours),
        ("", "", DurationUnit::Seconds),
        ("s", "", DurationUnit::Seconds),
    ] {
        assert_eq!(split_duration(value), (number.to_string(), unit), "{value:?}");
    }
}

#[test]
fn timestamps_are_instants_in_utc() {
    assert_eq!(dt("1970-01-01T00:00:00Z"), Instant { secs: 0, nanos: 0 });
    assert_eq!(
        dt("1970-01-01T02:00:00.25+02:00"),
        Instant { secs: 0, nanos: 250_000_000 }
    );
    assert_eq!(parse_instant("2026").unwrap_err(), "premature end of input");
}

#[test]
fn a_read_bound_that_is_no_text_is_rejected() {
    let mut s = ReadStaleness::new();
    set(&mut s, "exact:10s").unwrap();
    let error = s.set_staleness(OptionValue::Int(10), None).unwrap_err();
    assert_eq!(error.status, Status::InvalidArguments);
    assert_eq!(
        error.message,
        "option spanner.read.staleness requires a string value"
    );
    assert!(set(&mut s, "exact:soon").is_err());
    assert_eq!(s.staleness_string(), Some("exact:10s"));
}

#[test]
fn a_bound_that_the_client_cannot_hold_is_rejected() {
    let instant = dt("2024-01-01T00:00:00Z");
    for (bound, expected) in [
        (ReadBound::ExactStaleness(span(u64::MAX, 0)), "read staleness out of range: too long"),
        (ReadBound::MaxStaleness(span(u64::MAX, 0)), "read staleness out of range: too long"),
        (ReadBound::ReadTimestamp(instant), "read timestamp out of range: too long"),
        (ReadBound::MinReadTimestamp(instant), "read timestamp out of range: too long"),
    ] {
        assert_eq!(bound.to_timestamp_bound(Ok(7)).unwrap(), 7);
        let error = bound.to_timestamp_bound::<i32>(Err("too long".to_string())).unwrap_err();
        assert_eq!(error.status, Status::InvalidArguments);
        assert_eq!(error.message, expected);
    }
}
