use adbc_spanner::error::{Error, Status};
use adbc_spanner::options::{Double, OptionValue};
use adbc_spanner::retry::RetryConfig;
use adbc_spanner::text::trim;

type Result<T> = std::result::Result<T, Error>;

fn s(v: &str) -> OptionValue {
    OptionValue::Text(v.to_string())
}

fn d(v: f64) -> OptionValue {
    OptionValue::Double(double(v))
}

fn double(v: f64) -> Double {
    Double { bits: v.to_bits() }
}

fn number(value: &OptionValue) -> Option<Double> {
    match value {
        OptionValue::Text(s) => trim(s).parse::<f64>().ok().map(double),
        OptionValue::Int(i) => Some(double(*i as f64)),
        OptionValue::Double(d) => Some(*d),
        OptionValue::Bytes(_) => None,
    }
}

fn set_max_elapsed_seconds(config: &mut RetryConfig, value: OptionValue) -> Result<()> {
    let read = number(&value);
    config.set_max_elapsed_seconds(value, read)
}

fn set_backoff_initial_seconds(config: &mut RetryConfig, value: OptionValue) -> Result<()> {
    let read = number(&value);
    config.set_backoff_initial_seconds(value, read)
}

fn set_backoff_max_seconds(config: &mut RetryConfig, value: OptionValue) -> Result<()> {
    let read = number(&value);
    config.set_backoff_max_seconds(value, read)
}

fn set_backoff_multiplier(config: &mut RetryConfig, value: OptionValue) -> Result<()> {
    let read = number(&value);
    config.set_backoff_multiplier(value, read)
}

fn string(value: Option<Double>) -> Option<String> {
    value.map(|v| f64::from_bits(v.bits).to_string())
}

fn seconds(value: Option<Double>) -> Option<f64> {
    value.map(|v| f64::from_bits(v.bits))
}

#[test]
fn parses_attempts_from_strings_ints_and_whole_doubles() {
    let mut config = RetryConfig::new();
    config.set_max_attempts(s(" 3 ")).unwrap();
    assert_eq!(config.max_attempts_string().as_deref(), Some("3"));
    config.set_max_attempts(OptionValue::Int(5)).unwrap();
    assert_eq!(config.max_attempts_string().as_deref(), Some("5"));
    config.set_max_attempts(d(2.0)).unwrap();
    assert_eq!(config.max_attempts_string().as_deref(), Some("2"));
    config.set_max_attempts(s("1")).unwrap();
    assert_eq!(config.max_attempts_string().as_deref(), Some("1"));
}

#[test]
fn parses_elapsed_from_strings_ints_and_doubles() {
    let mut config = RetryConfig::new();
    set_max_elapsed_seconds(&mut config, s(" 2.5 ")).unwrap();
    assert_eq!(string(config.max_elapsed_seconds).as_deref(), Some("2.5"));
    assert_eq!(seconds(config.max_elapsed_seconds), Some(2.5));
    set_max_elapsed_seconds(&mut config, OptionValue::Int(30)).unwrap();
    assert_eq!(string(config.max_elapsed_seconds).as_deref(), Some("30"));
    set_max_elapsed_seconds(&mut config, d(0.05)).unwrap();
    assert_eq!(seconds(config.max_elapsed_seconds), Some(0.05));
}

#[test]
fn empty_string_unsets_each_independently() {
    let mut config = RetryConfig::new();
    config.set_max_attempts(s("4")).unwrap();
    set_max_elapsed_seconds(&mut config, s("10")).unwrap();
    config.set_max_attempts(s("")).unwrap();
    assert_eq!(config.max_attempts_string(), None);
    assert_eq!(string(config.max_elapsed_seconds).as_deref(), Some("10"));
    set_max_elapsed_seconds(&mut config, s("  ")).unwrap();
    assert_eq!(string(config.max_elapsed_seconds), None);
}

#[test]
fn rejects_bad_attempts() {
    let mut config = RetryConfig::new();
    config.set_max_attempts(s("3")).unwrap();
    let bad = [
        OptionValue::Int(0),
        OptionValue::Int(-1),
        s("0"),
        s("-2"),
        s("1.5"),
        d(2.5),
        d(f64::NAN),
        s("abc"),
        OptionValue::Bytes(vec![1]),
        OptionValue::Int(i64::from(u32::MAX) + 1),
    ];
    for value in bad {
        let error = config.set_max_attempts(value.clone()).unwrap_err();
        assert_eq!(error.status, Status::InvalidArguments, "value {value:?}");
        assert_eq!(config.max_attempts_string().as_deref(), Some("3"));
    }
}

#[test]
fn rejects_bad_elapsed() {
    let mut config = RetryConfig::new();
    set_max_elapsed_seconds(&mut config, s("5")).unwrap();
    let bad = [
        d(0.0),
        s("0"),
        d(-1.0),
        OptionValue::Int(-3),
        d(f64::NAN),
        d(f64::INFINITY),
        s("inf"),
        s("abc"),
        s("1s"),
        d(1e300),
        OptionValue::Bytes(vec![1, 2]),
    ];
    for value in bad {
        let error = set_max_elapsed_seconds(&mut config, value.clone()).unwrap_err();
        assert_eq!(error.status, Status::InvalidArguments, "value {value:?}");
        assert_eq!(string(config.max_elapsed_seconds).as_deref(), Some("5"));
    }
}

#[test]
fn retry_policy_arg_is_none_until_configured() {
    let mut config = RetryConfig::new();
    assert!(config.retry_policy_arg().is_none());
    config.set_max_attempts(s("3")).unwrap();
    assert!(config.retry_policy_arg().is_some());
    config.set_max_attempts(s("")).unwrap();
    assert!(config.retry_policy_arg().is_none());
    set_max_elapsed_seconds(&mut config, s("10")).unwrap();
    assert!(config.retry_policy_arg().is_some());
    config.set_max_attempts(s("5")).unwrap();
    assert!(config.retry_policy_arg().is_some());
}

#[test]
fn copied_config_inherits_then_overrides_independently() {
    let mut connection = RetryConfig::new();
    connection.set_max_attempts(s("10")).unwrap();
    set_max_elapsed_seconds(&mut connection, s("20")).unwrap();

    let mut statement = connection;
    assert_eq!(statement.max_attempts_string().as_deref(), Some("10"));
    assert_eq!(string(statement.max_elapsed_seconds).as_deref(), Some("20"));

    statement.set_max_attempts(s("2")).unwrap();
    set_max_elapsed_seconds(&mut statement, s("")).unwrap();
    assert_eq!(statement.max_attempts_string().as_deref(), Some("2"));
    assert_eq!(string(statement.max_elapsed_seconds), None);
    assert_eq!(connection.max_attempts_string().as_deref(), Some("10"));
    assert_eq!(
        string(connection.max_elapsed_seconds).as_deref(),
        Some("20")
    );
}

#[test]
fn parses_backoff_knobs_from_strings_ints_and_doubles() {
    let mut config = RetryConfig::new();
    set_backoff_initial_seconds(&mut config, s(" 0.5 ")).unwrap();
    assert_eq!(
        string(config.backoff_initial_seconds).as_deref(),
        Some("0.5")
    );
    set_backoff_max_seconds(&mut config, OptionValue::Int(30)).unwrap();
    assert_eq!(string(config.backoff_max_seconds).as_deref(), Some("30"));
    set_backoff_multiplier(&mut config, d(1.5)).unwrap();
    assert_eq!(string(config.backoff_multiplier).as_deref(), Some("1.5"));
}

#[test]
fn empty_string_unsets_each_backoff_knob_independently() {
    let mut config = RetryConfig::new();
    set_backoff_initial_seconds(&mut config, s("1")).unwrap();
    set_backoff_max_seconds(&mut config, s("10")).unwrap();
    set_backoff_multiplier(&mut config, s("2")).unwrap();

    set_backoff_initial_seconds(&mut config, s("")).unwrap();
    assert_eq!(string(config.backoff_initial_seconds), None);
    assert_eq!(string(config.backoff_max_seconds).as_deref(), Some("10"));
    assert_eq!(string(config.backoff_multiplier).as_deref(), Some("2"));
    set_backoff_max_seconds(&mut config, s("  ")).unwrap();
    assert_eq!(string(config.backoff_max_seconds), None);
    set_backoff_multiplier(&mut config, s("")).unwrap();
    assert_eq!(string(config.backoff_multiplier), None);
}

#[test]
fn rejects_bad_backoff_seconds() {
    for setter in [
        set_backoff_initial_seconds as fn(&mut RetryConfig, OptionValue) -> _,
        set_backoff_max_seconds,
    ] {
        let mut config = RetryConfig::new();
        setter(&mut config, s("2")).unwrap();
        let bad = [
            d(0.0),
            s("0"),
            d(-1.0),
            OptionValue::Int(-3),
            d(f64::NAN),
            d(f64::INFINITY),
            s("inf"),
            s("abc"),
            s("1s"),
            d(1e300),
            OptionValue::Bytes(vec![1]),
        ];
        for value in bad {
            let error = setter(&mut config, value.clone()).unwrap_err();
            assert_eq!(error.status, Status::InvalidArguments, "value {value:?}");
        }
    }
}

#[test]
fn rejects_bad_backoff_multiplier() {
    let mut config = RetryConfig::new();
    set_backoff_multiplier(&mut config, s("2")).unwrap();
    let bad = [
        d(0.0),
        s("0"),
        d(-1.0),
        OptionValue::Int(-3),
        d(f64::NAN),
        d(f64::INFINITY),
        s("inf"),
        s("abc"),
        OptionValue::Bytes(vec![1]),
    ];
    for value in bad {
        let error = set_backoff_multiplier(&mut config, value.clone()).unwrap_err();
        assert_eq!(error.status, Status::InvalidArguments, "value {value:?}");
        assert_eq!(string(config.backoff_multiplier).as_deref(), Some("2"));
    }
    set_backoff_multiplier(&mut config, d(0.5)).unwrap();
    assert_eq!(string(config.backoff_multiplier).as_deref(), Some("0.5"));
}

#[test]
fn backoff_policy_arg_is_none_until_configured() {
    let mut config = RetryConfig::new();
    assert!(config.backoff_policy_arg().is_none());
    config.set_max_attempts(s("3")).unwrap();
    set_max_elapsed_seconds(&mut config, s("10")).unwrap();
    assert!(config.backoff_policy_arg().is_none());
    set_backoff_initial_seconds(&mut config, s("0.25")).unwrap();
    assert!(config.backoff_policy_arg().is_some());
    set_backoff_initial_seconds(&mut config, s("")).unwrap();
    assert!(config.backoff_policy_arg().is_none());
    set_backoff_max_seconds(&mut config, s("30")).unwrap();
    assert!(config.backoff_policy_arg().is_some());
    set_backoff_max_seconds(&mut config, s("")).unwrap();
    assert!(config.backoff_policy_arg().is_none());
    set_backoff_multiplier(&mut config, s("3")).unwrap();
    assert!(config.backoff_policy_arg().is_some());
}

#[test]
fn retry_and_backoff_are_independent() {
    let mut backoff_only = RetryConfig::new();
    set_backoff_multiplier(&mut backoff_only, s("4")).unwrap();
    assert!(backoff_only.retry_policy_arg().is_none());
    assert!(backoff_only.backoff_policy_arg().is_some());

    let mut retry_only = RetryConfig::new();
    retry_only.set_max_attempts(s("5")).unwrap();
    assert!(retry_only.retry_policy_arg().is_some());
    assert!(retry_only.backoff_policy_arg().is_none());
}

#[test]
fn copied_config_inherits_then_overrides_backoff_independently() {
    let mut connection = RetryConfig::new();
    set_backoff_initial_seconds(&mut connection, s("0.5")).unwrap();
    set_backoff_max_seconds(&mut connection, s("40")).unwrap();
    set_backoff_multiplier(&mut connection, s("3")).unwrap();

    let mut statement = connection;
    assert_eq!(
        string(statement.backoff_initial_seconds).as_deref(),
        Some("0.5")
    );
    assert_eq!(string(statement.backoff_max_seconds).as_deref(), Some("40"));
    assert_eq!(string(statement.backoff_multiplier).as_deref(), Some("3"));

    set_backoff_max_seconds(&mut statement, s("")).unwrap();
    set_backoff_multiplier(&mut statement, s("2")).unwrap();
    assert_eq!(string(statement.backoff_max_seconds), None);
    assert_eq!(string(statement.backoff_multiplier).as_deref(), Some("2"));
    assert_eq!(
        string(connection.backoff_max_seconds).as_deref(),
        Some("40")
    );
    assert_eq!(string(connection.backoff_multiplier).as_deref(), Some("3"));
}

#[test]
fn attempts_are_read_from_every_whole_double_in_range() {
    let mut config = RetryConfig::new();
    for (value, expected) in [
        (1.0, "1"),
        (3.0, "3"),
        (1024.0, "1024"),
        (4_294_967_295.0, "4294967295"),
    ] {
        config.set_max_attempts(d(value)).unwrap();
        assert_eq!(config.max_attempts_string().as_deref(), Some(expected));
    }
    for value in [0.0, -0.0, 0.5, -1.0, 1e-300, 4_294_967_296.0, 1e300, f64::INFINITY] {
        let error = config.set_max_attempts(d(value)).unwrap_err();
        assert_eq!(
            error.message,
            "option spanner.retry.max_attempts must be a positive integer number of attempts \
             (>= 1)"
        );
    }
}

#[test]
fn limits_and_knobs_carry_what_is_set() {
    let mut config = RetryConfig::new();
    config.set_max_attempts(s("5")).unwrap();
    set_max_elapsed_seconds(&mut config, s("10")).unwrap();
    set_backoff_initial_seconds(&mut config, s("0.25")).unwrap();
    let limits = config.retry_policy_arg().unwrap();
    assert_eq!(limits.attempts, Some(5));
    assert_eq!(seconds(limits.elapsed_seconds), Some(10.0));
    let knobs = config.backoff_policy_arg().unwrap();
    assert_eq!(seconds(knobs.initial_seconds), Some(0.25));
    assert_eq!(knobs.max_seconds, None);
    assert_eq!(knobs.multiplier, None);
}

#[test]
fn a_rejection_words_the_range() {
    let mut config = RetryConfig::new();
    let error = set_max_elapsed_seconds(&mut config, s("0")).unwrap_err();
    assert_eq!(
        error.message,
        "option spanner.retry.max_elapsed_seconds must be a finite, strictly positive number of \
         seconds"
    );
    let error = set_backoff_multiplier(&mut config, s("0")).unwrap_err();
    assert_eq!(
        error.message,
        "option spanner.retry.backoff.multiplier must be a finite, strictly positive number"
    );
}
