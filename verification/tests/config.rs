use adbc_spanner::config::{
    shared_option_of, Conversions, SharedConfig, SharedOption, ShownOption, TimestampPrecision,
};
use adbc_spanner::error::{Error, Status};
use adbc_spanner::keys::{
    OPTION_COMMIT_STATS, OPTION_COMMIT_STATS_MUTATION_COUNT, OPTION_DIRECTED_READ,
    OPTION_MAX_COMMIT_DELAY, OPTION_MAX_TIMESTAMP_PRECISION,
    OPTION_QUERY_OPTIMIZER_STATISTICS_PACKAGE, OPTION_QUERY_OPTIMIZER_VERSION,
    OPTION_READ_STALENESS, OPTION_REQUEST_PRIORITY, OPTION_REQUEST_TAG,
    OPTION_RETRY_BACKOFF_INITIAL_SECONDS, OPTION_RETRY_BACKOFF_MAX_SECONDS,
    OPTION_RETRY_BACKOFF_MULTIPLIER, OPTION_RETRY_MAX_ATTEMPTS, OPTION_RETRY_MAX_ELAPSED_SECONDS,
    OPTION_RPC_TIMEOUT_FETCH, OPTION_RPC_TIMEOUT_QUERY, OPTION_RPC_TIMEOUT_UPDATE,
};
use adbc_spanner::options::{Double, OptionValue};
use adbc_spanner::staleness::TimeSpan;

fn double(d: f64) -> Double {
    Double { bits: d.to_bits() }
}

fn set(config: &mut SharedConfig, key: &str, value: &str) -> Result<Option<()>, Error> {
    let conversions = Conversions {
        number: value.parse::<f64>().ok().map(double),
        span: Some(TimeSpan { secs: 0, nanos: 100_000_000 }),
    };
    config.set_shared_option(key, OptionValue::Text(value.to_string()), conversions)
}

fn get(config: &SharedConfig, key: &str) -> Option<ShownOption> {
    match config.shared_option(key) {
        Ok(shown) => Some(shown),
        Err(error) => {
            assert_eq!(error.status, Status::NotFound);
            assert_eq!(error.message, format!("option {key} is not set"));
            None
        }
    }
}

fn shown(s: &str) -> Option<ShownOption> {
    Some(ShownOption::Text(s.to_string()))
}

/// Every shared option with a value, what it shows of it, and what it shows without one.
fn cases() -> Vec<(&'static str, &'static str, Option<ShownOption>, Option<ShownOption>)> {
    vec![
        (OPTION_READ_STALENESS, "exact:100ms", shown("exact:100ms"), None),
        (OPTION_REQUEST_PRIORITY, " LOW ", shown("low"), None),
        (OPTION_REQUEST_TAG, "app=x", shown("app=x"), None),
        (OPTION_DIRECTED_READ, "include:us-east1", shown("include:us-east1"), None),
        (OPTION_MAX_COMMIT_DELAY, "100ms", shown("100ms"), None),
        (OPTION_COMMIT_STATS, "true", shown("true"), shown("false")),
        (OPTION_QUERY_OPTIMIZER_VERSION, "latest", shown("latest"), None),
        (OPTION_QUERY_OPTIMIZER_STATISTICS_PACKAGE, "auto_1", shown("auto_1"), None),
        (
            OPTION_MAX_TIMESTAMP_PRECISION,
            "microseconds",
            shown("microseconds"),
            shown("nanoseconds_error_on_overflow"),
        ),
        (
            OPTION_RPC_TIMEOUT_QUERY,
            "1.5",
            Some(ShownOption::Number(double(1.5))),
            None,
        ),
        (
            OPTION_RPC_TIMEOUT_UPDATE,
            "2.5",
            Some(ShownOption::Number(double(2.5))),
            None,
        ),
        (
            OPTION_RPC_TIMEOUT_FETCH,
            "0",
            Some(ShownOption::Number(double(0.0))),
            None,
        ),
        (OPTION_RETRY_MAX_ATTEMPTS, "3", shown("3"), None),
        (
            OPTION_RETRY_MAX_ELAPSED_SECONDS,
            "30",
            Some(ShownOption::Number(double(30.0))),
            None,
        ),
        (
            OPTION_RETRY_BACKOFF_INITIAL_SECONDS,
            "0.5",
            Some(ShownOption::Number(double(0.5))),
            None,
        ),
        (
            OPTION_RETRY_BACKOFF_MAX_SECONDS,
            "8",
            Some(ShownOption::Number(double(8.0))),
            None,
        ),
        (
            OPTION_RETRY_BACKOFF_MULTIPLIER,
            "1.3",
            Some(ShownOption::Number(double(1.3))),
            None,
        ),
    ]
}

#[test]
fn every_shared_option_shows_what_it_was_set_to_and_changes_no_other() {
    for (key, value, after, before) in cases() {
        let mut config = SharedConfig::new();
        assert_eq!(get(&config, key), before, "{key}");
        assert_eq!(set(&mut config, key, value).unwrap(), Some(()), "{key}");
        assert_eq!(get(&config, key), after, "{key}");
        for (other, _, _, unset) in cases() {
            if other != key {
                assert_eq!(get(&config, other), unset, "{other} after {key}");
            }
        }
    }
}

#[test]
fn the_empty_string_unsets_an_option_without_a_default() {
    for (key, value, _, before) in cases() {
        if key == OPTION_COMMIT_STATS {
            continue;
        }
        let mut config = SharedConfig::new();
        set(&mut config, key, value).unwrap();
        assert_eq!(set(&mut config, key, "").unwrap(), Some(()), "{key}");
        assert_eq!(get(&config, key), before, "{key}");
    }
}

#[test]
fn a_rejected_value_changes_nothing() {
    for (key, value, after, _) in cases() {
        let mut config = SharedConfig::new();
        set(&mut config, key, value).unwrap();
        let conversions = Conversions { number: None, span: None };
        let error = config
            .set_shared_option(key, OptionValue::Bytes(vec![1]), conversions)
            .unwrap_err();
        assert_eq!(error.status, Status::InvalidArguments, "{key}");
        assert_eq!(get(&config, key), after, "{key}");
    }
}

#[test]
fn an_unknown_key_is_left_to_the_caller() {
    let mut config = SharedConfig::new();
    assert_eq!(set(&mut config, "spanner.unknown", "x").unwrap(), None);
    assert_eq!(get(&config, "spanner.unknown"), None);
    assert_eq!(shared_option_of("spanner.unknown"), None);
    assert_eq!(
        shared_option_of("spanner.request.tag"),
        Some(SharedOption::RequestTag)
    );
}

#[test]
fn the_mutation_count_is_read_only_and_not_inherited() {
    let mut config = SharedConfig::new();
    assert_eq!(
        set(&mut config, OPTION_COMMIT_STATS_MUTATION_COUNT, "1").unwrap(),
        None
    );
    assert_eq!(get(&config, OPTION_COMMIT_STATS_MUTATION_COUNT), None);
    config.commit_stats = Some(12);
    assert_eq!(get(&config, OPTION_COMMIT_STATS_MUTATION_COUNT), shown("12"));
    assert_eq!(
        get(&config.inherit(), OPTION_COMMIT_STATS_MUTATION_COUNT),
        None
    );
}

#[test]
fn a_statement_starts_from_its_connections_settings_and_overrides_them_alone() {
    let mut connection = SharedConfig::new();
    for (key, value, _, _) in cases() {
        set(&mut connection, key, value).unwrap();
    }
    let mut statement = connection.inherit();
    for (key, _, after, _) in cases() {
        assert_eq!(get(&statement, key), after, "{key}");
    }
    set(&mut statement, OPTION_REQUEST_TAG, "other").unwrap();
    assert_eq!(get(&statement, OPTION_REQUEST_TAG), shown("other"));
    assert_eq!(get(&connection, OPTION_REQUEST_TAG), shown("app=x"));
}

#[test]
fn the_spelling_of_a_precision_reads_back() {
    for precision in [
        TimestampPrecision::NanosecondsErrorOnOverflow,
        TimestampPrecision::Microseconds,
    ] {
        let text = OptionValue::Text(precision.as_str().to_string());
        assert_eq!(TimestampPrecision::parse_option(text).unwrap(), precision);
    }
    let error =
        TimestampPrecision::parse_option(OptionValue::Text("seconds".to_string())).unwrap_err();
    assert_eq!(
        error.message,
        "option spanner.max_timestamp_precision expects \"nanoseconds_error_on_overflow\" or \
         \"microseconds\", got \"seconds\""
    );
}
