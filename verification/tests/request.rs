use adbc_spanner::error::Status;
use adbc_spanner::options::{Double, OptionValue};
use adbc_spanner::request::{parse_priority, RequestConfig, RequestPriority};
use adbc_spanner::staleness::TimeSpan;

fn s(v: &str) -> OptionValue {
    OptionValue::Text(v.to_string())
}

#[test]
fn parses_priorities_case_insensitively() {
    for (input, expected) in [
        ("low", RequestPriority::Low),
        ("LOW", RequestPriority::Low),
        ("medium", RequestPriority::Medium),
        ("Medium", RequestPriority::Medium),
        ("high", RequestPriority::High),
        ("HIGH", RequestPriority::High),
    ] {
        assert_eq!(parse_priority(input).unwrap(), expected, "{input}");
    }
}

#[test]
fn rejects_unknown_priorities() {
    for bad in ["urgent", "0", "priority_high", "hi gh", "médium"] {
        let error = parse_priority(bad).unwrap_err();
        assert_eq!(error.status, Status::InvalidArguments, "{bad}");
    }
}

#[test]
fn priority_round_trips_and_unsets() {
    let mut config = RequestConfig::new();
    assert_eq!(config.priority_string(), None);

    config.set_priority(s(" HIGH ")).unwrap();
    assert_eq!(config.priority_string(), Some("high"));
    config.set_priority(s("medium")).unwrap();
    assert_eq!(config.priority_string(), Some("medium"));

    let error = config.set_priority(s("urgent")).unwrap_err();
    assert_eq!(error.status, Status::InvalidArguments);
    assert_eq!(config.priority_string(), Some("medium"));

    config.set_priority(s("")).unwrap();
    assert_eq!(config.priority_string(), None);
}

#[test]
fn tags_round_trip_verbatim_and_unset_on_empty() {
    let mut config = RequestConfig::new();
    assert_eq!(config.request_tag_string(), None);
    assert_eq!(config.transaction_tag_string(), None);

    config.set_request_tag(s(" my-App/query=1 ")).unwrap();
    assert_eq!(config.request_tag_string(), Some(" my-App/query=1 "));
    config.set_transaction_tag(s("nightly-etl")).unwrap();
    assert_eq!(config.transaction_tag_string(), Some("nightly-etl"));

    config.set_request_tag(s("")).unwrap();
    assert_eq!(config.request_tag_string(), None);
    assert_eq!(config.transaction_tag_string(), Some("nightly-etl"));
    config.set_transaction_tag(s("")).unwrap();
    assert_eq!(config.transaction_tag_string(), None);
}

#[test]
fn request_non_string_values_are_rejected() {
    let mut config = RequestConfig::new();
    for value in [OptionValue::Int(1), OptionValue::Double(Double { bits: 1.0f64.to_bits() })] {
        let error = config.set_priority(value.clone()).unwrap_err();
        assert_eq!(error.status, Status::InvalidArguments);
        let error = config.set_request_tag(value.clone()).unwrap_err();
        assert_eq!(error.status, Status::InvalidArguments);
        let error = config.set_transaction_tag(value).unwrap_err();
        assert_eq!(error.status, Status::InvalidArguments);
    }
}

#[test]
fn request_cloned_config_inherits_then_overrides_independently() {
    let mut connection = RequestConfig::new();
    connection.set_priority(s("low")).unwrap();
    connection.set_request_tag(s("conn-tag")).unwrap();
    connection.set_transaction_tag(s("txn-tag")).unwrap();

    let mut statement = connection.clone();
    assert_eq!(statement.priority_string(), Some("low"));
    assert_eq!(statement.request_tag_string(), Some("conn-tag"));
    assert_eq!(statement.transaction_tag_string(), Some("txn-tag"));

    statement.set_priority(s("high")).unwrap();
    statement.set_request_tag(s("")).unwrap();
    assert_eq!(statement.priority_string(), Some("high"));
    assert_eq!(statement.request_tag_string(), None);
    assert_eq!(connection.priority_string(), Some("low"));
    assert_eq!(connection.request_tag_string(), Some("conn-tag"));
}
#[test]
fn a_rejected_priority_echoes_the_lower_case_spelling() {
    let error = parse_priority("Urgent").unwrap_err();
    assert_eq!(
        error.message,
        "unknown request priority \"urgent\"; expected \"low\", \"medium\" or \"high\" \
         (or an empty string to unset)"
    );
}

#[test]
fn statements_batches_and_transactions_carry_their_own_settings() {
    let mut config = RequestConfig::new();
    config.set_priority(s("low")).unwrap();
    config.set_request_tag(s("request")).unwrap();
    config.set_transaction_tag(s("transaction")).unwrap();

    let statement = config.apply_to_statement();
    assert_eq!(statement.priority, Some(RequestPriority::Low));
    assert_eq!(statement.tag.as_deref(), Some("request"));
    let batch = config.apply_to_batch_dml();
    assert_eq!(batch.priority, None);
    assert_eq!(batch.tag.as_deref(), Some("request"));
    let runner = config.apply_to_runner();
    assert_eq!(runner.priority, Some(RequestPriority::Low));
    assert_eq!(runner.tag.as_deref(), Some("transaction"));
}

#[test]
fn the_commit_delay_is_at_most_half_a_second() {
    let mut config = RequestConfig::new();
    let half = TimeSpan { secs: 0, nanos: 500_000_000 };
    config.set_max_commit_delay(s("500ms"), Some(half)).unwrap();
    assert_eq!(config.max_commit_delay_string(), Some("500ms"));
    assert_eq!(config.max_commit_delay, Some(half));

    let longer = TimeSpan { secs: 0, nanos: 500_000_001 };
    let error = config
        .set_max_commit_delay(s("500000001ns"), Some(longer))
        .unwrap_err();
    assert_eq!(error.status, Status::InvalidArguments);
    assert_eq!(
        error.message,
        "option spanner.commit.max_delay: \"500000001ns\" is out of range; expected a delay \
         between 0 and 500ms"
    );
    assert_eq!(config.max_commit_delay_string(), Some("500ms"));

    let error = config.set_max_commit_delay(s("1x"), None).unwrap_err();
    assert!(error.message.contains("is not a valid duration"), "{}", error.message);
    let error = config.set_max_commit_delay(OptionValue::Int(1), None).unwrap_err();
    assert_eq!(
        error.message,
        "option spanner.commit.max_delay requires a string value"
    );

    config.set_max_commit_delay(s(""), None).unwrap();
    assert_eq!(config.max_commit_delay_string(), None);
    assert_eq!(config.max_commit_delay, None);
}

#[test]
fn commit_statistics_are_off_until_asked_for() {
    let mut config = RequestConfig::new();
    assert_eq!(config.commit_stats_string(), "false");
    config.set_commit_stats(s("true")).unwrap();
    assert_eq!(config.commit_stats_string(), "true");
    assert!(config.set_commit_stats(s("TRUE")).is_err());
    assert_eq!(config.commit_stats_string(), "true");
    config.set_commit_stats(s("")).unwrap();
    assert_eq!(config.commit_stats_string(), "false");
}
