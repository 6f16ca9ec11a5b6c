use adbc_spanner::error::Status;
use adbc_spanner::options::{Double, OptionValue};
use adbc_spanner::query_options::QueryOptionsConfig;

fn s(v: &str) -> OptionValue {
    OptionValue::Text(v.to_string())
}

#[test]
fn options_round_trip_verbatim_and_unset_on_empty() {
    let mut config = QueryOptionsConfig::new();
    assert_eq!(config.optimizer_version.as_deref(), None);
    assert_eq!(config.optimizer_statistics_package.as_deref(), None);

    config.set_optimizer_version(s("latest")).unwrap();
    assert_eq!(config.optimizer_version.as_deref(), Some("latest"));
    config.set_optimizer_statistics_package(s("auto_20240101")).unwrap();
    assert_eq!(
        config.optimizer_statistics_package.as_deref(),
        Some("auto_20240101")
    );

    config.set_optimizer_version(s("")).unwrap();
    assert_eq!(config.optimizer_version.as_deref(), None);
    assert_eq!(
        config.optimizer_statistics_package.as_deref(),
        Some("auto_20240101")
    );
    config.set_optimizer_statistics_package(s("")).unwrap();
    assert_eq!(config.optimizer_statistics_package.as_deref(), None);
}

#[test]
fn tests_non_string_values_are_rejected() {
    let mut config = QueryOptionsConfig::new();
    for value in [OptionValue::Int(1), OptionValue::Double(Double { bits: 1.0f64.to_bits() })] {
        let error = config.set_optimizer_version(value.clone()).unwrap_err();
        assert_eq!(error.status, Status::InvalidArguments);
        let error = config.set_optimizer_statistics_package(value).unwrap_err();
        assert_eq!(error.status, Status::InvalidArguments);
    }
}

#[test]
fn tests_cloned_config_inherits_then_overrides_independently() {
    let mut connection = QueryOptionsConfig::new();
    connection.set_optimizer_version(s("6")).unwrap();
    connection.set_optimizer_statistics_package(s("pkg_conn")).unwrap();

    let mut statement = connection.clone();
    assert_eq!(statement.optimizer_version.as_deref(), Some("6"));
    assert_eq!(
        statement.optimizer_statistics_package.as_deref(),
        Some("pkg_conn")
    );

    statement.set_optimizer_version(s("latest")).unwrap();
    statement.set_optimizer_statistics_package(s("")).unwrap();
    assert_eq!(statement.optimizer_version.as_deref(), Some("latest"));
    assert_eq!(statement.optimizer_statistics_package.as_deref(), None);
    assert_eq!(connection.optimizer_version.as_deref(), Some("6"));
    assert_eq!(
        connection.optimizer_statistics_package.as_deref(),
        Some("pkg_conn")
    );
}

#[test]
fn apply_to_statement_is_a_noop_when_unset() {
    let config = QueryOptionsConfig::new();
    assert!(config.apply_to_statement().is_none());
    let mut set = QueryOptionsConfig::new();
    set.set_optimizer_version(s("latest")).unwrap();
    set.set_optimizer_statistics_package(s("pkg")).unwrap();
    let carried = set.apply_to_statement().unwrap();
    assert_eq!(carried.optimizer_version_string(), Some("latest"));
    assert_eq!(carried.optimizer_statistics_package_string(), Some("pkg"));
}
