use adbc_spanner::config::{metadata_sql_builder, SharedConfig};
use adbc_spanner::directed_read::ReplicaType;
use adbc_spanner::error::Status;
use adbc_spanner::metadata::{
    check_lookup_catalog, like_match, str_col, table_exists, MetadataBatch, MetadataColumn,
};
use adbc_spanner::options::OptionValue;
use adbc_spanner::request::RequestPriority;

#[test]
fn like_matching() {
    assert!(like_match("", ""));
    assert!(like_match("%", ""));
    assert!(like_match("%", "anything"));
    assert!(like_match("Singers", "Singers"));
    assert!(!like_match("Singers", "singers"));
    assert!(like_match("Sing%", "Singers"));
    assert!(like_match("%ers", "Singers"));
    assert!(like_match("S_ngers", "Singers"));
    assert!(like_match("%a%a%", "banana"));
    assert!(!like_match("%x%", "banana"));
    assert!(!like_match("", "x"));
    assert!(like_match("%", "%foo"));
    assert!(like_match("%", "%^%?"));
    assert!(like_match("a%", "a%b"));
}

#[test]
fn like_matching_multibyte_utf8() {
    assert!(like_match("_", "é"));
    assert!(!like_match("__", "é"));
    assert!(like_match("caf_", "café"));
    assert!(like_match("_本_", "日本語"));
    assert!(!like_match("____", "日本語"));
    assert!(like_match("_", "🦀"));
    assert!(like_match("%語", "日本語"));
    assert!(like_match("%本%", "日本語"));
    assert!(!like_match("%x%", "日本語"));
    assert!(like_match("日%語", "日本語"));
    assert!(like_match("é%é", "été"));
    assert!(!like_match("é_é", "été été"));
}

#[test]
fn lookup_catalog_accepts_only_the_default_empty_catalog() {
    assert!(check_lookup_catalog(None).is_ok());
    assert!(check_lookup_catalog(Some("")).is_ok());
    let err = check_lookup_catalog(Some("main")).unwrap_err();
    assert_eq!(err.status, Status::NotFound);
    assert!(err.message.contains("\"main\""), "{}", err.message);
}

#[test]
fn str_col_errors_on_out_of_range_index() {
    let empty = MetadataBatch { rows: 0, columns: Vec::new() };
    let err = str_col(&empty, 0).unwrap_err();
    assert_eq!(err.status, Status::Internal);

    let batch = MetadataBatch {
        rows: 1,
        columns: vec![MetadataColumn::Strings(vec![Some("x".to_string())])],
    };
    assert!(str_col(&batch, 0).is_ok());
    assert_eq!(str_col(&batch, 1).unwrap_err().status, Status::Internal);
}

#[test]
fn a_column_that_is_no_text_is_an_error() {
    let batch = MetadataBatch {
        rows: 1,
        columns: vec![MetadataColumn::Ints(vec![Some(1)]), MetadataColumn::Other],
    };
    for index in [0, 1] {
        let err = str_col(&batch, index).unwrap_err();
        assert_eq!(err.status, Status::Internal);
        assert_eq!(
            err.message,
            format!("INFORMATION_SCHEMA column {index} is not a string")
        );
    }
}

#[test]
fn a_lookup_that_found_a_row_found_its_table() {
    let none = MetadataBatch { rows: 0, columns: Vec::new() };
    assert!(!table_exists(&none));
    let one = MetadataBatch {
        rows: 1,
        columns: vec![MetadataColumn::Strings(vec![Some("Users".to_string())])],
    };
    assert!(table_exists(&one));
}

fn text(v: &str) -> OptionValue {
    OptionValue::Text(v.to_string())
}

fn configured() -> SharedConfig {
    let mut config = SharedConfig::new();
    config.request.set_priority(text("low")).unwrap();
    config.request.set_request_tag(text("user-request-tag")).unwrap();
    config.request.set_transaction_tag(text("user-txn-tag")).unwrap();
    config.directed_read.set(text("include:eu-west1:read_only")).unwrap();
    config.retry.set_max_attempts(OptionValue::Int(3)).unwrap();
    config
}

#[test]
fn metadata_statements_carry_priority_replicas_and_retry_bounds() {
    let built = metadata_sql_builder(&configured(), "SELECT 1");
    assert_eq!(built.sql, "SELECT 1");
    assert_eq!(built.priority, Some(RequestPriority::Low));
    let replicas = built.directed_read.unwrap();
    assert!(replicas.preferred);
    assert_eq!(replicas.selections.len(), 1);
    assert_eq!(replicas.selections[0].location.as_deref(), Some("eu-west1"));
    assert_eq!(replicas.selections[0].replica, ReplicaType::ReadOnly);
    assert_eq!(built.retry.unwrap().attempts, Some(3));
}

#[test]
fn metadata_statements_are_never_tagged() {
    let built = metadata_sql_builder(&configured(), "SELECT 1");
    assert_eq!(built.request_tag, None);
    assert_eq!(built.transaction_tag, None);
}

#[test]
fn unconfigured_metadata_statements_stay_bare() {
    let built = metadata_sql_builder(&SharedConfig::new(), "SELECT 1");
    assert_eq!(built.priority, None);
    assert!(built.directed_read.is_none());
    assert_eq!(built.retry, None);
    assert_eq!(built.backoff, None);
}
