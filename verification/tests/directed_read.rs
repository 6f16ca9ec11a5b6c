use adbc_spanner::directed_read::{parse, DirectedRead, ReplicaType};
use adbc_spanner::error::Status;
use adbc_spanner::options::OptionValue;

fn text(v: &str) -> OptionValue {
    OptionValue::Text(v.to_string())
}

#[test]
fn preferences_are_read_in_order() {
    let choice = parse("include:us-east1:read_only,us-west1,:read_write").unwrap();
    assert!(choice.preferred);
    assert!(!choice.auto_failover_disabled);
    let found: Vec<_> = choice
        .selections
        .iter()
        .map(|s| (s.location.as_deref(), s.replica))
        .collect();
    assert_eq!(
        found,
        vec![
            (Some("us-east1"), ReplicaType::ReadOnly),
            (Some("us-west1"), ReplicaType::Any),
            (None, ReplicaType::ReadWrite),
        ]
    );
}

#[test]
fn the_flag_goes_with_preferences_only() {
    let choice = parse("include:us-east1;auto_failover_disabled").unwrap();
    assert!(choice.auto_failover_disabled);
    assert!(parse("exclude:us-east1;auto_failover_disabled").is_err());
    let choice = parse("exclude:us-east1:any").unwrap();
    assert!(!choice.preferred);
    assert_eq!(choice.selections.len(), 1);
    assert!(parse("include").unwrap().selections.is_empty());
}

#[test]
fn what_the_grammar_does_not_admit_is_rejected() {
    for value in [
        "",
        "prefer:us-east1",
        "include:",
        "include:us-east1,",
        "include:us-east1:leader",
        "include:us-east1:",
        "include:us-east1;",
        "include:us-east1;failover",
    ] {
        let error = parse(value).unwrap_err();
        assert_eq!(error.status, Status::InvalidArguments, "{value}");
        assert!(
            error.message.starts_with(&format!("option spanner.directed_read: {value:?} is not")),
            "{}",
            error.message
        );
    }
}

#[test]
fn the_option_keeps_its_text_and_a_rejected_value_changes_nothing() {
    let mut option = DirectedRead::new();
    assert_eq!(option.option_string(), None);
    option.set(text(" include:us-east1 ")).unwrap();
    assert_eq!(option.option_string(), Some("include:us-east1"));
    assert!(option.set(text("nonsense")).is_err());
    assert!(option.set(OptionValue::Int(1)).is_err());
    assert_eq!(option.option_string(), Some("include:us-east1"));
    let copy = option.clone();
    option.set(text("")).unwrap();
    assert_eq!(option.option_string(), None);
    assert!(option.choice.is_none());
    assert_eq!(copy.option_string(), Some("include:us-east1"));
}
