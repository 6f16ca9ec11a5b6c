use adbc_spanner::error::{Error, Status};
use adbc_spanner::options::{
    bool_option, double_from_stored_string, f64_option, int_from_stored_string,
    non_empty_string_option, positive_i64, positive_usize, string_option, Double, F64Range,
    OptionValue,
};

fn number(v: &str) -> Option<Double> {
    v.parse::<f64>().ok().map(|d| Double { bits: d.to_bits() })
}

#[test]
fn int_getter_parses_integer_valued_options() {
    let get = |v: &str| int_from_stored_string(Ok(v.to_string()), "option o");
    assert_eq!(get("8192").unwrap(), 8192);
    assert_eq!(get("-5").unwrap(), -5);
    assert_eq!(get("0").unwrap(), 0);
}

#[test]
fn bool_option_accepts_exact_true_false_and_rejects_int_typed_values() {
    assert!(bool_option(OptionValue::Text("true".into()), "option o").unwrap());
    assert!(!bool_option(OptionValue::Text("false".into()), "option o").unwrap());
    for s in ["TRUE", "1", "yes", "0", "No", "maybe"] {
        let error = bool_option(OptionValue::Text(s.into()), "option o").unwrap_err();
        assert_eq!(error.status, Status::InvalidArguments, "string {s:?}");
        assert!(error.message.contains("option o"), "{}", error.message);
        assert!(
            error.message.contains("\"true\" or \"false\""),
            "{}",
            error.message
        );
    }
    for i in [0, 1, -1] {
        let error = bool_option(OptionValue::Int(i), "option o").unwrap_err();
        assert_eq!(error.status, Status::InvalidArguments, "Int({i})");
        assert!(error.message.contains("option o"), "{}", error.message);
        assert!(
            error.message.contains("\"true\"/\"false\""),
            "{}",
            error.message
        );
    }
}

#[test]
fn int_getter_reports_set_but_non_integer_values_as_invalid_arguments() {
    for value in ["true", "max:10s", "1.5", "", "projects/p"] {
        let error = int_from_stored_string(Ok(value.to_string()), "option o").unwrap_err();
        assert_eq!(error.status, Status::InvalidArguments, "value {value:?}");
        assert!(error.message.contains("option o"), "{}", error.message);
        assert!(
            error.message.contains(&format!("{value:?}")),
            "{}",
            error.message
        );
    }
}

#[test]
fn typed_getters_propagate_the_string_lookup_error_unchanged() {
    let unset = || Error::with_message_and_status("option o is not set".to_string(), Status::NotFound);
    let error = int_from_stored_string(Err(unset()), "option o").unwrap_err();
    assert_eq!(error.status, Status::NotFound);
    assert_eq!(error.message, "option o is not set");
    let error = double_from_stored_string(Err(unset()), None, "option o").unwrap_err();
    assert_eq!(error.status, Status::NotFound);
    assert_eq!(error.message, "option o is not set");
}

#[test]
fn double_getter_parses_and_rejects() {
    let get = |v: &str| double_from_stored_string(Ok(v.to_string()), number(v), "option o").map(|d| f64::from_bits(d.bits));
    assert_eq!(get("1.5").unwrap(), 1.5);
    assert_eq!(get("3600").unwrap(), 3600.0);
    let error = get("true").unwrap_err();
    assert_eq!(error.status, Status::InvalidArguments);
    assert!(error.message.contains("option o"), "{}", error.message);
}
#[test]
fn strings_are_kept_and_other_kinds_rejected() {
    let text = || OptionValue::Text(" a ".to_string());
    assert_eq!(string_option(text(), "option o").unwrap(), " a ");
    assert_eq!(
        non_empty_string_option(text(), "option o").unwrap().as_deref(),
        Some(" a ")
    );
    assert_eq!(
        non_empty_string_option(OptionValue::Text(String::new()), "option o").unwrap(),
        None
    );
    let error = string_option(OptionValue::Bytes(vec![1]), "option o").unwrap_err();
    assert_eq!(error.status, Status::InvalidArguments);
    assert_eq!(error.message, "option o requires a string value");
}

#[test]
fn positive_integers_come_as_integers_or_digits() {
    assert_eq!(positive_i64(OptionValue::Int(5), "option o").unwrap(), 5);
    assert_eq!(
        positive_i64(OptionValue::Text("8192".to_string()), "option o").unwrap(),
        8192
    );
    assert_eq!(
        positive_usize(OptionValue::Text("8192".to_string()), "option o").unwrap(),
        8192
    );
    for bad in [
        OptionValue::Int(0),
        OptionValue::Int(-1),
        OptionValue::Text("0".to_string()),
        OptionValue::Text(" 1".to_string()),
        OptionValue::Text("x".to_string()),
        OptionValue::Bytes(vec![1]),
    ] {
        let error = positive_i64(bad.clone(), "option o").unwrap_err();
        assert_eq!(error.status, Status::InvalidArguments);
        assert_eq!(error.message, "option o must be a positive integer");
        assert!(positive_usize(bad, "option o").is_err());
    }
}

#[test]
fn seconds_from_zero_on_stop_short_of_what_a_duration_holds() {
    let read = |v: f64| {
        let d = Double { bits: v.to_bits() };
        f64_option(OptionValue::Double(d), None, "o", F64Range::NonNegativeSeconds)
    };
    for good in [0.0, -0.0, 0.5, 1e9, 18_446_744_073_709_549_568.0] {
        assert_eq!(read(good).unwrap(), Some(Double { bits: good.to_bits() }));
    }
    for bad in [-0.5, 18_446_744_073_709_551_616.0, f64::NAN, f64::INFINITY, f64::NEG_INFINITY] {
        let error = read(bad).unwrap_err();
        assert_eq!(
            error.message,
            "option o must be a finite, non-negative number of seconds"
        );
    }
}
