use adbc_spanner::bind::resolve_parameter_names;
use adbc_spanner::error::Status;

fn columns(names: &[&str]) -> Vec<String> {
    names.iter().map(|n| n.to_string()).collect()
}

const SQL: &str = "SELECT @a, @b, @A FROM t WHERE x = '@c' -- @d";

#[test]
fn by_position_columns_go_to_the_distinct_parameters_in_order() {
    let names = resolve_parameter_names(SQL, &columns(&["x", "y"]), false).unwrap();
    assert_eq!(names, vec!["a", "b"]);
}

#[test]
fn by_position_the_counts_have_to_agree() {
    let error = resolve_parameter_names(SQL, &columns(&["x"]), false).unwrap_err();
    assert_eq!(error.status, Status::InvalidArguments);
    assert_eq!(
        error.message,
        "parameter-count mismatch: the query has 2 distinct parameters, but 1 columns are bound"
    );
    assert!(resolve_parameter_names("SELECT 1", &columns(&[]), false).unwrap().is_empty());
}

#[test]
fn by_name_columns_go_to_the_parameters_they_name() {
    let names = resolve_parameter_names(SQL, &columns(&["B", "a"]), true).unwrap();
    assert_eq!(names, vec!["B", "a"]);
    let error = resolve_parameter_names(SQL, &columns(&["a", "c"]), true).unwrap_err();
    assert_eq!(error.status, Status::InvalidArguments);
    assert_eq!(
        error.message,
        "bound column \"c\" names no parameter of the query"
    );
}
