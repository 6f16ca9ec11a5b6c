use adbc_spanner::error::Status;
use adbc_spanner::nested::{list_of, list_of_nullable};
use arrow_array::{Array, Int64Array, ListArray};
use arrow_data::ArrayData;

fn ints(values: Vec<i64>) -> ArrayData {
    Int64Array::from(values).into_data()
}

#[test]
fn nested_list_of_offset_overflow_is_an_error_not_a_panic() {
    let too_long = vec![usize::MAX, 1];
    let error = list_of(&too_long, ints(Vec::new())).unwrap_err();
    assert_eq!(error.status, Status::Internal);
}

#[test]
fn tests_list_of_offset_overflow_is_an_error_not_a_panic() {
    let too_long = vec![usize::MAX, 1];
    let error = list_of(&too_long, ints(Vec::new())).unwrap_err();
    assert_eq!(error.status, Status::Internal);
}

#[test]
fn lists_group_consecutive_items() {
    let lists = ListArray::from(list_of(&vec![2, 0, 1], ints(vec![7, 8, 9])).unwrap());
    assert_eq!(lists.len(), 3);
    let item = |i: usize| {
        let values = lists.value(i);
        let values = values.as_any().downcast_ref::<Int64Array>().unwrap();
        values.values().to_vec()
    };
    assert_eq!(item(0), vec![7, 8]);
    assert_eq!(item(1), Vec::<i64>::new());
    assert_eq!(item(2), vec![9]);
    assert!(lists.is_valid(1));
}

#[test]
fn lists_are_null_where_the_validity_says_so() {
    let data = list_of_nullable(&vec![1, 0], ints(vec![7]), Some(vec![true, false])).unwrap();
    let lists = ListArray::from(data);
    assert!(lists.is_valid(0));
    assert!(lists.is_null(1));
}

#[test]
fn items_that_are_missing_are_an_error() {
    let error = list_of(&vec![2], ints(vec![7])).unwrap_err();
    assert_eq!(error.status, Status::Internal);
    assert!(
        error.message.starts_with("failed to build metadata result batch: "),
        "{}",
        error.message
    );
}
