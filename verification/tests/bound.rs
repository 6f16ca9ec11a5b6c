use std::collections::HashMap;
use std::sync::Arc;

use adbc_spanner::bound::{
    check_bind, check_bound, check_stream, not_an_array, readable_indexing, readable_sized,
    readable_variable, validate_imported, BoundStreamReader, Handed, Indexing, NextReply, Pulled,
    SchemaReply, SizedType, StreamTable, VariableType,
};
use adbc_spanner::error::Status;
use arrow_array::ffi_stream::{ArrowArrayStreamReader, FFI_ArrowArrayStream};
use arrow_array::types::Int32Type;
use arrow_array::{
    Array, ArrayRef, BinaryArray, BinaryViewArray, DictionaryArray, FixedSizeBinaryArray,
    FixedSizeListArray, Int64Array, LargeStringArray, ListArray, ListViewArray, NullArray,
    RecordBatch, RecordBatchIterator, RecordBatchOptions, RecordBatchReader, RunArray,
    StringArray, StringViewArray, StructArray, UnionArray,
};
use arrow_buffer::{OffsetBuffer, ScalarBuffer};
use arrow_data::ArrayData;
use arrow_schema::{DataType, Field, Schema, UnionFields};

const EIO: i32 = 5;

fn ints() -> ArrayData {
    StructArray::new(
        vec![Field::new("value", DataType::Int64, true)].into(),
        vec![Arc::new(Int64Array::from(vec![Some(1), None, Some(3)])) as ArrayRef],
        None,
    )
    .to_data()
}

fn null_rows() -> ArrayData {
    StructArray::new_null(vec![Field::new("value", DataType::Int64, true)].into(), 1).to_data()
}

/// The rows of `sent` as a consumer of a C stream gets them under the fields that the stream's
/// producer declares.
fn delivered_as(sent: StructArray, declared: Vec<Field>) -> RecordBatch {
    let stream = FFI_ArrowArrayStream::new(Box::new(RecordBatchIterator::new(
        vec![Ok(RecordBatch::from(sent))],
        Arc::new(Schema::new(declared)),
    )));
    let mut reader = ArrowArrayStreamReader::try_new(stream).unwrap();
    reader.next().unwrap().unwrap()
}

/// An array whose one column is declared as text and holds bytes that are not UTF-8.
fn non_utf8() -> ArrayData {
    let values = BinaryViewArray::from_iter_values([[0xff_u8; 16].as_slice()]);
    let sent = StructArray::new(
        vec![Field::new("payload", DataType::BinaryView, false)].into(),
        vec![Arc::new(values) as ArrayRef],
        None,
    );
    let declared = vec![Field::new("payload", DataType::Utf8View, false)];
    StructArray::from(delivered_as(sent, declared)).to_data()
}

/// An array with a NULL in a column that is declared to have none.
fn undeclared_null() -> ArrayData {
    let inner = StructArray::new(
        vec![Field::new("value", DataType::Int64, true)].into(),
        vec![Arc::new(Int64Array::from(vec![None::<i64>])) as ArrayRef],
        None,
    );
    let sent = StructArray::new(
        vec![Field::new("inner", inner.data_type().clone(), false)].into(),
        vec![Arc::new(inner) as ArrayRef],
        None,
    );
    let strict = DataType::Struct(vec![Field::new("value", DataType::Int64, false)].into());
    let declared = vec![Field::new("inner", strict, false)];
    delivered_as(sent, declared).column(0).to_data()
}

fn reader(fields: &[&str]) -> BoundStreamReader {
    BoundStreamReader::from_schema(SchemaReply {
        code: 0,
        detail: None,
        released: false,
        fields: Ok(fields.iter().map(|f| f.to_string()).collect()),
    })
    .unwrap()
}

fn delivered(columns: usize) -> NextReply<'static> {
    NextReply { code: 0, detail: None, released: false, columns }
}

#[test]
fn bound_stream_schema_failures_preserve_diagnostics_and_release_ownership() {
    for (code, detail, released, expected) in [
        (EIO, Some("producer schema unavailable"), true, "producer schema unavailable"),
        (EIO, None, true, "no error description"),
        (0, None, true, "released schema"),
    ] {
        let failure = BoundStreamReader::from_schema(SchemaReply {
            code,
            detail,
            released,
            fields: Ok(Vec::new()),
        })
        .unwrap_err();
        assert_eq!(failure.status, Status::InvalidArguments);
        assert!(failure.message.contains(expected), "{}", failure.message);
        if expected != "released schema" {
            assert!(failure.message.contains(&EIO.to_string()));
        }
    }
    let failure = BoundStreamReader::from_schema(SchemaReply {
        code: 0,
        detail: None,
        released: false,
        fields: Err("nonsense".to_string()),
    })
    .unwrap_err();
    assert_eq!(
        failure.message,
        "bound stream returned an invalid schema: nonsense"
    );
}

#[test]
fn imported_stream_batches_preserve_schema_rows_and_buffers_after_release() {
    for fields in [vec![], vec![Field::new("value", DataType::Int64, true)]] {
        let schema = Arc::new(Schema::new(fields).with_metadata(HashMap::from([(
            "source".to_owned(),
            "caller".to_owned(),
        )])));
        let columns = if schema.fields().is_empty() {
            vec![]
        } else {
            vec![Arc::new(Int64Array::from(vec![Some(1), None, Some(3)])) as ArrayRef]
        };
        let batch = RecordBatch::try_new_with_options(
            schema.clone(),
            columns,
            &RecordBatchOptions::new().with_row_count(Some(3)),
        )
        .unwrap();
        let sent = [Ok(RecordBatch::new_empty(schema.clone())), Ok(batch.clone())];
        let stream = FFI_ArrowArrayStream::new(Box::new(RecordBatchIterator::new(
            sent,
            schema.clone(),
        )));
        let mut imported = ArrowArrayStreamReader::try_new(stream).unwrap();
        assert_eq!(imported.schema(), schema);
        let names: Vec<&str> = schema.fields().iter().map(|f| f.name().as_str()).collect();
        let mut reader = reader(&names);
        assert_eq!(reader.fields, names);

        let empty = imported.next().unwrap().unwrap();
        assert_eq!(reader.next(delivered(empty.num_columns())), Pulled::Import);
        assert_eq!(reader.accept(&StructArray::from(empty.clone()).to_data()), Ok(()));
        assert_eq!(empty.num_rows(), 0);

        let found = imported.next().unwrap().unwrap();
        assert_eq!(reader.next(delivered(found.num_columns())), Pulled::Import);
        let data = StructArray::from(found.clone()).to_data();
        assert_eq!(reader.accept(&data), Ok(()));
        assert_eq!(found, batch);
        drop(batch);
        assert!(!reader.finished);
        assert!(imported.next().is_none());
        let end = NextReply { code: 0, detail: None, released: true, columns: 0 };
        assert_eq!(reader.next(end), Pulled::End);
        assert_eq!(reader.next(end), Pulled::End);
        drop(imported);
        drop(reader);

        // What was accepted outlives the stream: the same schema, rows and buffers.
        assert_eq!(found.num_rows(), 3);
        assert_eq!(found.schema(), schema);
        assert_eq!(data.len(), 3);
        if !found.columns().is_empty() {
            let values = found.column(0).as_any().downcast_ref::<Int64Array>().unwrap();
            assert_eq!(
                values.iter().collect::<Vec<_>>(),
                vec![Some(1), None, Some(3)]
            );
            assert!(data.child_data()[0].ptr_eq(&values.to_data()));
        }
    }
}

#[test]
fn imported_streams_reject_null_rows_and_mismatched_column_counts() {
    let mut mismatched = reader(&[]);
    assert_eq!(
        mismatched.next(delivered(1)),
        Pulled::Failed("bound stream returned 1 columns, but its schema declares 0".to_string())
    );
    assert!(mismatched.finished);

    let mut null_row = reader(&["value"]);
    assert_eq!(null_row.next(delivered(1)), Pulled::Import);
    let failure = null_row.accept(&null_rows()).unwrap_err();
    assert!(failure.contains("top-level null rows"), "{failure}");
    assert!(null_row.finished);
}

#[test]
fn a_failed_read_ends_the_stream() {
    let mut failing = reader(&["value"]);
    let reply = NextReply { code: EIO, detail: Some("gone"), released: true, columns: 0 };
    assert_eq!(
        failing.next(reply),
        Pulled::Failed(
            "bound Arrow C stream get_next failed with error code 5: gone".to_string()
        )
    );
    assert!(failing.finished);
    assert_eq!(failing.next(delivered(1)), Pulled::End);

    let mut unimportable = reader(&["value"]);
    assert_eq!(unimportable.next(delivered(1)), Pulled::Import);
    unimportable.fail();
    assert!(unimportable.finished);
}

#[test]
fn a_stream_is_checked_before_it_is_taken_over() {
    let whole = StreamTable { release: true, get_schema: true, get_next: true, get_last_error: true };
    assert!(check_stream(Some(whole)).is_ok());
    for (table, expected) in [
        (None, "stream must not be null"),
        (
            Some(StreamTable { release: false, ..whole }),
            "stream has already been released",
        ),
        (
            Some(StreamTable { get_schema: false, ..whole }),
            "stream is missing its get_schema callback",
        ),
        (
            Some(StreamTable { get_next: false, ..whole }),
            "stream is missing its get_next callback",
        ),
        (
            Some(StreamTable { get_last_error: false, ..whole }),
            "stream is missing its get_last_error callback",
        ),
    ] {
        let error = check_stream(table).unwrap_err();
        assert_eq!(error.status, Status::InvalidArguments);
        assert_eq!(error.message, expected);
    }
}

#[test]
fn a_bind_is_checked_before_either_input_is_taken_over() {
    assert!(check_bind(Handed::Live, Handed::Live).is_ok());
    for (values, schema, expected) in [
        (Handed::Null, Handed::Null, "values must not be null"),
        (Handed::Released, Handed::Live, "values has already been released"),
        (Handed::Live, Handed::Null, "schema must not be null"),
        (Handed::Live, Handed::Released, "schema has already been released"),
    ] {
        let error = check_bind(values, schema).unwrap_err();
        assert_eq!(error.status, Status::InvalidArguments);
        assert_eq!(error.message, expected);
    }
    assert_eq!(
        not_an_array("nonsense").message,
        "bind values are not a valid Arrow array: nonsense"
    );
}

#[test]
fn bound_values_are_rows_of_columns() {
    assert!(check_bound(&ints()).is_ok());
    let error = check_bound(&Int64Array::from(vec![1]).into_data()).unwrap_err();
    assert_eq!(error.status, Status::InvalidArguments);
    assert_eq!(error.message, "bind values must be a struct array, not Int64");
    let error = check_bound(&null_rows()).unwrap_err();
    assert_eq!(
        error.message,
        "bind values must not contain top-level null rows; put null values in the individual \
         columns instead"
    );
}

#[test]
fn sound_arrays_are_accepted_under_any_names() {
    assert_eq!(validate_imported(&ints(), &vec!["value".to_string()]), Ok(()));
    assert_eq!(validate_imported(&ints(), &Vec::new()), Ok(()));
}

#[test]
fn imported_arrays_are_validated_and_name_the_column_that_fails() {
    let mut reader = reader(&["payload"]);
    assert_eq!(reader.next(delivered(1)), Pulled::Import);
    let failure = reader.accept(&non_utf8()).unwrap_err();
    assert!(
        failure.contains(r#"column "payload" is invalid"#),
        "{failure}"
    );
    assert!(failure.contains("non-UTF-8"), "{failure}");
    assert_eq!(reader.next(delivered(1)), Pulled::End);
}

#[test]
fn an_array_that_is_not_what_it_claims_to_be_cannot_be_bound() {
    let error = check_bound(&non_utf8()).unwrap_err();
    assert_eq!(error.status, Status::InvalidArguments);
    assert!(
        error.message.starts_with(
            "bind values are not a valid Arrow array: column \"payload\" is invalid: "
        ),
        "{}",
        error.message
    );
    let error = check_bound(&undeclared_null()).unwrap_err();
    assert!(
        error.message.starts_with(
            "bind values are not a valid Arrow array: the top-level struct is invalid: "
        ),
        "{}",
        error.message
    );
}

/// One row with these columns, named by their position.
fn row_of(columns: Vec<ArrayRef>) -> ArrayData {
    let fields: Vec<Field> = columns
        .iter()
        .enumerate()
        .map(|(i, c)| Field::new(i.to_string(), c.data_type().clone(), true))
        .collect();
    StructArray::new(fields.into(), columns, None).to_data()
}

/// A number inside so many lists.
fn listed(levels: usize) -> ArrayRef {
    let mut values: ArrayRef = Arc::new(Int64Array::from(vec![7]));
    for _ in 0..levels {
        let item = Arc::new(Field::new_list_field(values.data_type().clone(), true));
        let offsets = OffsetBuffer::new(ScalarBuffer::from(vec![0, 1]));
        values = Arc::new(ListArray::new(item, offsets, values, None));
    }
    values
}

#[test]
fn arrays_of_every_form_are_accepted() {
    let item = Arc::new(Field::new_list_field(DataType::Int64, true));
    let columns: Vec<ArrayRef> = vec![
        Arc::new(StringArray::from(vec!["a"])),
        Arc::new(LargeStringArray::from(vec!["b"])),
        Arc::new(StringViewArray::from(vec!["a text that does not fit a view"])),
        Arc::new(BinaryArray::from_vec(vec![b"c"])),
        Arc::new(FixedSizeBinaryArray::try_from_iter([[1_u8, 2]].into_iter()).unwrap()),
        Arc::new(FixedSizeListArray::from_iter_primitive::<Int32Type, _, _>(
            vec![Some(vec![Some(1), None])],
            2,
        )),
        listed(1),
        Arc::new(ListViewArray::new(
            item,
            ScalarBuffer::from(vec![0]),
            ScalarBuffer::from(vec![1]),
            Arc::new(Int64Array::from(vec![8])),
            None,
        )),
        Arc::new(["d"].into_iter().collect::<DictionaryArray<Int32Type>>()),
        Arc::new(["e"].into_iter().collect::<RunArray<Int32Type>>()),
        Arc::new(
            UnionArray::try_new(
                UnionFields::try_new(vec![0], vec![Field::new("n", DataType::Int64, true)])
                    .unwrap(),
                ScalarBuffer::from(vec![0_i8]),
                Some(ScalarBuffer::from(vec![0_i32])),
                vec![Arc::new(Int64Array::from(vec![9])) as ArrayRef],
            )
            .unwrap(),
        ),
        Arc::new(NullArray::new(1)),
    ];
    let names: Vec<String> = (0..columns.len()).map(|i| i.to_string()).collect();
    let data = row_of(columns);
    assert_eq!(validate_imported(&data, &names), Ok(()));
    check_bound(&data).unwrap();
}

#[test]
fn arrays_may_be_nested_deep() {
    let names = vec!["0".to_string()];
    for levels in [1, 127, 128, 200] {
        assert_eq!(validate_imported(&row_of(vec![listed(levels)]), &names), Ok(()));
    }
}

#[test]
fn sizes_that_cannot_be_computed_with_are_found_before_validation() {
    let none = Vec::new();
    assert!(readable_sized(SizedType::FixedSizeList(i32::MAX), 1 << 31, 0, &none));
    assert!(!readable_sized(SizedType::FixedSizeList(i32::MAX), 1 << 34, 0, &none));
    assert!(!readable_sized(SizedType::FixedSizeList(2), usize::MAX - 1, 1, &none));
    // These two are refused by the validation itself.
    assert!(readable_sized(SizedType::FixedSizeList(-1), 1 << 34, 0, &none));
    assert!(readable_sized(SizedType::FixedSizeList(2), usize::MAX, 1, &none));
    assert!(readable_sized(SizedType::FixedSizeBinary(0), 1, 0, &none));
    assert!(!readable_sized(SizedType::FixedSizeBinary(-1), 1, 0, &none));
    assert!(readable_sized(SizedType::DenseUnion, 1, 0, &vec![1, 4]));
    assert!(!readable_sized(SizedType::DenseUnion, 1, 0, &vec![1, 5]));
    assert!(readable_sized(SizedType::Other, 1, 0, &vec![5]));

    for of_type in [
        VariableType::Utf8,
        VariableType::Binary,
        VariableType::List,
        VariableType::Entries,
    ] {
        assert!(readable_variable(of_type, &vec![8, 3]));
        assert!(!readable_variable(of_type, &vec![9, 3]));
    }
    for of_type in [
        VariableType::LargeUtf8,
        VariableType::LargeBinary,
        VariableType::LargeList,
    ] {
        assert!(readable_variable(of_type, &vec![16, 3]));
        assert!(!readable_variable(of_type, &vec![12, 3]));
    }
    assert!(readable_variable(VariableType::ListView, &vec![4, 4]));
    assert!(!readable_variable(VariableType::ListView, &vec![4, 6]));
    assert!(!readable_variable(VariableType::LargeListView, &vec![8, 4]));
    assert!(!readable_variable(VariableType::Utf8View, &vec![24]));
    assert!(!readable_variable(VariableType::BinaryView, &vec![24]));
    assert!(readable_variable(VariableType::Other, &vec![5]));

    assert!(readable_indexing(Indexing::Keys(Some(4)), &vec![8], &None));
    assert!(!readable_indexing(Indexing::Keys(Some(4)), &vec![6], &None));
    assert!(!readable_indexing(Indexing::BinaryKeys(-1), &none, &None));
    assert!(!readable_indexing(Indexing::NestedKeys, &none, &None));
    assert!(readable_indexing(Indexing::Runs(Some(2)), &none, &Some(vec![4])));
    assert!(!readable_indexing(Indexing::Runs(Some(2)), &none, &Some(vec![3])));
    assert!(readable_indexing(Indexing::Direct, &vec![3], &None));
}
