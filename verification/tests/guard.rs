use adbc_spanner::error::Status;
use adbc_spanner::guard::{
    byte_slice, caught_panic, optional_str, optional_str_list, panic_message, required_output,
    required_str, sanitized_cstring, write_bytes, write_string, PanicPayload, Written,
};

#[test]
fn catches_a_panic_as_an_internal_error() {
    let error = caught_panic(PanicPayload::Borrowed("kaboom"));
    assert_eq!(error.status, Status::Internal);
    assert_eq!(error.message, "Uncaught panic in the Spanner driver: kaboom");
}

#[test]
fn renders_both_panic_payload_shapes() {
    assert_eq!(panic_message(PanicPayload::Borrowed("borrowed")), "borrowed");
    assert_eq!(panic_message(PanicPayload::Owned(&"owned".to_string())), "owned");
    assert_eq!(panic_message(PanicPayload::Other), "unknown panic payload");
}

#[test]
fn sanitized_cstring_replaces_interior_nuls_instead_of_truncating() {
    assert_eq!(sanitized_cstring("before\0after"), b"before?after");
    assert_eq!(sanitized_cstring("clean"), b"clean");
    assert_eq!(sanitized_cstring(""), b"");
}

#[test]
fn write_string_and_bytes_report_the_required_size_without_writing() {
    let written = write_string("hello", false, Some(2)).unwrap();
    assert_eq!(written, Written { required: 6, copied: None });

    let written = write_string("hello", false, Some(6)).unwrap();
    assert_eq!(written, Written { required: 6, copied: Some(b"hello\0".to_vec()) });

    let written = write_bytes(&b"abc".to_vec(), false, Some(1)).unwrap();
    assert_eq!(written, Written { required: 3, copied: None });
    let written = write_bytes(&b"abc".to_vec(), false, Some(3)).unwrap();
    assert_eq!(written, Written { required: 3, copied: Some(b"abc".to_vec()) });
}

#[test]
fn write_string_preserves_utf8_and_terminates_empty_values() {
    for value in ["", "smörgås"] {
        let written = write_string(value, false, Some(value.len() + 1)).unwrap();
        assert_eq!(written.required, value.len() + 1);
        let copied = written.copied.unwrap();
        assert_eq!(copied.last(), Some(&0));
        assert_eq!(&copied[..value.len()], value.as_bytes());
    }

    let error = write_string("left\0right", false, Some(16)).unwrap_err();
    assert_eq!(error.status, Status::Internal);
    assert!(error.message.contains("byte 4"), "{}", error.message);
}

#[test]
fn a_call_with_the_reported_length_gets_the_value() {
    for value in ["", "hello", "sm\u{f6}rg\u{e5}s"] {
        let probe = write_string(value, true, Some(0)).unwrap();
        assert_eq!(probe.copied, None);
        let written = write_string(value, false, Some(probe.required)).unwrap();
        assert_eq!(written.required, probe.required);
        assert_eq!(written.copied.unwrap().len(), probe.required);
    }
}

#[test]
fn a_null_buffer_is_a_size_probe_only_when_it_says_it_holds_nothing() {
    let error = write_string("hello", true, Some(64)).unwrap_err();
    assert_eq!(error.status, Status::InvalidArguments);
    assert!(error.message.contains("64"), "{}", error.message);

    let written = write_string("hello", true, Some(0)).unwrap();
    assert_eq!(written, Written { required: 6, copied: None });

    let written = write_bytes(&b"abc".to_vec(), true, Some(0)).unwrap();
    assert_eq!(written, Written { required: 3, copied: None });
    assert!(write_bytes(&Vec::new(), true, Some(3)).is_err());
    let written = write_bytes(&Vec::new(), true, Some(0)).unwrap();
    assert_eq!(written, Written { required: 0, copied: None });

    let error = write_string("hello", false, None).unwrap_err();
    assert_eq!(error.message, "length must not be null");
}

#[test]
fn optional_str_maps_null_to_none_and_required_str_rejects_it() {
    assert_eq!(optional_str(None, "catalog").unwrap(), None);
    assert_eq!(
        optional_str(Some(b"main"), "catalog").unwrap().as_deref(),
        Some("main")
    );
    let error = required_str(None, "table_name").unwrap_err();
    assert_eq!(error.status, Status::InvalidArguments);
    assert_eq!(error.message, "table_name must not be null");
    assert_eq!(required_str(Some(b"Users"), "table_name").unwrap(), "Users");
}

#[test]
fn text_that_is_not_utf8_is_rejected_with_the_reason() {
    let error = required_str(Some(b"a\xff"), "key").unwrap_err();
    assert_eq!(error.status, Status::InvalidArguments);
    assert_eq!(
        error.message,
        "key must be valid UTF-8: invalid utf-8 sequence of 1 bytes from index 1"
    );
    assert!(optional_str(Some(b"\xff"), "key").is_err());
    let list = vec![b"TABLE".to_vec(), b"\xff".to_vec()];
    assert!(optional_str_list(Some(&list), "table_type").is_err());
}

#[test]
fn optional_str_list_reads_until_the_null_terminator() {
    let list = vec![b"TABLE".to_vec(), b"VIEW".to_vec()];
    assert_eq!(
        optional_str_list(Some(&list), "table_type").unwrap(),
        Some(vec!["TABLE".to_string(), "VIEW".to_string()])
    );
    assert_eq!(optional_str_list(None, "table_type").unwrap(), None);
}

#[test]
fn byte_slice_accepts_null_only_when_empty() {
    assert!(byte_slice(true, 0, "plan").is_ok());
    let error = byte_slice(true, 1, "plan").unwrap_err();
    assert_eq!(error.message, "plan must not be null for a length of 1");
    assert!(byte_slice(false, 3, "plan").is_ok());
}

#[test]
fn a_missing_output_is_rejected() {
    assert!(required_output(false, "out").is_ok());
    let error = required_output(true, "out").unwrap_err();
    assert_eq!(error.message, "out must not be null");
}
