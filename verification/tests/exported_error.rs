use adbc_spanner::error::{Error, Status};
use adbc_spanner::exported_error::{
    error_get_detail, error_get_detail_count, export_error, ADBC_ERROR_VENDOR_CODE_PRIVATE_DATA,
};

const V110: i32 = ADBC_ERROR_VENDOR_CODE_PRIVATE_DATA;

fn error(message: &str, status: Status) -> Error {
    Error::with_message_and_status(message.to_string(), status)
}

#[test]
fn exports_a_message_and_releases_idempotently() {
    let out = export_error(V110, &error("boom", Status::IO));
    assert_eq!(out.message, b"boom");
    assert_eq!(out.vendor_code, V110);
}

#[test]
fn reusing_an_out_parameter_releases_the_previous_error() {
    let first = export_error(V110, &error("first", Status::IO));
    let second = export_error(first.vendor_code, &error("second", Status::Internal));
    assert_eq!(second.message, b"second");
    assert!(second.details.is_some());
}

#[test]
fn a_1_0_0_caller_keeps_its_trailing_bytes() {
    let mut legacy = error("legacy", Status::NotFound);
    legacy.vendor_code = 42;
    legacy.sqlstate = [1, 2, 3, 4, 5];
    let out = export_error(0, &legacy);
    assert_eq!(out.message, b"legacy");
    assert_eq!(out.vendor_code, 42);
    assert_eq!(out.sqlstate, [1, 2, 3, 4, 5]);
    assert!(out.details.is_none());
}

#[test]
fn a_1_0_0_caller_is_not_relabelled_by_a_sentinel_valued_vendor_code() {
    let mut first = error("first", Status::Internal);
    first.vendor_code = V110;
    let out = export_error(0, &first);
    assert_ne!(out.vendor_code, V110);
    assert_eq!(out.vendor_code, 0);
    let out = export_error(out.vendor_code, &error("second", Status::Internal));
    assert_eq!(out.message, b"second");
    assert!(out.details.is_none());
}

#[test]
fn round_trips_error_details() {
    let mut detailed = error("detailed", Status::Internal);
    detailed.details = Some(vec![
        ("k1".to_string(), b"v1".to_vec()),
        ("k2".to_string(), b"".to_vec()),
    ]);
    let out = export_error(V110, &detailed);
    assert_eq!(error_get_detail_count(out.vendor_code, &out.details), 2);
    let first = error_get_detail(out.vendor_code, &out.details, 0).unwrap();
    assert_eq!(first.0, b"k1");
    assert_eq!(first.1, b"v1");
    assert!(error_get_detail(out.vendor_code, &out.details, 2).is_none());
    assert!(error_get_detail(out.vendor_code, &out.details, -1).is_none());
    assert_eq!(error_get_detail_count(out.vendor_code, &None), 0);
}

#[test]
fn the_displaced_vendor_code_is_the_last_detail() {
    let mut detailed = error("detailed", Status::Internal);
    detailed.vendor_code = -7;
    detailed.details = Some(vec![("k1".to_string(), b"v1".to_vec())]);
    let out = export_error(V110, &detailed);
    assert_eq!(error_get_detail_count(out.vendor_code, &out.details), 2);
    let first = error_get_detail(out.vendor_code, &out.details, 0).unwrap();
    assert_eq!(first.0, b"k1");
    let last = error_get_detail(out.vendor_code, &out.details, 1).unwrap();
    assert_eq!(last.0, b"adbc.spanner.vendor_code");
    assert_eq!(last.1, b"-7");
}

#[test]
fn the_detail_getters_ignore_private_data_on_a_1_0_0_error() {
    let mut legacy = error("legacy", Status::Internal);
    legacy.details = Some(vec![("k1".to_string(), b"v1".to_vec())]);
    let out = export_error(0, &legacy);
    assert!(out.details.is_none());
    let foreign = Some(vec![(b"k1".to_vec(), b"v1".to_vec())]);
    assert_eq!(error_get_detail_count(out.vendor_code, &foreign), 0);
    assert!(error_get_detail(out.vendor_code, &foreign, 0).is_none());
}

#[test]
fn a_message_with_an_interior_nul_is_still_reported() {
    let out = export_error(V110, &error("before\0after", Status::IO));
    assert_eq!(out.message, b"before?after");
}

#[test]
fn a_detail_free_error_still_marks_itself_initialized() {
    let out = export_error(V110, &error("plain", Status::IO));
    assert!(out.details.is_some());
    assert_eq!(error_get_detail_count(out.vendor_code, &out.details), 0);
}

#[test]
fn an_error_that_was_never_filled_in_has_no_details() {
    assert_eq!(error_get_detail_count(0, &None), 0);
    assert!(error_get_detail(0, &None, 0).is_none());
}

#[test]
fn status_codes_match_the_c_header() {
    for (status, code) in [
        (Status::Success, 0),
        (Status::Unknown, 1),
        (Status::NotImplemented, 2),
        (Status::NotFound, 3),
        (Status::AlreadyExists, 4),
        (Status::InvalidArguments, 5),
        (Status::InvalidState, 6),
        (Status::InvalidData, 7),
        (Status::Integrity, 8),
        (Status::Internal, 9),
        (Status::IO, 10),
        (Status::Cancelled, 11),
        (Status::Timeout, 12),
        (Status::Unauthenticated, 13),
        (Status::Unauthorized, 14),
    ] {
        assert_eq!(status.code(), code, "{status:?}");
    }
}
