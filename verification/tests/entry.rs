use adbc_spanner::entry::{
    export_partitions, init, object_depth, objects_request, partition_outputs, release_driver,
    release_partitions, requested_info, rows_affected, statistics_request, table_lookup, Revision,
    ADBC_VERSION_1_0_0, ADBC_VERSION_1_1_0,
};
use adbc_spanner::error::Status;
use adbc_spanner::info::InfoCode;
use adbc_spanner::objects::ObjectDepth;

#[test]
fn a_caller_gets_the_table_of_its_version() {
    assert_eq!(init(ADBC_VERSION_1_1_0, false).unwrap(), Revision::V110);
    assert_eq!(init(ADBC_VERSION_1_0_0, false).unwrap(), Revision::V100);
}

#[test]
fn rejects_an_unknown_version_as_not_implemented() {
    let error = init(999, false).unwrap_err();
    assert_eq!(error.status, Status::NotImplemented);
    assert!(
        error.message.contains("unsupported ADBC version 999"),
        "{}",
        error.message
    );
    assert_eq!(
        error.message,
        "unsupported ADBC version 999; this driver implements 1000000 and 1001000"
    );
}

#[test]
fn rejects_a_null_vtable() {
    let error = init(ADBC_VERSION_1_1_0, true).unwrap_err();
    assert_eq!(error.status, Status::InvalidArguments);
    assert_eq!(error.message, "driver must not be null");
}

#[test]
fn releasing_the_driver_twice_reports_invalid_state() {
    let mut releasable = true;
    assert!(release_driver(false, &mut releasable).is_ok());
    let error = release_driver(false, &mut releasable).unwrap_err();
    assert_eq!(error.status, Status::InvalidState);
    assert!(release_driver(true, &mut releasable).is_ok());
}

#[test]
fn get_objects_accepts_every_documented_depth_and_rejects_the_rest() {
    assert_eq!(object_depth(0).unwrap(), ObjectDepth::All);
    assert_eq!(object_depth(1).unwrap(), ObjectDepth::Catalogs);
    assert_eq!(object_depth(2).unwrap(), ObjectDepth::Schemas);
    assert_eq!(object_depth(3).unwrap(), ObjectDepth::Tables);
    for depth in [-1, 4, 99, i32::MAX, i32::MIN] {
        let error = object_depth(depth).unwrap_err();
        assert_eq!(error.status, Status::InvalidArguments);
        assert!(error.message.contains(&depth.to_string()), "{}", error.message);
        assert!(!error.message.contains("4 (columns)"), "{}", error.message);
        assert!(
            error.message.contains("0 (all, including columns)"),
            "{}",
            error.message
        );
    }
    let types = vec![b"TABLE".to_vec(), b"VIEW".to_vec()];
    for depth in 0..=3 {
        let request = objects_request(false, depth, None, None, None, Some(&types), None);
        assert_eq!(request.unwrap().table_type.unwrap(), ["TABLE", "VIEW"]);
    }
}

#[test]
fn a_null_list_asks_about_everything_and_an_empty_one_about_nothing() {
    assert_eq!(requested_info(None), None);
    assert_eq!(requested_info(Some(&Vec::new())), Some(Vec::new()));
    assert_eq!(
        requested_info(Some(&vec![0, 103, 7])),
        Some(vec![
            InfoCode::VendorName,
            InfoCode::DriverAdbcVersion,
            InfoCode::Other(7)
        ])
    );
}

#[test]
fn only_an_update_reports_how_many_rows_it_affected() {
    assert_eq!(rows_affected(false, Some(3)), 3);
    assert_eq!(rows_affected(false, None), -1);
    assert_eq!(rows_affected(true, Some(3)), -1);
}

#[test]
fn exported_partitions_expose_their_payloads_and_release_idempotently() {
    let payloads = vec![b"first".to_vec(), Vec::new(), b"third-partition".to_vec()];
    let mut exported = export_partitions(payloads.clone());
    assert_eq!(exported.lengths, vec![5, 0, 15]);
    assert_eq!(exported.payloads, Some(payloads));

    release_partitions(&mut exported);
    assert!(exported.payloads.is_none());
    assert!(exported.lengths.is_empty());
    release_partitions(&mut exported);
    assert!(exported.payloads.is_none());
    assert!(exported.lengths.is_empty());
}

#[test]
fn exporting_no_partitions_still_releases_cleanly() {
    let mut exported = export_partitions(Vec::new());
    assert!(exported.payloads.is_some());
    assert!(exported.lengths.is_empty());
    release_partitions(&mut exported);
    assert!(exported.payloads.is_none());
}

#[test]
fn exported_partitions_point_into_the_owned_payloads() {
    let payloads = vec![vec![9_u8; 4096]];
    let buffer = payloads[0].as_ptr();
    let exported = export_partitions(payloads);
    let owned = exported.payloads.as_ref().unwrap();
    assert_eq!(owned.len(), 1);
    assert_eq!(owned[0].as_ptr(), buffer);
    assert_eq!(exported.lengths, vec![4096]);
}

#[test]
fn the_arguments_of_get_objects_are_checked_in_order() {
    let bad: Option<&[u8]> = Some(b"\xff");
    let error = objects_request(true, 9, bad, bad, bad, None, bad).unwrap_err();
    assert_eq!(error.message, "out must not be null");
    let error = objects_request(false, 9, bad, bad, bad, None, bad).unwrap_err();
    assert!(error.message.contains("depth 9"), "{}", error.message);
    let error = objects_request(false, 0, None, bad, bad, None, bad).unwrap_err();
    assert!(error.message.starts_with("db_schema must be valid UTF-8"), "{}", error.message);
    let types = vec![b"\xff".to_vec()];
    let error = objects_request(false, 0, None, None, None, Some(&types), bad).unwrap_err();
    assert!(error.message.starts_with("table_type must be valid UTF-8"), "{}", error.message);

    let types = vec![b"VIEW".to_vec()];
    let name: Option<&[u8]> = Some(b"Sing%");
    let request = objects_request(false, 3, None, None, name, Some(&types), None).unwrap();
    assert_eq!(request.depth, ObjectDepth::Tables);
    assert_eq!(request.catalog, None);
    assert_eq!(request.table_name.as_deref(), Some("Sing%"));
    assert_eq!(request.table_type, Some(vec!["VIEW".to_string()]));
}

#[test]
fn get_table_schema_requires_a_table_name() {
    let error = table_lookup(false, None, None, None).unwrap_err();
    assert_eq!(error.status, Status::InvalidArguments);
    assert_eq!(error.message, "table_name must not be null");
    let error = table_lookup(false, None, Some(b"\xff"), Some(b"Singers")).unwrap_err();
    assert_eq!(error.status, Status::InvalidArguments);
    let error = table_lookup(true, None, None, None).unwrap_err();
    assert_eq!(error.message, "schema must not be null");
    let lookup = table_lookup(false, None, Some(b""), Some(b"Singers")).unwrap();
    assert_eq!(lookup.catalog, None);
    assert_eq!(lookup.db_schema.as_deref(), Some(""));
    assert_eq!(lookup.table_name, "Singers");
}

#[test]
fn a_truth_value_is_false_only_for_zero() {
    assert!(!statistics_request(false, None, None, None, 0).unwrap().approximate);
    assert!(statistics_request(false, None, None, None, 255).unwrap().approximate);
    assert!(statistics_request(true, None, None, None, 0).is_err());
    let request = statistics_request(false, Some(b""), None, Some(b"t"), 1).unwrap();
    assert_eq!(request.catalog.as_deref(), Some(""));
    assert_eq!(request.table_name.as_deref(), Some("t"));
}

#[test]
fn missing_partition_outputs_are_found_before_the_query_runs() {
    assert!(partition_outputs(false, false).is_ok());
    let error = partition_outputs(true, true).unwrap_err();
    assert_eq!(error.message, "schema must not be null");
    let error = partition_outputs(false, true).unwrap_err();
    assert_eq!(error.message, "partitions must not be null");
}
