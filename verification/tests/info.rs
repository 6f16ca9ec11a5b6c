use std::collections::HashSet;

use adbc_core::schemas::GET_INFO_SCHEMA;
use adbc_spanner::info::{reported_codes, InfoCode, DRIVER_VERSION, VENDOR_NAME};
use arrow_array::{Array, RecordBatch, StringArray, StructArray, UInt32Array, UnionArray};
use arrow_schema::{DataType, UnionMode};

fn build(codes: Option<Vec<InfoCode>>) -> Result<RecordBatch, adbc_spanner::error::Error> {
    let data = adbc_spanner::info::build(codes.as_ref())?;
    Ok(RecordBatch::from(StructArray::from(data)))
}

#[test]
fn info_build_matches_schema_and_reports_defaults() {
    let batch = build(None).unwrap();
    assert_eq!(batch.schema(), GET_INFO_SCHEMA.clone());
    assert_eq!(batch.num_rows(), reported_codes().len());
    let names = batch
        .column(0)
        .as_any()
        .downcast_ref::<UInt32Array>()
        .unwrap();
    let got: Vec<u32> = (0..names.len()).map(|i| names.value(i)).collect();
    let want: Vec<u32> = reported_codes().iter().map(|c| c.number()).collect();
    assert_eq!(got, want);
}

#[test]
fn info_requested_codes_yield_one_row_each_in_code_order() {
    let requested = [
        InfoCode::VendorName,
        InfoCode::DriverVersion,
        InfoCode::DriverName,
        InfoCode::VendorVersion,
    ];
    let batch = build(Some(requested.iter().copied().collect())).unwrap();
    assert_eq!(batch.schema(), GET_INFO_SCHEMA.clone());
    assert_eq!(batch.num_rows(), 4);

    let names = batch
        .column(0)
        .as_any()
        .downcast_ref::<UInt32Array>()
        .unwrap();
    let mut want: Vec<u32> = requested.iter().map(|c| c.number()).collect();
    want.sort_unstable();
    let got: Vec<u32> = (0..names.len()).map(|i| names.value(i)).collect();
    assert_eq!(got, want, "rows are ordered by info code");

    let union = batch
        .column(1)
        .as_any()
        .downcast_ref::<UnionArray>()
        .unwrap();
    let vendor_row = want
        .iter()
        .position(|&c| c == InfoCode::VendorName.number())
        .unwrap();
    let value = union.value(vendor_row);
    let s = value.as_any().downcast_ref::<StringArray>().unwrap();
    assert_eq!(s.value(0), VENDOR_NAME);
}

#[test]
fn info_driver_arrow_version_is_reported_with_a_leading_v() {
    assert!(reported_codes().contains(&InfoCode::DriverArrowVersion));

    let batch = build(Some([InfoCode::DriverArrowVersion].into_iter().collect())).unwrap();
    assert_eq!(batch.num_rows(), 1);
    let union = batch
        .column(1)
        .as_any()
        .downcast_ref::<UnionArray>()
        .unwrap();
    let value = union.value(0);
    let s = value.as_any().downcast_ref::<StringArray>().unwrap();
    assert!(!s.is_null(0));
    let version = s.value(0);
    assert!(
        version.starts_with('v') && version.len() > 1,
        "expected a v-prefixed arrow version, got {version:?}"
    );
}

#[test]
fn info_vendor_version_is_null_not_the_driver_version() {
    assert!(!reported_codes().contains(&InfoCode::VendorVersion));
    assert!(!reported_codes().contains(&InfoCode::VendorArrowVersion));

    let batch = build(Some(
        [InfoCode::VendorVersion, InfoCode::DriverVersion]
            .into_iter()
            .collect(),
    ))
    .unwrap();
    assert_eq!(batch.num_rows(), 2);

    let names = batch
        .column(0)
        .as_any()
        .downcast_ref::<UInt32Array>()
        .unwrap();
    let union = batch
        .column(1)
        .as_any()
        .downcast_ref::<UnionArray>()
        .unwrap();

    let vendor_row = (0..names.len())
        .find(|&i| names.value(i) == InfoCode::VendorVersion.number())
        .unwrap();
    let vendor_value = union.value(vendor_row);
    let vendor_str = vendor_value
        .as_any()
        .downcast_ref::<StringArray>()
        .expect("VendorVersion lands in the string branch");
    assert!(
        vendor_str.is_null(0),
        "VendorVersion must be null, got {:?}",
        vendor_str.value(0)
    );

    let driver_row = (0..names.len())
        .find(|&i| names.value(i) == InfoCode::DriverVersion.number())
        .unwrap();
    let driver_value = union.value(driver_row);
    let driver_str = driver_value.as_any().downcast_ref::<StringArray>().unwrap();
    assert!(!driver_str.is_null(0));
    assert_eq!(driver_str.value(0), DRIVER_VERSION);
}

#[test]
fn info_empty_request_is_an_empty_batch() {
    let batch = build(Some(Vec::new())).unwrap();
    assert_eq!(batch.schema(), GET_INFO_SCHEMA.clone());
    assert_eq!(batch.num_rows(), 0);
}

#[test]
fn tests_build_matches_schema_and_reports_defaults() {
    let batch = build(None).unwrap();
    assert_eq!(batch.schema(), GET_INFO_SCHEMA.clone());
    assert_eq!(batch.num_rows(), reported_codes().len());
    let names = batch
        .column(0)
        .as_any()
        .downcast_ref::<UInt32Array>()
        .unwrap();
    let got: Vec<u32> = (0..names.len()).map(|i| names.value(i)).collect();
    let want: Vec<u32> = reported_codes().iter().map(|c| c.number()).collect();
    assert_eq!(got, want);
    assert!(
        want.windows(2).all(|w| w[0] < w[1]),
        "the reported codes must be in strict code order (it is the get_info(None) row order)"
    );
}

#[test]
fn all_codes_result_covers_every_explicitly_answered_code() {
    let all = build(None).unwrap();
    let all_names = all
        .column(0)
        .as_any()
        .downcast_ref::<UInt32Array>()
        .unwrap();
    let all_codes: HashSet<u32> = (0..all_names.len()).map(|i| all_names.value(i)).collect();

    for code in &reported_codes() {
        let batch = build(Some([*code].into_iter().collect())).unwrap();
        assert_eq!(batch.num_rows(), 1, "explicit request for {code:?}");
        let names = batch
            .column(0)
            .as_any()
            .downcast_ref::<UInt32Array>()
            .unwrap();
        assert!(
            all_codes.contains(&names.value(0)),
            "{code:?} answered explicitly but missing from the all-codes result"
        );
    }
}

#[test]
fn tests_requested_codes_yield_one_row_each_in_code_order() {
    let requested = [
        InfoCode::VendorName,
        InfoCode::DriverVersion,
        InfoCode::DriverName,
        InfoCode::VendorVersion,
    ];
    let batch = build(Some(requested.iter().copied().collect())).unwrap();
    assert_eq!(batch.schema(), GET_INFO_SCHEMA.clone());
    assert_eq!(batch.num_rows(), 4);

    let names = batch
        .column(0)
        .as_any()
        .downcast_ref::<UInt32Array>()
        .unwrap();
    let mut want: Vec<u32> = requested.iter().map(|c| c.number()).collect();
    want.sort_unstable();
    let got: Vec<u32> = (0..names.len()).map(|i| names.value(i)).collect();
    assert_eq!(got, want, "rows are ordered by info code");

    let union = batch
        .column(1)
        .as_any()
        .downcast_ref::<UnionArray>()
        .unwrap();
    let vendor_row = want
        .iter()
        .position(|&c| c == InfoCode::VendorName.number())
        .unwrap();
    let value = union.value(vendor_row);
    let s = value.as_any().downcast_ref::<StringArray>().unwrap();
    assert_eq!(s.value(0), VENDOR_NAME);
}

#[test]
fn tests_driver_arrow_version_is_reported_with_a_leading_v() {
    assert!(reported_codes().contains(&InfoCode::DriverArrowVersion));

    let batch = build(Some([InfoCode::DriverArrowVersion].into_iter().collect())).unwrap();
    assert_eq!(batch.num_rows(), 1);
    let union = batch
        .column(1)
        .as_any()
        .downcast_ref::<UnionArray>()
        .unwrap();
    let value = union.value(0);
    let s = value.as_any().downcast_ref::<StringArray>().unwrap();
    assert!(!s.is_null(0));
    let version = s.value(0);
    assert!(
        version.starts_with('v') && version.len() > 1,
        "expected a v-prefixed arrow version, got {version:?}"
    );
}

#[test]
fn unrecognized_codes_are_omitted_rather_than_rejected() {
    let batch = build(Some(
        [InfoCode::Other(500), InfoCode::Other(10_042)]
            .into_iter()
            .collect(),
    ))
    .unwrap();
    assert_eq!(batch.schema(), GET_INFO_SCHEMA.clone());
    assert_eq!(batch.num_rows(), 0, "unrecognized codes yield no rows");

    let batch = build(Some(
        [
            InfoCode::Other(10_042),
            InfoCode::DriverName,
            InfoCode::Other(999),
        ]
        .into_iter()
        .collect(),
    ))
    .unwrap();
    assert_eq!(batch.num_rows(), 1);
    let names = batch
        .column(0)
        .as_any()
        .downcast_ref::<UInt32Array>()
        .unwrap();
    assert_eq!(names.value(0), InfoCode::DriverName.number());
}

#[test]
fn tests_empty_request_is_an_empty_batch() {
    let batch = build(Some(Vec::new())).unwrap();
    assert_eq!(batch.schema(), GET_INFO_SCHEMA.clone());
    assert_eq!(batch.num_rows(), 0);
}

#[test]
fn every_branch_of_the_value_union_has_the_type_that_is_declared() {
    let batch = build(None).unwrap();
    let union = batch.column(1).as_any().downcast_ref::<UnionArray>().unwrap();
    let DataType::Union(fields, UnionMode::Dense) = union.data_type() else {
        panic!("{}", union.data_type());
    };
    assert_eq!(fields.len(), 6);
    for (type_id, field) in fields.iter() {
        assert_eq!(union.child(type_id).data_type(), field.data_type());
        if type_id > 2 {
            assert!(union.child(type_id).is_empty());
        }
    }
    union.to_data().validate_full().unwrap();
}
