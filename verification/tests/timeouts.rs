use adbc_spanner::error::Status;
use adbc_spanner::options::{Double, OptionValue};
use adbc_spanner::timeouts::{effective, RpcTimeouts};

fn double(d: f64) -> Double {
    Double { bits: d.to_bits() }
}

#[test]
fn each_deadline_is_set_on_its_own() {
    let mut timeouts = RpcTimeouts::new();
    timeouts.set_query(OptionValue::Double(double(1.5)), None).unwrap();
    timeouts
        .set_update(OptionValue::Text("2.5".to_string()), Some(double(2.5)))
        .unwrap();
    assert_eq!(
        timeouts,
        RpcTimeouts { query: Some(double(1.5)), update: Some(double(2.5)), fetch: None }
    );
    timeouts.set_fetch(OptionValue::Double(double(0.25)), None).unwrap();
    timeouts.set_query(OptionValue::Text(String::new()), None).unwrap();
    assert_eq!(
        timeouts,
        RpcTimeouts { query: None, update: Some(double(2.5)), fetch: Some(double(0.25)) }
    );
}

#[test]
fn a_deadline_that_is_no_duration_is_rejected() {
    let mut timeouts = RpcTimeouts::new();
    for bad in [-1.0, f64::NAN, f64::INFINITY, 1e300] {
        let error = timeouts
            .set_fetch(OptionValue::Double(double(bad)), None)
            .unwrap_err();
        assert_eq!(error.status, Status::InvalidArguments, "{bad}");
        assert!(
            error.message.contains("spanner.rpc.timeout_seconds.fetch"),
            "{}",
            error.message
        );
    }
    assert_eq!(timeouts, RpcTimeouts::new());
}

#[test]
fn zero_disables_a_deadline() {
    let mut timeouts = RpcTimeouts::new();
    timeouts.set_query(OptionValue::Double(double(0.0)), None).unwrap();
    assert_eq!(timeouts.query, Some(double(0.0)));
    assert_eq!(effective(timeouts.query), None);
    assert_eq!(effective(Some(double(-0.0))), None);
    assert_eq!(effective(None), None);
    assert_eq!(effective(Some(double(0.5))), Some(double(0.5)));
}
