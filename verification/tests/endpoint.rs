use adbc_spanner::endpoint::ensure_scheme;

#[test]
fn an_endpoint_without_a_scheme_gets_http() {
    assert_eq!(ensure_scheme("localhost:9010"), "http://localhost:9010");
    assert_eq!(ensure_scheme(""), "http://");
    assert_eq!(ensure_scheme("a:/b"), "http://a:/b");
}

#[test]
fn an_endpoint_with_a_scheme_is_left_alone() {
    for host in ["http://localhost:9010", "https://spanner.googleapis.com", "://"] {
        assert_eq!(ensure_scheme(host), host);
    }
    let once = ensure_scheme("localhost");
    assert_eq!(ensure_scheme(&once), once);
}
