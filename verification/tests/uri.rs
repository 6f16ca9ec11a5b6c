use adbc_spanner::error::Status;
use adbc_spanner::uri::parse_connection_uri;

fn options(uri: &str) -> Vec<(String, String)> {
    parse_connection_uri(uri).unwrap().options
}

fn pair(key: &str, value: &str) -> (String, String) {
    (key.to_string(), value.to_string())
}

#[test]
fn the_path_names_the_database() {
    let found = parse_connection_uri("spanner:///projects/p/instances/i/databases/d").unwrap();
    assert_eq!(found.database, "projects/p/instances/i/databases/d");
    assert_eq!(found.endpoint, None);
    assert!(found.options.is_empty());
}

#[test]
fn the_authority_is_the_endpoint_and_the_query_sets_options() {
    let found = parse_connection_uri(
        "spanner://localhost:9010/projects/p/instances/i/databases/d?spanner.emulator=true",
    )
    .unwrap();
    assert_eq!(found.database, "projects/p/instances/i/databases/d");
    assert_eq!(found.endpoint.as_deref(), Some("localhost:9010"));
    assert_eq!(found.options, vec![pair("spanner.emulator", "true")]);
}

#[test]
fn options_keep_their_order_and_are_percent_decoded() {
    assert_eq!(
        options("spanner:///d?spanner.auth.keyfile=%2Ftmp%2fk%C3%A9y&a=&a=b=c"),
        vec![pair("spanner.auth.keyfile", "/tmp/k\u{e9}y"), pair("a", ""), pair("a", "b=c")]
    );
    assert!(options("spanner:///d?").is_empty());
}

#[test]
fn secrets_are_refused() {
    for key in ["spanner.auth.keyfile_json", "spanner.auth.access_token"] {
        for uri in [
            format!("spanner:///d?{key}=x"),
            format!("spanner:///d?spanner.emulator=true&{}=x", key.replace('.', "%2E")),
        ] {
            let error = parse_connection_uri(&uri).unwrap_err();
            assert_eq!(error.status, Status::InvalidArguments, "{uri}");
            assert_eq!(
                error.message,
                format!(
                    "option {key} holds a secret and cannot be set in a connection URI; set it \
                     directly"
                )
            );
        }
    }
}

#[test]
fn what_is_no_connection_uri_is_rejected() {
    for uri in [
        "",
        "projects/p/instances/i/databases/d",
        "postgres:///d",
        "Spanner:///d",
        "spanner://",
        "spanner://host",
        "spanner:///",
        "spanner:///?a=b",
        "spanner:///d?a",
        "spanner:///d?a=b&",
        "spanner:///d%2",
        "spanner:///d%zz",
        "spanner:///%ff",
        "spanner:///d?a=%",
    ] {
        let error = parse_connection_uri(uri).unwrap_err();
        assert_eq!(error.status, Status::InvalidArguments, "{uri}");
        assert!(
            error.message.starts_with("the database URI is not of the form"),
            "{}",
            error.message
        );
    }
}
