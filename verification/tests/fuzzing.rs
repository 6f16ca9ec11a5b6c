use adbc_spanner::fuzzing::{
    ensure_scheme, expand_connection_uri, first_keyword, is_ddl, is_dml, is_dml_returning, like_match, named_parameters,
    parse_date_days, parse_directed_read, parse_duration, parse_numeric_i128,
    parse_read_staleness, parse_timestamp_nanos, quote_ident, resolve_parameter_names,
    split_statements, strip_trailing_terminators,
};
use adbc_spanner::staleness::{Instant, ReadBound, TimeSpan};

#[test]
fn every_entry_point_is_wired() {
    assert_eq!(split_statements("a; b"), vec!["a", "b"]);
    assert!(is_ddl("create table t (a int64) primary key (a)"));
    assert!(is_dml("delete from t where true"));
    assert!(is_dml_returning("insert into t (a) values (1) then return a"));
    assert_eq!(first_keyword(" /* x */ select 1").as_deref(), Some("SELECT"));
    assert_eq!(strip_trailing_terminators("select 1;;"), "select 1");
    assert_eq!(named_parameters("select @a"), vec!["a"]);
    assert_eq!(quote_ident("t").as_deref(), Some("`t`"));
    assert_eq!(quote_ident("a`b"), None);
    assert!(like_match("a%", "abc"));
    assert_eq!(parse_date_days("1970-01-02"), Some(1));
    assert_eq!(parse_timestamp_nanos("1970-01-01T00:00:01Z"), Some(1_000_000_000));
    assert_eq!(parse_numeric_i128("1"), Some(1_000_000_000));
    assert_eq!(
        resolve_parameter_names("select @a", &vec!["x".to_string()], false),
        Some(vec!["a".to_string()])
    );
    assert_eq!(
        resolve_parameter_names("select @a", &vec!["x".to_string()], true),
        None
    );
    assert_eq!(ensure_scheme("h"), "http://h");
    assert!(parse_directed_read("include").is_ok());
    assert!(parse_directed_read("only").is_err());
    assert!(expand_connection_uri("spanner:///projects/p/instances/i/databases/d").is_ok());
    assert!(expand_connection_uri("projects/p/instances/i/databases/d").is_err());
}

#[test]
fn a_staleness_reads_as_both_of_its_bounds() {
    let ten = TimeSpan { secs: 10, nanos: 0 };
    assert_eq!(parse_duration("10s", Some(ten)).unwrap(), ten);
    assert_eq!(
        parse_read_staleness("max:10s", Some(ten)).unwrap(),
        (
            Some(ReadBound::MaxStaleness(ten)),
            Some(ReadBound::ExactStaleness(ten))
        )
    );
    let (single, multi) = parse_read_staleness("read:1970-01-01T00:00:01Z", None).unwrap();
    let at = ReadBound::ReadTimestamp(Instant { secs: 1, nanos: 0 });
    assert_eq!((single, multi), (Some(at), Some(at)));
    assert_eq!(parse_read_staleness("", None).unwrap(), (None, None));
    assert!(parse_read_staleness("soon", None).is_err());
}
