//! Entry points for fuzz targets: the parsers of text that arrives from outside.

use vstd::prelude::*;

use crate::error::{Error, Status};
use crate::lexer::lexemes;
use crate::metadata::like;
use crate::options::OptionValue;
use crate::sql::{
    begins_ddl, begins_dml, has_then_return, is_quotable, keyword_of, parameters, quoted,
    statements, stripped,
};
use crate::staleness::{
    duration_outcome, pinned, read_bound, rfc3339, timestamp_text, ReadBound, ReadStaleness,
    TimeSpan,
};
use crate::text::{texts, to_upper, uppered};

verus! {

/// The statements of a `;`-separated batch.
pub fn split_statements(sql: &str) -> (r: Vec<String>)
    ensures
        texts(r@) == statements(sql@),
{
    crate::sql::split_statements(sql)
}

/// Whether the text begins with a DDL statement.
pub fn is_ddl(sql: &str) -> (r: bool)
    ensures
        r == begins_ddl(sql@),
{
    crate::sql::is_ddl(sql)
}

/// Whether the text begins with a DML statement.
pub fn is_dml(sql: &str) -> (r: bool)
    ensures
        r == begins_dml(sql@),
{
    crate::sql::is_dml(sql)
}

/// Whether the text contains a top-level `THEN RETURN` clause.
pub fn is_dml_returning(sql: &str) -> (r: bool)
    ensures
        r == has_then_return(lexemes(sql@)),
{
    crate::sql::is_dml_returning(sql)
}

/// The first keyword of the text, in upper case.
pub fn first_keyword(sql: &str) -> (r: Option<String>)
    ensures
        match keyword_of(lexemes(sql@)) {
            Some(k) => r is Some && r->Some_0@ == uppered(k),
            None => r is None,
        },
{
    match crate::sql::first_keyword(sql) {
        Some(k) => Some(to_upper(k.as_str())),
        None => None,
    }
}

/// The text without trailing terminators, where it is a single statement.
pub fn strip_trailing_terminators(sql: &str) -> (r: String)
    ensures
        r@ == stripped(sql@),
{
    crate::sql::strip_trailing_terminators(sql)
}

/// The distinct parameters of the text, in the order in which they first appear.
pub fn named_parameters(sql: &str) -> (r: Vec<String>)
    ensures
        texts(r@) == parameters(sql@),
{
    crate::sql::named_parameters(sql)
}

/// An identifier between backticks, unless backticks cannot safely contain it.
pub fn quote_ident(ident: &str) -> (r: Option<String>)
    ensures
        is_quotable(ident@) ==> r is Some && r->Some_0@ == quoted(ident@),
        !is_quotable(ident@) ==> r is None,
{
    match crate::sql::quote_ident(ident) {
        Ok(q) => Some(q),
        Err(_) => None,
    }
}

/// Whether an ADBC `LIKE` pattern matches a value.
pub fn like_match(pattern: &str, value: &str) -> (r: bool)
    ensures
        r == like(pattern@, value@),
{
    crate::metadata::like_match(pattern, value)
}

/// A date in days since 1970-01-01.
pub fn parse_date_days(s: &str) -> (r: Option<i32>)
    ensures
        match crate::conversion::date_days(s@) {
            Some(days) => r is Some && r->Some_0 == days,
            None => r is None,
        },
{
    crate::conversion::parse_date_days(s)
}

/// A timestamp in nanoseconds since the Unix epoch.
pub fn parse_timestamp_nanos(s: &str) -> (r: Option<i64>)
    ensures
        r == crate::conversion::timestamp_nanos(rfc3339(s@)),
{
    crate::conversion::parse_timestamp_nanos(s)
}

/// A numeric in billionths.
pub fn parse_numeric_i128(s: &str) -> (r: Option<i128>)
    ensures
        match crate::conversion::numeric_value(s@) {
            Some(n) => r is Some && r->Some_0 == n,
            None => r is None,
        },
{
    crate::conversion::parse_numeric_i128(s)
}

/// The parameter that each bound column goes to, unless the columns do not fit the query.
pub fn resolve_parameter_names(
    sql: &str,
    column_names: &Vec<String>,
    bind_by_name: bool,
) -> (r: Option<Vec<String>>)
    ensures
        match crate::bind::pairing(parameters(sql@), texts(column_names@), bind_by_name) {
            Ok(names) => r is Some && texts(r->Some_0@) == names,
            Err(_) => r is None,
        },
{
    match crate::bind::resolve_parameter_names(sql, column_names, bind_by_name) {
        Ok(names) => Some(names),
        Err(_) => None,
    }
}

/// An endpoint with a scheme.
pub fn ensure_scheme(host: &str) -> (r: String)
    ensures
        r@ == crate::endpoint::schemed(host@),
{
    crate::endpoint::ensure_scheme(host)
}

/// A read bound, as it applies to single-use and to multi-use reads, given what its duration makes.
pub fn parse_read_staleness(value: &str, span: Option<TimeSpan>) -> (r: Result<
    (Option<ReadBound>, Option<ReadBound>),
    Error,
>)
    ensures
        crate::options::coerces(
            r,
            if value@.len() == 0 {
                Ok((None, None))
            } else {
                match read_bound(value@, span, rfc3339(timestamp_text(value@))) {
                    Ok(b) => Ok((Some(b), Some(pinned(b)))),
                    Err(m) => Err(m),
                }
            },
        ),
{
    let mut staleness = ReadStaleness::new();
    match staleness.set_staleness(OptionValue::Text(value.to_owned()), span) {
        Ok(()) => Ok((staleness.timestamp_bound(), staleness.multi_use_timestamp_bound())),
        Err(e) => Err(e),
    }
}

/// A duration, given what its number and unit make.
pub fn parse_duration(value: &str, span: Option<TimeSpan>) -> (r: Result<TimeSpan, Error>)
    ensures
        crate::options::coerces(
            r,
            duration_outcome(value@, span, crate::keys::OPTION_READ_STALENESS@),
        ),
{
    crate::staleness::parse_duration(value, span)
}

/// A choice of replicas.
pub fn parse_directed_read(value: &str) -> (r: Result<crate::directed_read::ReplicaChoice, Error>)
    ensures
        match crate::directed_read::choice(value@) {
            Some(chosen) => r is Ok && r->Ok_0@ == chosen,
            None => r is Err && r->Err_0.says(
                Status::InvalidArguments,
                crate::directed_read::bad_choice_message(value@),
            ),
        },
{
    crate::directed_read::parse(value)
}

/// What a connection URI comes to.
pub fn expand_connection_uri(uri: &str) -> (r: Result<crate::uri::ConnectionUri, Error>)
    ensures
        match crate::uri::expanded(uri@) {
            Ok(found) => r is Ok && r->Ok_0@ == found,
            Err(m) => r is Err && r->Err_0.says(Status::InvalidArguments, m),
        },
{
    crate::uri::parse_connection_uri(uri)
}

} // verus!
