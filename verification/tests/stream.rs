use adbc_spanner::error::{Error, Status};
use adbc_spanner::guard::PanicPayload;
use adbc_spanner::stream::{
    catch_callback, error_from_array_stream, get_last_error, release, ArrowFailure, ArrowReport,
    Errno, StreamState,
};

fn embedded(message: &str, status: Status) -> ArrowReport {
    let error = Error::with_message_and_status(message.to_string(), status);
    ArrowReport {
        kind: ArrowFailure::Other,
        text: format!("External error: {message}"),
        embedded: Some(error),
    }
}

fn plain(kind: ArrowFailure, text: &str) -> ArrowReport {
    ArrowReport { kind, text: text.to_string(), embedded: None }
}

/// A read that comes to `item`.
fn get_next(
    stream: &mut Option<StreamState>,
    out_is_null: bool,
    item: Result<(), ArrowReport>,
) -> Result<(), Errno> {
    catch_callback(stream.as_ref())?;
    let state = stream.as_mut().unwrap();
    state.begin_next(out_is_null)?;
    state.finish(item)
}

fn get_schema(stream: &mut Option<StreamState>, out_is_null: bool) -> Result<(), Errno> {
    catch_callback(stream.as_ref())?;
    let state = stream.as_mut().unwrap();
    state.begin_schema(out_is_null)?;
    state.finish(Ok(()))
}

fn message(stream: &Option<StreamState>) -> Option<String> {
    get_last_error(stream.as_ref()).map(|m| String::from_utf8(m.clone()).unwrap())
}

#[test]
fn exports_adbc_statuses_as_errno() {
    for (status, expected) in [
        (Status::Success, Errno::Eio),
        (Status::Unknown, Errno::Eio),
        (Status::NotImplemented, Errno::Enotsup),
        (Status::NotFound, Errno::Enoent),
        (Status::AlreadyExists, Errno::Eexist),
        (Status::InvalidArguments, Errno::Einval),
        (Status::InvalidState, Errno::Einval),
        (Status::InvalidData, Errno::Eio),
        (Status::Integrity, Errno::Eio),
        (Status::Internal, Errno::Eio),
        (Status::IO, Errno::Eio),
        (Status::Cancelled, Errno::Ecanceled),
        (Status::Timeout, Errno::Etimedout),
        (Status::Unauthenticated, Errno::Eacces),
        (Status::Unauthorized, Errno::Eacces),
    ] {
        let mut stream = Some(StreamState::new());
        let failed = get_next(&mut stream, false, Err(embedded("ADBC stream failure", status)));
        assert_eq!(failed, Err(expected), "{status:?}");
        let text = message(&stream).unwrap();
        assert!(text.contains("ADBC stream failure"), "{text}");
    }

    for (kind, expected, status) in [
        (ArrowFailure::NotYetImplemented, Errno::Enosys, Status::NotImplemented),
        (ArrowFailure::Memory, Errno::Enomem, Status::Internal),
        (ArrowFailure::Io, Errno::Eio, Status::IO),
        (ArrowFailure::Other, Errno::Einval, Status::Unknown),
    ] {
        let mut stream = Some(StreamState::new());
        let failed = get_next(&mut stream, false, Err(plain(kind, "not supported")));
        assert_eq!(failed, Err(expected));
        assert_eq!(message(&stream).as_deref(), Some("not supported"));
        let answer = error_from_array_stream(stream.as_ref(), true).unwrap();
        assert_eq!(answer.status, status.code());
    }
}

#[test]
fn a_cancelled_read_reports_ecanceled_for_sql_query_cancel() {
    let mut stream = Some(StreamState::new());
    let report = embedded("operation cancelled", Status::Cancelled);
    assert_eq!(get_next(&mut stream, false, Err(report)), Err(Errno::Ecanceled));
    let text = message(&stream).unwrap();
    assert!(text.contains("operation cancelled"), "{text}");
    let answer = error_from_array_stream(stream.as_ref(), true).unwrap();
    assert_eq!(answer.status, Status::Cancelled.code());
}

#[test]
fn a_timed_out_read_reports_etimedout() {
    let mut stream = Some(StreamState::new());
    let report = embedded(
        "the query did not complete within spanner.rpc.timeout_seconds.query",
        Status::Timeout,
    );
    assert_eq!(get_next(&mut stream, false, Err(report)), Err(Errno::Etimedout));
    let answer = error_from_array_stream(stream.as_ref(), true).unwrap();
    assert_eq!(answer.status, Status::Timeout.code());
}

#[test]
fn get_last_error_tolerates_a_released_or_null_stream() {
    let mut stream = Some(StreamState::new());
    let report = plain(ArrowFailure::Other, "boom");
    assert!(get_next(&mut stream, false, Err(report)).is_err());
    release(&mut stream);
    assert!(get_last_error(stream.as_ref()).is_none());
    assert!(get_last_error(None).is_none());
}

#[test]
fn error_from_array_stream_exposes_the_pending_error() {
    let mut report = embedded("stream blew up", Status::Cancelled);
    report.embedded.as_mut().unwrap().details = Some(vec![(
        "google.rpc.retryinfo".to_string(),
        br#"{"retryDelay":"1s"}"#.to_vec(),
    )]);
    let mut stream = Some(StreamState::new());
    assert_eq!(get_next(&mut stream, false, Err(report)), Err(Errno::Ecanceled));

    for _ in 0..2 {
        let answer = error_from_array_stream(stream.as_ref(), true).unwrap();
        assert_eq!(answer.status, Status::Cancelled.code());
        let error = answer.error.unwrap();
        assert_eq!(error.message, b"stream blew up");
        let details = error.details.unwrap();
        assert_eq!(details.len(), 1);
        assert_eq!(details[0].0, b"google.rpc.retryinfo");
        assert_eq!(details[0].1, br#"{"retryDelay":"1s"}"#);
    }

    release(&mut stream);
    assert!(error_from_array_stream(stream.as_ref(), true).is_none());
}

#[test]
fn error_from_array_stream_reports_ok_when_nothing_failed() {
    let stream = Some(StreamState::new());
    let answer = error_from_array_stream(stream.as_ref(), true).unwrap();
    assert_eq!(answer.status, 0);
    assert!(answer.error.is_none());
}

#[test]
fn error_from_array_stream_rejects_foreign_and_null_streams() {
    assert!(error_from_array_stream(None, true).is_none());
    let stream = Some(StreamState::new());
    assert!(error_from_array_stream(stream.as_ref(), false).is_none());
}

#[test]
fn contains_reader_panics_in_get_next() {
    let mut stream = Some(StreamState::new());
    let state = stream.as_mut().unwrap();
    state.begin_next(false).unwrap();
    let errno = state.contain(PanicPayload::Borrowed("next contains a NUL: \0"));
    assert_eq!(errno, Errno::Einval);
    let text = message(&stream).unwrap();
    assert_eq!(
        text,
        "Uncaught panic in the Spanner Arrow stream: next contains a NUL: ?"
    );
    assert_eq!(get_next(&mut stream, false, Ok(())), Err(Errno::Einval));
    assert_eq!(message(&stream), Some(text));
}

#[test]
fn contains_reader_panics_in_get_schema() {
    let mut stream = Some(StreamState::new());
    let state = stream.as_mut().unwrap();
    state.begin_schema(false).unwrap();
    assert_eq!(
        state.contain(PanicPayload::Owned("schema failed")),
        Errno::Einval
    );
    assert!(message(&stream).unwrap().contains("schema failed"));
    assert_eq!(get_schema(&mut stream, false), Err(Errno::Einval));
}

#[test]
fn a_released_stream_survives_a_second_release_and_stale_callbacks() {
    let mut stream = Some(StreamState::new());
    release(&mut stream);
    assert!(stream.is_none());
    release(&mut stream);
    assert!(stream.is_none());
    assert_eq!(get_next(&mut stream, false, Ok(())), Err(Errno::Einval));
    assert_eq!(get_schema(&mut stream, false), Err(Errno::Einval));
}

#[test]
fn a_successful_read_clears_the_previous_failure() {
    let mut stream = Some(StreamState::new());
    assert_eq!(get_next(&mut stream, true, Ok(())), Err(Errno::Einval));
    assert_eq!(
        message(&stream).as_deref(),
        Some("Arrow C Stream array output must not be null")
    );
    assert_eq!(get_next(&mut stream, false, Ok(())), Ok(()));
    assert_eq!(message(&stream), None);
    let answer = error_from_array_stream(stream.as_ref(), true).unwrap();
    assert_eq!(answer.status, 0);
    assert!(answer.error.is_none());
}

#[test]
fn reading_the_schema_after_a_failed_read_keeps_the_failure() {
    let mut stream = Some(StreamState::new());
    let report = embedded("the query was cancelled", Status::Cancelled);
    assert_eq!(get_next(&mut stream, false, Err(report)), Err(Errno::Ecanceled));
    assert_eq!(get_schema(&mut stream, false), Ok(()));
    let text = message(&stream).unwrap();
    assert!(text.contains("the query was cancelled"), "{text}");
    let answer = error_from_array_stream(stream.as_ref(), true).unwrap();
    assert_eq!(answer.status, Status::Cancelled.code());
    assert!(answer.error.is_some());

    assert_eq!(get_schema(&mut stream, true), Err(Errno::Einval));
    assert_eq!(
        message(&stream).as_deref(),
        Some("Arrow C Stream schema output must not be null")
    );
}

#[test]
fn a_stream_that_panicked_can_be_released() {
    let mut stream = Some(StreamState::new());
    let state = stream.as_mut().unwrap();
    assert_eq!(state.contain(PanicPayload::Borrowed("drop failed")), Errno::Einval);
    release(&mut stream);
    assert!(stream.is_none());
}

#[test]
fn an_ordinary_read_leaves_no_failure_behind() {
    let mut stream = Some(StreamState::new());
    assert_eq!(get_schema(&mut stream, false), Ok(()));
    assert_eq!(get_next(&mut stream, false, Ok(())), Ok(()));
    assert_eq!(get_next(&mut stream, false, Ok(())), Ok(()));
    assert_eq!(message(&stream), None);
}
