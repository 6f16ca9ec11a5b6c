//! The state of an exported Arrow stream: what its callbacks answer, and what failure they leave
//! behind.

use vstd::prelude::*;
use vstd::utf8::encode_utf8;

use crate::error::{code_of, Error, Status};
use crate::exported_error::{
    details_view, export_error, exported_details, ExportedError,
    ADBC_ERROR_VENDOR_CODE_PRIVATE_DATA,
};
use crate::guard::{panic_message, panic_text, sanitized, sanitized_cstring, PanicPayload};

verus! {

/// What a failed callback returns, by the name of the `errno` value.
#[derive(Debug, Clone, Copy, PartialEq, Eq, Structural)]
pub enum Errno {
    Eacces,
    Ecanceled,
    Eexist,
    Einval,
    Eio,
    Enoent,
    Enomem,
    Enosys,
    Enotsup,
    Etimedout,
}

/// The `errno` value for an ADBC status.
pub open spec fn errno_of(status: Status) -> Errno {
    match status {
        Status::Success => Errno::Eio,
        Status::Unknown => Errno::Eio,
        Status::NotImplemented => Errno::Enotsup,
        Status::NotFound => Errno::Enoent,
        Status::AlreadyExists => Errno::Eexist,
        Status::InvalidArguments => Errno::Einval,
        Status::InvalidState => Errno::Einval,
        Status::InvalidData => Errno::Eio,
        Status::Integrity => Errno::Eio,
        Status::Internal => Errno::Eio,
        Status::IO => Errno::Eio,
        Status::Cancelled => Errno::Ecanceled,
        Status::Timeout => Errno::Etimedout,
        Status::Unauthenticated => Errno::Eacces,
        Status::Unauthorized => Errno::Eacces,
    }
}

/// The `errno` value for an ADBC status.
pub fn adbc_status_to_errno(status: Status) -> (r: Errno)
    ensures
        r == errno_of(status),
{
    match status {
        Status::Success => Errno::Eio,
        Status::Unknown => Errno::Eio,
        Status::NotImplemented => Errno::Enotsup,
        Status::NotFound => Errno::Enoent,
        Status::AlreadyExists => Errno::Eexist,
        Status::InvalidArguments => Errno::Einval,
        Status::InvalidState => Errno::Einval,
        Status::InvalidData => Errno::Eio,
        Status::Integrity => Errno::Eio,
        Status::Internal => Errno::Eio,
        Status::IO => Errno::Eio,
        Status::Cancelled => Errno::Ecanceled,
        Status::Timeout => Errno::Etimedout,
        Status::Unauthenticated => Errno::Eacces,
        Status::Unauthorized => Errno::Eacces,
    }
}

/// The kinds of Arrow error that callbacks tell apart.
#[derive(Debug, Clone, Copy, PartialEq, Eq, Structural)]
pub enum ArrowFailure {
    NotYetImplemented,
    Memory,
    Io,
    Other,
}

/// An Arrow error: its kind, its text, and the driver error somewhere in its chain of sources, if
/// there is one.
#[derive(Debug)]
pub struct ArrowReport {
    pub kind: ArrowFailure,
    pub text: String,
    pub embedded: Option<Error>,
}

/// The `errno` value and the status of an Arrow error that the driver did not raise.
pub open spec fn foreign(kind: ArrowFailure) -> (Errno, Status) {
    match kind {
        ArrowFailure::NotYetImplemented => (Errno::Enosys, Status::NotImplemented),
        ArrowFailure::Memory => (Errno::Enomem, Status::Internal),
        ArrowFailure::Io => (Errno::Eio, Status::IO),
        ArrowFailure::Other => (Errno::Einval, Status::Unknown),
    }
}

/// A failure that a callback left behind: the C string that describes it, and the error itself.
#[derive(Debug)]
pub struct LastError {
    pub message: Vec<u8>,
    pub error: Error,
}

/// The state of an exported stream.
#[derive(Debug)]
pub struct StreamState {
    pub last_error: Option<LastError>,
    pub panicked: bool,
}

/// Whether the state holds this failure and no other, described by this text.
pub open spec fn left_behind(
    last_error: Option<LastError>,
    status: Status,
    message: Seq<char>,
) -> bool {
    &&& last_error is Some
    &&& last_error->Some_0.message@ == sanitized(encode_utf8(message))
    &&& last_error->Some_0.error.says(status, message)
}

/// The `errno` value that an Arrow error makes a callback return. A driver error in its chain
/// outranks the kind of the Arrow error.
pub open spec fn report_errno(report: ArrowReport) -> Errno {
    match report.embedded {
        Some(e) => errno_of(e.status),
        None => foreign(report.kind).0,
    }
}

/// Whether a state holds what an Arrow error leaves behind: its text as the description, and the
/// driver error in its chain, or else the text under the status of its kind, as the error.
pub open spec fn reports(last_error: Option<LastError>, report: ArrowReport) -> bool {
    &&& last_error is Some
    &&& last_error->Some_0.message@ == sanitized(encode_utf8(report.text@))
    &&& match report.embedded {
        Some(e) => last_error->Some_0.error == e,
        None => last_error->Some_0.error.says(foreign(report.kind).1, report.text@),
    }
}

/// Whether a callback is refused outright: there is no stream, or an earlier callback panicked.
pub open spec fn is_refused(stream: Option<&StreamState>) -> bool {
    match stream {
        None => true,
        Some(state) => state.panicked,
    }
}

/// Whether a callback may run. A refused one returns `EINVAL`.
pub fn catch_callback(stream: Option<&StreamState>) -> (r: Result<(), Errno>)
    ensures
        is_refused(stream) ==> r == Err::<(), Errno>(Errno::Einval),
        !is_refused(stream) ==> r is Ok,
{
    match stream {
        None => Err(Errno::Einval),
        Some(state) => {
            if state.panicked {
                Err(Errno::Einval)
            } else {
                Ok(())
            }
        },
    }
}

impl StreamState {
    /// A fresh stream.
    pub fn new() -> (r: StreamState)
        ensures
            r.last_error is None,
            !r.panicked,
    {
        StreamState { last_error: None, panicked: false }
    }

    fn set_error(&mut self, error: Error)
        ensures
            final(self).panicked == old(self).panicked,
            final(self).last_error is Some,
            final(self).last_error->Some_0.message@ == sanitized(encode_utf8(error.message@)),
            final(self).last_error->Some_0.error == error,
    {
        let message = sanitized_cstring(error.message.as_str());
        self.last_error = Some(LastError { message, error });
    }

    fn fail(&mut self, message: &str) -> (r: Errno)
        ensures
            r == Errno::Einval,
            final(self).panicked == old(self).panicked,
            left_behind(final(self).last_error, Status::InvalidArguments, message@),
    {
        self.set_error(
            Error::with_message_and_status(message.to_owned(), Status::InvalidArguments),
        );
        Errno::Einval
    }

    /// Records an Arrow error, and gives what the callback returns.
    pub fn arrow_error(&mut self, report: ArrowReport) -> (r: Errno)
        ensures
            r == report_errno(report),
            final(self).panicked == old(self).panicked,
            reports(final(self).last_error, report),
    {
        let message = sanitized_cstring(report.text.as_str());
        let (errno, error) = match report.embedded {
            Some(e) => (adbc_status_to_errno(e.status), e),
            None => {
                let (errno, status) = match report.kind {
                    ArrowFailure::NotYetImplemented => (Errno::Enosys, Status::NotImplemented),
                    ArrowFailure::Memory => (Errno::Enomem, Status::Internal),
                    ArrowFailure::Io => (Errno::Eio, Status::IO),
                    ArrowFailure::Other => (Errno::Einval, Status::Unknown),
                };
                (errno, Error::with_message_and_status(report.text, status))
            },
        };
        self.last_error = Some(LastError { message, error });
        errno
    }

    /// Begins to export the schema. A failure that an earlier read left behind stays: the schema is
    /// at hand whatever became of the read.
    pub fn begin_schema(&mut self, out_is_null: bool) -> (r: Result<(), Errno>)
        ensures
            final(self).panicked == old(self).panicked,
            out_is_null ==> r == Err::<(), Errno>(Errno::Einval) && left_behind(
                final(self).last_error,
                Status::InvalidArguments,
                "Arrow C Stream schema output must not be null"@,
            ),
            !out_is_null ==> r is Ok && *final(self) == *old(self),
    {
        if out_is_null {
            return Err(self.fail("Arrow C Stream schema output must not be null"));
        }
        Ok(())
    }

    /// Begins to read the next batch. What an earlier callback left behind is cleared, so that only
    /// a failure of this read is reported after it.
    pub fn begin_next(&mut self, out_is_null: bool) -> (r: Result<(), Errno>)
        ensures
            final(self).panicked == old(self).panicked,
            out_is_null ==> r == Err::<(), Errno>(Errno::Einval) && left_behind(
                final(self).last_error,
                Status::InvalidArguments,
                "Arrow C Stream array output must not be null"@,
            ),
            !out_is_null ==> r is Ok && final(self).last_error is None,
    {
        self.last_error = None;
        if out_is_null {
            return Err(self.fail("Arrow C Stream array output must not be null"));
        }
        Ok(())
    }

    /// Ends a callback: what was done succeeded, or failed with an Arrow error.
    pub fn finish(&mut self, done: Result<(), ArrowReport>) -> (r: Result<(), Errno>)
        ensures
            final(self).panicked == old(self).panicked,
            match done {
                Ok(_) => r is Ok && *final(self) == *old(self),
                Err(report) => r == Err::<(), Errno>(report_errno(report)) && reports(
                    final(self).last_error,
                    report,
                ),
            },
    {
        match done {
            Ok(_) => Ok(()),
            Err(report) => Err(self.arrow_error(report)),
        }
    }

    /// Contains a panic: the stream is unusable from then on, and the panic is what it reports.
    pub fn contain(&mut self, cause: PanicPayload) -> (r: Errno)
        ensures
            r == Errno::Einval,
            final(self).panicked,
            left_behind(
                final(self).last_error,
                Status::Internal,
                "Uncaught panic in the Spanner Arrow stream: "@ + panic_text(cause),
            ),
    {
        self.panicked = true;
        let mut message = "Uncaught panic in the Spanner Arrow stream: ".to_owned();
        message.append(panic_message(cause));
        self.set_error(Error::with_message_and_status(message, Status::Internal));
        Errno::Einval
    }
}

/// The description of the last failure. A stream that is null or released has none.
pub fn get_last_error(stream: Option<&StreamState>) -> (r: Option<&Vec<u8>>)
    ensures
        match stream {
            Some(state) => match state.last_error {
                Some(last) => r is Some && *r->Some_0 == last.message,
                None => r is None,
            },
            None => r is None,
        },
{
    match stream {
        Some(state) => match &state.last_error {
            Some(last) => Some(&last.message),
            None => None,
        },
        None => None,
    }
}

/// What the structured error behind a stream is answered with: its status, and the error to write,
/// where there is one.
#[derive(Debug)]
pub struct StreamError {
    pub status: u8,
    pub error: Option<ExportedError>,
}

/// The structured error behind a stream. Only a stream of this driver's own is answered: one that
/// is null, released or produced by another library is not recognized. A recognized one without a
/// failure is fine, and says so.
pub fn error_from_array_stream(stream: Option<&StreamState>, ours: bool) -> (r: Option<StreamError>)
    ensures
        stream is None || !ours ==> r is None,
        stream is Some && ours ==> {
            &&& r is Some
            &&& match stream->Some_0.last_error {
                None => r->Some_0.status == 0 && r->Some_0.error is None,
                Some(last) => {
                    &&& r->Some_0.status == code_of(last.error.status)
                    &&& r->Some_0.error is Some
                    &&& r->Some_0.error->Some_0.message@ == sanitized(
                        encode_utf8(last.error.message@),
                    )
                    &&& r->Some_0.error->Some_0.sqlstate == last.error.sqlstate
                    &&& r->Some_0.error->Some_0.vendor_code == ADBC_ERROR_VENDOR_CODE_PRIVATE_DATA
                    &&& r->Some_0.error->Some_0.details is Some
                    &&& details_view(r->Some_0.error->Some_0.details->Some_0@) == exported_details(
                        last.error,
                    )
                },
            }
        },
{
    if !ours {
        return None;
    }
    match stream {
        None => None,
        Some(state) => match &state.last_error {
            None => Some(StreamError { status: 0, error: None }),
            Some(last) => Some(
                StreamError {
                    status: last.error.status.code(),
                    error: Some(export_error(ADBC_ERROR_VENDOR_CODE_PRIVATE_DATA, &last.error)),
                },
            ),
        },
    }
}

/// Releases a stream. A released stream is no stream, and releasing it again changes nothing.
pub fn release(stream: &mut Option<StreamState>)
    ensures
        *final(stream) is None,
{
    *stream = None;
}

/// A cancelled read is the only one that reports `ECANCELED`, and one that timed out the only one
/// that reports `ETIMEDOUT`.
pub proof fn lemma_cancellation_and_timeout_are_told_apart(status: Status)
    ensures
        errno_of(status) == Errno::Ecanceled <==> status == Status::Cancelled,
        errno_of(status) == Errno::Etimedout <==> status == Status::Timeout,
{
}

} // verus!
