//! The error every fallible operation of the driver reports.

use vstd::prelude::*;

verus! {

/// The ADBC status of a failed operation.
#[derive(Debug, Clone, Copy, PartialEq, Eq, Structural)]
pub enum Status {
    Success,
    Unknown,
    NotImplemented,
    NotFound,
    AlreadyExists,
    InvalidArguments,
    InvalidState,
    InvalidData,
    Integrity,
    Internal,
    IO,
    Cancelled,
    Timeout,
    Unauthenticated,
    Unauthorized,
}

/// An ADBC error: a message, a status, and what a vendor library may add to them.
#[derive(Debug, Clone, PartialEq, Eq)]
pub struct Error {
    pub message: String,
    pub status: Status,
    pub vendor_code: i32,
    pub sqlstate: [i8; 5],
    pub details: Option<Vec<(String, Vec<u8>)>>,
}

/// The number that stands for a status in the ADBC C header.
pub open spec fn code_of(status: Status) -> u8 {
    match status {
        Status::Success => 0,
        Status::Unknown => 1,
        Status::NotImplemented => 2,
        Status::NotFound => 3,
        Status::AlreadyExists => 4,
        Status::InvalidArguments => 5,
        Status::InvalidState => 6,
        Status::InvalidData => 7,
        Status::Integrity => 8,
        Status::Internal => 9,
        Status::IO => 10,
        Status::Cancelled => 11,
        Status::Timeout => 12,
        Status::Unauthenticated => 13,
        Status::Unauthorized => 14,
    }
}

impl Status {
    /// The number that stands for the status in the ADBC C header.
    pub fn code(self) -> (r: u8)
        ensures
            r == code_of(self),
    {
        match self {
            Status::Success => 0,
            Status::Unknown => 1,
            Status::NotImplemented => 2,
            Status::NotFound => 3,
            Status::AlreadyExists => 4,
            Status::InvalidArguments => 5,
            Status::InvalidState => 6,
            Status::InvalidData => 7,
            Status::Integrity => 8,
            Status::Internal => 9,
            Status::IO => 10,
            Status::Cancelled => 11,
            Status::Timeout => 12,
            Status::Unauthenticated => 13,
            Status::Unauthorized => 14,
        }
    }
}

impl Error {
    /// The error carries `status` and `message`, and nothing else.
    pub open spec fn says(self, status: Status, message: Seq<char>) -> bool {
        &&& self.status == status
        &&& self.message@ == message
        &&& self.vendor_code == 0
        &&& self.sqlstate@ == seq![0i8, 0i8, 0i8, 0i8, 0i8]
        &&& self.details is None
    }

    pub fn with_message_and_status(message: String, status: Status) -> (r: Error)
        ensures
            r.says(status, message@),
    {
        let r = Error { message, status, vendor_code: 0, sqlstate: [0, 0, 0, 0, 0], details: None };
        assert(r.sqlstate@ =~= seq![0i8, 0i8, 0i8, 0i8, 0i8]);
        r
    }
}

/// Whether `result` failed with exactly this status and message.
pub open spec fn fails<T>(result: Result<T, Error>, status: Status, message: Seq<char>) -> bool {
    match result {
        Ok(_) => false,
        Err(e) => e.says(status, message),
    }
}

/// Whether `result` succeeded with exactly this text.
pub open spec fn gives(result: Result<String, Error>, text: Seq<char>) -> bool {
    match result {
        Ok(s) => s@ == text,
        Err(_) => false,
    }
}

pub fn invalid_argument(message: String) -> (r: Error)
    ensures
        r.says(Status::InvalidArguments, message@),
{
    Error::with_message_and_status(message, Status::InvalidArguments)
}

pub fn invalid_state(message: String) -> (r: Error)
    ensures
        r.says(Status::InvalidState, message@),
{
    Error::with_message_and_status(message, Status::InvalidState)
}

pub fn not_found(message: String) -> (r: Error)
    ensures
        r.says(Status::NotFound, message@),
{
    Error::with_message_and_status(message, Status::NotFound)
}

pub fn internal(message: String) -> (r: Error)
    ensures
        r.says(Status::Internal, message@),
{
    Error::with_message_and_status(message, Status::Internal)
}

} // verus!
