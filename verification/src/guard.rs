//! The checks every entry point of the C interface makes of its arguments, and what a caught panic
//! is reported as.
//!
//! Pointers stay outside: a string argument arrives as its bytes, or as `None` where the pointer was
//! null, and what is to be written into a caller's buffer leaves as a [`Written`].

use vstd::prelude::*;
use vstd::string::*;
use vstd::utf8::{decode_utf8, encode_utf8, valid_utf8};

use crate::error::{invalid_argument, Error, Status};
use crate::options::text_of;
use crate::text::{decimal, push_decimal, texts};

verus! {

// ---------------------------------------------------------------------------------------------
// Panics
// ---------------------------------------------------------------------------------------------

/// What a panic carries: one of the two shapes of text that `panic!` produces, or something that
/// cannot be rendered.
#[derive(Debug, Clone, Copy)]
pub enum PanicPayload<'a> {
    Borrowed(&'a str),
    Owned(&'a str),
    Other,
}

/// What a panic said.
pub open spec fn panic_text(cause: PanicPayload) -> Seq<char> {
    match cause {
        PanicPayload::Borrowed(s) => s@,
        PanicPayload::Owned(s) => s@,
        PanicPayload::Other => "unknown panic payload"@,
    }
}

/// What a caught panic said.
pub fn panic_message<'a>(cause: PanicPayload<'a>) -> (r: &'a str)
    ensures
        r@ == panic_text(cause),
{
    match cause {
        PanicPayload::Borrowed(s) => s,
        PanicPayload::Owned(s) => s,
        PanicPayload::Other => "unknown panic payload",
    }
}

/// The error that a panic inside an entry point is reported as.
pub fn caught_panic(cause: PanicPayload) -> (e: Error)
    ensures
        e.says(
            Status::Internal,
            "Uncaught panic in the Spanner driver: "@ + panic_text(cause),
        ),
{
    let mut message = "Uncaught panic in the Spanner driver: ".to_owned();
    message.append(panic_message(cause));
    Error::with_message_and_status(message, Status::Internal)
}

// ---------------------------------------------------------------------------------------------
// Text for C
// ---------------------------------------------------------------------------------------------

/// Bytes with every NUL replaced by a question mark.
pub open spec fn sanitized(bytes: Seq<u8>) -> Seq<u8> {
    bytes.map_values(
        |b: u8|
            if b == 0 {
                63u8
            } else {
                b
            },
    )
}

/// The bytes of a C string that holds `text`, without the terminator. No C string can carry a NUL;
/// each becomes a `?`, so that what follows it is not lost.
pub fn sanitized_cstring(text: &str) -> (r: Vec<u8>)
    ensures
        r@ == sanitized(encode_utf8(text@)),
{
    let bytes = text.as_bytes();
    let mut out: Vec<u8> = Vec::new();
    let mut i: usize = 0;
    while i < bytes.len()
        invariant
            i <= bytes@.len(),
            out@ == sanitized(bytes@).take(i as int),
        decreases bytes@.len() - i,
    {
        let byte: u8 = bytes[i];
        let kept: u8 = if byte == 0 {
            63
        } else {
            byte
        };
        out.push(kept);
        i = i + 1;
        assert(out@ =~= sanitized(bytes@).take(i as int));
    }
    assert(out@ =~= sanitized(bytes@));
    out
}

/// A sanitized text holds no NUL, and a text without one is left as it is.
pub proof fn lemma_sanitized(bytes: Seq<u8>)
    ensures
        !sanitized(bytes).contains(0u8),
        sanitized(bytes).len() == bytes.len(),
        !bytes.contains(0u8) ==> sanitized(bytes) == bytes,
{
    if !bytes.contains(0u8) {
        assert(sanitized(bytes) =~= bytes);
    }
}

// ---------------------------------------------------------------------------------------------
// Arguments
// ---------------------------------------------------------------------------------------------

pub open spec fn missing_message(name: Seq<char>) -> Seq<char> {
    name + " must not be null"@
}

/// The rejection of a null argument.
pub fn missing_argument(name: &str) -> (e: Error)
    ensures
        e.says(Status::InvalidArguments, missing_message(name@)),
{
    let mut message = name.to_owned();
    message.append(" must not be null");
    invalid_argument(message)
}

/// What the reader of UTF-8 says of bytes that are not.
pub uninterp spec fn utf8_complaint(bytes: Seq<u8>) -> Seq<char>;

/// Whether `result` is the text that `bytes` encode, or else fails with `complaint`.
pub open spec fn is_utf8_reading(
    result: Result<String, String>,
    bytes: Seq<u8>,
    complaint: Seq<char>,
) -> bool {
    match result {
        Ok(s) => valid_utf8(bytes) && s@ == decode_utf8(bytes),
        Err(e) => !valid_utf8(bytes) && e@ == complaint,
    }
}

/// Reads bytes as UTF-8 with `std::str::from_utf8`: the text they encode, where they are UTF-8, and
/// where they are not the text of the `Utf8Error`, which is a function of the bytes alone and goes
/// by the name [`utf8_complaint`].
#[verifier::external_body]
pub(crate) fn read_utf8(bytes: &[u8]) -> (r: Result<String, String>)
    ensures
        is_utf8_reading(r, bytes@, utf8_complaint(bytes@)),
{
    match std::str::from_utf8(bytes) {
        Ok(s) => Ok(s.to_owned()),
        Err(e) => Err(e.to_string()),
    }
}

pub open spec fn not_utf8_message(name: Seq<char>, bytes: Seq<u8>) -> Seq<char> {
    name + " must be valid UTF-8: "@ + utf8_complaint(bytes)
}

/// The text of an argument, or why it has none.
pub open spec fn argument_text(bytes: Seq<u8>, name: Seq<char>) -> Result<Seq<char>, Seq<char>> {
    if valid_utf8(bytes) {
        Ok(decode_utf8(bytes))
    } else {
        Err(not_utf8_message(name, bytes))
    }
}

/// `result` is the text `expected`, where a failure is an invalid argument with the message given.
pub open spec fn reads_as(
    result: Result<String, Error>,
    expected: Result<Seq<char>, Seq<char>>,
) -> bool {
    match expected {
        Ok(s) => result is Ok && result->Ok_0@ == s,
        Err(m) => result is Err && result->Err_0.says(Status::InvalidArguments, m),
    }
}

fn argument(bytes: &[u8], name: &str) -> (r: Result<String, Error>)
    ensures
        reads_as(r, argument_text(bytes@, name@)),
{
    match read_utf8(bytes) {
        Ok(s) => Ok(s),
        Err(complaint) => {
            let mut message = name.to_owned();
            message.append(" must be valid UTF-8: ");
            message.append(complaint.as_str());
            Err(invalid_argument(message))
        },
    }
}

/// The text of a required argument.
pub open spec fn required_text(value: Option<&[u8]>, name: Seq<char>) -> Result<
    Seq<char>,
    Seq<char>,
> {
    match value {
        None => Err(missing_message(name)),
        Some(bytes) => argument_text(bytes@, name),
    }
}

/// A required string argument.
pub fn required_str(value: Option<&[u8]>, name: &str) -> (r: Result<String, Error>)
    ensures
        reads_as(r, required_text(value, name@)),
{
    match value {
        None => Err(missing_argument(name)),
        Some(bytes) => argument(bytes, name),
    }
}

/// The text of an optional argument.
pub open spec fn optional_text(value: Option<&[u8]>, name: Seq<char>) -> Result<
    Option<Seq<char>>,
    Seq<char>,
> {
    match value {
        None => Ok(None),
        Some(bytes) => match argument_text(bytes@, name) {
            Ok(s) => Ok(Some(s)),
            Err(m) => Err(m),
        },
    }
}

/// An optional string argument, where null means that it is not given.
pub fn optional_str(value: Option<&[u8]>, name: &str) -> (r: Result<Option<String>, Error>)
    ensures
        match optional_text(value, name@) {
            Ok(text) => r is Ok && text_of(r->Ok_0) == text,
            Err(m) => r is Err && r->Err_0.says(Status::InvalidArguments, m),
        },
{
    match value {
        None => Ok(None),
        Some(bytes) => match argument(bytes, name) {
            Ok(s) => Ok(Some(s)),
            Err(e) => Err(e),
        },
    }
}

/// The texts of a list of arguments, or why the first that has none has none.
pub open spec fn argument_texts(list: Seq<Seq<u8>>, name: Seq<char>) -> Result<
    Seq<Seq<char>>,
    Seq<char>,
>
    decreases list.len(),
{
    if list.len() == 0 {
        Ok(Seq::empty())
    } else {
        match argument_texts(list.drop_last(), name) {
            Err(m) => Err(m),
            Ok(before) => match argument_text(list.last(), name) {
                Ok(s) => Ok(before.push(s)),
                Err(m) => Err(m),
            },
        }
    }
}

proof fn lemma_argument_texts_fail(list: Seq<Seq<u8>>, n: int, name: Seq<char>)
    requires
        0 <= n <= list.len(),
        argument_texts(list.take(n), name) is Err,
    ensures
        argument_texts(list, name) == argument_texts(list.take(n), name),
    decreases list.len() - n,
{
    if n == list.len() {
        assert(list.take(n) =~= list);
    } else {
        assert(list.take(n + 1).drop_last() =~= list.take(n));
        lemma_argument_texts_fail(list, n + 1, name);
    }
}

/// The bytes that a list of byte strings stands for.
pub open spec fn byte_strings(list: Seq<Vec<u8>>) -> Seq<Seq<u8>> {
    list.map_values(|b: Vec<u8>| b@)
}

/// The texts of an optional list of arguments.
pub open spec fn optional_texts(given: Option<&Vec<Vec<u8>>>, name: Seq<char>) -> Result<
    Option<Seq<Seq<char>>>,
    Seq<char>,
> {
    match given {
        None => Ok(None),
        Some(list) => match argument_texts(byte_strings(list@), name) {
            Ok(ss) => Ok(Some(ss)),
            Err(m) => Err(m),
        },
    }
}

/// The texts of an optional list.
pub open spec fn texts_of(list: Option<Vec<String>>) -> Option<Seq<Seq<char>>> {
    match list {
        Some(v) => Some(texts(v@)),
        None => None,
    }
}

/// An optional list of string arguments. The first that is not UTF-8 is reported.
pub fn optional_str_list(given: Option<&Vec<Vec<u8>>>, name: &str) -> (r: Result<
    Option<Vec<String>>,
    Error,
>)
    ensures
        match optional_texts(given, name@) {
            Ok(ss) => r is Ok && texts_of(r->Ok_0) == ss,
            Err(m) => r is Err && r->Err_0.says(Status::InvalidArguments, m),
        },
{
    let list = match given {
        None => {
            return Ok(None);
        },
        Some(list) => list,
    };
    let ghost all = byte_strings(list@);
    let mut items: Vec<String> = Vec::new();
    let mut i: usize = 0;
    assert(texts(items@) =~= Seq::empty());
    while i < list.len()
        invariant
            i <= list@.len(),
            given == Some(list),
            all == byte_strings(list@),
            argument_texts(all.take(i as int), name@) == Ok::<Seq<Seq<char>>, Seq<char>>(
                texts(items@),
            ),
        decreases list@.len() - i,
    {
        proof {
            assert(all.take(i + 1).drop_last() =~= all.take(i as int));
            assert(all.take(i + 1).last() == list@[i as int]@);
        }
        match argument(list[i].as_slice(), name) {
            Ok(s) => {
                assert(texts(items@.push(s)) =~= texts(items@).push(s@));
                items.push(s);
            },
            Err(e) => {
                proof {
                    lemma_argument_texts_fail(all, i + 1, name@);
                }
                return Err(e);
            },
        }
        i = i + 1;
    }
    assert(all.take(all.len() as int) =~= all);
    Ok(Some(items))
}

pub open spec fn null_bytes_message(name: Seq<char>, len: nat) -> Seq<char> {
    name + " must not be null for a length of "@ + decimal(len)
}

/// Checks a pointer and a length: a null pointer is the empty argument, and only that.
pub fn byte_slice(is_null: bool, len: usize, name: &str) -> (r: Result<(), Error>)
    ensures
        is_null && len > 0 ==> r is Err && r->Err_0.says(
            Status::InvalidArguments,
            null_bytes_message(name@, len as nat),
        ),
        !(is_null && len > 0) ==> r is Ok,
{
    if is_null && len > 0 {
        let mut message = name.to_owned();
        message.append(" must not be null for a length of ");
        push_decimal(&mut message, len as u128);
        assert(message@ =~= null_bytes_message(name@, len as nat));
        Err(invalid_argument(message))
    } else {
        Ok(())
    }
}

/// Rejects a missing output, before work whose result nobody could collect.
pub fn required_output(is_null: bool, name: &str) -> (r: Result<(), Error>)
    ensures
        is_null ==> r is Err && r->Err_0.says(Status::InvalidArguments, missing_message(name@)),
        !is_null ==> r is Ok,
{
    if is_null {
        Err(missing_argument(name))
    } else {
        Ok(())
    }
}

// ---------------------------------------------------------------------------------------------
// Buffers
// ---------------------------------------------------------------------------------------------

pub open spec fn no_buffer_message(available: nat) -> Seq<char> {
    "value must not be null for a buffer length of "@ + decimal(available)
        + "; pass a length of 0 to ask only for the size required"@
}

/// The space a caller has, or why its description of it is rejected.
pub open spec fn space(dst_is_null: bool, length: Option<usize>) -> Result<usize, Seq<char>> {
    match length {
        None => Err(missing_message("length"@)),
        Some(available) => if dst_is_null && available > 0 {
            Err(no_buffer_message(available as nat))
        } else {
            Ok(available)
        },
    }
}

/// The space a caller says it has. A null buffer asks for the size only, and must say that it holds
/// nothing: a null buffer with room would make the call report a value that it did not deliver.
pub fn available_space(dst_is_null: bool, length: Option<usize>) -> (r: Result<usize, Error>)
    ensures
        match space(dst_is_null, length) {
            Ok(n) => r is Ok && r->Ok_0 == n,
            Err(m) => r is Err && r->Err_0.says(Status::InvalidArguments, m),
        },
{
    match length {
        None => Err(missing_argument("length")),
        Some(available) => {
            if dst_is_null && available > 0 {
                let mut message = "value must not be null for a buffer length of ".to_owned();
                push_decimal(&mut message, available as u128);
                message.append("; pass a length of 0 to ask only for the size required");
                Err(invalid_argument(message))
            } else {
                Ok(available)
            }
        },
    }
}

/// What a getter writes: the length it reports, and the bytes it copies into the buffer, if it
/// copies any.
#[derive(Debug, PartialEq, Eq)]
pub struct Written {
    pub required: usize,
    pub copied: Option<Vec<u8>>,
}

pub struct WrittenView {
    pub required: nat,
    pub copied: Option<Seq<u8>>,
}

impl View for Written {
    type V = WrittenView;

    open spec fn view(&self) -> WrittenView {
        WrittenView {
            required: self.required as nat,
            copied: match self.copied {
                Some(bytes) => Some(bytes@),
                None => None,
            },
        }
    }
}

pub open spec fn interior_nul_message(position: nat) -> Seq<char> {
    "option value contains an interior NUL at byte "@ + decimal(position)
}

/// What a string's getter writes: the length is always the space required, with the terminator, and
/// the buffer is written, terminated, only if it is big enough. A string that holds a NUL cannot be
/// written at all.
pub open spec fn string_written(
    bytes: Seq<u8>,
    dst_is_null: bool,
    length: Option<usize>,
) -> Result<WrittenView, (Status, Seq<char>)> {
    match space(dst_is_null, length) {
        Err(m) => Err((Status::InvalidArguments, m)),
        Ok(available) => if bytes.contains(0u8) {
            Err(
                (
                    Status::Internal,
                    interior_nul_message(bytes.index_of_first(0u8)->Some_0 as nat),
                ),
            )
        } else {
            Ok(
                WrittenView {
                    required: bytes.len() + 1,
                    copied: if bytes.len() + 1 <= available {
                        Some(bytes.push(0u8))
                    } else {
                        None
                    },
                },
            )
        },
    }
}

/// What a getter of bytes writes, without a terminator. Nothing is copied to a null buffer, not even
/// an empty value.
pub open spec fn bytes_written(
    bytes: Seq<u8>,
    dst_is_null: bool,
    length: Option<usize>,
) -> Result<WrittenView, (Status, Seq<char>)> {
    match space(dst_is_null, length) {
        Err(m) => Err((Status::InvalidArguments, m)),
        Ok(available) => Ok(
            WrittenView {
                required: bytes.len(),
                copied: if !dst_is_null && bytes.len() <= available {
                    Some(bytes)
                } else {
                    None
                },
            },
        ),
    }
}

/// Whether a getter did what is expected of it.
pub open spec fn wrote(
    r: Result<Written, Error>,
    expected: Result<WrittenView, (Status, Seq<char>)>,
) -> bool {
    match expected {
        Ok(w) => r is Ok && r->Ok_0@ == w,
        Err(e) => r is Err && r->Err_0.says(e.0, e.1),
    }
}

/// Writes a string by ADBC's getter protocol.
pub fn write_string(value: &str, dst_is_null: bool, length: Option<usize>) -> (r: Result<
    Written,
    Error,
>)
    requires
        encode_utf8(value@).len() < usize::MAX,
    ensures
        wrote(r, string_written(encode_utf8(value@), dst_is_null, length)),
{
    let available: usize = match available_space(dst_is_null, length) {
        Ok(n) => n,
        Err(e) => {
            return Err(e);
        },
    };
    let bytes = value.as_bytes();
    let mut copied: Vec<u8> = Vec::new();
    let mut i: usize = 0;
    while i < bytes.len()
        invariant
            i <= bytes@.len(),
            bytes@ == encode_utf8(value@),
            copied@ == bytes@.take(i as int),
            forall|k: int| 0 <= k < i ==> bytes@[k] != 0u8,
            space(dst_is_null, length) is Ok,
        decreases bytes@.len() - i,
    {
        if bytes[i] == 0 {
            proof {
                assert(bytes@.contains(0u8));
                bytes@.index_of_first_ensures(0u8);
                assert(bytes@.index_of_first(0u8)->Some_0 == i as int);
            }
            let mut message = "option value contains an interior NUL at byte ".to_owned();
            push_decimal(&mut message, i as u128);
            return Err(Error::with_message_and_status(message, Status::Internal));
        }
        copied.push(bytes[i]);
        i = i + 1;
        assert(copied@ =~= bytes@.take(i as int));
    }
    assert(copied@ =~= bytes@);
    assert(!bytes@.contains(0u8));
    let required: usize = bytes.len() + 1;
    if required <= available {
        copied.push(0);
        Ok(Written { required, copied: Some(copied) })
    } else {
        Ok(Written { required, copied: None })
    }
}

/// Writes bytes by the same protocol.
pub fn write_bytes(value: &Vec<u8>, dst_is_null: bool, length: Option<usize>) -> (r: Result<
    Written,
    Error,
>)
    ensures
        wrote(r, bytes_written(value@, dst_is_null, length)),
{
    let available: usize = match available_space(dst_is_null, length) {
        Ok(n) => n,
        Err(e) => {
            return Err(e);
        },
    };
    if !dst_is_null && value.len() <= available {
        let copied: Vec<u8> = value.clone();
        assert(copied@ =~= value@);
        Ok(Written { required: value.len(), copied: Some(copied) })
    } else {
        Ok(Written { required: value.len(), copied: None })
    }
}

/// The reported length suffices: whatever buffer a getter was first called with, one of the length
/// that it reported gets the whole value.
pub proof fn lemma_reported_length_suffices(
    bytes: Seq<u8>,
    dst_is_null: bool,
    length: Option<usize>,
    retry: usize,
)
    ensures
        match string_written(bytes, dst_is_null, length) {
            Ok(w) => retry == w.required ==> string_written(bytes, false, Some(retry)) == Ok::<
                WrittenView,
                (Status, Seq<char>),
            >(WrittenView { required: w.required, copied: Some(bytes.push(0u8)) }),
            Err(_) => true,
        },
        match bytes_written(bytes, dst_is_null, length) {
            Ok(w) => retry == w.required ==> bytes_written(bytes, false, Some(retry)) == Ok::<
                WrittenView,
                (Status, Seq<char>),
            >(WrittenView { required: w.required, copied: Some(bytes) }),
            Err(_) => true,
        },
{
}

} // verus!
