//! Option values and the coercions that every level of the driver reads them with.
//!
//! Each coercion takes a `what` label that names the offending option in a rejection: `option `
//! followed by the full key, so that the caller sees the exact string to fix. [`f64_option`] is the
//! exception and takes the bare key.
//!
//! A double is carried as the bits of its IEEE 754 encoding. Reading digits as a double, and
//! rounding an integer to one, is left to the caller, who hands the result in.

use vstd::prelude::*;

use crate::error::{invalid_argument, Error, Status};
use crate::number::{int_value, parse_i64};
use crate::text::{debug_quoted, debug_text, eq_str, to_chars, trim, trimmed};

verus! {

/// A double, by the 64 bits of its IEEE 754 encoding.
#[derive(Debug, Clone, Copy, PartialEq, Eq, Structural)]
pub struct Double {
    pub bits: u64,
}

pub const SIGN_BIT: u64 = 0x8000_0000_0000_0000;

pub const FRACTION_RANGE: u64 = 0x10_0000_0000_0000;

impl Double {
    pub open spec fn is_negative_bits(self) -> bool {
        self.bits >= SIGN_BIT
    }

    /// The encoding without its sign.
    pub open spec fn magnitude(self) -> nat {
        if self.is_negative_bits() {
            (self.bits - SIGN_BIT) as nat
        } else {
            self.bits as nat
        }
    }

    /// The biased exponent, 0 to 2047.
    pub open spec fn exponent(self) -> nat {
        self.magnitude() / (FRACTION_RANGE as nat)
    }

    /// The low 52 bits.
    pub open spec fn fraction(self) -> nat {
        self.magnitude() % (FRACTION_RANGE as nat)
    }

    pub open spec fn is_finite(self) -> bool {
        self.exponent() < 2047
    }

    /// Whether the value compares greater than zero.
    pub open spec fn is_positive(self) -> bool {
        !self.is_negative_bits() && self.bits != 0 && !self.is_nan()
    }

    /// Whether the value compares greater than or equal to zero. Both zeros do.
    pub open spec fn is_non_negative(self) -> bool {
        self.magnitude() == 0 || (!self.is_negative_bits() && !self.is_nan())
    }

    pub open spec fn is_nan(self) -> bool {
        self.exponent() == 2047 && self.fraction() != 0
    }

    /// Whether a finite value that is not negative is below 2^64, so that as a number of seconds it
    /// is a `Duration`.
    pub open spec fn is_duration(self) -> bool {
        self.exponent() < 1087
    }

    pub fn magnitude_bits(self) -> (r: u64)
        ensures
            r == self.magnitude(),
            r < SIGN_BIT,
    {
        if self.bits >= SIGN_BIT {
            self.bits - SIGN_BIT
        } else {
            self.bits
        }
    }

    pub fn exponent_bits(self) -> (r: u64)
        ensures
            r == self.exponent(),
            r < 2048,
    {
        self.magnitude_bits() / FRACTION_RANGE
    }

    pub fn fraction_bits(self) -> (r: u64)
        ensures
            r == self.fraction(),
            r < FRACTION_RANGE,
    {
        self.magnitude_bits() % FRACTION_RANGE
    }

    pub fn finite(self) -> (r: bool)
        ensures
            r == self.is_finite(),
    {
        self.exponent_bits() < 2047
    }

    pub fn positive(self) -> (r: bool)
        ensures
            r == self.is_positive(),
    {
        self.bits < SIGN_BIT && self.bits != 0 && !(self.exponent_bits() == 2047
            && self.fraction_bits() != 0)
    }

    pub fn non_negative(self) -> (r: bool)
        ensures
            r == self.is_non_negative(),
    {
        self.magnitude_bits() == 0 || (self.bits < SIGN_BIT && !(self.exponent_bits() == 2047
            && self.fraction_bits() != 0))
    }

    pub fn duration(self) -> (r: bool)
        ensures
            r == self.is_duration(),
    {
        self.exponent_bits() < 1087
    }
}

/// The value of an option, in the four shapes that ADBC's setters take.
#[derive(Debug, Clone, PartialEq, Eq)]
pub enum OptionValue {
    Text(String),
    Bytes(Vec<u8>),
    Int(i64),
    Double(Double),
}

/// `result` is `expected`, where a failure is an invalid argument with the message given.
pub open spec fn coerces<T>(result: Result<T, Error>, expected: Result<T, Seq<char>>) -> bool {
    match expected {
        Ok(v) => result is Ok && result->Ok_0 == v,
        Err(m) => result is Err && result->Err_0.says(Status::InvalidArguments, m),
    }
}

/// As [`coerces`], for text.
pub open spec fn coerces_text(
    result: Result<String, Error>,
    expected: Result<Seq<char>, Seq<char>>,
) -> bool {
    match expected {
        Ok(v) => result is Ok && result->Ok_0@ == v,
        Err(m) => result is Err && result->Err_0.says(Status::InvalidArguments, m),
    }
}

/// The optional text that `o` holds.
pub open spec fn text_of(o: Option<String>) -> Option<Seq<char>> {
    match o {
        Some(s) => Some(s@),
        None => None,
    }
}

/// As [`coerces`], for optional text.
pub open spec fn coerces_optional_text(
    result: Result<Option<String>, Error>,
    expected: Result<Option<Seq<char>>, Seq<char>>,
) -> bool {
    match expected {
        Ok(v) => result is Ok && text_of(result->Ok_0) == v,
        Err(m) => result is Err && result->Err_0.says(Status::InvalidArguments, m),
    }
}

// ---------------------------------------------------------------------------------------------
// Booleans and text
// ---------------------------------------------------------------------------------------------

pub open spec fn boolean(value: OptionValue, what: Seq<char>) -> Result<bool, Seq<char>> {
    match value {
        OptionValue::Text(s) => if s@ == "true"@ {
            Ok(true)
        } else if s@ == "false"@ {
            Ok(false)
        } else {
            Err(what + " expects \"true\" or \"false\", got "@ + debug_text(s@))
        },
        _ => Err(
            what
                + " is a boolean option and takes the strings \"true\"/\"false\" (int- and other non-string-typed values are not accepted)"@,
        ),
    }
}

/// Reads a boolean option: exactly the string `true` or `false`, in lower case. An integer is
/// rejected rather than coerced, since the getters serve the string.
pub fn bool_option(value: OptionValue, what: &str) -> (r: Result<bool, Error>)
    ensures
        coerces(r, boolean(value, what@)),
{
    proof {
        reveal_strlit("true");
        reveal_strlit("false");
    }
    match value {
        OptionValue::Text(s) => if eq_str(s.as_str(), "true") {
            Ok(true)
        } else if eq_str(s.as_str(), "false") {
            Ok(false)
        } else {
            let mut message = what.to_owned();
            message.append(" expects \"true\" or \"false\", got ");
            message.append(debug_quoted(s.as_str()).as_str());
            Err(invalid_argument(message))
        },
        _ => {
            let mut message = what.to_owned();
            message.append(
                " is a boolean option and takes the strings \"true\"/\"false\" (int- and other non-string-typed values are not accepted)",
            );
            Err(invalid_argument(message))
        },
    }
}

pub open spec fn plain_text(value: OptionValue, what: Seq<char>) -> Result<Seq<char>, Seq<char>> {
    match value {
        OptionValue::Text(s) => Ok(s@),
        _ => Err(what + " requires a string value"@),
    }
}

/// Reads a string option; any other kind of value is rejected.
pub fn string_option(value: OptionValue, what: &str) -> (r: Result<String, Error>)
    ensures
        coerces_text(r, plain_text(value, what@)),
{
    match value {
        OptionValue::Text(s) => Ok(s),
        _ => {
            let mut message = what.to_owned();
            message.append(" requires a string value");
            Err(invalid_argument(message))
        },
    }
}

/// `None` for the empty text, which is how an option is unset.
pub open spec fn unless_empty(s: Seq<char>) -> Option<Seq<char>> {
    if s.len() == 0 {
        None
    } else {
        Some(s)
    }
}

pub open spec fn optional_text(value: OptionValue, what: Seq<char>) -> Result<
    Option<Seq<char>>,
    Seq<char>,
> {
    match plain_text(value, what) {
        Ok(s) => Ok(unless_empty(s)),
        Err(m) => Err(m),
    }
}

/// Reads a string option that is unset by the empty string. The value is kept verbatim.
pub fn non_empty_string_option(value: OptionValue, what: &str) -> (r: Result<Option<String>, Error>)
    ensures
        coerces_optional_text(r, optional_text(value, what@)),
{
    match string_option(value, what) {
        Ok(s) => Ok(non_empty(s)),
        Err(e) => Err(e),
    }
}

/// `None` for an empty string, the spelling that unsets an option.
pub fn non_empty(s: String) -> (r: Option<String>)
    ensures
        text_of(r) == unless_empty(s@),
{
    if s.as_str().is_empty() {
        None
    } else {
        Some(s)
    }
}

// ---------------------------------------------------------------------------------------------
// Numbers
// ---------------------------------------------------------------------------------------------

/// The range a double option accepts, which also words its rejection.
#[derive(Debug, Clone, Copy, PartialEq, Eq, Structural)]
pub enum F64Range {
    /// Seconds above zero.
    PositiveSeconds,
    /// Seconds from zero on.
    NonNegativeSeconds,
    /// A plain factor above zero.
    PositiveFactor,
}

/// Whether the double is finite and within the range. Seconds must also be a `Duration`.
pub open spec fn in_range(d: Double, range: F64Range) -> bool {
    &&& d.is_finite()
    &&& match range {
        F64Range::NonNegativeSeconds => d.is_non_negative(),
        _ => d.is_positive(),
    }
    &&& range != F64Range::PositiveFactor ==> d.is_duration()
}

pub open spec fn out_of_range_message(what: Seq<char>, range: F64Range) -> Seq<char> {
    let tail = match range {
        F64Range::PositiveSeconds => " must be a finite, strictly positive number of seconds"@,
        F64Range::NonNegativeSeconds => " must be a finite, non-negative number of seconds"@,
        F64Range::PositiveFactor => " must be a finite, strictly positive number"@,
    };
    "option "@ + what + tail
}

/// The outcome of reading `value` as a double option, where `number` is the double it writes.
pub open spec fn double_option(
    value: OptionValue,
    number: Option<Double>,
    what: Seq<char>,
    range: F64Range,
) -> Result<Option<Double>, Seq<char>> {
    let read = match value {
        OptionValue::Double(d) => Some(d),
        OptionValue::Bytes(_) => None,
        _ => number,
    };
    if value is Text && trimmed(value->Text_0@).len() == 0 {
        Ok(None)
    } else if read is Some && in_range(read->Some_0, range) {
        Ok(read)
    } else {
        Err(out_of_range_message(what, range))
    }
}

fn out_of_range(what: &str, range: F64Range) -> (e: Error)
    ensures
        e.says(Status::InvalidArguments, out_of_range_message(what@, range)),
{
    let mut message = "option ".to_owned();
    message.append(what);
    match range {
        F64Range::PositiveSeconds => message.append(
            " must be a finite, strictly positive number of seconds",
        ),
        F64Range::NonNegativeSeconds => message.append(
            " must be a finite, non-negative number of seconds",
        ),
        F64Range::PositiveFactor => message.append(" must be a finite, strictly positive number"),
    }
    invalid_argument(message)
}

/// Reads a double option within `range`: a numeric string (trimmed), an integer or a double. The
/// empty string yields `None` (unset); what is not a number, not finite or out of range is
/// rejected. `number` is the double that the trimmed string or the integer reads as, if any.
pub fn f64_option(value: OptionValue, number: Option<Double>, what: &str, range: F64Range) -> (r:
    Result<Option<Double>, Error>)
    ensures
        coerces(r, double_option(value, number, what@, range)),
{
    let read = match value {
        OptionValue::Text(s) => {
            if trim(s.as_str()).as_str().is_empty() {
                return Ok(None);
            }
            number
        },
        OptionValue::Double(d) => Some(d),
        OptionValue::Int(_) => number,
        OptionValue::Bytes(_) => None,
    };
    match read {
        Some(d) => {
            let within = match range {
                F64Range::NonNegativeSeconds => d.non_negative(),
                F64Range::PositiveSeconds => d.positive(),
                F64Range::PositiveFactor => d.positive(),
            };
            let sized = match range {
                F64Range::PositiveFactor => true,
                _ => d.duration(),
            };
            if d.finite() && within && sized {
                Ok(Some(d))
            } else {
                Err(out_of_range(what, range))
            }
        },
        None => Err(out_of_range(what, range)),
    }
}

pub open spec fn positive_integer(value: OptionValue, what: Seq<char>) -> Result<int, Seq<char>> {
    let read = match value {
        OptionValue::Int(i) => Some(i as int),
        OptionValue::Text(s) => int_value(s@),
        _ => None,
    };
    if read is Some && read->Some_0 > 0 {
        Ok(read->Some_0)
    } else {
        Err(what + " must be a positive integer"@)
    }
}

/// `result` is the integer `expected`, where a failure is an invalid argument with the message
/// given.
pub open spec fn coerces_i64(result: Result<i64, Error>, expected: Result<int, Seq<char>>) -> bool {
    match expected {
        Ok(v) => result is Ok && result->Ok_0 == v,
        Err(m) => result is Err && result->Err_0.says(Status::InvalidArguments, m),
    }
}

fn not_positive(what: &str) -> (e: Error)
    ensures
        e.says(Status::InvalidArguments, what@ + " must be a positive integer"@),
{
    let mut message = what.to_owned();
    message.append(" must be a positive integer");
    invalid_argument(message)
}

/// Reads an integer option above zero, from an integer or a numeric string.
pub fn positive_i64(value: OptionValue, what: &str) -> (r: Result<i64, Error>)
    ensures
        coerces_i64(r, positive_integer(value, what@)),
{
    let read: Option<i64> = match value {
        OptionValue::Int(i) => Some(i),
        OptionValue::Text(s) => parse_i64(to_chars(s.as_str()).as_slice()),
        _ => None,
    };
    match read {
        Some(n) if n > 0 => Ok(n),
        _ => Err(not_positive(what)),
    }
}

/// As [`positive_i64`], narrowed to `usize`.
pub fn positive_usize(value: OptionValue, what: &str) -> (r: Result<usize, Error>)
    ensures
        match positive_integer(value, what@) {
            Ok(n) if n <= usize::MAX => r is Ok && r->Ok_0 == n,
            _ => r is Err && r->Err_0.says(
                Status::InvalidArguments,
                what@ + " must be a positive integer"@,
            ),
        },
{
    match positive_i64(value, what) {
        Ok(n) => if n as u64 <= usize::MAX as u64 {
            Ok(n as usize)
        } else {
            Err(not_positive(what))
        },
        Err(e) => Err(e),
    }
}

// ---------------------------------------------------------------------------------------------
// Typed getters over the stored string
// ---------------------------------------------------------------------------------------------

pub open spec fn not_an_integer_message(what: Seq<char>, value: Seq<char>) -> Seq<char> {
    what + " value "@ + debug_text(value) + " is not an integer"@
}

pub open spec fn not_a_double_message(what: Seq<char>, value: Seq<char>) -> Seq<char> {
    what + " value "@ + debug_text(value) + " is not a double"@
}

/// Serves a stored string as an integer. A failed lookup is passed on unchanged; a value that is
/// set and is not an integer is an invalid argument, never "not found".
pub fn int_from_stored_string(stored: Result<String, Error>, what: &str) -> (r: Result<i64, Error>)
    ensures
        match stored {
            Ok(value) => coerces_i64(
                r,
                match int_value(value@) {
                    Some(i) => Ok(i),
                    None => Err(not_an_integer_message(what@, value@)),
                },
            ),
            Err(e) => r is Err && r->Err_0 == e,
        },
{
    match stored {
        Ok(value) => match parse_i64(to_chars(value.as_str()).as_slice()) {
            Some(i) => Ok(i),
            None => {
                let mut message = what.to_owned();
                message.append(" value ");
                message.append(debug_quoted(value.as_str()).as_str());
                message.append(" is not an integer");
                Err(invalid_argument(message))
            },
        },
        Err(e) => Err(e),
    }
}

/// Serves a stored string as a double, under the contract of [`int_from_stored_string`]. `number`
/// is the double that the string reads as, if any.
pub fn double_from_stored_string(
    stored: Result<String, Error>,
    number: Option<Double>,
    what: &str,
) -> (r: Result<Double, Error>)
    ensures
        match stored {
            Ok(value) => coerces(
                r,
                match number {
                    Some(d) => Ok(d),
                    None => Err(not_a_double_message(what@, value@)),
                },
            ),
            Err(e) => r is Err && r->Err_0 == e,
        },
{
    match stored {
        Ok(value) => match number {
            Some(d) => Ok(d),
            None => {
                let mut message = what.to_owned();
                message.append(" value ");
                message.append(debug_quoted(value.as_str()).as_str());
                message.append(" is not a double");
                Err(invalid_argument(message))
            },
        },
        Err(e) => Err(e),
    }
}

} // verus!
