//! The read bound of read-only queries.
//!
//! A query reads at a strong bound unless `spanner.read.staleness` sets another: `exact:` and
//! `max:` with a duration, `read:` and `min:` with an RFC 3339 timestamp, or a bare timestamp, which
//! means `read:`. The prefixes are lower case and matched exactly; the empty string unsets.
//!
//! A duration is a number with an optional unit. [`split_duration`] takes it apart; what number of
//! seconds the two make is decided in floating point by the caller, who hands the span in.

use vstd::prelude::*;
use vstd::string::*;

use crate::error::{fails, invalid_argument, Error, Status};
use crate::keys::OPTION_READ_STALENESS;
use crate::options::{coerces, plain_text, string_option, text_of, OptionValue};
use crate::text::{
    after, before, debug_quoted, debug_text, eq_str, split_once, substring, to_chars, trim,
    trim_bounds, trimmed,
};

verus! {

// ---------------------------------------------------------------------------------------------
// Instants
// ---------------------------------------------------------------------------------------------

/// An instant: whole seconds since the Unix epoch, and the nanoseconds after them.
#[derive(Debug, Clone, Copy, PartialEq, Eq, Structural)]
pub struct Instant {
    pub secs: i64,
    pub nanos: u32,
}

/// What reading a text as an RFC 3339 timestamp gives: the seconds since the Unix epoch and the
/// nanoseconds after them, or what the reader complains of.
pub uninterp spec fn rfc3339(text: Seq<char>) -> Result<(i64, u32), Seq<char>>;

pub open spec fn is_reading(
    result: Result<(i64, u32), String>,
    named: Result<(i64, u32), Seq<char>>,
) -> bool {
    match result {
        Ok(parts) => named == Ok::<(i64, u32), Seq<char>>(parts),
        Err(complaint) => named == Err::<(i64, u32), Seq<char>>(complaint@),
    }
}

/// Reads an RFC 3339 timestamp with `chrono::DateTime::parse_from_rfc3339`. The result is a
/// function of the text alone and goes by the name [`rfc3339`]: the parsed instant's `timestamp`
/// and `timestamp_subsec_nanos`, or the text of the `ParseError`.
#[verifier::external_body]
fn read_rfc3339(text: &str) -> (r: Result<(i64, u32), String>)
    ensures
        is_reading(r, rfc3339(text@)),
{
    match chrono::DateTime::parse_from_rfc3339(text) {
        Ok(t) => Ok((t.timestamp(), t.timestamp_subsec_nanos())),
        Err(e) => Err(e.to_string()),
    }
}

/// The instant a timestamp names, or what its reader complains of.
pub fn parse_instant(text: &str) -> (r: Result<Instant, String>)
    ensures
        match rfc3339(text@) {
            Ok(parts) => r is Ok && r->Ok_0 == (Instant { secs: parts.0, nanos: parts.1 }),
            Err(complaint) => r is Err && r->Err_0@ == complaint,
        },
{
    match read_rfc3339(text) {
        Ok(parts) => Ok(Instant { secs: parts.0, nanos: parts.1 }),
        Err(complaint) => Err(complaint),
    }
}

/// An instant as two steps from the Unix epoch: `back` whole seconds before it, then `secs` and
/// `nanos` forward. One of `back` and `secs` is zero.
#[derive(Debug, Clone, Copy, PartialEq, Eq, Structural)]
pub struct EpochOffset {
    pub back: u64,
    pub secs: u64,
    pub nanos: u32,
}

/// The steps from the Unix epoch to an instant, before or after it.
pub fn to_epoch_offset(t: Instant) -> (r: EpochOffset)
    ensures
        r.secs - r.back == t.secs,
        r.nanos == t.nanos,
        r.back == 0 || r.secs == 0,
{
    if t.secs >= 0 {
        EpochOffset { back: 0, secs: t.secs as u64, nanos: t.nanos }
    } else {
        EpochOffset { back: (-(t.secs as i128)) as u64, secs: 0, nanos: t.nanos }
    }
}

// ---------------------------------------------------------------------------------------------
// Durations
// ---------------------------------------------------------------------------------------------

/// A length of time that is not negative.
#[derive(Debug, Clone, Copy, PartialEq, Eq, Structural)]
pub struct TimeSpan {
    pub secs: u64,
    pub nanos: u32,
}

/// The unit of a duration.
#[derive(Debug, Clone, Copy, PartialEq, Eq, Structural)]
pub enum DurationUnit {
    Hours,
    Minutes,
    Seconds,
    Milliseconds,
    Microseconds,
    Nanoseconds,
}

/// Whether `s` ends with the characters `a` and `b`.
pub open spec fn ends_with_two(s: Seq<char>, a: char, b: char) -> bool {
    s.len() >= 2 && s[s.len() - 2] == a && s[s.len() - 1] == b
}

/// The unit that a duration ends with, and how many characters it takes. Seconds are the default.
pub open spec fn duration_unit(s: Seq<char>) -> (DurationUnit, nat) {
    if ends_with_two(s, 'm', 's') {
        (DurationUnit::Milliseconds, 2)
    } else if ends_with_two(s, 'u', 's') || ends_with_two(s, '\u{b5}', 's') {
        (DurationUnit::Microseconds, 2)
    } else if ends_with_two(s, 'n', 's') {
        (DurationUnit::Nanoseconds, 2)
    } else if s.len() >= 1 && s.last() == 's' {
        (DurationUnit::Seconds, 1)
    } else if s.len() >= 1 && s.last() == 'm' {
        (DurationUnit::Minutes, 1)
    } else if s.len() >= 1 && s.last() == 'h' {
        (DurationUnit::Hours, 1)
    } else {
        (DurationUnit::Seconds, 0)
    }
}

/// The number of a duration, without the white space around it.
pub open spec fn duration_number(s: Seq<char>) -> Seq<char> {
    trimmed(s.take(s.len() - duration_unit(s).1))
}

/// Takes a duration apart into its number and its unit.
pub fn split_duration(value: &str) -> (r: (String, DurationUnit))
    ensures
        r.0@ == duration_number(value@),
        r.1 == duration_unit(value@).0,
{
    let chars = to_chars(value);
    let n: usize = chars.len();
    let last: char = if n >= 1 {
        chars[n - 1]
    } else {
        ' '
    };
    let before: char = if n >= 2 {
        chars[n - 2]
    } else {
        ' '
    };
    let mut width: usize = 0;
    let mut unit = DurationUnit::Seconds;
    if n >= 2 && before == 'm' && last == 's' {
        unit = DurationUnit::Milliseconds;
        width = 2;
    } else if n >= 2 && (before == 'u' || before == '\u{b5}') && last == 's' {
        unit = DurationUnit::Microseconds;
        width = 2;
    } else if n >= 2 && before == 'n' && last == 's' {
        unit = DurationUnit::Nanoseconds;
        width = 2;
    } else if n >= 1 && last == 's' {
        width = 1;
    } else if n >= 1 && last == 'm' {
        unit = DurationUnit::Minutes;
        width = 1;
    } else if n >= 1 && last == 'h' {
        unit = DurationUnit::Hours;
        width = 1;
    }
    let (start, end) = trim_bounds(chars.as_slice(), 0, n - width);
    assert(chars@.subrange(0, n - width) =~= value@.take(n - width));
    (substring(chars.as_slice(), start, end), unit)
}

pub open spec fn bad_duration_message(value: Seq<char>, key: Seq<char>) -> Seq<char> {
    "option "@ + key + ": "@ + debug_text(value)
        + " is not a valid duration; expected a number with an optional unit suffix (s [default], ms, us/µs, ns, m, h), e.g. \"500ms\""@
}

pub open spec fn duration_outcome(
    value: Seq<char>,
    span: Option<TimeSpan>,
    key: Seq<char>,
) -> Result<TimeSpan, Seq<char>> {
    match span {
        Some(t) => Ok(t),
        None => Err(bad_duration_message(value, key)),
    }
}

/// Reads a duration option, naming `key` in the rejection. `span` is what the number and the unit
/// of `value` make (see [`split_duration`]), if that is a length of time.
pub fn parse_duration_for(value: &str, span: Option<TimeSpan>, key: &str) -> (r: Result<
    TimeSpan,
    Error,
>)
    ensures
        coerces(r, duration_outcome(value@, span, key@)),
{
    match span {
        Some(t) => Ok(t),
        None => {
            let mut message = "option ".to_owned();
            message.append(key);
            message.append(": ");
            message.append(debug_quoted(value).as_str());
            message.append(
                " is not a valid duration; expected a number with an optional unit suffix (s [default], ms, us/µs, ns, m, h), e.g. \"500ms\"",
            );
            Err(invalid_argument(message))
        },
    }
}

/// Reads a duration of the `spanner.read.staleness` option.
pub fn parse_duration(value: &str, span: Option<TimeSpan>) -> (r: Result<TimeSpan, Error>)
    ensures
        coerces(r, duration_outcome(value@, span, OPTION_READ_STALENESS@)),
{
    parse_duration_for(value, span, OPTION_READ_STALENESS)
}

// ---------------------------------------------------------------------------------------------
// Read bounds
// ---------------------------------------------------------------------------------------------

/// A read bound.
#[derive(Debug, Clone, Copy, PartialEq, Eq, Structural)]
pub enum ReadBound {
    /// Read exactly this far in the past.
    ExactStaleness(TimeSpan),
    /// Read at any timestamp within this span of now.
    MaxStaleness(TimeSpan),
    /// Read exactly as of this instant.
    ReadTimestamp(Instant),
    /// Read at this instant or later.
    MinReadTimestamp(Instant),
}

/// The bound that stands for `b` in a multi-use transaction, which takes no bounded staleness: the
/// stalest read that `b` allows.
pub open spec fn pinned(b: ReadBound) -> ReadBound {
    match b {
        ReadBound::MaxStaleness(d) => ReadBound::ExactStaleness(d),
        ReadBound::MinReadTimestamp(t) => ReadBound::ReadTimestamp(t),
        _ => b,
    }
}

/// Whether a multi-use transaction takes the bound.
pub open spec fn is_multi_use(b: ReadBound) -> bool {
    b is ExactStaleness || b is ReadTimestamp
}

impl ReadBound {
    /// The equivalent bound for a multi-use read-only transaction.
    pub fn pinned_for_multi_use(&self) -> (r: ReadBound)
        ensures
            r == pinned(*self),
    {
        match *self {
            ReadBound::MaxStaleness(d) => ReadBound::ExactStaleness(d),
            ReadBound::MinReadTimestamp(t) => ReadBound::ReadTimestamp(t),
            other => other,
        }
    }

    /// The client's bound for this read, given what making it came to. A bound that the client
    /// cannot hold is rejected, with the client's complaint.
    pub fn to_timestamp_bound<T>(&self, made: Result<T, String>) -> (r: Result<T, Error>)
        ensures
            match made {
                Ok(bound) => r == Ok::<T, Error>(bound),
                Err(complaint) => fails(
                    r,
                    Status::InvalidArguments,
                    out_of_range_message(*self, complaint@),
                ),
            },
    {
        match made {
            Ok(bound) => Ok(bound),
            Err(complaint) => {
                let mut message = match *self {
                    ReadBound::ExactStaleness(_) => "read staleness".to_owned(),
                    ReadBound::MaxStaleness(_) => "read staleness".to_owned(),
                    ReadBound::ReadTimestamp(_) => "read timestamp".to_owned(),
                    ReadBound::MinReadTimestamp(_) => "read timestamp".to_owned(),
                };
                message.append(" out of range: ");
                message.append(complaint.as_str());
                Err(invalid_argument(message))
            },
        }
    }
}

pub open spec fn out_of_range_message(b: ReadBound, complaint: Seq<char>) -> Seq<char> {
    (if b is ExactStaleness || b is MaxStaleness {
        "read staleness"@
    } else {
        "read timestamp"@
    }) + " out of range: "@ + complaint
}

/// A pinned bound is one that a multi-use transaction takes, a bound that it takes is left as it
/// is, and so pinning twice is pinning once.
pub proof fn lemma_pinned_is_multi_use(b: ReadBound)
    ensures
        is_multi_use(pinned(b)),
        is_multi_use(b) ==> pinned(b) == b,
        pinned(pinned(b)) == pinned(b),
{
}

/// What a prefix announces.
#[derive(Debug, Clone, Copy, PartialEq, Eq, Structural)]
pub enum BoundKind {
    Exact,
    Max,
    Read,
    Min,
}

/// What the prefix of a read bound announces, if it has one of the four.
pub open spec fn bound_kind(s: Seq<char>) -> Option<BoundKind> {
    if !s.contains(':') {
        None
    } else if trimmed(before(s, ':')) == "exact"@ {
        Some(BoundKind::Exact)
    } else if trimmed(before(s, ':')) == "max"@ {
        Some(BoundKind::Max)
    } else if trimmed(before(s, ':')) == "read"@ {
        Some(BoundKind::Read)
    } else if trimmed(before(s, ':')) == "min"@ {
        Some(BoundKind::Min)
    } else {
        None
    }
}

/// What follows the prefix of a read bound.
pub open spec fn bound_argument(s: Seq<char>) -> Seq<char> {
    trimmed(after(s, ':'))
}

/// The accepted forms, as every rejection lists them.
pub const GRAMMAR_FORMS: &'static str = "\"exact:<duration>\" (e.g. \"exact:10s\"), \"max:<duration>\" (e.g. \"max:500ms\"), \"read:<rfc3339>\" (e.g. \"read:2026-07-07T00:00:00Z\") or \"min:<rfc3339>\" (e.g. \"min:2026-07-07T00:00:00+02:00\")";

pub open spec fn grammar_message(value: Seq<char>) -> Seq<char> {
    "option "@ + OPTION_READ_STALENESS@ + ": "@ + debug_text(value)
        + " is not a valid read bound; expected "@ + GRAMMAR_FORMS@
}

pub open spec fn bad_timestamp_message(value: Seq<char>, complaint: Seq<char>) -> Seq<char> {
    "option "@ + OPTION_READ_STALENESS@ + ": "@ + debug_text(value)
        + " does not carry a valid RFC 3339 timestamp ("@ + complaint + "); expected "@
        + GRAMMAR_FORMS@
}

/// The read bound that `value` writes, where `span` is what its duration, if it has one, makes and
/// `instant` is what reading its timestamp, if it has one, gives.
pub open spec fn read_bound(
    value: Seq<char>,
    span: Option<TimeSpan>,
    instant: Result<(i64, u32), Seq<char>>,
) -> Result<ReadBound, Seq<char>> {
    match bound_kind(value) {
        Some(BoundKind::Exact) => match duration_outcome(
            bound_argument(value),
            span,
            OPTION_READ_STALENESS@,
        ) {
            Ok(d) => Ok(ReadBound::ExactStaleness(d)),
            Err(m) => Err(m),
        },
        Some(BoundKind::Max) => match duration_outcome(
            bound_argument(value),
            span,
            OPTION_READ_STALENESS@,
        ) {
            Ok(d) => Ok(ReadBound::MaxStaleness(d)),
            Err(m) => Err(m),
        },
        Some(BoundKind::Read) => match instant {
            Ok(t) => Ok(ReadBound::ReadTimestamp(Instant { secs: t.0, nanos: t.1 })),
            Err(complaint) => Err(bad_timestamp_message(value, complaint)),
        },
        Some(BoundKind::Min) => match instant {
            Ok(t) => Ok(ReadBound::MinReadTimestamp(Instant { secs: t.0, nanos: t.1 })),
            Err(complaint) => Err(bad_timestamp_message(value, complaint)),
        },
        None => match instant {
            Ok(t) => Ok(ReadBound::ReadTimestamp(Instant { secs: t.0, nanos: t.1 })),
            Err(_) => Err(grammar_message(value)),
        },
    }
}

/// The part of a read bound that is read as a timestamp: what follows `read:` or `min:`, else the
/// whole of it.
pub open spec fn timestamp_text(value: Seq<char>) -> Seq<char> {
    match bound_kind(value) {
        Some(_) => bound_argument(value),
        None => value,
    }
}

/// The prefix of a read bound and what follows it, if it has one of the four.
pub fn split_bound(value: &str) -> (r: Option<(BoundKind, String)>)
    ensures
        match r {
            Some((kind, argument)) => bound_kind(value@) == Some(kind) && argument@
                == bound_argument(value@),
            None => bound_kind(value@) is None,
        },
{
    let (head, tail) = match split_once(value, ':') {
        Some(parts) => parts,
        None => {
            return None;
        },
    };
    let kind_text = trim(head.as_str());
    let argument = trim(tail.as_str());
    proof {
        reveal_strlit("exact");
        reveal_strlit("max");
        reveal_strlit("read");
        reveal_strlit("min");
    }
    if eq_str(kind_text.as_str(), "exact") {
        Some((BoundKind::Exact, argument))
    } else if eq_str(kind_text.as_str(), "max") {
        Some((BoundKind::Max, argument))
    } else if eq_str(kind_text.as_str(), "read") {
        Some((BoundKind::Read, argument))
    } else if eq_str(kind_text.as_str(), "min") {
        Some((BoundKind::Min, argument))
    } else {
        None
    }
}

fn grammar_error(value: &str) -> (e: Error)
    ensures
        e.says(Status::InvalidArguments, grammar_message(value@)),
{
    let mut message = "option ".to_owned();
    message.append(OPTION_READ_STALENESS);
    message.append(": ");
    message.append(debug_quoted(value).as_str());
    message.append(" is not a valid read bound; expected ");
    message.append(GRAMMAR_FORMS);
    invalid_argument(message)
}

fn timestamp_error(value: &str, complaint: &str) -> (e: Error)
    ensures
        e.says(Status::InvalidArguments, bad_timestamp_message(value@, complaint@)),
{
    let mut message = "option ".to_owned();
    message.append(OPTION_READ_STALENESS);
    message.append(": ");
    message.append(debug_quoted(value).as_str());
    message.append(" does not carry a valid RFC 3339 timestamp (");
    message.append(complaint);
    message.append("); expected ");
    message.append(GRAMMAR_FORMS);
    invalid_argument(message)
}

/// The instant that a reading names.
pub open spec fn instant_of(reading: Result<Instant, String>) -> Result<(i64, u32), Seq<char>> {
    match reading {
        Ok(t) => Ok((t.secs, t.nanos)),
        Err(complaint) => Err(complaint@),
    }
}

/// The read bound that `value` writes, given what its duration makes and what reading its timestamp
/// gave. Only a value with an explicit `read:` or `min:` is answered with the reader's complaint:
/// without a prefix, the prefix is the likely mistake.
pub fn bound_from_parts(
    value: &str,
    span: Option<TimeSpan>,
    reading: Result<Instant, String>,
) -> (r: Result<ReadBound, Error>)
    ensures
        coerces(r, read_bound(value@, span, instant_of(reading))),
{
    match split_bound(value) {
        Some((BoundKind::Exact, argument)) => match parse_duration(argument.as_str(), span) {
            Ok(d) => Ok(ReadBound::ExactStaleness(d)),
            Err(e) => Err(e),
        },
        Some((BoundKind::Max, argument)) => match parse_duration(argument.as_str(), span) {
            Ok(d) => Ok(ReadBound::MaxStaleness(d)),
            Err(e) => Err(e),
        },
        Some((BoundKind::Read, _)) => match reading {
            Ok(t) => Ok(ReadBound::ReadTimestamp(t)),
            Err(complaint) => Err(timestamp_error(value, complaint.as_str())),
        },
        Some((BoundKind::Min, _)) => match reading {
            Ok(t) => Ok(ReadBound::MinReadTimestamp(t)),
            Err(complaint) => Err(timestamp_error(value, complaint.as_str())),
        },
        None => match reading {
            Ok(t) => Ok(ReadBound::ReadTimestamp(t)),
            Err(_) => Err(grammar_error(value)),
        },
    }
}

/// Reads a `spanner.read.staleness` value. `span` is what the duration that follows `exact:` or
/// `max:` makes (see [`split_bound`] and [`split_duration`]).
pub fn parse_read_bound(value: &str, span: Option<TimeSpan>) -> (r: Result<ReadBound, Error>)
    ensures
        coerces(r, read_bound(value@, span, rfc3339(timestamp_text(value@)))),
{
    let reading = match split_bound(value) {
        Some((_, argument)) => parse_instant(argument.as_str()),
        None => parse_instant(value),
    };
    proof {
        let named = rfc3339(timestamp_text(value@));
        assert(instant_of(reading) == named);
    }
    bound_from_parts(value, span, reading)
}

// ---------------------------------------------------------------------------------------------
// The option
// ---------------------------------------------------------------------------------------------

/// The read bound of a connection or a statement: the text it was set with, kept verbatim for the
/// getter, beside the bound it writes. None is a strong read.
#[derive(Debug)]
pub struct ReadStaleness {
    pub raw: Option<String>,
    pub bound: Option<ReadBound>,
}

/// The setting of a read bound, as its getters tell it.
pub struct StalenessView {
    pub raw: Option<Seq<char>>,
    pub bound: Option<ReadBound>,
}

impl View for ReadStaleness {
    type V = StalenessView;

    open spec fn view(&self) -> StalenessView {
        StalenessView { raw: text_of(self.raw), bound: self.bound }
    }
}

impl Clone for ReadStaleness {
    fn clone(&self) -> (r: ReadStaleness)
        ensures
            r@ == self@,
    {
        let raw = match &self.raw {
            Some(s) => Some(s.as_str().to_owned()),
            None => None,
        };
        ReadStaleness { raw, bound: self.bound }
    }
}

/// The setting that `value` makes, or why it is rejected.
pub open spec fn staleness_after(
    value: OptionValue,
    span: Option<TimeSpan>,
) -> Result<StalenessView, Seq<char>> {
    match plain_text(value, "option "@ + OPTION_READ_STALENESS@) {
        Err(m) => Err(m),
        Ok(s) => if s.len() == 0 {
            Ok(StalenessView { raw: None, bound: None })
        } else {
            match read_bound(s, span, rfc3339(timestamp_text(s))) {
                Ok(b) => Ok(StalenessView { raw: Some(s), bound: Some(b) }),
                Err(m) => Err(m),
            }
        },
    }
}

impl ReadStaleness {
    /// A strong read.
    pub fn new() -> (r: ReadStaleness)
        ensures
            r@ == (StalenessView { raw: None, bound: None }),
    {
        ReadStaleness { raw: None, bound: None }
    }

    /// Sets the option. The empty string unsets it; a rejected value changes nothing.
    pub fn set_staleness(&mut self, value: OptionValue, span: Option<TimeSpan>) -> (r: Result<
        (),
        Error,
    >)
        ensures
            match staleness_after(value, span) {
                Ok(after) => r is Ok && final(self)@ == after,
                Err(m) => r is Err && r->Err_0.says(Status::InvalidArguments, m) && *final(self)
                    == *old(self),
            },
    {
        let mut what = "option ".to_owned();
        what.append(OPTION_READ_STALENESS);
        match string_option(value, what.as_str()) {
            Ok(s) => {
                if s.as_str().is_empty() {
                    self.raw = None;
                    self.bound = None;
                    Ok(())
                } else {
                    match parse_read_bound(s.as_str(), span) {
                        Ok(b) => {
                            self.raw = Some(s);
                            self.bound = Some(b);
                            Ok(())
                        },
                        Err(e) => Err(e),
                    }
                }
            },
            Err(e) => Err(e),
        }
    }

    /// The text the option was set with.
    pub fn staleness_string(&self) -> (r: Option<&str>)
        ensures
            match r {
                Some(s) => self@.raw == Some(s@),
                None => self@.raw is None,
            },
    {
        match &self.raw {
            Some(s) => Some(s.as_str()),
            None => None,
        }
    }

    /// The bound of a single-use read; none for a strong one.
    pub fn timestamp_bound(&self) -> (r: Option<ReadBound>)
        ensures
            r == self@.bound,
    {
        self.bound
    }

    /// The bound of a multi-use read; none for a strong one.
    pub fn multi_use_timestamp_bound(&self) -> (r: Option<ReadBound>)
        ensures
            r == match self@.bound {
                Some(b) => Some(pinned(b)),
                None => None,
            },
    {
        match self.bound {
            Some(b) => Some(b.pinned_for_multi_use()),
            None => None,
        }
    }
}

} // verus!
