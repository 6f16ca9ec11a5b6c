//! Request priority, tags and the commit options.
//!
//! A connection's settings become the defaults of the statements it creates. The empty string
//! unsets a setting, a rejected value changes nothing, and every setting can be read back.

use vstd::prelude::*;

use crate::error::{invalid_argument, Error, Status};
use crate::keys::{OPTION_COMMIT_STATS, OPTION_MAX_COMMIT_DELAY};
use crate::options::{
    bool_option, boolean, coerces, coerces_text, non_empty, plain_text, string_option, text_of,
    unless_empty, OptionValue,
};
use crate::staleness::{duration_outcome, parse_duration_for, TimeSpan};
use crate::text::{debug_quoted, debug_text, eq_str, lowered, to_lower, trim, trimmed};

verus! {

/// The priority of a request.
#[derive(Debug, Clone, Copy, PartialEq, Eq, Structural)]
pub enum RequestPriority {
    Low,
    Medium,
    High,
}

/// The canonical spelling of a priority.
pub open spec fn spelling(p: RequestPriority) -> Seq<char> {
    match p {
        RequestPriority::Low => "low"@,
        RequestPriority::Medium => "medium"@,
        RequestPriority::High => "high"@,
    }
}

impl RequestPriority {
    /// The canonical spelling of the priority.
    pub fn as_str(self) -> (r: &'static str)
        ensures
            r@ == spelling(self),
    {
        match self {
            RequestPriority::Low => "low",
            RequestPriority::Medium => "medium",
            RequestPriority::High => "high",
        }
    }
}

pub open spec fn unknown_priority_message(lower_case: Seq<char>) -> Seq<char> {
    "unknown request priority "@ + debug_text(lower_case)
        + "; expected \"low\", \"medium\" or \"high\" (or an empty string to unset)"@
}

/// The priority that `value` spells, whatever the case of its letters.
pub open spec fn priority_of(value: Seq<char>) -> Result<RequestPriority, Seq<char>> {
    if lowered(value) == "low"@ {
        Ok(RequestPriority::Low)
    } else if lowered(value) == "medium"@ {
        Ok(RequestPriority::Medium)
    } else if lowered(value) == "high"@ {
        Ok(RequestPriority::High)
    } else {
        Err(unknown_priority_message(lowered(value)))
    }
}

/// Reads a priority: `low`, `medium` or `high`, in any case.
pub fn parse_priority(value: &str) -> (r: Result<RequestPriority, Error>)
    ensures
        coerces(r, priority_of(value@)),
{
    proof {
        reveal_strlit("low");
        reveal_strlit("medium");
        reveal_strlit("high");
    }
    let lower = to_lower(value);
    if eq_str(lower.as_str(), "low") {
        Ok(RequestPriority::Low)
    } else if eq_str(lower.as_str(), "medium") {
        Ok(RequestPriority::Medium)
    } else if eq_str(lower.as_str(), "high") {
        Ok(RequestPriority::High)
    } else {
        let mut message = "unknown request priority ".to_owned();
        message.append(debug_quoted(lower.as_str()).as_str());
        message.append("; expected \"low\", \"medium\" or \"high\" (or an empty string to unset)");
        Err(invalid_argument(message))
    }
}

/// A priority is read back from its canonical spelling.
pub proof fn lemma_priority_round_trip(p: RequestPriority)
    ensures
        priority_of(spelling(p)) == Ok::<RequestPriority, Seq<char>>(p),
{
    reveal_strlit("low");
    reveal_strlit("medium");
    reveal_strlit("high");
    assert(lowered("low"@) =~= "low"@);
    assert(lowered("medium"@) =~= "medium"@);
    assert(lowered("high"@) =~= "high"@);
    assert("low"@.len() == 3 && "medium"@.len() == 6 && "high"@.len() == 4);
}

// ---------------------------------------------------------------------------------------------
// The settings
// ---------------------------------------------------------------------------------------------

/// The request and commit settings of a connection or a statement.
#[derive(Debug)]
pub struct RequestConfig {
    /// `spanner.request.priority`.
    pub priority: Option<RequestPriority>,
    /// `spanner.request.tag`, verbatim.
    pub request_tag: Option<String>,
    /// `spanner.transaction.tag`, verbatim.
    pub transaction_tag: Option<String>,
    /// `spanner.commit.max_delay`, verbatim.
    pub max_commit_delay_raw: Option<String>,
    /// The delay that `spanner.commit.max_delay` writes.
    pub max_commit_delay: Option<TimeSpan>,
    /// `spanner.commit_stats`.
    pub commit_stats: bool,
}

/// The settings, with text as the characters it holds.
#[verifier::ext_equal]
pub struct RequestView {
    pub priority: Option<RequestPriority>,
    pub request_tag: Option<Seq<char>>,
    pub transaction_tag: Option<Seq<char>>,
    pub max_commit_delay_raw: Option<Seq<char>>,
    pub max_commit_delay: Option<TimeSpan>,
    pub commit_stats: bool,
}

impl View for RequestConfig {
    type V = RequestView;

    open spec fn view(&self) -> RequestView {
        RequestView {
            priority: self.priority,
            request_tag: text_of(self.request_tag),
            transaction_tag: text_of(self.transaction_tag),
            max_commit_delay_raw: text_of(self.max_commit_delay_raw),
            max_commit_delay: self.max_commit_delay,
            commit_stats: self.commit_stats,
        }
    }
}

impl Clone for RequestConfig {
    fn clone(&self) -> (r: RequestConfig)
        ensures
            r@ == self@,
    {
        RequestConfig {
            priority: self.priority,
            request_tag: to_owned_option(as_deref(&self.request_tag)),
            transaction_tag: to_owned_option(as_deref(&self.transaction_tag)),
            max_commit_delay_raw: to_owned_option(as_deref(&self.max_commit_delay_raw)),
            max_commit_delay: self.max_commit_delay,
            commit_stats: self.commit_stats,
        }
    }
}

/// `after` is `expected`; where that is a rejection, the result says so and nothing has changed.
pub open spec fn sets<V>(
    result: Result<(), Error>,
    before: V,
    after: V,
    expected: Result<V, Seq<char>>,
) -> bool {
    match expected {
        Ok(v) => result is Ok && after == v,
        Err(m) => result is Err && result->Err_0.says(Status::InvalidArguments, m) && after
            == before,
    }
}

/// The rejection of a priority or a tag that is no string.
pub open spec fn request_text(value: OptionValue) -> Result<Seq<char>, Seq<char>> {
    match value {
        OptionValue::Text(s) => Ok(s@),
        _ => Err("request priority/tag options require a string value"@),
    }
}

fn as_string(value: OptionValue) -> (r: Result<String, Error>)
    ensures
        coerces_text(r, request_text(value)),
{
    match value {
        OptionValue::Text(s) => Ok(s),
        _ => Err(
            invalid_argument("request priority/tag options require a string value".to_owned()),
        ),
    }
}

/// What setting the priority to `value` makes of `before`.
pub open spec fn with_priority(before: RequestView, value: OptionValue) -> Result<
    RequestView,
    Seq<char>,
> {
    match request_text(value) {
        Err(m) => Err(m),
        Ok(s) => if trimmed(s).len() == 0 {
            Ok(RequestView { priority: None, ..before })
        } else {
            match priority_of(trimmed(s)) {
                Ok(p) => Ok(RequestView { priority: Some(p), ..before }),
                Err(m) => Err(m),
            }
        },
    }
}

/// What setting the request tag to `value` makes of `before`.
pub open spec fn with_request_tag(before: RequestView, value: OptionValue) -> Result<
    RequestView,
    Seq<char>,
> {
    match request_text(value) {
        Err(m) => Err(m),
        Ok(s) => Ok(RequestView { request_tag: unless_empty(s), ..before }),
    }
}

/// What setting the transaction tag to `value` makes of `before`.
pub open spec fn with_transaction_tag(before: RequestView, value: OptionValue) -> Result<
    RequestView,
    Seq<char>,
> {
    match request_text(value) {
        Err(m) => Err(m),
        Ok(s) => Ok(RequestView { transaction_tag: unless_empty(s), ..before }),
    }
}

/// Whether a delay is within the half second that Spanner allows.
pub open spec fn is_commit_delay(t: TimeSpan) -> bool {
    t.secs == 0 && t.nanos <= 500_000_000
}

pub open spec fn long_delay_message(value: Seq<char>) -> Seq<char> {
    "option "@ + OPTION_MAX_COMMIT_DELAY@ + ": "@ + debug_text(value)
        + " is out of range; expected a delay between 0 and 500ms"@
}

/// What setting the commit delay to `value` makes of `before`, where `span` is what the duration
/// makes.
pub open spec fn with_max_commit_delay(
    before: RequestView,
    value: OptionValue,
    span: Option<TimeSpan>,
) -> Result<RequestView, Seq<char>> {
    match plain_text(value, "option "@ + OPTION_MAX_COMMIT_DELAY@) {
        Err(m) => Err(m),
        Ok(s) => if s.len() == 0 {
            Ok(RequestView { max_commit_delay_raw: None, max_commit_delay: None, ..before })
        } else {
            match duration_outcome(s, span, OPTION_MAX_COMMIT_DELAY@) {
                Ok(t) => if is_commit_delay(t) {
                    Ok(
                        RequestView {
                            max_commit_delay_raw: Some(s),
                            max_commit_delay: Some(t),
                            ..before
                        },
                    )
                } else {
                    Err(long_delay_message(s))
                },
                Err(m) => Err(m),
            }
        },
    }
}

/// What setting the request for commit statistics to `value` makes of `before`.
pub open spec fn with_commit_stats(before: RequestView, value: OptionValue) -> Result<
    RequestView,
    Seq<char>,
> {
    if value is Text && value->Text_0@.len() == 0 {
        Ok(RequestView { commit_stats: false, ..before })
    } else {
        match boolean(value, "option "@ + OPTION_COMMIT_STATS@) {
            Ok(b) => Ok(RequestView { commit_stats: b, ..before }),
            Err(m) => Err(m),
        }
    }
}

/// The text of an optional string.
pub open spec fn shows(r: Option<&str>, text: Option<Seq<char>>) -> bool {
    match r {
        Some(s) => text == Some(s@),
        None => text is None,
    }
}

/// Borrows an optional string.
pub fn as_deref(s: &Option<String>) -> (r: Option<&str>)
    ensures
        shows(r, text_of(*s)),
{
    match s {
        Some(s) => Some(s.as_str()),
        None => None,
    }
}

impl RequestConfig {
    /// Nothing set.
    pub fn new() -> (r: RequestConfig)
        ensures
            r@ == (RequestView {
                priority: None,
                request_tag: None,
                transaction_tag: None,
                max_commit_delay_raw: None,
                max_commit_delay: None,
                commit_stats: false,
            }),
    {
        RequestConfig {
            priority: None,
            request_tag: None,
            transaction_tag: None,
            max_commit_delay_raw: None,
            max_commit_delay: None,
            commit_stats: false,
        }
    }

    /// Sets the priority, read without the white space around it. The empty string unsets it.
    pub fn set_priority(&mut self, value: OptionValue) -> (r: Result<(), Error>)
        ensures
            sets(r, old(self)@, final(self)@, with_priority(old(self)@, value)),
    {
        match as_string(value) {
            Ok(raw) => {
                let text = trim(raw.as_str());
                if text.as_str().is_empty() {
                    self.priority = None;
                    Ok(())
                } else {
                    match parse_priority(text.as_str()) {
                        Ok(p) => {
                            self.priority = Some(p);
                            Ok(())
                        },
                        Err(e) => Err(e),
                    }
                }
            },
            Err(e) => Err(e),
        }
    }

    /// Sets the request tag. The empty string unsets it.
    pub fn set_request_tag(&mut self, value: OptionValue) -> (r: Result<(), Error>)
        ensures
            sets(r, old(self)@, final(self)@, with_request_tag(old(self)@, value)),
    {
        match as_string(value) {
            Ok(s) => {
                self.request_tag = non_empty(s);
                Ok(())
            },
            Err(e) => Err(e),
        }
    }

    /// Sets the transaction tag. The empty string unsets it.
    pub fn set_transaction_tag(&mut self, value: OptionValue) -> (r: Result<(), Error>)
        ensures
            sets(r, old(self)@, final(self)@, with_transaction_tag(old(self)@, value)),
    {
        match as_string(value) {
            Ok(s) => {
                self.transaction_tag = non_empty(s);
                Ok(())
            },
            Err(e) => Err(e),
        }
    }

    /// Sets the commit delay, at most half a second. The empty string unsets it. `span` is what the
    /// duration makes.
    pub fn set_max_commit_delay(&mut self, value: OptionValue, span: Option<TimeSpan>) -> (r:
        Result<(), Error>)
        ensures
            sets(r, old(self)@, final(self)@, with_max_commit_delay(old(self)@, value, span)),
    {
        let mut what = "option ".to_owned();
        what.append(OPTION_MAX_COMMIT_DELAY);
        match string_option(value, what.as_str()) {
            Ok(s) => {
                if s.as_str().is_empty() {
                    self.max_commit_delay_raw = None;
                    self.max_commit_delay = None;
                    return Ok(());
                }
                match parse_duration_for(s.as_str(), span, OPTION_MAX_COMMIT_DELAY) {
                    Ok(t) => {
                        if t.secs == 0 && t.nanos <= 500_000_000 {
                            self.max_commit_delay_raw = Some(s);
                            self.max_commit_delay = Some(t);
                            Ok(())
                        } else {
                            let mut message = "option ".to_owned();
                            message.append(OPTION_MAX_COMMIT_DELAY);
                            message.append(": ");
                            message.append(debug_quoted(s.as_str()).as_str());
                            message.append(
                                " is out of range; expected a delay between 0 and 500ms",
                            );
                            Err(invalid_argument(message))
                        }
                    },
                    Err(e) => Err(e),
                }
            },
            Err(e) => Err(e),
        }
    }

    /// Sets whether commit statistics are asked for. The empty string resets to `false`.
    pub fn set_commit_stats(&mut self, value: OptionValue) -> (r: Result<(), Error>)
        ensures
            sets(r, old(self)@, final(self)@, with_commit_stats(old(self)@, value)),
    {
        let empty = match &value {
            OptionValue::Text(s) => s.as_str().is_empty(),
            _ => false,
        };
        if empty {
            self.commit_stats = false;
            return Ok(());
        }
        let mut what = "option ".to_owned();
        what.append(OPTION_COMMIT_STATS);
        match bool_option(value, what.as_str()) {
            Ok(b) => {
                self.commit_stats = b;
                Ok(())
            },
            Err(e) => Err(e),
        }
    }

    /// The canonical spelling of the priority that is set.
    pub fn priority_string(&self) -> (r: Option<&'static str>)
        ensures
            match self@.priority {
                Some(p) => r is Some && r->Some_0@ == spelling(p),
                None => r is None,
            },
    {
        match self.priority {
            Some(p) => Some(p.as_str()),
            None => None,
        }
    }

    /// The request tag that is set.
    pub fn request_tag_string(&self) -> (r: Option<&str>)
        ensures
            shows(r, self@.request_tag),
    {
        as_deref(&self.request_tag)
    }

    /// The transaction tag that is set.
    pub fn transaction_tag_string(&self) -> (r: Option<&str>)
        ensures
            shows(r, self@.transaction_tag),
    {
        as_deref(&self.transaction_tag)
    }

    /// The commit delay, as it was set.
    pub fn max_commit_delay_string(&self) -> (r: Option<&str>)
        ensures
            shows(r, self@.max_commit_delay_raw),
    {
        as_deref(&self.max_commit_delay_raw)
    }

    /// Whether commit statistics are asked for, as `true` or `false`.
    pub fn commit_stats_string(&self) -> (r: &'static str)
        ensures
            r@ == if self@.commit_stats {
                "true"@
            } else {
                "false"@
            },
    {
        if self.commit_stats {
            "true"
        } else {
            "false"
        }
    }
}

// ---------------------------------------------------------------------------------------------
// What a request carries
// ---------------------------------------------------------------------------------------------

/// What is set on a request: its priority and its tag.
#[derive(Debug, Clone)]
pub struct RequestSettings {
    pub priority: Option<RequestPriority>,
    pub tag: Option<String>,
}

/// The text of an optional borrowed string, as an owned one.
pub fn to_owned_option(s: Option<&str>) -> (r: Option<String>)
    ensures
        shows(s, text_of(r)),
{
    match s {
        Some(s) => Some(s.to_owned()),
        None => None,
    }
}

impl RequestConfig {
    /// What a query or DML statement carries: the priority and the request tag.
    pub fn apply_to_statement(&self) -> (r: RequestSettings)
        ensures
            r.priority == self@.priority,
            text_of(r.tag) == self@.request_tag,
    {
        RequestSettings {
            priority: self.priority,
            tag: to_owned_option(self.request_tag_string()),
        }
    }

    /// What a DML batch carries: the request tag alone.
    pub fn apply_to_batch_dml(&self) -> (r: RequestSettings)
        ensures
            r.priority is None,
            text_of(r.tag) == self@.request_tag,
    {
        RequestSettings { priority: None, tag: to_owned_option(self.request_tag_string()) }
    }

    /// What a read/write transaction carries: the priority of its commit and the transaction tag.
    pub fn apply_to_runner(&self) -> (r: RequestSettings)
        ensures
            r.priority == self@.priority,
            text_of(r.tag) == self@.transaction_tag,
    {
        RequestSettings {
            priority: self.priority,
            tag: to_owned_option(self.transaction_tag_string()),
        }
    }
}

/// Setting the priority and setting the two tags are independent: each leaves the other settings
/// as they were, whatever the value.
pub proof fn lemma_request_settings_are_independent(before: RequestView, value: OptionValue)
    ensures
        match with_priority(before, value) {
            Ok(after) => after == (RequestView { priority: after.priority, ..before }),
            Err(_) => true,
        },
        match with_request_tag(before, value) {
            Ok(after) => after == (RequestView { request_tag: after.request_tag, ..before }),
            Err(_) => true,
        },
        match with_transaction_tag(before, value) {
            Ok(after) => after == (RequestView {
                transaction_tag: after.transaction_tag,
                ..before
            }),
            Err(_) => true,
        },
{
}

} // verus!
