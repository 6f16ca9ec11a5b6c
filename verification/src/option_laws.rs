//! What option values, bounds, addresses and bindings come to, said of how they are written.

use vstd::prelude::*;
use vstd::utf8::{encode_utf8, encode_utf8_decode_utf8, encode_utf8_valid_utf8};

use crate::bind::{count_message, first_unknown, pairing, unknown_column_message};
use crate::directed_read::{
    choice, directed_read_after, replica_type, selection, selections, ChoiceView,
    DirectedReadView, ReplicaType, SelectionView,
};
use crate::endpoint::{has_scheme, scheme_mark_at, schemed};
use crate::options::{
    boolean, double_option, in_range, optional_text, positive_integer, Double, F64Range,
    OptionValue,
};
use crate::request::{
    with_commit_stats, with_max_commit_delay, with_priority, with_request_tag, with_transaction_tag,
    RequestPriority, RequestView,
};
use crate::sql::occurs_in;
use crate::staleness::{
    bound_argument, bound_kind, duration_number, duration_unit, pinned, read_bound, rfc3339,
    staleness_after, timestamp_text, BoundKind, DurationUnit, Instant, ReadBound, StalenessView,
    TimeSpan,
};
use crate::text::{
    after, before, is_whitespace, lowered, pieces, same_ignoring_case, trim_end, trim_start,
    trimmed,
};
use crate::text_laws::interleaved;
use crate::timeouts::{deadline, with_fetch, with_query, with_update, RpcTimeouts};
use crate::uri::{expanded, is_secret, percent_decoded, query_options, unescaped, UriView};

verus! {

// ---------------------------------------------------------------------------------------------
// Splitting what was put together
// ---------------------------------------------------------------------------------------------

/// What is before the first separator and what is behind it are what was written there.
pub proof fn lemma_before_and_after(a: Seq<char>, c: char, b: Seq<char>)
    requires
        !a.contains(c),
    ensures
        (a.push(c) + b).contains(c),
        before(a.push(c) + b, c) == a,
        after(a.push(c) + b, c) == b,
{
    let s = a.push(c) + b;
    assert(s[a.len() as int] == c);
    s.index_of_first_ensures(c);
    let i = s.index_of_first(c)->Some_0;
    if i < a.len() {
        assert(a[i] == c);
    }
    assert(before(s, c) =~= a);
    assert(after(s, c) =~= b);
}

/// Texts without a separator, written with it between them, are the pieces of what is written.
pub proof fn lemma_pieces_of_interleaved(parts: Seq<Seq<char>>, c: char)
    requires
        parts.len() > 0,
        forall|i: int| 0 <= i < parts.len() ==> !(#[trigger] parts[i]).contains(c),
    ensures
        pieces(interleaved(parts, c), c) == parts,
    decreases parts.len(),
{
    let s = interleaved(parts, c);
    assert(!parts[0].contains(c));
    if parts.len() == 1 {
        assert(parts =~= seq![parts[0]]);
    } else {
        let rest = parts.skip(1);
        assert forall|i: int| 0 <= i < rest.len() implies !(#[trigger] rest[i]).contains(c) by {
            assert(rest[i] == parts[i + 1]);
        }
        lemma_pieces_of_interleaved(rest, c);
        lemma_before_and_after(parts[0], c, interleaved(rest, c));
        assert(pieces(s, c) =~= parts);
    }
}

/// Whether a text is white space throughout.
pub open spec fn is_blank(s: Seq<char>) -> bool {
    forall|i: int| 0 <= i < s.len() ==> is_whitespace(#[trigger] s[i])
}

/// White space around a text that neither begins nor ends with any is what trimming removes.
pub proof fn lemma_trimmed_of(w1: Seq<char>, u: Seq<char>, w2: Seq<char>)
    requires
        is_blank(w1),
        is_blank(w2),
        u.len() > 0 ==> !is_whitespace(u[0]) && !is_whitespace(u.last()),
    ensures
        trimmed(w1 + u + w2) == u,
    decreases w1.len() + w2.len(),
{
    let s = w1 + u + w2;
    if u.len() == 0 {
        assert(u =~= Seq::empty());
        assert forall|i: int| 0 <= i < s.len() implies is_whitespace(#[trigger] s[i]) by {
            if i < w1.len() {
                assert(s[i] == w1[i]);
            } else {
                assert(s[i] == w2[i - w1.len()]);
            }
        }
        lemma_blank_is_trimmed_away(s);
    } else {
        lemma_trim_start_of(w1, u + w2);
        assert(w1 + u + w2 =~= w1 + (u + w2));
        lemma_trim_end_of(u, w2);
    }
}

proof fn lemma_blank_is_trimmed_away(s: Seq<char>)
    requires
        is_blank(s),
    ensures
        trim_start(s) == Seq::<char>::empty(),
        trimmed(s) == Seq::<char>::empty(),
    decreases s.len(),
{
    if s.len() > 0 {
        assert(is_whitespace(s[0]));
        let t = s.skip(1);
        assert forall|i: int| 0 <= i < t.len() implies is_whitespace(#[trigger] t[i]) by {
            assert(t[i] == s[i + 1]);
        }
        lemma_blank_is_trimmed_away(t);
    } else {
        assert(s =~= Seq::empty());
    }
    assert(trim_end(Seq::<char>::empty()) =~= Seq::<char>::empty());
}

proof fn lemma_trim_start_of(w: Seq<char>, u: Seq<char>)
    requires
        is_blank(w),
        u.len() > 0,
        !is_whitespace(u[0]),
    ensures
        trim_start(w + u) == u,
    decreases w.len(),
{
    if w.len() == 0 {
        assert(w + u =~= u);
    } else {
        assert(is_whitespace(w[0]));
        let t = w.skip(1);
        assert forall|i: int| 0 <= i < t.len() implies is_whitespace(#[trigger] t[i]) by {
            assert(t[i] == w[i + 1]);
        }
        lemma_trim_start_of(t, u);
        assert((w + u)[0] == w[0]);
        assert((w + u).skip(1) =~= t + u);
    }
}

proof fn lemma_trim_end_of(u: Seq<char>, w: Seq<char>)
    requires
        is_blank(w),
        u.len() > 0,
        !is_whitespace(u.last()),
    ensures
        trim_end(u + w) == u,
    decreases w.len(),
{
    if w.len() == 0 {
        assert(u + w =~= u);
    } else {
        assert(is_whitespace(w[w.len() - 1]));
        let t = w.drop_last();
        assert forall|i: int| 0 <= i < t.len() implies is_whitespace(#[trigger] t[i]) by {
            assert(t[i] == w[i]);
        }
        lemma_trim_end_of(u, t);
        assert((u + w).last() == w.last());
        assert((u + w).drop_last() =~= u + t);
    }
}

// ---------------------------------------------------------------------------------------------
// Numbers and truth values
// ---------------------------------------------------------------------------------------------

/// The doubles that options take, by their bits: seconds are below two to the power of 64, and zero,
/// of either sign, counts as seconds only where it is allowed; a factor is any finite double above
/// zero.
pub proof fn lemma_ranges(d: Double)
    ensures
        in_range(d, F64Range::PositiveSeconds) <==> 1 <= d.bits < 0x43f0_0000_0000_0000,
        in_range(d, F64Range::NonNegativeSeconds) <==> d.bits < 0x43f0_0000_0000_0000 || d.bits
            == 0x8000_0000_0000_0000,
        in_range(d, F64Range::PositiveFactor) <==> 1 <= d.bits < 0x7ff0_0000_0000_0000,
{
    let m = d.magnitude();
    assert(m / 0x10_0000_0000_0000 < 1087 <==> m < 1087 * 0x10_0000_0000_0000);
    assert(m / 0x10_0000_0000_0000 < 2047 <==> m < 2047 * 0x10_0000_0000_0000);
}

/// A double is taken as it is if it is in range; a text that is blank unsets; any other text and an
/// integer are taken by the number that they are; bytes are none.
pub proof fn lemma_double_options(
    value: OptionValue,
    number: Option<Double>,
    what: Seq<char>,
    range: F64Range,
)
    ensures
        value matches OptionValue::Double(d) ==> (double_option(value, number, what, range) == Ok::<
            Option<Double>,
            Seq<char>,
        >(Some(d)) <==> in_range(d, range)),
        value matches OptionValue::Double(d) ==> (double_option(value, number, what, range) is Ok
            <==> in_range(d, range)),
        value matches OptionValue::Text(s) && trimmed(s@).len() == 0 ==> double_option(
            value,
            number,
            what,
            range,
        ) == Ok::<Option<Double>, Seq<char>>(None),
        (value is Int || (value matches OptionValue::Text(s) && trimmed(s@).len() > 0)) ==> match number {
            Some(d) => if in_range(d, range) {
                double_option(value, number, what, range) == Ok::<Option<Double>, Seq<char>>(
                    Some(d),
                )
            } else {
                double_option(value, number, what, range) is Err
            },
            None => double_option(value, number, what, range) is Err,
        },
        value is Bytes ==> double_option(value, number, what, range) is Err,
{
}

/// A truth value is the text `true` or `false`, in lower case, and nothing else is one.
pub proof fn lemma_booleans(value: OptionValue, what: Seq<char>)
    ensures
        boolean(value, what) == Ok::<bool, Seq<char>>(true) <==> (value matches OptionValue::Text(s)
            && s@ == seq!['t', 'r', 'u', 'e']),
        boolean(value, what) == Ok::<bool, Seq<char>>(false) <==> (value matches OptionValue::Text(
            s,
        ) && s@ == seq!['f', 'a', 'l', 's', 'e']),
{
    reveal_strlit("true");
    reveal_strlit("false");
    assert("true"@ =~= seq!['t', 'r', 'u', 'e']);
    assert("false"@ =~= seq!['f', 'a', 'l', 's', 'e']);
    assert("true"@.len() != "false"@.len());
}

/// A positive integer is one that is given as such or written in decimal, above zero.
pub proof fn lemma_positive_integers(value: OptionValue, what: Seq<char>)
    ensures
        match value {
            OptionValue::Int(i) => if i >= 1 {
                positive_integer(value, what) == Ok::<int, Seq<char>>(i as int)
            } else {
                positive_integer(value, what) is Err
            },
            OptionValue::Text(s) => match crate::number::int_value(s@) {
                Some(i) => if i >= 1 {
                    positive_integer(value, what) == Ok::<int, Seq<char>>(i)
                } else {
                    positive_integer(value, what) is Err
                },
                None => positive_integer(value, what) is Err,
            },
            _ => positive_integer(value, what) is Err,
        },
{
}

/// A text setting is kept verbatim, and the empty text unsets it.
pub proof fn lemma_text_settings(value: OptionValue, what: Seq<char>)
    ensures
        match value {
            OptionValue::Text(s) => {
                &&& s@.len() == 0 ==> optional_text(value, what) == Ok::<
                    Option<Seq<char>>,
                    Seq<char>,
                >(None)
                &&& s@.len() > 0 ==> optional_text(value, what) == Ok::<
                    Option<Seq<char>>,
                    Seq<char>,
                >(Some(s@))
            },
            _ => optional_text(value, what) is Err,
        },
{
}

// ---------------------------------------------------------------------------------------------
// Deadlines
// ---------------------------------------------------------------------------------------------

/// Each deadline is set on its own, and a deadline of zero, of either sign, is none.
pub proof fn lemma_deadlines(before: RpcTimeouts, value: OptionValue, number: Option<Double>)
    ensures
        with_query(before, value, number) matches Ok(t) ==> t.update == before.update && t.fetch
            == before.fetch,
        with_update(before, value, number) matches Ok(t) ==> t.query == before.query && t.fetch
            == before.fetch,
        with_fetch(before, value, number) matches Ok(t) ==> t.query == before.query && t.update
            == before.update,
        value matches OptionValue::Double(d) ==> {
            let valid = d.bits < 0x43f0_0000_0000_0000 || d.bits == 0x8000_0000_0000_0000;
            &&& with_query(before, value, number) is Ok <==> valid
            &&& with_update(before, value, number) is Ok <==> valid
            &&& with_fetch(before, value, number) is Ok <==> valid
            &&& valid ==> with_query(before, value, number)->Ok_0.query == Some(d)
            &&& valid ==> with_update(before, value, number)->Ok_0.update == Some(d)
            &&& valid ==> with_fetch(before, value, number)->Ok_0.fetch == Some(d)
        },
        forall|d: Double|
            #[trigger] deadline(Some(d)) == (if d.bits == 0 || d.bits == 0x8000_0000_0000_0000 {
                None
            } else {
                Some(d)
            }),
        deadline(None) is None,
{
    if let OptionValue::Double(d) = value {
        lemma_ranges(d);
    }
}

// ---------------------------------------------------------------------------------------------
// Durations and read bounds
// ---------------------------------------------------------------------------------------------

/// The text that a unit is written with.
pub open spec fn unit_text(unit: DurationUnit) -> Seq<char> {
    match unit {
        DurationUnit::Hours => seq!['h'],
        DurationUnit::Minutes => seq!['m'],
        DurationUnit::Seconds => seq!['s'],
        DurationUnit::Milliseconds => seq!['m', 's'],
        DurationUnit::Microseconds => seq!['u', 's'],
        DurationUnit::Nanoseconds => seq!['n', 's'],
    }
}

/// A duration is a number and a unit, with white space allowed around the number; without a unit it
/// is in seconds. Microseconds may also be written with a micro sign.
pub proof fn lemma_durations(number: Seq<char>, unit: DurationUnit)
    requires
        number.len() > 0 ==> number.last() != 's' && number.last() != 'm' && number.last() != 'h'
            && number.last() != 'u' && number.last() != 'n' && number.last() != '\u{b5}',
    ensures
        duration_unit(number + unit_text(unit)).0 == unit,
        duration_number(number + unit_text(unit)) == trimmed(number),
        duration_unit(number + seq!['\u{b5}', 's']).0 == DurationUnit::Microseconds,
        duration_number(number + seq!['\u{b5}', 's']) == trimmed(number),
        duration_unit(number).0 == DurationUnit::Seconds,
        duration_number(number) == trimmed(number),
{
    let s = number + unit_text(unit);
    let t = number + seq!['\u{b5}', 's'];
    assert(s.take(number.len() as int) =~= number);
    assert(t.take(number.len() as int) =~= number);
    assert(number.take(number.len() as int) =~= number);
    assert(s.last() == unit_text(unit).last());
    if unit_text(unit).len() == 2 {
        assert(s[s.len() - 2] == unit_text(unit)[0]);
    } else if number.len() > 0 {
        assert(s[s.len() - 2] == number.last());
    }
}

/// The word before the colon of a read bound.
pub open spec fn bound_word(kind: BoundKind) -> Seq<char> {
    match kind {
        BoundKind::Exact => seq!['e', 'x', 'a', 'c', 't'],
        BoundKind::Max => seq!['m', 'a', 'x'],
        BoundKind::Read => seq!['r', 'e', 'a', 'd'],
        BoundKind::Min => seq!['m', 'i', 'n'],
    }
}

proof fn lemma_bound_words()
    ensures
        "exact"@ == bound_word(BoundKind::Exact),
        "max"@ == bound_word(BoundKind::Max),
        "read"@ == bound_word(BoundKind::Read),
        "min"@ == bound_word(BoundKind::Min),
        forall|a: BoundKind, b: BoundKind|
            #[trigger] bound_word(a) == #[trigger] bound_word(b) ==> a == b,
{
    reveal_strlit("exact");
    reveal_strlit("max");
    reveal_strlit("read");
    reveal_strlit("min");
    assert("exact"@ =~= bound_word(BoundKind::Exact));
    assert("max"@ =~= bound_word(BoundKind::Max));
    assert("read"@ =~= bound_word(BoundKind::Read));
    assert("min"@ =~= bound_word(BoundKind::Min));
    assert(bound_word(BoundKind::Max)[1] == 'a');
    assert(bound_word(BoundKind::Min)[1] == 'i');
    assert forall|a: BoundKind, b: BoundKind|
        #[trigger] bound_word(a) == #[trigger] bound_word(b) implies a == b by {
        assert(bound_word(a).len() == bound_word(b).len());
    }
}

/// A read bound is a word, a colon and an argument, with white space allowed around either: `exact`
/// and `max` with a duration, `read` and `min` with a timestamp.
pub proof fn lemma_read_bounds(
    kind: BoundKind,
    w1: Seq<char>,
    w2: Seq<char>,
    argument: Seq<char>,
    span: Option<TimeSpan>,
    instant: Result<(i64, u32), Seq<char>>,
)
    requires
        is_blank(w1),
        is_blank(w2),
    ensures
        ({
            let value = (w1 + bound_word(kind) + w2).push(':') + argument;
            let made = read_bound(value, span, instant);
            &&& timestamp_text(value) == trimmed(argument)
            &&& bound_argument(value) == trimmed(argument)
            &&& bound_kind(value) == Some(kind)
            &&& match kind {
                BoundKind::Exact => match span {
                    Some(d) => made == Ok::<ReadBound, Seq<char>>(ReadBound::ExactStaleness(d)),
                    None => made is Err,
                },
                BoundKind::Max => match span {
                    Some(d) => made == Ok::<ReadBound, Seq<char>>(ReadBound::MaxStaleness(d)),
                    None => made is Err,
                },
                BoundKind::Read => match instant {
                    Ok(t) => made == Ok::<ReadBound, Seq<char>>(
                        ReadBound::ReadTimestamp(Instant { secs: t.0, nanos: t.1 }),
                    ),
                    Err(_) => made is Err,
                },
                BoundKind::Min => match instant {
                    Ok(t) => made == Ok::<ReadBound, Seq<char>>(
                        ReadBound::MinReadTimestamp(Instant { secs: t.0, nanos: t.1 }),
                    ),
                    Err(_) => made is Err,
                },
            }
        }),
{
    lemma_bound_words();
    let word = bound_word(kind);
    let head = w1 + word + w2;
    assert(!is_whitespace(word[0]) && !is_whitespace(word.last()));
    lemma_trimmed_of(w1, word, w2);
    assert(!head.contains(':')) by {
        if head.contains(':') {
            let i = choose|i: int| 0 <= i < head.len() && head[i] == ':';
            if i < w1.len() {
                assert(is_whitespace(w1[i]));
            } else if i < w1.len() + word.len() {
                assert(word[i - w1.len()] == ':');
            } else {
                assert(is_whitespace(w2[i - w1.len() - word.len()]));
            }
        }
    }
    lemma_before_and_after(head, ':', argument);
}

/// A value that does not begin with one of the four words and a colon is a timestamp to read at, or
/// no read bound.
pub proof fn lemma_bare_timestamps(
    value: Seq<char>,
    span: Option<TimeSpan>,
    instant: Result<(i64, u32), Seq<char>>,
)
    requires
        value.contains(':') ==> forall|kind: BoundKind|
            trimmed(before(value, ':')) != #[trigger] bound_word(kind),
    ensures
        timestamp_text(value) == value,
        match instant {
            Ok(t) => read_bound(value, span, instant) == Ok::<ReadBound, Seq<char>>(
                ReadBound::ReadTimestamp(Instant { secs: t.0, nanos: t.1 }),
            ),
            Err(_) => read_bound(value, span, instant) is Err,
        },
{
    lemma_bound_words();
    if value.contains(':') {
        assert(trimmed(before(value, ':')) != bound_word(BoundKind::Exact));
        assert(trimmed(before(value, ':')) != bound_word(BoundKind::Max));
        assert(trimmed(before(value, ':')) != bound_word(BoundKind::Read));
        assert(trimmed(before(value, ':')) != bound_word(BoundKind::Min));
    }
}

/// A multi-use transaction reads exactly as stale as a bounded read may, and exactly at the earliest
/// instant that one may.
pub proof fn lemma_pinned_bounds(d: TimeSpan, t: Instant)
    ensures
        pinned(ReadBound::MaxStaleness(d)) == ReadBound::ExactStaleness(d),
        pinned(ReadBound::ExactStaleness(d)) == ReadBound::ExactStaleness(d),
        pinned(ReadBound::MinReadTimestamp(t)) == ReadBound::ReadTimestamp(t),
        pinned(ReadBound::ReadTimestamp(t)) == ReadBound::ReadTimestamp(t),
{
}

/// The setting keeps the text that made it; the empty text unsets it, and a value that is no text or
/// writes no bound is rejected.
pub proof fn lemma_staleness_setting(value: OptionValue, span: Option<TimeSpan>)
    ensures
        match value {
            OptionValue::Text(s) => if s@.len() == 0 {
                staleness_after(value, span) == Ok::<StalenessView, Seq<char>>(
                    StalenessView { raw: None, bound: None },
                )
            } else {
                match read_bound(s@, span, rfc3339(timestamp_text(s@))) {
                    Ok(b) => staleness_after(value, span) == Ok::<StalenessView, Seq<char>>(
                        StalenessView { raw: Some(s@), bound: Some(b) },
                    ),
                    Err(_) => staleness_after(value, span) is Err,
                }
            },
            _ => staleness_after(value, span) is Err,
        },
{
}

// ---------------------------------------------------------------------------------------------
// Requests
// ---------------------------------------------------------------------------------------------

/// The word that a priority goes by.
pub open spec fn priority_word(p: RequestPriority) -> Seq<char> {
    match p {
        RequestPriority::Low => seq!['l', 'o', 'w'],
        RequestPriority::Medium => seq!['m', 'e', 'd', 'i', 'u', 'm'],
        RequestPriority::High => seq!['h', 'i', 'g', 'h'],
    }
}

/// A priority is set by its word, in any case of its letters and with white space around it, and by
/// nothing else; blank text unsets it.
pub proof fn lemma_priorities(before: RequestView, value: OptionValue)
    ensures
        match value {
            OptionValue::Text(s) => {
                &&& trimmed(s@).len() == 0 ==> with_priority(before, value) is Ok && with_priority(
                    before,
                    value,
                )->Ok_0.priority is None
                &&& trimmed(s@).len() > 0 ==> forall|p: RequestPriority|
                    (with_priority(before, value) is Ok && with_priority(
                        before,
                        value,
                    )->Ok_0.priority == Some(p)) <==> same_ignoring_case(
                        trimmed(s@),
                        #[trigger] priority_word(p),
                    )
                &&& trimmed(s@).len() > 0 && with_priority(before, value) is Ok ==> with_priority(
                    before,
                    value,
                )->Ok_0.priority is Some
            },
            _ => with_priority(before, value) is Err,
        },
        with_priority(before, value) matches Ok(after) ==> after == (RequestView {
            priority: after.priority,
            ..before
        }),
{
    reveal_strlit("low");
    reveal_strlit("medium");
    reveal_strlit("high");
    assert("low"@ =~= priority_word(RequestPriority::Low));
    assert("medium"@ =~= priority_word(RequestPriority::Medium));
    assert("high"@ =~= priority_word(RequestPriority::High));
    assert forall|p: RequestPriority| lowered(#[trigger] priority_word(p)) == priority_word(p) by {
        assert(lowered(priority_word(p)) =~= priority_word(p));
    }
    assert(priority_word(RequestPriority::Low).len() == 3);
    assert(priority_word(RequestPriority::Medium).len() == 6);
    assert(priority_word(RequestPriority::High).len() == 4);
    if let OptionValue::Text(s) = value {
        let t = trimmed(s@);
        if t.len() > 0 {
            assert forall|p: RequestPriority|
                (with_priority(before, value) is Ok && with_priority(
                    before,
                    value,
                )->Ok_0.priority == Some(p)) <==> same_ignoring_case(
                    t,
                    #[trigger] priority_word(p),
                ) by {
                assert(lowered(priority_word(p)) == priority_word(p));
                assert(lowered(t).len() == t.len());
            }
        }
    }
}

/// Tags are kept verbatim and each on its own, and the empty text unsets one.
pub proof fn lemma_tags(before: RequestView, value: OptionValue)
    ensures
        match value {
            OptionValue::Text(s) => {
                let tag = if s@.len() == 0 {
                    None
                } else {
                    Some(s@)
                };
                &&& with_request_tag(before, value) == Ok::<RequestView, Seq<char>>(
                    RequestView { request_tag: tag, ..before },
                )
                &&& with_transaction_tag(before, value) == Ok::<RequestView, Seq<char>>(
                    RequestView { transaction_tag: tag, ..before },
                )
            },
            _ => with_request_tag(before, value) is Err && with_transaction_tag(before, value)
                is Err,
        },
{
}

/// A commit delay is set if it is a duration of at most 500 milliseconds, and kept as it was
/// written; the empty text unsets it, and no other setting changes.
pub proof fn lemma_commit_delays(
    before: RequestView,
    value: OptionValue,
    span: Option<TimeSpan>,
)
    ensures
        match value {
            OptionValue::Text(s) => if s@.len() == 0 {
                with_max_commit_delay(before, value, span) == Ok::<RequestView, Seq<char>>(
                    RequestView { max_commit_delay_raw: None, max_commit_delay: None, ..before },
                )
            } else {
                match span {
                    Some(t) => if t.secs as int * 1_000_000_000 + t.nanos <= 500_000_000 {
                        with_max_commit_delay(before, value, span) == Ok::<
                            RequestView,
                            Seq<char>,
                        >(
                            RequestView {
                                max_commit_delay_raw: Some(s@),
                                max_commit_delay: Some(t),
                                ..before
                            },
                        )
                    } else {
                        with_max_commit_delay(before, value, span) is Err
                    },
                    None => with_max_commit_delay(before, value, span) is Err,
                }
            },
            _ => with_max_commit_delay(before, value, span) is Err,
        },
{
}

/// Commit statistics are asked for by `true` and not by `false` or the empty text, and no other
/// setting changes.
pub proof fn lemma_commit_statistics(before: RequestView, value: OptionValue)
    ensures
        match value {
            OptionValue::Text(s) => {
                &&& s@ == seq!['t', 'r', 'u', 'e'] ==> with_commit_stats(before, value) == Ok::<
                    RequestView,
                    Seq<char>,
                >(RequestView { commit_stats: true, ..before })
                &&& s@ == seq!['f', 'a', 'l', 's', 'e'] || s@.len() == 0 ==> with_commit_stats(
                    before,
                    value,
                ) == Ok::<RequestView, Seq<char>>(RequestView { commit_stats: false, ..before })
                &&& s@ != seq!['t', 'r', 'u', 'e'] && s@ != seq!['f', 'a', 'l', 's', 'e']
                    && s@.len() > 0 ==> with_commit_stats(before, value) is Err
            },
            _ => with_commit_stats(before, value) is Err,
        },
{
    lemma_booleans(value, "option "@ + crate::keys::OPTION_COMMIT_STATS@);
}

// ---------------------------------------------------------------------------------------------
// Directed reads
// ---------------------------------------------------------------------------------------------

/// The word that a kind of replica goes by.
pub open spec fn replica_word(replica: ReplicaType) -> Seq<char> {
    match replica {
        ReplicaType::ReadWrite => seq!['r', 'e', 'a', 'd', '_', 'w', 'r', 'i', 't', 'e'],
        ReplicaType::ReadOnly => seq!['r', 'e', 'a', 'd', '_', 'o', 'n', 'l', 'y'],
        ReplicaType::Any => seq!['a', 'n', 'y'],
    }
}

proof fn lemma_replica_words(s: Seq<char>, replica: ReplicaType)
    ensures
        replica_type(s) == Some(replica) <==> s == replica_word(replica),
{
    reveal_strlit("read_write");
    reveal_strlit("read_only");
    reveal_strlit("any");
    assert("read_write"@ =~= replica_word(ReplicaType::ReadWrite));
    assert("read_only"@ =~= replica_word(ReplicaType::ReadOnly));
    assert("any"@ =~= replica_word(ReplicaType::Any));
    assert(replica_word(ReplicaType::ReadWrite).len() == 10);
    assert(replica_word(ReplicaType::ReadOnly).len() == 9);
    assert(replica_word(ReplicaType::Any).len() == 3);
}

/// A selection is a location, of any kind of replica, or a colon and a kind, with or without a
/// location before it; the empty text and any other word behind the colon are none.
pub proof fn lemma_selections(location: Seq<char>, kind: Seq<char>, replica: ReplicaType)
    requires
        !location.contains(':'),
    ensures
        selection(location) == (if location.len() == 0 {
            None
        } else {
            Some(SelectionView { location: Some(location), replica: ReplicaType::Any })
        }),
        selection(location.push(':') + replica_word(replica)) == Some(
            SelectionView {
                location: if location.len() == 0 {
                    None
                } else {
                    Some(location)
                },
                replica,
            },
        ),
        (forall|r: ReplicaType| kind != #[trigger] replica_word(r)) ==> selection(
            location.push(':') + kind,
        ) is None,
{
    lemma_before_and_after(location, ':', replica_word(replica));
    lemma_before_and_after(location, ':', kind);
    lemma_replica_words(replica_word(replica), replica);
    if forall|r: ReplicaType| kind != #[trigger] replica_word(r) {
        assert(kind != replica_word(ReplicaType::ReadWrite));
        assert(kind != replica_word(ReplicaType::ReadOnly));
        assert(kind != replica_word(ReplicaType::Any));
        lemma_replica_words(kind, ReplicaType::ReadWrite);
        lemma_replica_words(kind, ReplicaType::ReadOnly);
        lemma_replica_words(kind, ReplicaType::Any);
    }
}

pub open spec fn include_word() -> Seq<char> {
    seq!['i', 'n', 'c', 'l', 'u', 'd', 'e']
}

pub open spec fn exclude_word() -> Seq<char> {
    seq!['e', 'x', 'c', 'l', 'u', 'd', 'e']
}

pub open spec fn flag_word() -> Seq<char> {
    "auto_failover_disabled"@
}

/// A directed read that includes or excludes a list of selections chooses them all, in order. With
/// `include` the flag disables failover; with `exclude` it is refused, and so is a list with a
/// member that is no selection.
pub proof fn lemma_directed_reads(list: Seq<Seq<char>>)
    requires
        list.len() > 0,
        forall|i: int|
            0 <= i < list.len() ==> !(#[trigger] list[i]).contains(',') && !list[i].contains(';'),
    ensures
        ({
            let preferring = include_word().push(':') + interleaved(list, ',');
            let avoiding = exclude_word().push(':') + interleaved(list, ',');
            let all = forall|i: int|
                0 <= i < list.len() ==> selection(#[trigger] list[i]) is Some;
            let chosen = list.map_values(|s: Seq<char>| selection(s)->Some_0);
            &&& all ==> choice(preferring) == Some(
                ChoiceView { preferred: true, selections: chosen, auto_failover_disabled: false },
            )
            &&& all ==> choice(avoiding) == Some(
                ChoiceView { preferred: false, selections: chosen, auto_failover_disabled: false },
            )
            &&& all ==> choice(preferring.push(';') + flag_word()) == Some(
                ChoiceView { preferred: true, selections: chosen, auto_failover_disabled: true },
            )
            &&& choice(avoiding.push(';') + flag_word()) is None
            &&& !all ==> choice(preferring) is None && choice(avoiding) is None && choice(
                preferring.push(';') + flag_word(),
            ) is None
        }),
{
    let preferring = include_word().push(':') + interleaved(list, ',');
    let avoiding = exclude_word().push(':') + interleaved(list, ',');
    reveal_strlit("include");
    reveal_strlit("exclude");
    assert("include"@ =~= include_word());
    assert("exclude"@ =~= exclude_word());
    assert(include_word()[0] != exclude_word()[0]);
    lemma_pieces_of_interleaved(list, ',');
    assert(!interleaved(list, ',').contains(';')) by {
        lemma_interleaved_without(list, ',', ';');
    }
    assert(!include_word().contains(':') && !exclude_word().contains(':'));
    lemma_before_and_after(include_word(), ':', interleaved(list, ','));
    lemma_before_and_after(exclude_word(), ':', interleaved(list, ','));
    assert(!preferring.contains(';')) by {
        if preferring.contains(';') {
            let i = choose|i: int| 0 <= i < preferring.len() && preferring[i] == ';';
            if i >= 8 {
                assert(interleaved(list, ',')[i - 8] == ';');
            }
        }
    }
    assert(!avoiding.contains(';')) by {
        if avoiding.contains(';') {
            let i = choose|i: int| 0 <= i < avoiding.len() && avoiding[i] == ';';
            if i >= 8 {
                assert(interleaved(list, ',')[i - 8] == ';');
            }
        }
    }
    lemma_before_and_after(preferring, ';', flag_word());
    lemma_before_and_after(avoiding, ';', flag_word());
}

proof fn lemma_interleaved_without(parts: Seq<Seq<char>>, c: char, d: char)
    requires
        c != d,
        forall|i: int| 0 <= i < parts.len() ==> !(#[trigger] parts[i]).contains(d),
    ensures
        !interleaved(parts, c).contains(d),
    decreases parts.len(),
{
    if parts.len() == 1 {
        assert(!parts[0].contains(d));
    } else if parts.len() > 1 {
        let rest = parts.skip(1);
        assert forall|i: int| 0 <= i < rest.len() implies !(#[trigger] rest[i]).contains(d) by {
            assert(rest[i] == parts[i + 1]);
        }
        lemma_interleaved_without(rest, c, d);
        assert(!parts[0].contains(d));
        let s = interleaved(parts, c);
        if s.contains(d) {
            let i = choose|i: int| 0 <= i < s.len() && s[i] == d;
            let n = parts[0].len();
            if i < n {
                assert(parts[0][i] == d);
            } else if i > n {
                assert(interleaved(rest, c)[i - n - 1] == d);
            }
        }
    }
}

/// Without a list there are no selections, and no other word is a mode.
pub proof fn lemma_modes(mode: Seq<char>)
    requires
        !mode.contains(':') && !mode.contains(';'),
    ensures
        choice(mode) == (if mode == include_word() {
            Some(
                ChoiceView {
                    preferred: true,
                    selections: Seq::empty(),
                    auto_failover_disabled: false,
                },
            )
        } else if mode == exclude_word() {
            Some(
                ChoiceView {
                    preferred: false,
                    selections: Seq::empty(),
                    auto_failover_disabled: false,
                },
            )
        } else {
            None
        }),
        forall|list: Seq<char>|
            mode != include_word() && mode != exclude_word() && !list.contains(';') ==> choice(
                #[trigger] (mode.push(':') + list),
            ) is None,
{
    reveal_strlit("include");
    reveal_strlit("exclude");
    assert("include"@ =~= include_word());
    assert("exclude"@ =~= exclude_word());
    assert(include_word()[0] != exclude_word()[0]);
    assert forall|list: Seq<char>|
        mode != include_word() && mode != exclude_word() && !list.contains(';') implies choice(
        #[trigger] (mode.push(':') + list),
    ) is None by {
        let s = mode.push(':') + list;
        lemma_before_and_after(mode, ':', list);
        if s.contains(';') {
            let i = choose|i: int| 0 <= i < s.len() && s[i] == ';';
            if i < mode.len() {
                assert(mode[i] == ';');
            } else {
                assert(list[i - mode.len() - 1] == ';');
            }
        }
    }
}

/// The setting keeps the trimmed text that made it; blank text unsets it.
pub proof fn lemma_directed_read_setting(value: OptionValue)
    ensures
        match value {
            OptionValue::Text(s) => if trimmed(s@).len() == 0 {
                directed_read_after(value) == Ok::<DirectedReadView, Seq<char>>(
                    DirectedReadView { raw: None, choice: None },
                )
            } else {
                match choice(trimmed(s@)) {
                    Some(c) => directed_read_after(value) == Ok::<DirectedReadView, Seq<char>>(
                        DirectedReadView { raw: Some(trimmed(s@)), choice: Some(c) },
                    ),
                    None => directed_read_after(value) is Err,
                }
            },
            _ => directed_read_after(value) is Err,
        },
{
}

// ---------------------------------------------------------------------------------------------
// Addresses
// ---------------------------------------------------------------------------------------------

/// An endpoint that names its scheme is left as it is; `http://` is put before any other.
pub proof fn lemma_endpoints(a: Seq<char>, b: Seq<char>, s: Seq<char>)
    ensures
        schemed(a + seq![':', '/', '/'] + b) == a + seq![':', '/', '/'] + b,
        !s.contains('/') || !s.contains(':') ==> schemed(s) == seq![
            'h',
            't',
            't',
            'p',
            ':',
            '/',
            '/',
        ] + s,
        schemed(s) == s || schemed(s) == seq!['h', 't', 't', 'p', ':', '/', '/'] + s,
{
    reveal_strlit("http://");
    assert("http://"@ =~= seq!['h', 't', 't', 'p', ':', '/', '/']);
    let t = a + seq![':', '/', '/'] + b;
    let n = a.len() as int;
    assert(t[n] == ':' && t[n + 1] == '/' && t[n + 2] == '/');
    assert(scheme_mark_at(t, n));
    if has_scheme(s) {
        let i = choose|i: int| #[trigger] scheme_mark_at(s, i);
        assert(s[i] == ':' && s[i + 1] == '/');
        assert(s.contains(':') && s.contains('/'));
    }
}

/// The byte of a hexadecimal digit, in upper or lower case.
pub open spec fn hex_byte(n: int, upper: bool) -> u8 {
    if n < 10 {
        (48 + n) as u8
    } else if upper {
        (55 + n) as u8
    } else {
        (87 + n) as u8
    }
}

/// A `%` and two hexadecimal digits, in either case, stand for the byte that they write, and any
/// other byte for itself; a `%` that two such digits do not follow stands for nothing.
pub proof fn lemma_escapes(high: int, low: int, u1: bool, u2: bool, b: u8, rest: Seq<u8>)
    requires
        0 <= high < 16,
        0 <= low < 16,
        b != 37,
    ensures
        unescaped(Seq::empty()) == Some(Seq::<u8>::empty()),
        unescaped(seq![b] + rest) == (match unescaped(rest) {
            Some(r) => Some(seq![b] + r),
            None => None,
        }),
        unescaped(seq![37u8, hex_byte(high, u1), hex_byte(low, u2)] + rest) == (match unescaped(
            rest,
        ) {
            Some(r) => Some(seq![(16 * high + low) as u8] + r),
            None => None,
        }),
        unescaped(seq![37u8]) is None,
        unescaped(seq![37u8, b]) is None,
        !is_hex(b) ==> unescaped(seq![37u8, b] + rest) is None,
        !is_hex(b) ==> unescaped(seq![37u8, hex_byte(high, u1), b] + rest) is None,
{
    let plain = seq![b] + rest;
    assert(plain.skip(1) =~= rest);
    assert(plain[0] == b);
    let escape = seq![37u8, hex_byte(high, u1), hex_byte(low, u2)] + rest;
    assert(escape.skip(3) =~= rest);
    assert(escape[0] == 37 && escape[1] == hex_byte(high, u1) && escape[2] == hex_byte(low, u2));
    let bad = seq![37u8, b] + rest;
    assert(bad[0] == 37 && bad[1] == b);
    let worse = seq![37u8, hex_byte(high, u1), b] + rest;
    assert(worse[0] == 37 && worse[2] == b);
}

/// Whether a byte is a hexadecimal digit.
pub open spec fn is_hex(b: u8) -> bool {
    48 <= b <= 57 || 65 <= b <= 70 || 97 <= b <= 102
}

/// Percent-encoded text stands for the text whose bytes it stands for.
pub proof fn lemma_percent_decoding(s: Seq<char>, t: Seq<char>)
    requires
        unescaped(encode_utf8(s)) == Some(encode_utf8(t)),
    ensures
        percent_decoded(s) == Some(t),
{
    encode_utf8_valid_utf8(t);
    encode_utf8_decode_utf8(t);
}

pub open spec fn scheme_text() -> Seq<char> {
    seq!['s', 'p', 'a', 'n', 'n', 'e', 'r', ':', '/', '/']
}

/// A connection URI is the scheme, an endpoint that may be empty, a slash and the path of the
/// database, which may not; behind a question mark stand options, `&` between them, each a key, `=`
/// and a value. All of them come out, in order, decoded.
pub proof fn lemma_connection_uris(
    endpoint: Seq<char>,
    path: Seq<char>,
    options: Seq<(Seq<char>, Seq<char>)>,
)
    requires
        !endpoint.contains('/') && !endpoint.contains('?'),
        !path.contains('?'),
        percent_decoded(path) is Some,
        percent_decoded(path)->Some_0.len() > 0,
        forall|i: int|
            0 <= i < options.len() ==> {
                &&& !(#[trigger] options[i]).0.contains('=') && !options[i].0.contains('&')
                &&& !options[i].1.contains('&')
                &&& percent_decoded(options[i].0) is Some
                &&& percent_decoded(options[i].1) is Some
                &&& !is_secret(percent_decoded(options[i].0)->Some_0)
            },
    ensures
        ({
            let main = scheme_text() + (endpoint.push('/') + path);
            let query = interleaved(
                options.map_values(|o: (Seq<char>, Seq<char>)| o.0.push('=') + o.1),
                '&',
            );
            let found = UriView {
                database: percent_decoded(path)->Some_0,
                endpoint: if endpoint.len() == 0 {
                    None
                } else {
                    Some(endpoint)
                },
                options: options.map_values(
                    |o: (Seq<char>, Seq<char>)|
                        (percent_decoded(o.0)->Some_0, percent_decoded(o.1)->Some_0),
                ),
            };
            &&& options.len() > 0 ==> expanded(main.push('?') + query) == Ok::<UriView, Seq<char>>(
                found,
            )
            &&& options.len() == 0 ==> expanded(main) == Ok::<UriView, Seq<char>>(found)
                && expanded(main.push('?')) == Ok::<UriView, Seq<char>>(found)
        }),
{
    let tail = endpoint.push('/') + path;
    let main = scheme_text() + tail;
    let parts = options.map_values(|o: (Seq<char>, Seq<char>)| o.0.push('=') + o.1);
    let query = interleaved(parts, '&');
    reveal_strlit("spanner://");
    assert("spanner://"@ =~= scheme_text());
    assert(!tail.contains('?')) by {
        if tail.contains('?') {
            let i = choose|i: int| 0 <= i < tail.len() && tail[i] == '?';
            if i < endpoint.len() {
                assert(endpoint[i] == '?');
            } else if i > endpoint.len() {
                assert(path[i - endpoint.len() - 1] == '?');
            }
        }
    }
    lemma_before_and_after(endpoint, '/', path);
    let made = options.map_values(
        |o: (Seq<char>, Seq<char>)|
            (percent_decoded(o.0)->Some_0, percent_decoded(o.1)->Some_0),
    );
    if options.len() > 0 {
        let uri = main.push('?') + query;
        assert(uri.take(10) =~= scheme_text());
        assert(uri.skip(10) =~= tail.push('?') + query);
        lemma_before_and_after(tail, '?', query);
        assert forall|i: int| 0 <= i < parts.len() implies !(#[trigger] parts[i]).contains('&') by {
            let o = options[i];
            if parts[i].contains('&') {
                let k = choose|k: int| 0 <= k < parts[i].len() && parts[i][k] == '&';
                if k < o.0.len() {
                    assert(o.0[k] == '&');
                } else if k > o.0.len() {
                    assert(o.1[k - o.0.len() - 1] == '&');
                }
            }
        }
        lemma_pieces_of_interleaved(parts, '&');
        assert(query.len() > 0) by {
            assert(parts[0].len() > 0);
        }
        lemma_all_options(options, parts, options.len() as int);
        assert(parts.take(parts.len() as int) =~= parts);
        assert(made.take(made.len() as int) =~= made);
    } else {
        assert(main.take(10) =~= scheme_text());
        assert(main.skip(10) =~= tail);
        let uri = main.push('?');
        let none = Seq::<char>::empty();
        assert(uri.take(10) =~= scheme_text());
        assert(uri.skip(10) =~= tail.push('?') + none);
        lemma_before_and_after(tail, '?', none);
        assert(query_options(Seq::<Seq<char>>::empty()) == Ok::<
            Seq<(Seq<char>, Seq<char>)>,
            Seq<char>,
        >(Seq::empty()));
        assert(made =~= Seq::empty());
    }
}

proof fn lemma_all_options(
    options: Seq<(Seq<char>, Seq<char>)>,
    parts: Seq<Seq<char>>,
    n: int,
)
    requires
        parts == options.map_values(|o: (Seq<char>, Seq<char>)| o.0.push('=') + o.1),
        0 <= n <= options.len(),
        forall|i: int|
            0 <= i < options.len() ==> {
                &&& !(#[trigger] options[i]).0.contains('=') && !options[i].0.contains('&')
                &&& !options[i].1.contains('&')
                &&& percent_decoded(options[i].0) is Some
                &&& percent_decoded(options[i].1) is Some
                &&& !is_secret(percent_decoded(options[i].0)->Some_0)
            },
    ensures
        query_options(parts.take(n)) == Ok::<Seq<(Seq<char>, Seq<char>)>, Seq<char>>(
            options.map_values(
                |o: (Seq<char>, Seq<char>)|
                    (percent_decoded(o.0)->Some_0, percent_decoded(o.1)->Some_0),
            ).take(n),
        ),
    decreases n,
{
    let made = options.map_values(
        |o: (Seq<char>, Seq<char>)|
            (percent_decoded(o.0)->Some_0, percent_decoded(o.1)->Some_0),
    );
    if n > 0 {
        lemma_all_options(options, parts, n - 1);
        assert(parts.take(n).drop_last() =~= parts.take(n - 1));
        let o = options[n - 1];
        assert(parts.take(n).last() == o.0.push('=') + o.1);
        lemma_before_and_after(o.0, '=', o.1);
        assert(made.take(n) =~= made.take(n - 1).push(made[n - 1]));
    } else {
        assert(parts.take(0) =~= Seq::empty());
        assert(made.take(0) =~= Seq::empty());
    }
}

/// Without the scheme, without a slash behind the endpoint, or with nothing behind that slash, a text
/// is no connection URI, and neither is one that sets an option without `=` or one with a secret.
pub proof fn lemma_no_connection_uri(
    uri: Seq<char>,
    endpoint: Seq<char>,
    path: Seq<char>,
    part: Seq<char>,
)
    requires
        !endpoint.contains('/') && !endpoint.contains('?'),
        !path.contains('?'),
        !part.contains('&'),
        part.len() > 0,
    ensures
        uri.len() < 10 || uri.take(10) != scheme_text() ==> expanded(uri) is Err,
        expanded(scheme_text() + endpoint) is Err,
        expanded(scheme_text() + endpoint.push('/')) is Err,
        !part.contains('=') || (percent_decoded(before(part, '=')) matches Some(k) && is_secret(k))
            ==> expanded((scheme_text() + (endpoint.push('/') + path)).push('?') + part) is Err,
{
    reveal_strlit("spanner://");
    assert("spanner://"@ =~= scheme_text());
    let a = scheme_text() + endpoint;
    assert(a.skip(10) =~= endpoint);
    let none = Seq::<char>::empty();
    let b = scheme_text() + endpoint.push('/');
    assert(b.skip(10) =~= endpoint.push('/') + none);
    lemma_before_and_after(endpoint, '/', none);
    assert(!(endpoint.push('/') + none).contains('?')) by {
        let t = endpoint.push('/') + none;
        if t.contains('?') {
            let i = choose|i: int| 0 <= i < t.len() && t[i] == '?';
            if i < endpoint.len() {
                assert(endpoint[i] == '?');
            }
        }
    }
    crate::uri::lemma_percent_decoded(none);
    let tail = endpoint.push('/') + path;
    let c = (scheme_text() + tail).push('?') + part;
    assert(c.skip(10) =~= tail.push('?') + part);
    assert(!tail.contains('?')) by {
        if tail.contains('?') {
            let i = choose|i: int| 0 <= i < tail.len() && tail[i] == '?';
            if i < endpoint.len() {
                assert(endpoint[i] == '?');
            } else if i > endpoint.len() {
                assert(path[i - endpoint.len() - 1] == '?');
            }
        }
    }
    lemma_before_and_after(tail, '?', part);
    assert(pieces(part, '&') =~= seq![part]);
    let parts = seq![part];
    assert(parts.drop_last() =~= Seq::<Seq<char>>::empty());
}

// ---------------------------------------------------------------------------------------------
// Bindings
// ---------------------------------------------------------------------------------------------

/// By position the columns go to the parameters in order, if there are as many of the one as of the
/// other; by name each column goes to the parameter of its own name, and the first that names none
/// is complained of.
pub proof fn lemma_bindings(parameters: Seq<Seq<char>>, columns: Seq<Seq<char>>, i: int)
    ensures
        parameters.len() == columns.len() ==> pairing(parameters, columns, false) == Ok::<
            Seq<Seq<char>>,
            Seq<char>,
        >(parameters),
        parameters.len() != columns.len() ==> pairing(parameters, columns, false) == Err::<
            Seq<Seq<char>>,
            Seq<char>,
        >(count_message(parameters.len(), columns.len())),
        0 <= i < columns.len() && (forall|p: int|
            0 <= p < parameters.len() ==> !same_ignoring_case(#[trigger] parameters[p], columns[i]))
            && (forall|k: int| 0 <= k < i ==> occurs_in(#[trigger] columns[k], parameters))
            ==> pairing(parameters, columns, true) == Err::<Seq<Seq<char>>, Seq<char>>(
            unknown_column_message(columns[i]),
        ),
        (forall|k: int|
            0 <= k < columns.len() ==> exists|p: int|
                0 <= p < parameters.len() && same_ignoring_case(
                    #[trigger] parameters[p],
                    #[trigger] columns[k],
                )) ==> pairing(parameters, columns, true) == Ok::<Seq<Seq<char>>, Seq<char>>(
            columns,
        ),
{
    if 0 <= i < columns.len() && (forall|p: int|
        0 <= p < parameters.len() ==> !same_ignoring_case(#[trigger] parameters[p], columns[i]))
        && (forall|k: int| 0 <= k < i ==> occurs_in(#[trigger] columns[k], parameters)) {
        assert(!occurs_in(columns[i], parameters));
        lemma_first_unknown_at(parameters, columns, 0, i);
    }
    if forall|k: int|
        0 <= k < columns.len() ==> exists|p: int|
            0 <= p < parameters.len() && same_ignoring_case(
                #[trigger] parameters[p],
                #[trigger] columns[k],
            ) {
        assert forall|k: int| 0 <= k < columns.len() implies occurs_in(
            #[trigger] columns[k],
            parameters,
        ) by {}
        lemma_first_unknown_at(parameters, columns, 0, columns.len() as int);
    }
}

proof fn lemma_first_unknown_at(
    parameters: Seq<Seq<char>>,
    columns: Seq<Seq<char>>,
    from: int,
    i: int,
)
    requires
        0 <= from <= i <= columns.len(),
        i < columns.len() ==> !occurs_in(columns[i], parameters),
        forall|k: int| 0 <= k < i ==> occurs_in(#[trigger] columns[k], parameters),
    ensures
        first_unknown(columns, parameters, from) == (if i < columns.len() {
            Some(columns[i])
        } else {
            None
        }),
    decreases i - from,
{
    if from < i {
        assert(occurs_in(columns[from], parameters));
        lemma_first_unknown_at(parameters, columns, from + 1, i);
    }
}

/// Two options hold secrets, and no other.
pub proof fn lemma_secrets(key: Seq<char>)
    ensures
        is_secret(key) <==> key == seq![
            's', 'p', 'a', 'n', 'n', 'e', 'r', '.', 'a', 'u', 't', 'h', '.', 'k', 'e', 'y', 'f', 'i',
            'l', 'e', '_', 'j', 's', 'o', 'n',
        ] || key == seq![
            's', 'p', 'a', 'n', 'n', 'e', 'r', '.', 'a', 'u', 't', 'h', '.', 'a', 'c', 'c', 'e', 's',
            's', '_', 't', 'o', 'k', 'e', 'n',
        ],
{
    reveal_strlit("spanner.auth.keyfile_json");
    reveal_strlit("spanner.auth.access_token");
    assert("spanner.auth.keyfile_json"@ =~= seq![
        's', 'p', 'a', 'n', 'n', 'e', 'r', '.', 'a', 'u', 't', 'h', '.', 'k', 'e', 'y', 'f', 'i',
        'l', 'e', '_', 'j', 's', 'o', 'n',
    ]);
    assert("spanner.auth.access_token"@ =~= seq![
        's', 'p', 'a', 'n', 'n', 'e', 'r', '.', 'a', 'u', 't', 'h', '.', 'a', 'c', 'c', 'e', 's',
        's', '_', 't', 'o', 'k', 'e', 'n',
    ]);
}

} // verus!
