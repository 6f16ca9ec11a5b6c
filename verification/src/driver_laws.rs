//! What settings, handles, streams and the entry points of the C interface keep to.

use vstd::arithmetic::power2::{lemma_pow2_adds, lemma_pow2_pos, lemma2_to64, lemma2_to64_rest, pow2};
use vstd::prelude::*;
use vstd::utf8::{decode_utf8, encode_utf8, valid_utf8};

use crate::arrow::Cell;
use crate::config::{
    config_after, default_config, precision_of, ConfigView, Conversions, IsolationLevel,
    SharedOption, TimestampPrecision,
};
use crate::entry::{
    depth_of, objects_arguments, stands_for, statistics_arguments, table_arguments,
    ADBC_VERSION_1_0_0, ADBC_VERSION_1_1_0,
};
use crate::error::{code_of, Error, Status};
use crate::exported_error::{exported_details, exported_vendor_code, is_v110, readable, Details};
use crate::guard::{
    argument_text, argument_texts, bytes_written, optional_text, optional_texts, required_text,
    sanitized, string_written,
};
use crate::handle::{refuses_call, slot_step, Slot, SlotStep};
use crate::info::{answered, info_cell, reported, InfoCode};
use crate::number::int_value;
use crate::objects::ObjectDepth;
use crate::options::{Double, OptionValue};
use crate::retry::{
    attempts, knobs_of, limits_of, significand, whole_value, with_backoff_initial_seconds,
    with_backoff_max_seconds, with_backoff_multiplier, with_max_attempts, with_max_elapsed_seconds,
    RetryConfig,
};
use crate::runtime::{
    begun, expects, follows, free_place, prefetch_after, released, signalled, PrefetchAction,
    PrefetchEvent, PrefetchState, Signal, SlotView,
};
use crate::stream::{
    errno_of, foreign, is_refused, report_errno, reports, ArrowFailure, ArrowReport, Errno, LastError,
    StreamState,
};
use crate::text::trimmed;

verus! {

// ---------------------------------------------------------------------------------------------
// Retrying
// ---------------------------------------------------------------------------------------------

/// The double that a whole number below 2^53 is: with 2^k the power of two below it, the exponent
/// is 1023 + k, and the rest fills the fraction from the top.
pub open spec fn double_bits(n: nat, k: nat) -> int {
    (1023 + k) * 0x10_0000_0000_0000 + (n - pow2(k)) * pow2((52 - k) as nat)
}

/// A double is read as the whole number that it is; with any bit of a fraction set it is none.
pub proof fn lemma_whole_doubles(n: nat, k: nat, extra: nat, d: Double)
    requires
        k <= 52,
        pow2(k) <= n < 2 * pow2(k),
        extra < pow2((52 - k) as nat),
        d.bits == double_bits(n, k) + extra,
    ensures
        whole_value(d) == (if extra == 0 {
            Some(n as int)
        } else {
            None
        }),
{
    let p = pow2(k);
    let q = pow2((52 - k) as nat);
    lemma_pow2_pos(k);
    lemma_pow2_pos((52 - k) as nat);
    lemma_pow2_adds(k, (52 - k) as nat);
    lemma2_to64();
    lemma2_to64_rest();
    assert(p * q == 0x10_0000_0000_0000);
    let rest = (n - p) * q + extra;
    assert(0 <= (n - p) * q <= (p - 1) * q) by (nonlinear_arith)
        requires
            p <= n < 2 * p,
            q > 0,
    ;
    assert((p - 1) * q == p * q - q) by (nonlinear_arith);
    assert(0 <= rest < 0x10_0000_0000_0000);
    assert(d.bits == (1023 + k) * 0x10_0000_0000_0000 + rest);
    assert(d.magnitude() == d.bits);
    assert(d.exponent() == 1023 + k);
    assert(d.fraction() == rest);
    assert(significand(d) == n * q + extra) by {
        assert((n - p) * q == n * q - p * q) by (nonlinear_arith);
    }
    vstd::arithmetic::div_mod::lemma_fundamental_div_mod_converse(
        significand(d) as int,
        q as int,
        n as int,
        extra as int,
    );
}

/// A number of attempts is a whole number from 1 to 2^32 - 1, given as an integer, as a double or in
/// decimal with white space around it; a blank text unsets, and everything else is refused.
pub proof fn lemma_attempts(value: OptionValue)
    ensures
        match value {
            OptionValue::Int(i) => if 1 <= i <= 4_294_967_295 {
                attempts(value) == Ok::<Option<u32>, Seq<char>>(Some(i as u32))
            } else {
                attempts(value) is Err
            },
            OptionValue::Double(d) => match whole_value(d) {
                Some(n) => if 1 <= n <= 4_294_967_295 {
                    attempts(value) == Ok::<Option<u32>, Seq<char>>(Some(n as u32))
                } else {
                    attempts(value) is Err
                },
                None => attempts(value) is Err,
            },
            OptionValue::Text(s) => if trimmed(s@).len() == 0 {
                attempts(value) == Ok::<Option<u32>, Seq<char>>(None)
            } else {
                match int_value(trimmed(s@)) {
                    Some(n) => if 1 <= n <= 4_294_967_295 {
                        attempts(value) == Ok::<Option<u32>, Seq<char>>(Some(n as u32))
                    } else {
                        attempts(value) is Err
                    },
                    None => attempts(value) is Err,
                }
            },
            OptionValue::Bytes(_) => attempts(value) is Err,
        },
{
}

/// Each retry setting takes a double in its range, fills its own place and leaves the others: times
/// are above zero and below 2^64 seconds, and the factor is above zero and finite.
pub proof fn lemma_retry_settings(before: RetryConfig, d: Double, number: Option<Double>, n: u32)
    requires
        n >= 1,
    ensures
        with_max_attempts(before, OptionValue::Int(n as i64)) == Ok::<RetryConfig, Seq<char>>(
            RetryConfig {
                max_attempts: Some(n),
                max_elapsed_seconds: before.max_elapsed_seconds,
                backoff_initial_seconds: before.backoff_initial_seconds,
                backoff_max_seconds: before.backoff_max_seconds,
                backoff_multiplier: before.backoff_multiplier,
            },
        ),
        with_max_elapsed_seconds(before, OptionValue::Double(d), number) is Ok <==> 1 <= d.bits
            < 0x43f0_0000_0000_0000,
        with_backoff_initial_seconds(before, OptionValue::Double(d), number) is Ok <==> 1 <= d.bits
            < 0x43f0_0000_0000_0000,
        with_backoff_max_seconds(before, OptionValue::Double(d), number) is Ok <==> 1 <= d.bits
            < 0x43f0_0000_0000_0000,
        with_backoff_multiplier(before, OptionValue::Double(d), number) is Ok <==> 1 <= d.bits
            < 0x7ff0_0000_0000_0000,
        with_max_elapsed_seconds(before, OptionValue::Double(d), number) matches Ok(after) ==> after
            == (RetryConfig {
            max_attempts: before.max_attempts,
            max_elapsed_seconds: Some(d),
            backoff_initial_seconds: before.backoff_initial_seconds,
            backoff_max_seconds: before.backoff_max_seconds,
            backoff_multiplier: before.backoff_multiplier,
        }),
        with_backoff_initial_seconds(before, OptionValue::Double(d), number) matches Ok(after)
            ==> after == (RetryConfig {
            max_attempts: before.max_attempts,
            max_elapsed_seconds: before.max_elapsed_seconds,
            backoff_initial_seconds: Some(d),
            backoff_max_seconds: before.backoff_max_seconds,
            backoff_multiplier: before.backoff_multiplier,
        }),
        with_backoff_max_seconds(before, OptionValue::Double(d), number) matches Ok(after) ==> after
            == (RetryConfig {
            max_attempts: before.max_attempts,
            max_elapsed_seconds: before.max_elapsed_seconds,
            backoff_initial_seconds: before.backoff_initial_seconds,
            backoff_max_seconds: Some(d),
            backoff_multiplier: before.backoff_multiplier,
        }),
        with_backoff_multiplier(before, OptionValue::Double(d), number) matches Ok(after) ==> after
            == (RetryConfig {
            max_attempts: before.max_attempts,
            max_elapsed_seconds: before.max_elapsed_seconds,
            backoff_initial_seconds: before.backoff_initial_seconds,
            backoff_max_seconds: before.backoff_max_seconds,
            backoff_multiplier: Some(d),
        }),
{
    crate::option_laws::lemma_ranges(d);
}

/// What a request is given of the retry settings is what they are, and nothing at all where none of
/// the kind is set.
pub proof fn lemma_retry_of_a_request(c: RetryConfig)
    ensures
        limits_of(c) is None <==> c.max_attempts is None && c.max_elapsed_seconds is None,
        limits_of(c) matches Some(limits) ==> limits.attempts == c.max_attempts
            && limits.elapsed_seconds == c.max_elapsed_seconds,
        knobs_of(c) is None <==> c.backoff_initial_seconds is None && c.backoff_max_seconds is None
            && c.backoff_multiplier is None,
        knobs_of(c) matches Some(knobs) ==> knobs.initial_seconds == c.backoff_initial_seconds
            && knobs.max_seconds == c.backoff_max_seconds && knobs.multiplier
            == c.backoff_multiplier,
{
}

// ---------------------------------------------------------------------------------------------
// Shared settings
// ---------------------------------------------------------------------------------------------

/// Of a connection without settings nothing is set; timestamps are in nanoseconds.
pub proof fn lemma_defaults()
    ensures
        default_config().isolation == IsolationLevel::Unspecified,
        default_config().read_staleness.bound is None && default_config().read_staleness.raw is None,
        default_config().directed_read.choice is None && default_config().directed_read.raw is None,
        default_config().request.priority is None,
        default_config().request.request_tag is None,
        default_config().request.transaction_tag is None,
        default_config().request.max_commit_delay is None,
        default_config().request.max_commit_delay_raw is None,
        !default_config().request.commit_stats,
        default_config().query_options.optimizer_version is None,
        default_config().query_options.optimizer_statistics_package is None,
        default_config().timestamp_precision == TimestampPrecision::NanosecondsErrorOnOverflow,
        default_config().timeouts.query is None,
        default_config().timeouts.update is None,
        default_config().timeouts.fetch is None,
        limits_of(default_config().retry) is None,
        knobs_of(default_config().retry) is None,
        default_config().commit_stats is None,
{
}

/// A precision is one of two words, or the empty text, which is the first of them.
pub proof fn lemma_precisions(value: OptionValue)
    ensures
        precision_of(value) == Ok::<TimestampPrecision, Seq<char>>(TimestampPrecision::Microseconds)
            <==> (value matches OptionValue::Text(s) && s@ == seq![
            'm', 'i', 'c', 'r', 'o', 's', 'e', 'c', 'o', 'n', 'd', 's',
        ]),
        precision_of(value) == Ok::<TimestampPrecision, Seq<char>>(
            TimestampPrecision::NanosecondsErrorOnOverflow,
        ) <==> (value matches OptionValue::Text(s) && (s@.len() == 0 || s@ == seq![
            'n', 'a', 'n', 'o', 's', 'e', 'c', 'o', 'n', 'd', 's', '_', 'e', 'r', 'r', 'o', 'r', '_',
            'o', 'n', '_', 'o', 'v', 'e', 'r', 'f', 'l', 'o', 'w',
        ])),
{
    reveal_strlit("microseconds");
    reveal_strlit("nanoseconds_error_on_overflow");
    let a = seq!['m', 'i', 'c', 'r', 'o', 's', 'e', 'c', 'o', 'n', 'd', 's'];
    let b = seq![
        'n', 'a', 'n', 'o', 's', 'e', 'c', 'o', 'n', 'd', 's', '_', 'e', 'r', 'r', 'o', 'r', '_',
        'o', 'n', '_', 'o', 'v', 'e', 'r', 'f', 'l', 'o', 'w',
    ];
    assert("microseconds"@ =~= a);
    assert("nanoseconds_error_on_overflow"@ =~= b);
    assert(a.len() != b.len());
}

/// Setting one option leaves all settings of other kinds, and the isolation level and the mutation
/// count always.
pub proof fn lemma_settings_stay(
    before: ConfigView,
    option: SharedOption,
    value: OptionValue,
    conversions: Conversions,
)
    ensures
        config_after(before, option, value, conversions) matches Ok(after) ==> {
            &&& after.isolation == before.isolation
            &&& after.commit_stats == before.commit_stats
            &&& after.read_staleness != before.read_staleness ==> option
                == SharedOption::ReadStaleness
            &&& after.directed_read != before.directed_read ==> option == SharedOption::DirectedRead
            &&& after.timestamp_precision != before.timestamp_precision ==> option
                == SharedOption::MaxTimestampPrecision
            &&& after.request != before.request ==> option == SharedOption::RequestPriority
                || option == SharedOption::RequestTag || option == SharedOption::MaxCommitDelay
                || option == SharedOption::CommitStats
            &&& after.request.transaction_tag == before.request.transaction_tag
            &&& after.query_options != before.query_options ==> option
                == SharedOption::OptimizerVersion || option
                == SharedOption::OptimizerStatisticsPackage
            &&& after.timeouts.query != before.timeouts.query ==> option
                == SharedOption::RpcTimeoutQuery
            &&& after.timeouts.update != before.timeouts.update ==> option
                == SharedOption::RpcTimeoutUpdate
            &&& after.timeouts.fetch != before.timeouts.fetch ==> option
                == SharedOption::RpcTimeoutFetch
            &&& after.retry.max_attempts != before.retry.max_attempts ==> option
                == SharedOption::RetryMaxAttempts
            &&& after.retry.max_elapsed_seconds != before.retry.max_elapsed_seconds ==> option
                == SharedOption::RetryMaxElapsedSeconds
            &&& after.retry.backoff_initial_seconds != before.retry.backoff_initial_seconds
                ==> option == SharedOption::RetryBackoffInitialSeconds
            &&& after.retry.backoff_max_seconds != before.retry.backoff_max_seconds ==> option
                == SharedOption::RetryBackoffMaxSeconds
            &&& after.retry.backoff_multiplier != before.retry.backoff_multiplier ==> option
                == SharedOption::RetryBackoffMultiplier
        },
{
}

// ---------------------------------------------------------------------------------------------
// Arguments and buffers
// ---------------------------------------------------------------------------------------------

/// In a text for C every byte stays in its place, but for a NUL, which becomes a question mark.
pub proof fn lemma_text_for_c(bytes: Seq<u8>, i: int)
    requires
        0 <= i < bytes.len(),
    ensures
        sanitized(bytes).len() == bytes.len(),
        bytes[i] != 0 ==> sanitized(bytes)[i] == bytes[i],
        bytes[i] == 0 ==> sanitized(bytes)[i] == '?' as u32,
{
}

/// A string's getter reports one byte more than the string has; it copies the string and a NUL
/// behind it exactly where there is that much room, and refuses a string with a NUL in it, by the
/// place of the first.
pub proof fn lemma_string_getter(bytes: Seq<u8>, rest: Seq<u8>, available: usize, is_null: bool)
    requires
        !bytes.contains(0u8),
        is_null ==> available == 0,
    ensures
        string_written(bytes, is_null, Some(available)) matches Ok(w) && w.required == bytes.len()
            + 1,
        string_written(bytes, is_null, Some(available)) matches Ok(w) && (w.copied is Some
            <==> bytes.len() < available),
        string_written(bytes, is_null, Some(available)) matches Ok(w) && (w.copied matches Some(
            copied,
        ) ==> copied == bytes + seq![0u8]),
        string_written(bytes + seq![0u8] + rest, is_null, Some(available)) matches Err(e) && e.0
            == Status::Internal && e.1 == "option value contains an interior NUL at byte "@
            + crate::text::decimal(bytes.len()),
        string_written(bytes, is_null, None) matches Err(e) && e.0 == Status::InvalidArguments,
        forall|room: usize|
            room > 0 ==> (#[trigger] string_written(bytes, true, Some(room)) matches Err(e) && e.0
                == Status::InvalidArguments),
{
    let s = bytes + seq![0u8] + rest;
    assert(s[bytes.len() as int] == 0u8);
    s.index_of_first_ensures(0u8);
    let i = s.index_of_first(0u8)->Some_0;
    if i < bytes.len() {
        assert(bytes[i] == 0u8);
    }
    assert(bytes.push(0u8) =~= bytes + seq![0u8]);
}

/// A getter of bytes reports how many there are, and copies them exactly where there is a buffer
/// with room for them.
pub proof fn lemma_bytes_getter(bytes: Seq<u8>, available: usize, is_null: bool)
    ensures
        bytes_written(bytes, is_null, Some(available)) is Ok <==> !is_null || available == 0,
        bytes_written(bytes, is_null, Some(available)) matches Ok(w) ==> w.required == bytes.len()
            && (w.copied is Some <==> !is_null && bytes.len() <= available) && (w.copied matches Some(
            copied,
        ) ==> copied == bytes),
        bytes_written(bytes, is_null, None) matches Err(e) && e.0 == Status::InvalidArguments,
{
}

/// A text argument is what its bytes decode to. A missing one is refused where it is required, and
/// no argument where it is optional; bytes that are not UTF-8 are refused either way.
pub proof fn lemma_text_arguments(value: Option<&[u8]>, name: Seq<char>)
    ensures
        required_text(value, name) is Ok <==> (value matches Some(bytes) && valid_utf8(bytes@)),
        required_text(value, name) matches Ok(s) ==> s == decode_utf8(value->Some_0@),
        optional_text(value, name) is Ok <==> (value matches Some(bytes) ==> valid_utf8(bytes@)),
        optional_text(value, name) matches Ok(text) ==> (text is None <==> value is None)
            && (text matches Some(s) ==> s == decode_utf8(value->Some_0@)),
{
}

/// Of a list of text arguments each is read in its place, and the first that is not UTF-8 is the one
/// that is reported.
pub proof fn lemma_argument_lists(list: Seq<Seq<u8>>, name: Seq<char>)
    ensures
        argument_texts(list, name) is Ok <==> forall|i: int|
            0 <= i < list.len() ==> valid_utf8(#[trigger] list[i]),
        argument_texts(list, name) matches Ok(ss) ==> ss.len() == list.len() && forall|i: int|
            0 <= i < list.len() ==> #[trigger] ss[i] == decode_utf8(list[i]),
        argument_texts(list, name) matches Err(m) ==> exists|i: int|
            0 <= i < list.len() && !valid_utf8(#[trigger] list[i]) && (forall|k: int|
                0 <= k < i ==> valid_utf8(#[trigger] list[k])) && argument_text(list[i], name)
                == Err::<Seq<char>, Seq<char>>(m),
    decreases list.len(),
{
    if list.len() > 0 {
        let before = list.drop_last();
        let n = list.len() - 1;
        lemma_argument_lists(before, name);
        assert(forall|i: int| 0 <= i < n ==> before[i] == list[i]);
        assert(list.last() == list[n]);
        if argument_texts(before, name) is Err {
            let m = argument_texts(before, name)->Err_0;
            let i = choose|i: int|
                0 <= i < before.len() && !valid_utf8(#[trigger] before[i]) && (forall|k: int|
                    0 <= k < i ==> valid_utf8(#[trigger] before[k])) && argument_text(
                    before[i],
                    name,
                ) == Err::<Seq<char>, Seq<char>>(m);
            assert(list[i] == before[i]);
            assert forall|k: int| 0 <= k < i implies valid_utf8(#[trigger] list[k]) by {
                assert(before[k] == list[k]);
            }
        } else {
            assert forall|k: int| 0 <= k < n implies valid_utf8(#[trigger] list[k]) by {
                assert(before[k] == list[k]);
            }
        }
    }
}

// ---------------------------------------------------------------------------------------------
// Handles
// ---------------------------------------------------------------------------------------------

/// A handle is populated only from empty, and then serves calls; a panic in a call makes it refuse
/// them and an error does not; what can be cancelled stays so; a release empties it.
pub proof fn lemma_handles(slot: Slot, cancellable: bool, panicked: bool, kind: Seq<char>)
    ensures
        slot is Empty ==> refuses_call(slot_step(slot, SlotStep::New { cancellable }), kind) is None
            && slot_step(slot, SlotStep::New { cancellable })->cancellable == cancellable,
        slot is Live ==> slot_step(slot, SlotStep::New { cancellable }) == slot,
        refuses_call(slot, kind) is None <==> slot is Live && !slot->poisoned,
        refuses_call(slot, kind) matches Some(r) ==> r.0 == (if slot is Empty {
            Status::InvalidState
        } else {
            Status::Internal
        }),
        slot is Live ==> {
            let after = slot_step(slot, SlotStep::Called { panicked });
            &&& after is Live
            &&& after->cancellable == slot->cancellable
            &&& after->poisoned <==> slot->poisoned || panicked
        },
        slot is Live ==> {
            let after = slot_step(slot, SlotStep::InstallCancel);
            &&& after is Live
            &&& after->cancellable
            &&& after->poisoned == slot->poisoned
        },
        slot is Empty ==> slot_step(slot, SlotStep::InstallCancel) is Empty && slot_step(
            slot,
            SlotStep::Called { panicked },
        ) is Empty,
        slot_step(slot, SlotStep::Release) is Empty,
{
}

/// The numbers of the statuses in the ADBC C header.
pub proof fn lemma_status_codes(status: Status)
    ensures
        code_of(status) < 15,
        code_of(status) == 0 <==> status == Status::Success,
        code_of(status) == 1 <==> status == Status::Unknown,
        code_of(status) == 2 <==> status == Status::NotImplemented,
        code_of(status) == 3 <==> status == Status::NotFound,
        code_of(status) == 4 <==> status == Status::AlreadyExists,
        code_of(status) == 5 <==> status == Status::InvalidArguments,
        code_of(status) == 6 <==> status == Status::InvalidState,
        code_of(status) == 7 <==> status == Status::InvalidData,
        code_of(status) == 8 <==> status == Status::Integrity,
        code_of(status) == 9 <==> status == Status::Internal,
        code_of(status) == 10 <==> status == Status::IO,
        code_of(status) == 11 <==> status == Status::Cancelled,
        code_of(status) == 12 <==> status == Status::Timeout,
        code_of(status) == 13 <==> status == Status::Unauthenticated,
        code_of(status) == 14 <==> status == Status::Unauthorized,
{
}

// ---------------------------------------------------------------------------------------------
// Streams
// ---------------------------------------------------------------------------------------------

/// Which statuses share an `errno` value: two for a bad call, two for a refused one, and `EIO` for
/// what has no value of its own. Of a foreign error the same value follows from its status, but for
/// one that is not implemented, out of memory or of no particular kind.
pub proof fn lemma_errno_values(status: Status, kind: ArrowFailure)
    ensures
        errno_of(status) == Errno::Einval <==> status == Status::InvalidArguments || status
            == Status::InvalidState,
        errno_of(status) == Errno::Eacces <==> status == Status::Unauthenticated || status
            == Status::Unauthorized,
        errno_of(status) == Errno::Enotsup <==> status == Status::NotImplemented,
        errno_of(status) == Errno::Enoent <==> status == Status::NotFound,
        errno_of(status) == Errno::Eexist <==> status == Status::AlreadyExists,
        errno_of(status) == Errno::Ecanceled <==> status == Status::Cancelled,
        errno_of(status) == Errno::Etimedout <==> status == Status::Timeout,
        errno_of(status) != Errno::Enosys && errno_of(status) != Errno::Enomem,
        foreign(kind).0 == errno_of(foreign(kind).1) <==> kind == ArrowFailure::Io,
        foreign(kind) == (Errno::Enosys, Status::NotImplemented) <==> kind
            == ArrowFailure::NotYetImplemented,
        foreign(kind) == (Errno::Enomem, Status::Internal) <==> kind == ArrowFailure::Memory,
        foreign(kind) == (Errno::Eio, Status::IO) <==> kind == ArrowFailure::Io,
        foreign(kind) == (Errno::Einval, Status::Unknown) <==> kind == ArrowFailure::Other,
{
}

// ---------------------------------------------------------------------------------------------
// Exported errors
// ---------------------------------------------------------------------------------------------

/// The sentinel of a 1.1.0 struct is the least 32-bit number. A struct that holds it keeps it; any
/// other gets the vendor code, unless that is the sentinel.
pub proof fn lemma_vendor_codes(out: i32, code: i32)
    ensures
        is_v110(out) <==> out == i32::MIN,
        out == i32::MIN ==> exported_vendor_code(out, code) == i32::MIN,
        out != i32::MIN && code != i32::MIN ==> exported_vendor_code(out, code) == code,
        out != i32::MIN ==> exported_vendor_code(out, i32::MIN) == 0,
{
}

/// The details of an error are its own, in their places, with keys fit for C, and behind them one
/// for a vendor code other than zero. They are read only of a struct that holds the sentinel.
pub proof fn lemma_details(error: Error, code: i32, details: Option<Details>, i: int)
    ensures
        exported_details(error).len() == (match error.details {
            Some(own) => own@.len(),
            None => 0,
        }) + (if error.vendor_code == 0 {
            0nat
        } else {
            1
        }),
        error.details matches Some(own) ==> (0 <= i < own@.len() ==> exported_details(error)[i] == (
            sanitized(encode_utf8(own@[i].0@)),
            own@[i].1@,
        )),
        code != i32::MIN ==> readable(code, details).len() == 0,
        code == i32::MIN ==> (details matches Some(ds) ==> readable(code, details).len()
            == ds@.len() && (0 <= i < ds@.len() ==> readable(code, details)[i] == (
            ds@[i].0@,
            ds@[i].1@,
        ))),
{
}

// ---------------------------------------------------------------------------------------------
// Entry points
// ---------------------------------------------------------------------------------------------

/// The numbers of the versions and of the depths in the ADBC C header; no other depth is one.
pub proof fn lemma_numbers_of_the_c_interface(depth: i32)
    ensures
        ADBC_VERSION_1_0_0 == 1_000_000 && ADBC_VERSION_1_1_0 == 1_001_000,
        depth_of(depth) == Ok::<ObjectDepth, Seq<char>>(ObjectDepth::All) <==> depth == 0,
        depth_of(depth) == Ok::<ObjectDepth, Seq<char>>(ObjectDepth::Catalogs) <==> depth == 1,
        depth_of(depth) == Ok::<ObjectDepth, Seq<char>>(ObjectDepth::Schemas) <==> depth == 2,
        depth_of(depth) == Ok::<ObjectDepth, Seq<char>>(ObjectDepth::Tables) <==> depth == 3,
        depth_of(depth) is Err <==> depth < 0 || depth > 3,
{
}

/// A request for objects takes each filter from its own argument, and is refused exactly where the
/// output is missing, the depth is none or a filter cannot be read. Of several refusals the one of
/// the earliest argument counts.
pub proof fn lemma_objects_arguments(
    out_is_null: bool,
    depth: i32,
    catalog: Option<&[u8]>,
    db_schema: Option<&[u8]>,
    table_name: Option<&[u8]>,
    table_type: Option<&Vec<Vec<u8>>>,
    column_name: Option<&[u8]>,
)
    ensures
        ({
            let r = objects_arguments(
                out_is_null,
                depth,
                catalog,
                db_schema,
                table_name,
                table_type,
                column_name,
            );
            let a = depth_of(depth);
            let b = optional_text(catalog, "catalog"@);
            let c = optional_text(db_schema, "db_schema"@);
            let d = optional_text(table_name, "table_name"@);
            let e = optional_texts(table_type, "table_type"@);
            let f = optional_text(column_name, "column_name"@);
            &&& r is Ok <==> !out_is_null && 0 <= depth <= 3 && b is Ok && c is Ok && d is Ok
                && e is Ok && f is Ok
            &&& r matches Ok(request) ==> {
                &&& a == Ok::<ObjectDepth, Seq<char>>(request.depth)
                &&& b->Ok_0 == request.catalog
                &&& c->Ok_0 == request.db_schema
                &&& d->Ok_0 == request.table_name
                &&& e->Ok_0 == request.table_type
                &&& f->Ok_0 == request.column_name
            }
            &&& out_is_null ==> r->Err_0 == "out"@ + " must not be null"@
            &&& !out_is_null && a is Err ==> r->Err_0 == a->Err_0
            &&& !out_is_null && a is Ok && b is Err ==> r->Err_0 == b->Err_0
            &&& !out_is_null && a is Ok && b is Ok && c is Err ==> r->Err_0 == c->Err_0
            &&& !out_is_null && a is Ok && b is Ok && c is Ok && d is Err ==> r->Err_0 == d->Err_0
        }),
{
}

/// A table lookup and a request for statistics take each argument from its own place. The name of a
/// table is required of the one and a filter of the other; an approximation is asked for by any
/// number but zero.
pub proof fn lemma_lookup_arguments(
    is_null: bool,
    catalog: Option<&[u8]>,
    db_schema: Option<&[u8]>,
    table_name: Option<&[u8]>,
    approximate: u8,
)
    ensures
        ({
            let b = optional_text(catalog, "catalog"@);
            let c = optional_text(db_schema, "db_schema"@);
            let d = required_text(table_name, "table_name"@);
            let e = optional_text(table_name, "table_name"@);
            let t = table_arguments(is_null, catalog, db_schema, table_name);
            let s = statistics_arguments(is_null, catalog, db_schema, table_name, approximate);
            &&& t is Ok <==> !is_null && b is Ok && c is Ok && d is Ok
            &&& t matches Ok(lookup) ==> b->Ok_0 == lookup.catalog && c->Ok_0 == lookup.db_schema
                && d->Ok_0 == lookup.table_name
            &&& is_null ==> t->Err_0 == "schema"@ + " must not be null"@
            &&& s is Ok <==> !is_null && b is Ok && c is Ok && e is Ok
            &&& s matches Ok(request) ==> b->Ok_0 == request.catalog && c->Ok_0
                == request.db_schema && e->Ok_0 == request.table_name && (request.approximate
                <==> approximate > 0)
            &&& is_null ==> s->Err_0 == "out"@ + " must not be null"@
            &&& !is_null && b is Err ==> t->Err_0 == b->Err_0 && s->Err_0 == b->Err_0
            &&& !is_null && b is Ok && c is Err ==> t->Err_0 == c->Err_0 && s->Err_0 == c->Err_0
        }),
{
}

// ---------------------------------------------------------------------------------------------
// Driver metadata
// ---------------------------------------------------------------------------------------------

/// The numbers of the info codes in the ADBC C header, and that a code with a name of its own is
/// what its number stands for.
pub proof fn lemma_info_numbers(code: InfoCode, number: u32)
    requires
        stands_for(code, number),
    ensures
        number == 0 <==> code == InfoCode::VendorName,
        number == 1 <==> code == InfoCode::VendorVersion,
        number == 2 <==> code == InfoCode::VendorArrowVersion,
        number == 3 <==> code == InfoCode::VendorSql,
        number == 4 <==> code == InfoCode::VendorSubstrait,
        number == 5 <==> code == InfoCode::VendorSubstraitMinVersion,
        number == 6 <==> code == InfoCode::VendorSubstraitMaxVersion,
        number == 100 <==> code == InfoCode::DriverName,
        number == 101 <==> code == InfoCode::DriverVersion,
        number == 102 <==> code == InfoCode::DriverArrowVersion,
        number == 103 <==> code == InfoCode::DriverAdbcVersion,
        code is Other <==> !(number <= 6 || 100 <= number <= 103),
{
}

/// Which kind of value each code has, and that exactly the codes with a value are reported when none
/// are asked for.
pub proof fn lemma_info_values(code: InfoCode)
    ensures
        info_cell(code) is Text <==> code == InfoCode::VendorName || code == InfoCode::DriverName
            || code == InfoCode::DriverVersion || code == InfoCode::DriverArrowVersion,
        info_cell(code) == Cell::Bool(true) <==> code == InfoCode::VendorSql,
        info_cell(code) == Cell::Bool(false) <==> code == InfoCode::VendorSubstrait,
        info_cell(code) == Cell::Int(1_001_000) <==> code == InfoCode::DriverAdbcVersion,
        info_cell(code) is Null <==> !answered(None).contains(code),
{
    let all = reported();
    assert(all[0] == InfoCode::VendorName);
    assert(all[1] == InfoCode::VendorSql);
    assert(all[2] == InfoCode::VendorSubstrait);
    assert(all[3] == InfoCode::DriverName);
    assert(all[4] == InfoCode::DriverVersion);
    assert(all[5] == InfoCode::DriverArrowVersion);
    assert(all[6] == InfoCode::DriverAdbcVersion);
    assert(forall|i: int| 0 <= i < all.len() ==> !(info_cell(#[trigger] all[i]) is Null));
}

// ---------------------------------------------------------------------------------------------
// Cancellation and prefetching
// ---------------------------------------------------------------------------------------------

/// An operation that begins gets a place of its own: one that nobody holds, the first such, or a new
/// one behind all. Its signal is not latched, and every other keeps its state.
pub proof fn lemma_begin(slot: SlotView, i: int)
    requires
        slot.is_well_formed(),
    ensures
        ({
            let after = begun(slot);
            &&& after.holds(after.current) && !after.signals[after.current].latched
            &&& !slot.holds(after.current)
            &&& after.signals.len() == (if after.current == slot.signals.len() {
                slot.signals.len() + 1
            } else {
                slot.signals.len()
            })
            &&& 0 <= i < slot.signals.len() && i != after.current ==> after.signals[i]
                == slot.signals[i]
            &&& 0 <= i < after.current ==> slot.signals[i].held
        }),
{
    lemma_first_free(slot.signals, 0);
}

proof fn lemma_first_free(signals: Seq<Signal>, from: int)
    requires
        0 <= from <= signals.len(),
    ensures
        from <= free_place(signals, from) <= signals.len(),
        forall|i: int| from <= i < free_place(signals, from) ==> (#[trigger] signals[i]).held,
        free_place(signals, from) < signals.len() ==> !signals[free_place(signals, from)].held,
    decreases signals.len() - from,
{
    if from < signals.len() && signals[from].held {
        lemma_first_free(signals, from + 1);
    }
}

/// A cancel latches the current operation's signal and touches no other; a release frees one place
/// and touches no other.
pub proof fn lemma_cancel_and_release(slot: SlotView, operation: int, i: int)
    requires
        slot.is_well_formed(),
        slot.holds(operation),
        operation != slot.current,
        0 <= i < slot.signals.len(),
    ensures
        signalled(slot).signals[slot.current].latched,
        signalled(slot).current == slot.current,
        signalled(slot).signals.len() == slot.signals.len(),
        i != slot.current ==> signalled(slot).signals[i] == slot.signals[i],
        !released(slot, operation).holds(operation),
        released(slot, operation).current == slot.current,
        released(slot, operation).signals.len() == slot.signals.len(),
        i != operation ==> released(slot, operation).signals[i] == slot.signals[i],
{
}

/// Every chunk that is pulled is sent on, unless it is empty, which ends the task; a chunk that was
/// taken is followed by the next fetch; a failure of the source is passed on and ends the task; a
/// cancellation is surfaced only while nothing waits to be sent, and ends the task.
pub proof fn lemma_prefetching<R>(
    state: PrefetchState,
    event: PrefetchEvent<R>,
    action: PrefetchAction<R>,
)
    requires
        expects(state, event),
        follows(state, event, action),
    ensures
        action is Send ==> (event matches PrefetchEvent::Pulled(rows) && action
            == PrefetchAction::<R>::Send(rows) && rows@.len() > 0) && prefetch_after(state, event)
            == PrefetchState::Sending,
        action is Fetch <==> event is Sent,
        action is Fetch ==> prefetch_after(state, event) == PrefetchState::Fetching,
        action is SendError ==> event == PrefetchEvent::<R>::PullFailed(action->SendError_0),
        event is PullFailed ==> action is SendError,
        action is TrySendError <==> event is Cancelled && state == PrefetchState::Fetching,
        action matches PrefetchAction::TrySendError(e) ==> e.status == Status::Cancelled,
        !(action is Send || action is Fetch) ==> prefetch_after(state, event)
            == PrefetchState::Ended,
        event matches PrefetchEvent::Pulled(rows) ==> (action is Stop <==> rows@.len() == 0),
        event is ReceiverDropped ==> action is Stop,
{
}

// ---------------------------------------------------------------------------------------------
// What a stream leaves behind
// ---------------------------------------------------------------------------------------------

/// What an Arrow error leaves behind: its own words, fit for C, and the driver error in its chain,
/// which also decides the `errno` value; without one the words stand for the error, under the status
/// of its kind. A callback runs unless there is no stream or an earlier one panicked.
pub proof fn lemma_stream_reports(
    last: LastError,
    report: ArrowReport,
    stream: Option<&StreamState>,
)
    requires
        reports(Some(last), report),
    ensures
        last.message@ == sanitized(encode_utf8(report.text@)),
        report.embedded matches Some(e) ==> last.error == e && report_errno(report) == errno_of(
            last.error.status,
        ),
        report.embedded is None ==> last.error.message@ == report.text@ && last.error.vendor_code
            == 0 && last.error.details is None && (last.error.status, report_errno(report)) == (
        match report.kind {
            ArrowFailure::NotYetImplemented => (Status::NotImplemented, Errno::Enosys),
            ArrowFailure::Memory => (Status::Internal, Errno::Enomem),
            ArrowFailure::Io => (Status::IO, Errno::Eio),
            ArrowFailure::Other => (Status::Unknown, Errno::Einval),
        }),
        is_refused(stream) <==> (stream matches Some(state) ==> state.panicked),
        !reports(None, report),
{
}

} // verus!
