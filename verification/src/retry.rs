//! Retry and backoff tuning.
//!
//! The settings bound the client's own retrying; unset, they change nothing. They are kept as they
//! were set, so that they can be read back, and turned into limits when a request is built.

use vstd::arithmetic::power2::{
    lemma2_to64, lemma2_to64_rest, lemma_pow2_pos, lemma_pow2_strictly_increases,
    lemma_pow2_unfold, pow2,
};
use vstd::prelude::*;

use crate::error::{invalid_argument, Error};
use crate::keys::{
    OPTION_RETRY_BACKOFF_INITIAL_SECONDS, OPTION_RETRY_BACKOFF_MAX_SECONDS,
    OPTION_RETRY_BACKOFF_MULTIPLIER, OPTION_RETRY_MAX_ATTEMPTS, OPTION_RETRY_MAX_ELAPSED_SECONDS,
};
use crate::number::{int_value, parse_i64};
use crate::options::{
    coerces, double_option, f64_option, Double, F64Range, OptionValue, FRACTION_RANGE,
};
use crate::request::sets;
use crate::text::{push_decimal, decimal, to_chars, trim, trimmed};

verus! {

// ---------------------------------------------------------------------------------------------
// Whole doubles
// ---------------------------------------------------------------------------------------------

/// The significand of a finite double, as a whole number.
pub open spec fn significand(d: Double) -> nat {
    if d.exponent() == 0 {
        d.fraction()
    } else {
        FRACTION_RANGE as nat + d.fraction()
    }
}

/// The exponent of the power of two that the significand is scaled by, plus 1075.
pub open spec fn scale(d: Double) -> nat {
    if d.exponent() == 0 {
        1
    } else {
        d.exponent()
    }
}

/// `magnitude` under the sign of `d`.
pub open spec fn signed(d: Double, magnitude: nat) -> int {
    if d.is_negative_bits() {
        -(magnitude as int)
    } else {
        magnitude as int
    }
}

/// The whole number that a double is, if it is finite and has no fractional part.
pub open spec fn whole_value(d: Double) -> Option<int> {
    if !d.is_finite() {
        None
    } else if scale(d) >= 1075 {
        Some(signed(d, significand(d) * pow2((scale(d) - 1075) as nat)))
    } else if significand(d) % pow2((1075 - scale(d)) as nat) == 0 {
        Some(signed(d, significand(d) / pow2((1075 - scale(d)) as nat)))
    } else {
        None
    }
}

/// The integer within `1..=u32::MAX` that a double is, if it is one.
fn attempts_from_double(d: Double) -> (r: Option<u32>)
    ensures
        match whole_value(d) {
            Some(n) if 1 <= n <= u32::MAX => r is Some && r->Some_0 == n,
            _ => r is None,
        },
{
    let magnitude: u64 = d.magnitude_bits();
    let exponent: u64 = d.exponent_bits();
    let fraction: u64 = d.fraction_bits();
    if exponent == 2047 {
        return None;
    }
    if d.bits != magnitude {
        proof {
            assert(d.is_negative_bits());
            lemma_not_positive(d);
        }
        return None;
    }
    assert(!d.is_negative_bits());
    if exponent >= 1075 {
        proof {
            lemma_pow2_pos((exponent - 1075) as nat);
            let p = pow2((exponent - 1075) as nat);
            let s = significand(d);
            assert(s * p >= s) by (nonlinear_arith)
                requires
                    p > 0,
                    s >= 0,
            ;
        }
        return None;
    }
    if exponent < 1023 {
        proof {
            lemma_below_one(d);
        }
        return None;
    }
    let shift: u64 = 1075 - exponent;
    let mut p: u64 = 1;
    let mut i: u64 = 0;
    proof {
        lemma2_to64();
        lemma2_to64_rest();
    }
    while i < shift
        invariant
            i <= shift <= 52,
            p == pow2(i as nat),
            1 <= p <= 0x10_0000_0000_0000,
            pow2(52) == 0x10_0000_0000_0000,
        decreases shift - i,
    {
        proof {
            lemma_pow2_unfold((i + 1) as nat);
            if i + 1 < 52 {
                lemma_pow2_strictly_increases((i + 1) as nat, 52);
            }
        }
        p = p * 2;
        i = i + 1;
    }
    let s: u64 = FRACTION_RANGE + fraction;
    assert(s == significand(d));
    if s % p != 0 {
        return None;
    }
    let n: u64 = s / p;
    if 1 <= n && n <= u32::MAX as u64 {
        Some(n as u32)
    } else {
        None
    }
}

proof fn lemma_not_positive(d: Double)
    requires
        d.is_negative_bits(),
    ensures
        match whole_value(d) {
            Some(n) => n <= 0,
            None => true,
        },
{
    if d.is_finite() {
        if scale(d) >= 1075 {
            let p = pow2((scale(d) - 1075) as nat);
            let s = significand(d);
            lemma_pow2_pos((scale(d) - 1075) as nat);
            assert(s * p >= 0) by (nonlinear_arith)
                requires
                    p > 0,
                    s >= 0,
            ;
        } else {
            let p = pow2((1075 - scale(d)) as nat);
            let s = significand(d);
            lemma_pow2_pos((1075 - scale(d)) as nat);
            assert(s / p >= 0) by (nonlinear_arith)
                requires
                    p > 0,
                    s >= 0,
            ;
        }
    }
}

proof fn lemma_below_one(d: Double)
    requires
        !d.is_negative_bits(),
        d.exponent() < 1023,
    ensures
        match whole_value(d) {
            Some(n) => n == 0,
            None => true,
        },
{
    let k = (1075 - scale(d)) as nat;
    lemma2_to64();
    lemma2_to64_rest();
    if k > 53 {
        lemma_pow2_strictly_increases(53, k);
    }
    let p = pow2(k);
    let s = significand(d);
    assert(s < p);
    assert(s / p == 0) by (nonlinear_arith)
        requires
            0 <= s < p,
    ;
}

// ---------------------------------------------------------------------------------------------
// The number of attempts
// ---------------------------------------------------------------------------------------------

pub open spec fn bad_attempts_message() -> Seq<char> {
    "option "@ + OPTION_RETRY_MAX_ATTEMPTS@
        + " must be a positive integer number of attempts (>= 1)"@
}

/// The integer that a value writes: an integer, a whole double or a numeric string.
pub open spec fn attempts_value(value: OptionValue) -> Option<int> {
    match value {
        OptionValue::Text(s) => int_value(trimmed(s@)),
        OptionValue::Int(i) => Some(i as int),
        OptionValue::Double(d) => whole_value(d),
        OptionValue::Bytes(_) => None,
    }
}

/// The number of attempts that a value sets; none for the empty string.
pub open spec fn attempts(value: OptionValue) -> Result<Option<u32>, Seq<char>> {
    if value is Text && trimmed(value->Text_0@).len() == 0 {
        Ok(None)
    } else {
        match attempts_value(value) {
            Some(n) if 1 <= n <= u32::MAX => Ok(Some(n as u32)),
            _ => Err(bad_attempts_message()),
        }
    }
}

/// Reads a number of attempts: a positive integer of at most 32 bits, as an integer, a whole double
/// or a numeric string. The empty string unsets.
pub fn parse_max_attempts(value: OptionValue) -> (r: Result<Option<u32>, Error>)
    ensures
        coerces(r, attempts(value)),
{
    let read: Option<u32> = match value {
        OptionValue::Text(s) => {
            let text = trim(s.as_str());
            if text.as_str().is_empty() {
                return Ok(None);
            }
            match parse_i64(to_chars(text.as_str()).as_slice()) {
                Some(n) => narrowed(n),
                None => None,
            }
        },
        OptionValue::Int(i) => narrowed(i),
        OptionValue::Double(d) => attempts_from_double(d),
        OptionValue::Bytes(_) => None,
    };
    match read {
        Some(n) => Ok(Some(n)),
        None => {
            let mut message = "option ".to_owned();
            message.append(OPTION_RETRY_MAX_ATTEMPTS);
            message.append(" must be a positive integer number of attempts (>= 1)");
            Err(invalid_argument(message))
        },
    }
}

fn narrowed(n: i64) -> (r: Option<u32>)
    ensures
        r == if 1 <= n <= u32::MAX {
            Some(n as u32)
        } else {
            None
        },
{
    if 1 <= n && n <= u32::MAX as i64 {
        Some(n as u32)
    } else {
        None
    }
}

// ---------------------------------------------------------------------------------------------
// The settings
// ---------------------------------------------------------------------------------------------

/// The retry settings of a connection or a statement.
#[derive(Debug, Clone, Copy, PartialEq, Eq, Structural)]
pub struct RetryConfig {
    /// `spanner.retry.max_attempts`.
    pub max_attempts: Option<u32>,
    /// `spanner.retry.max_elapsed_seconds`.
    pub max_elapsed_seconds: Option<Double>,
    /// `spanner.retry.backoff.initial_seconds`.
    pub backoff_initial_seconds: Option<Double>,
    /// `spanner.retry.backoff.max_seconds`.
    pub backoff_max_seconds: Option<Double>,
    /// `spanner.retry.backoff.multiplier`.
    pub backoff_multiplier: Option<Double>,
}

/// The settings with nothing set.
pub open spec fn no_retry_settings() -> RetryConfig {
    RetryConfig {
        max_attempts: None,
        max_elapsed_seconds: None,
        backoff_initial_seconds: None,
        backoff_max_seconds: None,
        backoff_multiplier: None,
    }
}

pub open spec fn with_max_attempts(before: RetryConfig, value: OptionValue) -> Result<
    RetryConfig,
    Seq<char>,
> {
    match attempts(value) {
        Ok(n) => Ok(RetryConfig { max_attempts: n, ..before }),
        Err(m) => Err(m),
    }
}

pub open spec fn with_max_elapsed_seconds(
    before: RetryConfig,
    value: OptionValue,
    number: Option<Double>,
) -> Result<RetryConfig, Seq<char>> {
    match double_option(
        value,
        number,
        OPTION_RETRY_MAX_ELAPSED_SECONDS@,
        F64Range::PositiveSeconds,
    ) {
        Ok(d) => Ok(RetryConfig { max_elapsed_seconds: d, ..before }),
        Err(m) => Err(m),
    }
}

pub open spec fn with_backoff_initial_seconds(
    before: RetryConfig,
    value: OptionValue,
    number: Option<Double>,
) -> Result<RetryConfig, Seq<char>> {
    match double_option(
        value,
        number,
        OPTION_RETRY_BACKOFF_INITIAL_SECONDS@,
        F64Range::PositiveSeconds,
    ) {
        Ok(d) => Ok(RetryConfig { backoff_initial_seconds: d, ..before }),
        Err(m) => Err(m),
    }
}

pub open spec fn with_backoff_max_seconds(
    before: RetryConfig,
    value: OptionValue,
    number: Option<Double>,
) -> Result<RetryConfig, Seq<char>> {
    match double_option(
        value,
        number,
        OPTION_RETRY_BACKOFF_MAX_SECONDS@,
        F64Range::PositiveSeconds,
    ) {
        Ok(d) => Ok(RetryConfig { backoff_max_seconds: d, ..before }),
        Err(m) => Err(m),
    }
}

pub open spec fn with_backoff_multiplier(
    before: RetryConfig,
    value: OptionValue,
    number: Option<Double>,
) -> Result<RetryConfig, Seq<char>> {
    match double_option(
        value,
        number,
        OPTION_RETRY_BACKOFF_MULTIPLIER@,
        F64Range::PositiveFactor,
    ) {
        Ok(d) => Ok(RetryConfig { backoff_multiplier: d, ..before }),
        Err(m) => Err(m),
    }
}

/// The limits set on the client's retry policy. The loop stops at whichever comes first.
#[derive(Debug, Clone, Copy, PartialEq, Eq, Structural)]
pub struct RetryLimits {
    pub attempts: Option<u32>,
    pub elapsed_seconds: Option<Double>,
}

/// The knobs set on the client's backoff. A knob that is not set keeps the client's default.
#[derive(Debug, Clone, Copy, PartialEq, Eq, Structural)]
pub struct BackoffKnobs {
    pub initial_seconds: Option<Double>,
    pub max_seconds: Option<Double>,
    pub multiplier: Option<Double>,
}

/// The limits that a request is given; none leaves the client's policy in place.
pub open spec fn limits_of(c: RetryConfig) -> Option<RetryLimits> {
    if c.max_attempts is None && c.max_elapsed_seconds is None {
        None
    } else {
        Some(
            RetryLimits { attempts: c.max_attempts, elapsed_seconds: c.max_elapsed_seconds },
        )
    }
}

/// The knobs that a request is given; none leaves the client's backoff in place.
pub open spec fn knobs_of(c: RetryConfig) -> Option<BackoffKnobs> {
    if c.backoff_initial_seconds is None && c.backoff_max_seconds is None && c.backoff_multiplier
        is None {
        None
    } else {
        Some(
            BackoffKnobs {
                initial_seconds: c.backoff_initial_seconds,
                max_seconds: c.backoff_max_seconds,
                multiplier: c.backoff_multiplier,
            },
        )
    }
}

impl RetryConfig {
    /// Nothing set.
    pub fn new() -> (r: RetryConfig)
        ensures
            r == no_retry_settings(),
    {
        RetryConfig {
            max_attempts: None,
            max_elapsed_seconds: None,
            backoff_initial_seconds: None,
            backoff_max_seconds: None,
            backoff_multiplier: None,
        }
    }

    /// Sets the number of attempts.
    pub fn set_max_attempts(&mut self, value: OptionValue) -> (r: Result<(), Error>)
        ensures
            sets(r, *old(self), *final(self), with_max_attempts(*old(self), value)),
    {
        match parse_max_attempts(value) {
            Ok(n) => {
                self.max_attempts = n;
                Ok(())
            },
            Err(e) => Err(e),
        }
    }

    /// Sets the time retrying may take.
    pub fn set_max_elapsed_seconds(&mut self, value: OptionValue, number: Option<Double>) -> (r:
        Result<(), Error>)
        ensures
            sets(r, *old(self), *final(self), with_max_elapsed_seconds(*old(self), value, number)),
    {
        match f64_option(
            value,
            number,
            OPTION_RETRY_MAX_ELAPSED_SECONDS,
            F64Range::PositiveSeconds,
        ) {
            Ok(d) => {
                self.max_elapsed_seconds = d;
                Ok(())
            },
            Err(e) => Err(e),
        }
    }

    /// Sets the first delay.
    pub fn set_backoff_initial_seconds(&mut self, value: OptionValue, number: Option<Double>) -> (r:
        Result<(), Error>)
        ensures
            sets(
                r,
                *old(self),
                *final(self),
                with_backoff_initial_seconds(*old(self), value, number),
            ),
    {
        match f64_option(
            value,
            number,
            OPTION_RETRY_BACKOFF_INITIAL_SECONDS,
            F64Range::PositiveSeconds,
        ) {
            Ok(d) => {
                self.backoff_initial_seconds = d;
                Ok(())
            },
            Err(e) => Err(e),
        }
    }

    /// Sets the longest delay.
    pub fn set_backoff_max_seconds(&mut self, value: OptionValue, number: Option<Double>) -> (r:
        Result<(), Error>)
        ensures
            sets(r, *old(self), *final(self), with_backoff_max_seconds(*old(self), value, number)),
    {
        match f64_option(
            value,
            number,
            OPTION_RETRY_BACKOFF_MAX_SECONDS,
            F64Range::PositiveSeconds,
        ) {
            Ok(d) => {
                self.backoff_max_seconds = d;
                Ok(())
            },
            Err(e) => Err(e),
        }
    }

    /// Sets what the delay grows by.
    pub fn set_backoff_multiplier(&mut self, value: OptionValue, number: Option<Double>) -> (r:
        Result<(), Error>)
        ensures
            sets(r, *old(self), *final(self), with_backoff_multiplier(*old(self), value, number)),
    {
        match f64_option(
            value,
            number,
            OPTION_RETRY_BACKOFF_MULTIPLIER,
            F64Range::PositiveFactor,
        ) {
            Ok(d) => {
                self.backoff_multiplier = d;
                Ok(())
            },
            Err(e) => Err(e),
        }
    }

    /// The number of attempts that is set, in decimal.
    pub fn max_attempts_string(&self) -> (r: Option<String>)
        ensures
            match self.max_attempts {
                Some(n) => r is Some && r->Some_0@ == decimal(n as nat),
                None => r is None,
            },
    {
        match self.max_attempts {
            Some(n) => {
                let mut out = String::new();
                push_decimal(&mut out, n as u128);
                assert(out@ =~= decimal(n as nat));
                Some(out)
            },
            None => None,
        }
    }

    /// The limits on the client's retry policy; none leaves it in place.
    pub fn retry_policy_arg(&self) -> (r: Option<RetryLimits>)
        ensures
            r == limits_of(*self),
    {
        if self.max_attempts.is_none() && self.max_elapsed_seconds.is_none() {
            None
        } else {
            Some(
                RetryLimits {
                    attempts: self.max_attempts,
                    elapsed_seconds: self.max_elapsed_seconds,
                },
            )
        }
    }

    /// The knobs of the client's backoff; none leaves it in place.
    pub fn backoff_policy_arg(&self) -> (r: Option<BackoffKnobs>)
        ensures
            r == knobs_of(*self),
    {
        if self.backoff_initial_seconds.is_none() && self.backoff_max_seconds.is_none()
            && self.backoff_multiplier.is_none() {
            None
        } else {
            Some(
                BackoffKnobs {
                    initial_seconds: self.backoff_initial_seconds,
                    max_seconds: self.backoff_max_seconds,
                    multiplier: self.backoff_multiplier,
                },
            )
        }
    }
}

/// The retry limits and the backoff are independent: settings of the one kind leave what the other
/// kind gives a request as it was.
pub proof fn lemma_retry_and_backoff_are_independent(
    before: RetryConfig,
    value: OptionValue,
    number: Option<Double>,
)
    ensures
        match with_max_attempts(before, value) {
            Ok(after) => knobs_of(after) == knobs_of(before),
            Err(_) => true,
        },
        match with_max_elapsed_seconds(before, value, number) {
            Ok(after) => knobs_of(after) == knobs_of(before),
            Err(_) => true,
        },
        match with_backoff_initial_seconds(before, value, number) {
            Ok(after) => limits_of(after) == limits_of(before),
            Err(_) => true,
        },
        match with_backoff_max_seconds(before, value, number) {
            Ok(after) => limits_of(after) == limits_of(before),
            Err(_) => true,
        },
        match with_backoff_multiplier(before, value, number) {
            Ok(after) => limits_of(after) == limits_of(before),
            Err(_) => true,
        },
{
}

} // verus!
