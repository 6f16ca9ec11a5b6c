//! Reading decimal integers.

use vstd::prelude::*;

use crate::text::{all_digits, decimal_value, digit, is_digit, value_of_digit};

verus! {

pub open spec fn fits_i64(i: int) -> bool {
    i64::MIN <= i <= i64::MAX
}

/// `s` without a leading `+` or `-`.
pub open spec fn unsigned_part(s: Seq<char>) -> Seq<char> {
    if s.len() > 0 && (s[0] == '-' || s[0] == '+') {
        s.skip(1)
    } else {
        s
    }
}

/// The `i64` that `s` writes in decimal: digits, with at most one sign before them.
pub open spec fn int_value(s: Seq<char>) -> Option<int> {
    let digits = unsigned_part(s);
    let value: int = if s.len() > 0 && s[0] == '-' {
        -(decimal_value(digits) as int)
    } else {
        decimal_value(digits) as int
    };
    if digits.len() > 0 && all_digits(digits) && fits_i64(value) {
        Some(value)
    } else {
        None
    }
}

/// An optional exec integer stands for an optional mathematical one.
pub open spec fn as_int(r: Option<i64>) -> Option<int> {
    match r {
        Some(i) => Some(i as int),
        None => None,
    }
}

pub proof fn lemma_decimal_value_monotone(s: Seq<char>, n: int)
    requires
        0 <= n <= s.len(),
    ensures
        decimal_value(s.take(n)) <= decimal_value(s),
    decreases s.len() - n,
{
    if n == s.len() {
        assert(s.take(n) =~= s);
    } else {
        lemma_decimal_value_monotone(s.drop_last(), n);
        assert(s.drop_last().take(n) =~= s.take(n));
    }
}

/// Reads a decimal `i64`.
pub fn parse_i64(s: &[char]) -> (r: Option<i64>)
    ensures
        as_int(r) == int_value(s@),
{
    let negative = s.len() > 0 && s[0] == '-';
    let start: usize = if s.len() > 0 && (s[0] == '-' || s[0] == '+') {
        1
    } else {
        0
    };
    let ghost digits = unsigned_part(s@);
    assert(digits =~= s@.subrange(start as int, s@.len() as int));
    if start == s.len() {
        return None;
    }
    let mut total: i128 = 0;
    let mut i: usize = start;
    while i < s.len()
        invariant
            start <= i <= s@.len(),
            0 < s@.len(),
            start < s@.len(),
            digits == s@.subrange(start as int, s@.len() as int),
            digits == unsigned_part(s@),
            negative == (s@[0] == '-'),
            all_digits(digits.take(i - start)),
            total == decimal_value(digits.take(i - start)),
            0 <= total <= 0x8000_0000_0000_0000,
        decreases s@.len() - i,
    {
        let ghost n = i - start;
        assert(digits[n] == s@[i as int]);
        if !digit(s[i]) {
            return None;
        }
        proof {
            assert(digits.take(n + 1).drop_last() =~= digits.take(n));
            assert forall|k: int| 0 <= k < n + 1 implies is_digit(
                #[trigger] digits.take(n + 1)[k],
            ) by {
                if k < n {
                    assert(digits.take(n)[k] == digits.take(n + 1)[k]);
                }
            }
        }
        total = total * 10 + value_of_digit(s[i]) as i128;
        if total > 0x8000_0000_0000_0000 {
            proof {
                lemma_decimal_value_monotone(digits, n + 1);
            }
            return None;
        }
        i = i + 1;
    }
    assert(digits.take(digits.len() as int) =~= digits);
    if negative {
        Some((-total) as i64)
    } else if total == 0x8000_0000_0000_0000 {
        None
    } else {
        Some(total as i64)
    }
}

} // verus!
