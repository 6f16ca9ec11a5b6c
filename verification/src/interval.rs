//! Conversion between Arrow's `Interval(MonthDayNano)` and the ISO 8601 duration text that Spanner
//! uses for `INTERVAL` values.
//!
//! Both sides keep months, days and sub-day nanoseconds apart and normalize nothing across them, so
//! what is written is read back exactly; see [`lemma_interval_round_trip`].

use vstd::arithmetic::power::{lemma_pow0, lemma_pow1, lemma_pow_adds, pow};
use vstd::prelude::*;
use vstd::slice::slice_subrange;
use vstd::string::*;

use crate::number::{as_int, fits_i64, int_value, parse_i64, unsigned_part};
use crate::text::{
    all_digits, alphabetic, decimal, decimal_value, digit, digit_char, digit_value, is_alphabetic,
    is_digit, lemma_decimal, push_decimal, push_signed, signed_decimal, to_chars, value_of_digit,
};

verus! {

// ---------------------------------------------------------------------------------------------
// Formatting
// ---------------------------------------------------------------------------------------------

/// The last `width` decimal digits of `n`.
pub open spec fn fixed_digits(n: nat, width: nat) -> Seq<char>
    decreases width,
{
    if width == 0 {
        Seq::empty()
    } else {
        fixed_digits(n / 10, (width - 1) as nat).push(digit_char(n % 10))
    }
}

/// `s` without its trailing zeros.
pub open spec fn trim_zeros(s: Seq<char>) -> Seq<char>
    decreases s.len(),
{
    if s.len() > 0 && s.last() == '0' {
        trim_zeros(s.drop_last())
    } else {
        s
    }
}

/// A nanosecond count as a decimal number of seconds, with up to nine fractional digits and no
/// trailing zeros. The sign belongs to the whole number.
pub open spec fn seconds_text(nanos: int) -> Seq<char> {
    let magnitude = if nanos < 0 {
        (-nanos) as nat
    } else {
        nanos as nat
    };
    let sign = if nanos < 0 {
        seq!['-']
    } else {
        Seq::empty()
    };
    let secs = decimal(magnitude / 1_000_000_000);
    let frac = magnitude % 1_000_000_000;
    if frac == 0 {
        sign + secs
    } else {
        sign + secs + seq!['.'] + trim_zeros(fixed_digits(frac, 9))
    }
}

/// The duration text of an interval: `P<months>M<days>DT<seconds>S`.
pub open spec fn interval_text(months: int, days: int, nanos: int) -> Seq<char> {
    seq!['P'] + signed_decimal(months) + seq!['M'] + signed_decimal(days) + seq!['D', 'T']
        + seconds_text(nanos) + seq!['S']
}

proof fn lemma_trim_zeros_drops(s: Seq<char>, n: int)
    requires
        0 <= n <= s.len(),
        forall|k: int| n <= k < s.len() ==> s[k] == '0',
    ensures
        trim_zeros(s) == trim_zeros(s.take(n)),
    decreases s.len() - n,
{
    if n == s.len() {
        assert(s.take(n) =~= s);
    } else {
        assert(s.drop_last().take(n) =~= s.take(n));
        lemma_trim_zeros_drops(s.drop_last(), n);
    }
}

/// The digits of `fixed_digits`, most significant first.
fn digits_of(n: u64, width: usize) -> (r: Vec<char>)
    ensures
        r@ == fixed_digits(n as nat, width as nat),
    decreases width,
{
    if width == 0 {
        Vec::new()
    } else {
        let mut r = digits_of(n / 10, width - 1);
        r.push((48 + (n % 10) as u8) as char);
        r
    }
}

/// Appends the number of seconds that `nanos` is.
fn push_seconds(out: &mut String, nanos: i64)
    ensures
        final(out)@ == old(out)@ + seconds_text(nanos as int),
{
    let magnitude: u64 = if nanos < 0 {
        (-(nanos as i128)) as u64
    } else {
        nanos as u64
    };
    if nanos < 0 {
        out.push('-');
    }
    let ghost signed = out@;
    push_decimal(out, (magnitude / 1_000_000_000) as u128);
    let frac: u64 = magnitude % 1_000_000_000;
    if frac == 0 {
        assert(out@ =~= old(out)@ + seconds_text(nanos as int));
    } else {
        out.push('.');
        let digits = digits_of(frac, 9);
        let mut end: usize = digits.len();
        while end > 0 && digits[end - 1] == '0'
            invariant
                end <= digits@.len(),
                forall|k: int| end <= k < digits@.len() ==> digits@[k] == '0',
            decreases end,
        {
            end = end - 1;
        }
        proof {
            lemma_trim_zeros_drops(digits@, end as int);
        }
        let ghost before = out@;
        let mut i: usize = 0;
        while i < end
            invariant
                i <= end <= digits@.len(),
                out@ == before + digits@.take(i as int),
            decreases end - i,
        {
            out.push(digits[i]);
            i = i + 1;
            assert(digits@.take(i as int) =~= digits@.take(i - 1).push(digits@[i - 1]));
            assert(out@ =~= before + digits@.take(i as int));
        }
        assert(out@ =~= old(out)@ + seconds_text(nanos as int));
    }
}

/// The duration text of an interval.
pub fn format_month_day_nano(months: i32, days: i32, nanos: i64) -> (r: String)
    ensures
        r@ == interval_text(months as int, days as int, nanos as int),
{
    let mut out = String::new();
    out.push('P');
    push_signed(&mut out, months as i128);
    out.push('M');
    push_signed(&mut out, days as i128);
    out.push('D');
    out.push('T');
    push_seconds(&mut out, nanos);
    out.push('S');
    assert(out@ =~= interval_text(months as int, days as int, nanos as int));
    out
}

// ---------------------------------------------------------------------------------------------
// Parsing
// ---------------------------------------------------------------------------------------------

/// The index of the first `c` at or after `i`, or the end.
pub open spec fn index_from(s: Seq<char>, c: char, i: int) -> int
    decreases s.len() - i,
{
    if i >= s.len() {
        s.len() as int
    } else if s[i] == c {
        i
    } else {
        index_from(s, c, i + 1)
    }
}

/// The index of the first ASCII letter at or after `i`, or the end.
pub open spec fn letter_from(s: Seq<char>, i: int) -> int
    decreases s.len() - i,
{
    if i >= s.len() {
        s.len() as int
    } else if is_alphabetic(s[i]) {
        i
    } else {
        letter_from(s, i + 1)
    }
}

/// The `(number, unit)` pairs of one half of a duration: each unit is a letter, its number is what
/// stands between it and the letter before. A number behind the last letter has no unit and is left
/// out.
pub open spec fn components(s: Seq<char>, start: int) -> Seq<(Seq<char>, char)>
    decreases s.len() - start,
    when 0 <= start
    via components_decreases
{
    let i = letter_from(s, start);
    if i >= s.len() {
        Seq::empty()
    } else {
        seq![(s.subrange(start, i), s[i])] + components(s, i + 1)
    }
}

#[via_fn]
proof fn components_decreases(s: Seq<char>, start: int) {
    lemma_letter_from(s, start);
}

proof fn lemma_letter_from(s: Seq<char>, i: int)
    ensures
        i <= s.len() ==> i <= letter_from(s, i) <= s.len(),
        letter_from(s, i) <= s.len(),
        i > s.len() ==> letter_from(s, i) == s.len(),
    decreases s.len() - i,
{
    if i < s.len() && !is_alphabetic(s[i]) {
        lemma_letter_from(s, i + 1);
    }
}

/// Adds up the date components: years count twelve months each, weeks seven days. Every step has to
/// fit an `i64`.
pub open spec fn date_total(
    cs: Seq<(Seq<char>, char)>,
    months: int,
    days: int,
) -> Option<(int, int)>
    decreases cs.len(),
{
    if cs.len() == 0 {
        Some((months, days))
    } else {
        match int_value(cs[0].0) {
            None => None,
            Some(n) => {
                let unit = cs[0].1;
                if unit == 'Y' && fits_i64(n * 12) && fits_i64(months + n * 12) {
                    date_total(cs.skip(1), months + n * 12, days)
                } else if unit == 'M' && fits_i64(months + n) {
                    date_total(cs.skip(1), months + n, days)
                } else if unit == 'W' && fits_i64(n * 7) && fits_i64(days + n * 7) {
                    date_total(cs.skip(1), months, days + n * 7)
                } else if unit == 'D' && fits_i64(days + n) {
                    date_total(cs.skip(1), months, days + n)
                } else {
                    None
                }
            },
        }
    }
}

/// The fraction with exactly nine digits: cut off, or filled up with zeros.
pub open spec fn nine_digits(frac: Seq<char>) -> Seq<char> {
    if frac.len() >= 9 {
        frac.take(9)
    } else {
        frac + Seq::new((9 - frac.len()) as nat, |i: int| '0')
    }
}

/// The nanoseconds in a decimal number of seconds: digits with at most one sign before them, and a
/// fraction. The part before the point may be empty if there is a fraction, and digits of the
/// fraction behind the ninth are ignored. The sign belongs to the whole number.
pub open spec fn seconds_value(s: Seq<char>) -> Option<int> {
    let negative = s.len() > 0 && s[0] == '-';
    let rest = unsigned_part(s);
    let dot = index_from(rest, '.', 0);
    let whole = rest.take(dot);
    let frac = if dot < rest.len() {
        rest.skip(dot + 1)
    } else {
        Seq::empty()
    };
    let magnitude = decimal_value(whole) * 1_000_000_000 + decimal_value(nine_digits(frac));
    let total: int = if negative {
        -(magnitude as int)
    } else {
        magnitude as int
    };
    if whole.len() + frac.len() > 0 && all_digits(whole) && all_digits(frac) && fits_i64(total) {
        Some(total)
    } else {
        None
    }
}

/// The nanoseconds of one time component.
pub open spec fn time_component(number: Seq<char>, unit: char) -> Option<int> {
    if unit == 'S' {
        seconds_value(number)
    } else {
        match int_value(number) {
            Some(n) if unit == 'H' && fits_i64(n * 3_600_000_000_000) => Some(
                n * 3_600_000_000_000,
            ),
            Some(n) if unit == 'M' && fits_i64(n * 60_000_000_000) => Some(n * 60_000_000_000),
            _ => None,
        }
    }
}

/// Adds up the time components in nanoseconds. Every step has to fit an `i64`.
pub open spec fn time_total(cs: Seq<(Seq<char>, char)>, nanos: int) -> Option<int>
    decreases cs.len(),
{
    if cs.len() == 0 {
        Some(nanos)
    } else {
        match time_component(cs[0].0, cs[0].1) {
            Some(n) if fits_i64(nanos + n) => time_total(cs.skip(1), nanos + n),
            _ => None,
        }
    }
}

/// Whether one half of a duration leaves no number without a unit: it is empty, or ends in a unit.
pub open spec fn ends_in_unit(s: Seq<char>) -> bool {
    s.len() == 0 || is_alphabetic(s.last())
}

/// The months, days and nanoseconds that a duration text stands for.
pub open spec fn interval_value(s: Seq<char>) -> Option<(int, int, int)> {
    if s.len() == 0 || s[0] != 'P' {
        None
    } else {
        let body = s.skip(1);
        let t = index_from(body, 'T', 0);
        let time = if t < body.len() {
            if ends_in_unit(body.skip(t + 1)) {
                time_total(components(body.skip(t + 1), 0), 0)
            } else {
                None
            }
        } else {
            Some(0)
        };
        match date_total(components(body.take(t), 0), 0, 0) {
            Some((months, days)) if ends_in_unit(body.take(t)) && i32::MIN <= months <= i32::MAX && i32::MIN <= days
                <= i32::MAX => match time {
                Some(nanos) => Some((months, days, nanos)),
                None => None,
            },
            _ => None,
        }
    }
}

proof fn lemma_index_from(s: Seq<char>, c: char, i: int)
    requires
        0 <= i <= s.len(),
    ensures
        i <= index_from(s, c, i) <= s.len(),
    decreases s.len() - i,
{
    if i < s.len() && s[i] != c {
        lemma_index_from(s, c, i + 1);
    }
}

/// The index of the first `c`, or the end.
pub fn find_char(s: &[char], c: char) -> (r: usize)
    ensures
        r == index_from(s@, c, 0),
        r <= s@.len(),
{
    let mut i: usize = 0;
    while i < s.len()
        invariant
            i <= s@.len(),
            index_from(s@, c, i as int) == index_from(s@, c, 0),
        decreases s@.len() - i,
    {
        if s[i] == c {
            return i;
        }
        i = i + 1;
    }
    i
}

/// The first component at or after `start`: where its number ends, if there is a unit at all.
fn next_unit(s: &[char], start: usize) -> (r: usize)
    requires
        start <= s@.len(),
    ensures
        r == letter_from(s@, start as int),
        start <= r <= s@.len(),
{
    let mut i: usize = start;
    while i < s.len()
        invariant
            start <= i <= s@.len(),
            letter_from(s@, i as int) == letter_from(s@, start as int),
        decreases s@.len() - i,
    {
        if alphabetic(s[i]) {
            return i;
        }
        i = i + 1;
    }
    i
}

/// An optional pair of exec integers stands for an optional pair of mathematical ones.
pub open spec fn as_ints(r: Option<(i64, i64)>) -> Option<(int, int)> {
    match r {
        Some((a, b)) => Some((a as int, b as int)),
        None => None,
    }
}

fn sum_date(s: &[char]) -> (r: Option<(i64, i64)>)
    ensures
        as_ints(r) == date_total(components(s@, 0), 0, 0),
{
    let mut months: i64 = 0;
    let mut days: i64 = 0;
    let mut start: usize = 0;
    loop
        invariant
            start <= s@.len(),
            date_total(components(s@, start as int), months as int, days as int) == date_total(
                components(s@, 0),
                0,
                0,
            ),
        decreases s@.len() - start,
    {
        let i: usize = next_unit(s, start);
        if i >= s.len() {
            return Some((months, days));
        }
        let ghost cs = components(s@, start as int);
        assert(cs[0] == (s@.subrange(start as int, i as int), s@[i as int]));
        assert(cs.skip(1) =~= components(s@, i + 1));
        let n: i64 = match parse_i64(slice_subrange(s, start, i)) {
            Some(n) => n,
            None => {
                return None;
            },
        };
        let unit = s[i];
        if unit == 'Y' {
            match n.checked_mul(12) {
                Some(m) => match months.checked_add(m) {
                    Some(t) => {
                        months = t;
                    },
                    None => {
                        return None;
                    },
                },
                None => {
                    return None;
                },
            }
        } else if unit == 'M' {
            match months.checked_add(n) {
                Some(t) => {
                    months = t;
                },
                None => {
                    return None;
                },
            }
        } else if unit == 'W' {
            match n.checked_mul(7) {
                Some(m) => match days.checked_add(m) {
                    Some(t) => {
                        days = t;
                    },
                    None => {
                        return None;
                    },
                },
                None => {
                    return None;
                },
            }
        } else if unit == 'D' {
            match days.checked_add(n) {
                Some(t) => {
                    days = t;
                },
                None => {
                    return None;
                },
            }
        } else {
            return None;
        }
        start = i + 1;
    }
}

/// The number that the nine digits of a fraction stand for.
fn fraction_nanos(frac: &[char]) -> (r: Option<i64>)
    ensures
        match r {
            Some(n) => all_digits(frac@) && n == decimal_value(nine_digits(frac@)) && 0 <= n
                < 1_000_000_000,
            None => !all_digits(frac@),
        },
{
    let mut i: usize = 0;
    while i < frac.len()
        invariant
            i <= frac@.len(),
            forall|k: int| 0 <= k < i ==> is_digit(#[trigger] frac@[k]),
        decreases frac@.len() - i,
    {
        if !digit(frac[i]) {
            assert(!is_digit(frac@[i as int]));
            return None;
        }
        i = i + 1;
    }
    let ghost nine = nine_digits(frac@);
    let mut total: i64 = 0;
    let mut bound: i64 = 1;
    let mut k: usize = 0;
    while k < 9
        invariant
            k <= 9,
            nine == nine_digits(frac@),
            nine.len() == 9,
            all_digits(frac@),
            total == decimal_value(nine.take(k as int)),
            0 <= total < bound,
            k == 0 ==> bound == 1,
            k == 1 ==> bound == 10,
            k == 2 ==> bound == 100,
            k == 3 ==> bound == 1_000,
            k == 4 ==> bound == 10_000,
            k == 5 ==> bound == 100_000,
            k == 6 ==> bound == 1_000_000,
            k == 7 ==> bound == 10_000_000,
            k == 8 ==> bound == 100_000_000,
            k == 9 ==> bound == 1_000_000_000,
        decreases 9 - k,
    {
        let d: u8 = if k < frac.len() {
            value_of_digit(frac[k])
        } else {
            0
        };
        proof {
            assert(nine.take(k + 1).drop_last() =~= nine.take(k as int));
            assert(digit_value(nine[k as int]) == d);
        }
        total = total * 10 + d as i64;
        bound = bound * 10;
        k = k + 1;
    }
    assert(nine.take(9) =~= nine);
    Some(total)
}

/// Reads a decimal number of seconds as nanoseconds. `None` on anything else, and where the
/// nanoseconds do not fit an `i64`.
pub fn seconds_to_nanos(s: &[char]) -> (r: Option<i64>)
    ensures
        as_int(r) == seconds_value(s@),
{
    let negative = s.len() > 0 && s[0] == '-';
    let start: usize = if s.len() > 0 && (s[0] == '-' || s[0] == '+') {
        1
    } else {
        0
    };
    let rest = slice_subrange(s, start, s.len());
    assert(rest@ =~= unsigned_part(s@));
    let dot: usize = find_char(rest, '.');
    let whole = slice_subrange(rest, 0, dot);
    assert(whole@ =~= rest@.take(dot as int));
    let frac_start: usize = if dot < rest.len() {
        dot + 1
    } else {
        dot
    };
    let frac = slice_subrange(rest, frac_start, rest.len());
    let ghost frac_spec = if dot < rest@.len() {
        rest@.skip(dot + 1)
    } else {
        Seq::empty()
    };
    assert(frac@ =~= frac_spec);
    let secs: i64 = if whole.len() == 0 {
        if frac.len() == 0 {
            return None;
        }
        0
    } else {
        if !digit(whole[0]) {
            assert(!is_digit(whole@[0]));
            return None;
        }
        assert(is_digit(whole@[0]));
        assert(unsigned_part(whole@) =~= whole@);
        match parse_i64(whole) {
            Some(n) => n,
            None => {
                return None;
            },
        }
    };
    let nanos: i64 = match fraction_nanos(frac) {
        Some(n) => n,
        None => {
            return None;
        },
    };
    let magnitude: i128 = secs as i128 * 1_000_000_000 + nanos as i128;
    let total: i128 = if negative {
        -magnitude
    } else {
        magnitude
    };
    if -9_223_372_036_854_775_808 <= total && total <= 9_223_372_036_854_775_807 {
        Some(total as i64)
    } else {
        None
    }
}

fn sum_time(s: &[char]) -> (r: Option<i64>)
    ensures
        as_int(r) == time_total(components(s@, 0), 0),
{
    let mut nanos: i64 = 0;
    let mut start: usize = 0;
    loop
        invariant
            start <= s@.len(),
            time_total(components(s@, start as int), nanos as int) == time_total(
                components(s@, 0),
                0,
            ),
        decreases s@.len() - start,
    {
        let i: usize = next_unit(s, start);
        if i >= s.len() {
            return Some(nanos);
        }
        let ghost cs = components(s@, start as int);
        assert(cs[0] == (s@.subrange(start as int, i as int), s@[i as int]));
        assert(cs.skip(1) =~= components(s@, i + 1));
        let number = slice_subrange(s, start, i);
        let unit = s[i];
        let part: Option<i64> = if unit == 'S' {
            seconds_to_nanos(number)
        } else if unit == 'H' {
            match parse_i64(number) {
                Some(n) => n.checked_mul(3_600_000_000_000),
                None => None,
            }
        } else if unit == 'M' {
            match parse_i64(number) {
                Some(n) => n.checked_mul(60_000_000_000),
                None => None,
            }
        } else {
            None
        };
        assert(as_int(part) == time_component(number@, unit));
        match part {
            Some(n) => match nanos.checked_add(n) {
                Some(t) => {
                    nanos = t;
                },
                None => {
                    return None;
                },
            },
            None => {
                return None;
            },
        }
        start = i + 1;
    }
}

/// An optional exec triple stands for an optional mathematical one.
pub open spec fn as_triple(r: Option<(i32, i32, i64)>) -> Option<(int, int, int)> {
    match r {
        Some((a, b, c)) => Some((a as int, b as int, c as int)),
        None => None,
    }
}

/// Whether one half of a duration leaves no number without a unit.
fn is_complete(s: &[char]) -> (r: bool)
    ensures
        r == ends_in_unit(s@),
{
    s.len() == 0 || alphabetic(s[s.len() - 1])
}

/// Reads the duration text of an interval: months, days and nanoseconds. Years are twelve months
/// and weeks seven days; each component has its own sign. `None` on a number or a unit that is not
/// one, on a number without a unit, and where a component does not fit its integer.
pub fn parse_month_day_nano(s: &str) -> (r: Option<(i32, i32, i64)>)
    ensures
        as_triple(r) == interval_value(s@),
{
    let chars = to_chars(s);
    if chars.len() == 0 || chars[0] != 'P' {
        return None;
    }
    let body = slice_subrange(chars.as_slice(), 1, chars.len());
    assert(body@ =~= s@.skip(1));
    let t: usize = find_char(body, 'T');
    let date = slice_subrange(body, 0, t);
    assert(date@ =~= body@.take(t as int));
    let nanos: i64 = if t < body.len() {
        let time = slice_subrange(body, t + 1, body.len());
        assert(time@ =~= body@.skip(t + 1));
        if !is_complete(time) {
            return None;
        }
        match sum_time(time) {
            Some(n) => n,
            None => {
                return None;
            },
        }
    } else {
        0
    };
    if !is_complete(date) {
        return None;
    }
    match sum_date(date) {
        Some((months, days)) => {
            if -2147483648 <= months && months <= 2147483647 && -2147483648 <= days && days
                <= 2147483647 {
                Some((months as i32, days as i32, nanos))
            } else {
                None
            }
        },
        None => None,
    }
}

// ---------------------------------------------------------------------------------------------
// Reading back what was written
// ---------------------------------------------------------------------------------------------

proof fn lemma_digits_are_plain(s: Seq<char>)
    requires
        all_digits(s),
    ensures
        forall|k: int|
            0 <= k < s.len() ==> {
                let c = #[trigger] s[k];
                c != '-' && c != '+' && c != '.' && c != 'T' && !is_alphabetic(c)
            },
{
    assert forall|k: int| 0 <= k < s.len() implies {
        let c = #[trigger] s[k];
        c != '-' && c != '+' && c != '.' && c != 'T' && !is_alphabetic(c)
    } by {
        assert(is_digit(s[k]));
    }
}

proof fn lemma_int_value_of_decimal(i: int)
    requires
        fits_i64(i),
    ensures
        int_value(signed_decimal(i)) == Some(i),
        signed_decimal(i).len() > 0,
        forall|k: int|
            0 <= k < signed_decimal(i).len() ==> {
                let c = #[trigger] signed_decimal(i)[k];
                c != 'T' && !is_alphabetic(c)
            },
{
    let magnitude = if i < 0 {
        (-i) as nat
    } else {
        i as nat
    };
    lemma_decimal(magnitude);
    lemma_digits_are_plain(decimal(magnitude));
    let s = signed_decimal(i);
    if i < 0 {
        assert(unsigned_part(s) =~= decimal(magnitude));
    } else {
        assert(is_digit(s[0]));
        assert(unsigned_part(s) =~= decimal(magnitude));
    }
    assert forall|k: int| 0 <= k < s.len() implies {
        let c = #[trigger] s[k];
        c != 'T' && !is_alphabetic(c)
    } by {
        if i < 0 && k > 0 {
            assert(s[k] == decimal(magnitude)[k - 1]);
        }
    }
}

pub(crate) proof fn lemma_fixed_digits(n: nat, width: nat)
    ensures
        fixed_digits(n, width).len() == width,
        all_digits(fixed_digits(n, width)),
        n < pow(10, width) ==> decimal_value(fixed_digits(n, width)) == n,
    decreases width,
{
    if width == 0 {
        lemma_pow0(10);
    } else {
        let w = (width - 1) as nat;
        lemma_fixed_digits(n / 10, w);
        let s = fixed_digits(n, width);
        assert(s.drop_last() =~= fixed_digits(n / 10, w));
        assert forall|k: int| 0 <= k < s.len() implies is_digit(#[trigger] s[k]) by {
            if k < w {
                assert(s[k] == fixed_digits(n / 10, w)[k]);
            }
        }
        lemma_pow_adds(10, 1, w);
        lemma_pow1(10);
        assert(pow(10, width) == 10 * pow(10, w));
    }
}

pub(crate) proof fn lemma_trim_zeros(s: Seq<char>)
    ensures
        trim_zeros(s).len() <= s.len(),
        trim_zeros(s).len() > 0 ==> trim_zeros(s).last() != '0',
        s == trim_zeros(s) + Seq::new((s.len() - trim_zeros(s).len()) as nat, |i: int| '0'),
    decreases s.len(),
{
    if s.len() > 0 && s.last() == '0' {
        lemma_trim_zeros(s.drop_last());
        let t = trim_zeros(s);
        let zeros = Seq::new((s.len() - t.len()) as nat, |i: int| '0');
        assert forall|k: int| 0 <= k < s.len() implies #[trigger] s[k] == (t + zeros)[k] by {
            if k < s.len() - 1 {
                assert(s[k] == s.drop_last()[k]);
            }
        }
        assert(s =~= t + zeros);
    } else {
        assert(s =~= trim_zeros(s) + Seq::new(0, |i: int| '0'));
    }
}

proof fn lemma_index_from_first(s: Seq<char>, c: char, i: int, n: int)
    requires
        0 <= i <= n <= s.len(),
        forall|k: int| i <= k < n ==> #[trigger] s[k] != c,
        n < s.len() ==> s[n] == c,
    ensures
        index_from(s, c, i) == n,
    decreases n - i,
{
    if i < n {
        assert(s[i] != c);
        lemma_index_from_first(s, c, i + 1, n);
    }
}

proof fn lemma_letter_from_first(s: Seq<char>, i: int, n: int)
    requires
        0 <= i <= n <= s.len(),
        forall|k: int| i <= k < n ==> !is_alphabetic(#[trigger] s[k]),
        n < s.len() ==> is_alphabetic(s[n]),
    ensures
        letter_from(s, i) == n,
    decreases n - i,
{
    if i < n {
        assert(!is_alphabetic(s[i]));
        lemma_letter_from_first(s, i + 1, n);
    }
}

/// Seconds written out and read back are the nanoseconds that were written, and hold no letter.
pub proof fn lemma_seconds_round_trip(nanos: int)
    requires
        i64::MIN <= nanos <= i64::MAX,
    ensures
        seconds_value(seconds_text(nanos)) == Some(nanos),
        forall|k: int|
            0 <= k < seconds_text(nanos).len() ==> !is_alphabetic(#[trigger] seconds_text(nanos)[k]),
{
    let magnitude = if nanos < 0 {
        (-nanos) as nat
    } else {
        nanos as nat
    };
    let secs = magnitude / 1_000_000_000;
    let frac = magnitude % 1_000_000_000;
    let s = seconds_text(nanos);
    let whole = decimal(secs);
    lemma_decimal(secs);
    lemma_digits_are_plain(whole);
    lemma_int_value_of_decimal(secs as int);
    lemma_fixed_digits(frac, 9);
    let nine = fixed_digits(frac, 9);
    let tail = trim_zeros(nine);
    lemma_trim_zeros(nine);
    assert(pow(10, 9) == 1_000_000_000) by {
        reveal_with_fuel(pow, 10);
    }
    assert forall|k: int| 0 <= k < tail.len() implies is_digit(#[trigger] tail[k]) by {
        assert(tail[k] == nine[k]);
    }
    lemma_digits_are_plain(tail);
    let rest = if frac == 0 {
        whole
    } else {
        whole + seq!['.'] + tail
    };
    assert(unsigned_part(s) =~= rest) by {
        if nanos >= 0 {
            assert(s[0] == whole[0]);
            assert(is_digit(whole[0]));
        }
    }
    assert forall|k: int| 0 <= k < whole.len() implies #[trigger] rest[k] != '.' by {
        assert(rest[k] == whole[k]);
    }
    lemma_index_from_first(rest, '.', 0, whole.len() as int);
    assert(rest.take(whole.len() as int) =~= whole);
    assert(is_digit(whole[0]));
    if frac == 0 {
        assert(nine_digits(Seq::<char>::empty()) =~= nine) by {
            assert forall|k: int| 0 <= k < 9 implies nine[k] == '0' by {
                lemma_fixed_digits_of_zero(9, k);
            }
        }
    } else {
        assert(rest.skip(whole.len() as int + 1) =~= tail);
        assert(tail.len() <= 9);
        assert(nine_digits(tail) =~= nine);
    }
    assert forall|k: int| 0 <= k < s.len() implies !is_alphabetic(#[trigger] s[k]) by {
        let j = if nanos < 0 {
            k - 1
        } else {
            k
        };
        if j >= 0 {
            assert(s[k] == rest[j]);
            if j < whole.len() {
                assert(rest[j] == whole[j]);
            } else if j > whole.len() {
                assert(rest[j] == tail[j - whole.len() - 1]);
            }
        }
    }
}

proof fn lemma_fixed_digits_of_zero(width: nat, k: int)
    requires
        0 <= k < width,
    ensures
        fixed_digits(0, width)[k] == '0',
    decreases width,
{
    lemma_fixed_digits(0, (width - 1) as nat);
    if k < width - 1 {
        lemma_fixed_digits_of_zero((width - 1) as nat, k);
    }
}

proof fn lemma_date_round_trip(months: int, days: int)
    requires
        i32::MIN <= months <= i32::MAX,
        i32::MIN <= days <= i32::MAX,
    ensures
        date_total(
            components(
                signed_decimal(months) + seq!['M'] + signed_decimal(days) + seq!['D'],
                0,
            ),
            0,
            0,
        ) == Some((months, days)),
        forall|k: int|
            0 <= k < (signed_decimal(months) + seq!['M'] + signed_decimal(days) + seq!['D']).len()
                ==> #[trigger] (signed_decimal(months) + seq!['M'] + signed_decimal(days)
                + seq!['D'])[k] != 'T',
{
    let m = signed_decimal(months);
    let d = signed_decimal(days);
    lemma_int_value_of_decimal(months);
    lemma_int_value_of_decimal(days);
    let date = m + seq!['M'] + d + seq!['D'];
    assert forall|k: int| 0 <= k < date.len() implies #[trigger] date[k] != 'T' by {
        if k < m.len() {
            assert(date[k] == m[k]);
        } else if m.len() < k <= m.len() + d.len() {
            assert(date[k] == d[k - m.len() - 1]);
        }
    }
    let i1 = m.len() as int;
    let i2 = i1 + 1 + d.len();
    assert forall|k: int| 0 <= k < i1 implies !is_alphabetic(#[trigger] date[k]) by {
        assert(date[k] == m[k]);
    }
    lemma_letter_from_first(date, 0, i1);
    assert forall|k: int| i1 + 1 <= k < i2 implies !is_alphabetic(#[trigger] date[k]) by {
        assert(date[k] == d[k - i1 - 1]);
    }
    lemma_letter_from_first(date, i1 + 1, i2);
    lemma_letter_from_first(date, i2 + 1, i2 + 1);
    assert(date.subrange(0, i1) =~= m);
    assert(date.subrange(i1 + 1, i2) =~= d);
    assert(components(date, i2 + 1) =~= Seq::empty());
    assert(components(date, i1 + 1) =~= seq![(d, 'D')]);
    let cs = components(date, 0);
    assert(cs =~= seq![(m, 'M'), (d, 'D')]);
    assert(cs.skip(1) =~= seq![(d, 'D')]);
    assert(cs.skip(1).skip(1) =~= Seq::empty());
    assert(date_total(cs.skip(1).skip(1), months, days) == Some((months, days)));
    assert(date_total(cs.skip(1), months, 0) == Some((months, days)));
}

proof fn lemma_time_round_trip(nanos: int)
    requires
        i64::MIN <= nanos <= i64::MAX,
    ensures
        time_total(components(seconds_text(nanos) + seq!['S'], 0), 0) == Some(nanos),
{
    let n = seconds_text(nanos);
    lemma_seconds_round_trip(nanos);
    let time = n + seq!['S'];
    let i3 = n.len() as int;
    assert forall|k: int| 0 <= k < i3 implies !is_alphabetic(#[trigger] time[k]) by {
        assert(time[k] == n[k]);
    }
    lemma_letter_from_first(time, 0, i3);
    lemma_letter_from_first(time, i3 + 1, i3 + 1);
    assert(time.subrange(0, i3) =~= n);
    assert(components(time, i3 + 1) =~= Seq::empty());
    let ts = components(time, 0);
    assert(ts =~= seq![(n, 'S')]);
    assert(ts.skip(1) =~= Seq::empty());
    assert(time_total(ts.skip(1), nanos) == Some(nanos));
}

/// An interval that was written as a duration text is read back exactly: months, days and
/// nanoseconds each come back as they were.
pub proof fn lemma_interval_round_trip(months: int, days: int, nanos: int)
    requires
        i32::MIN <= months <= i32::MAX,
        i32::MIN <= days <= i32::MAX,
        i64::MIN <= nanos <= i64::MAX,
    ensures
        interval_value(interval_text(months, days, nanos)) == Some((months, days, nanos)),
{
    let date = signed_decimal(months) + seq!['M'] + signed_decimal(days) + seq!['D'];
    let time = seconds_text(nanos) + seq!['S'];
    lemma_date_round_trip(months, days);
    lemma_time_round_trip(nanos);
    let s = interval_text(months, days, nanos);
    let body = s.skip(1);
    assert(body =~= date + seq!['T'] + time);
    assert forall|k: int| 0 <= k < date.len() implies #[trigger] body[k] != 'T' by {
        assert(body[k] == date[k]);
    }
    lemma_index_from_first(body, 'T', 0, date.len() as int);
    assert(body.take(date.len() as int) =~= date);
    assert(body.skip(date.len() as int + 1) =~= time);
}

/// A sign before an unsigned number of seconds covers all of it, the fraction too: a plus keeps the
/// value and a minus negates it. The three are numbers of seconds together, but for the one whose
/// negation alone fits an `i64`.
pub proof fn lemma_sign_of_seconds(s: Seq<char>)
    requires
        s.len() > 0 ==> s[0] != '-' && s[0] != '+',
    ensures
        seconds_value(s) matches Some(n) ==> n >= 0,
        seconds_value(seq!['+'] + s) == seconds_value(s),
        seconds_value(s) matches Some(n) ==> seconds_value(seq!['-'] + s) == Some(-n),
        seconds_value(seq!['-'] + s) matches Some(n) ==> n != i64::MIN ==> seconds_value(s) == Some(
            -n,
        ),
        seconds_value(seq!['-'] + s) == Some(i64::MIN as int) ==> seconds_value(s) is None,
{
    assert(unsigned_part(seq!['-'] + s) =~= s);
    assert(unsigned_part(seq!['+'] + s) =~= s);
    assert(unsigned_part(s) =~= s);
}

} // verus!
