//! Reading the text forms of Spanner's `DATE`, `TIMESTAMP` and `NUMERIC` values.

use vstd::prelude::*;

use crate::number::unsigned_part;
use crate::staleness::{parse_instant, rfc3339, Instant};
use crate::text::{
    all_digits, decimal_value, digit, digit_value, is_digit, to_chars, value_of_digit,
};

verus! {

// ---------------------------------------------------------------------------------------------
// Dates
// ---------------------------------------------------------------------------------------------

pub open spec fn is_leap_year(year: int) -> bool {
    year % 4 == 0 && (year % 100 != 0 || year % 400 == 0)
}

pub open spec fn days_in_month(year: int, month: int) -> int {
    if month == 2 {
        if is_leap_year(year) {
            29
        } else {
            28
        }
    } else if month == 4 || month == 6 || month == 9 || month == 11 {
        30
    } else {
        31
    }
}

/// Whether the three numbers name a day of the years that Spanner's dates span.
pub open spec fn is_date(year: int, month: int, day: int) -> bool {
    1 <= year <= 9999 && 1 <= month <= 12 && 1 <= day <= days_in_month(year, month)
}

/// The number of days from the first day of year 1 to the first day of `year`.
pub open spec fn days_before_year(year: int) -> int {
    365 * (year - 1) + (year - 1) / 4 - (year - 1) / 100 + (year - 1) / 400
}

/// The number of days of `year` before its month `month`.
pub open spec fn days_before_month(year: int, month: int) -> int
    decreases month,
{
    if month <= 1 {
        0
    } else {
        days_before_month(year, month - 1) + days_in_month(year, month - 1)
    }
}

/// The number of days from 1970-01-01 to a date.
pub open spec fn epoch_days(year: int, month: int, day: int) -> int {
    days_before_year(year) + days_before_month(year, month) + (day - 1) - 719162
}

/// The day after a date.
pub open spec fn next_day(year: int, month: int, day: int) -> (int, int, int) {
    if day < days_in_month(year, month) {
        (year, month, day + 1)
    } else if month < 12 {
        (year, month + 1, 1)
    } else {
        (year + 1, 1, 1)
    }
}

proof fn lemma_days_of_a_year(year: int)
    requires
        year >= 1,
    ensures
        days_before_month(year, 12) + 31 == days_before_year(year + 1) - days_before_year(year),
{
    reveal_with_fuel(days_before_month, 12);
    let y = year - 1;
    assert(year / 4 - y / 4 == if year % 4 == 0 { 1int } else { 0 });
    assert(year / 100 - y / 100 == if year % 100 == 0 { 1int } else { 0 });
    assert(year / 400 - y / 400 == if year % 400 == 0 { 1int } else { 0 });
}

/// Days are counted without gaps: the day after a date has the next number. 1970-01-01 is day 0.
pub proof fn lemma_days_are_consecutive(year: int, month: int, day: int)
    requires
        is_date(year, month, day),
    ensures
        ({
            let next = next_day(year, month, day);
            epoch_days(next.0, next.1, next.2) == epoch_days(year, month, day) + 1
        }),
        epoch_days(1970, 1, 1) == 0,
{
    if day == days_in_month(year, month) && month == 12 {
        lemma_days_of_a_year(year);
        assert(days_before_month(year + 1, 1) == 0);
    }
}

proof fn lemma_days_before_month_monotone(year: int, a: int, b: int)
    requires
        1 <= a <= b,
    ensures
        days_before_month(year, a) <= days_before_month(year, b),
        a < b ==> days_before_month(year, a) + days_in_month(year, a) <= days_before_month(
            year,
            b,
        ),
    decreases b,
{
    if a < b {
        lemma_days_before_month_monotone(year, a, b - 1);
    }
}

proof fn lemma_days_before_year_monotone(a: int, b: int)
    requires
        1 <= a < b,
    ensures
        days_before_year(a + 1) <= days_before_year(b),
    decreases b,
{
    if a + 1 < b {
        lemma_days_before_year_monotone(a, b - 1);
        lemma_days_of_a_year(b - 1);
        lemma_days_before_month_monotone(b - 1, 1, 12);
    }
}

/// Whether the first date is before the second.
pub open spec fn is_before(y1: int, m1: int, d1: int, y2: int, m2: int, d2: int) -> bool {
    y1 < y2 || (y1 == y2 && (m1 < m2 || (m1 == m2 && d1 < d2)))
}

/// An earlier date has the smaller number, so that two dates never share one.
pub proof fn lemma_days_are_in_order(y1: int, m1: int, d1: int, y2: int, m2: int, d2: int)
    requires
        is_date(y1, m1, d1),
        is_date(y2, m2, d2),
        is_before(y1, m1, d1, y2, m2, d2),
    ensures
        epoch_days(y1, m1, d1) < epoch_days(y2, m2, d2),
{
    if y1 < y2 {
        lemma_days_before_year_monotone(y1, y2);
        lemma_days_of_a_year(y1);
        lemma_days_before_month_monotone(y1, m1, 12);
        lemma_days_before_month_monotone(y2, 1, m2);
    } else if m1 < m2 {
        lemma_days_before_month_monotone(y1, m1, m2);
    }
}

/// The number that the digits of `s` from `from` up to `to` write.
pub open spec fn digits_at(s: Seq<char>, from: int, to: int) -> int {
    decimal_value(s.subrange(from, to)) as int
}

/// Whether `s` has the shape of a date: `YYYY-MM-DD`.
pub open spec fn has_date_shape(s: Seq<char>) -> bool {
    &&& s.len() == 10
    &&& all_digits(s.subrange(0, 4))
    &&& s[4] == '-'
    &&& all_digits(s.subrange(5, 7))
    &&& s[7] == '-'
    &&& all_digits(s.subrange(8, 10))
}

/// The number of days from 1970-01-01 to the date that `s` writes.
pub open spec fn date_days(s: Seq<char>) -> Option<int> {
    let year = digits_at(s, 0, 4);
    let month = digits_at(s, 5, 7);
    let day = digits_at(s, 8, 10);
    if has_date_shape(s) && is_date(year, month, day) {
        Some(epoch_days(year, month, day))
    } else {
        None
    }
}

/// The number that the characters from `from` up to `to` write, if they are digits.
fn digits(chars: &Vec<char>, from: usize, to: usize) -> (r: Option<u32>)
    requires
        from <= to <= chars@.len(),
        to - from <= 4,
    ensures
        match r {
            Some(n) => all_digits(chars@.subrange(from as int, to as int)) && n == digits_at(
                chars@,
                from as int,
                to as int,
            ) && n <= 9999,
            None => !all_digits(chars@.subrange(from as int, to as int)),
        },
{
    let ghost run = chars@.subrange(from as int, to as int);
    let mut total: u32 = 0;
    let mut bound: u32 = 1;
    let mut i: usize = from;
    while i < to
        invariant
            from <= i <= to <= chars@.len(),
            to - from <= 4,
            run == chars@.subrange(from as int, to as int),
            all_digits(run.take(i - from)),
            total == decimal_value(run.take(i - from)),
            total < bound,
            i - from == 0 ==> bound == 1,
            i - from == 1 ==> bound == 10,
            i - from == 2 ==> bound == 100,
            i - from == 3 ==> bound == 1000,
            i - from == 4 ==> bound == 10000,
        decreases to - i,
    {
        let ghost n = i - from;
        assert(run[n] == chars@[i as int]);
        if !digit(chars[i]) {
            return None;
        }
        proof {
            assert(run.take(n + 1).drop_last() =~= run.take(n));
            assert forall|k: int| 0 <= k < n + 1 implies is_digit(#[trigger] run.take(n + 1)[k]) by {
                if k < n {
                    assert(run.take(n)[k] == run.take(n + 1)[k]);
                }
            }
        }
        total = total * 10 + value_of_digit(chars[i]) as u32;
        bound = bound * 10;
        i = i + 1;
    }
    assert(run.take(run.len() as int) =~= run);
    Some(total)
}

fn month_length(year: u32, month: u32) -> (r: u32)
    ensures
        r == days_in_month(year as int, month as int),
{
    if month == 2 {
        if year % 4 == 0 && (year % 100 != 0 || year % 400 == 0) {
            29
        } else {
            28
        }
    } else if month == 4 || month == 6 || month == 9 || month == 11 {
        30
    } else {
        31
    }
}

fn month_start(year: u32, month: u32) -> (r: u32)
    requires
        1 <= month <= 12,
    ensures
        r == days_before_month(year as int, month as int),
        r <= 400,
{
    let mut total: u32 = 0;
    let mut m: u32 = 1;
    while m < month
        invariant
            1 <= m <= month <= 12,
            total == days_before_month(year as int, m as int),
            total <= 31 * (m - 1),
        decreases month - m,
    {
        total = total + month_length(year, m);
        m = m + 1;
    }
    total
}

/// The number of days from 1970-01-01 to a date of the form `YYYY-MM-DD`.
pub fn parse_date_days(s: &str) -> (r: Option<i32>)
    ensures
        match date_days(s@) {
            Some(days) => r is Some && r->Some_0 == days,
            None => r is None,
        },
{
    let chars = to_chars(s);
    if chars.len() != 10 || chars[4] != '-' || chars[7] != '-' {
        return None;
    }
    match (digits(&chars, 0, 4), digits(&chars, 5, 7), digits(&chars, 8, 10)) {
        (Some(year), Some(month), Some(day)) => {
            if year < 1 || month < 1 || month > 12 || day < 1 || day > month_length(year, month) {
                return None;
            }
            let y: i32 = year as i32 - 1;
            let before_year: i32 = 365 * y + y / 4 - y / 100 + y / 400;
            let days: i32 = before_year + month_start(year, month) as i32 + (day as i32 - 1)
                - 719162;
            Some(days)
        },
        _ => None,
    }
}

// ---------------------------------------------------------------------------------------------
// Timestamps
// ---------------------------------------------------------------------------------------------

/// An instant in nanoseconds since the Unix epoch.
pub open spec fn nanos(secs: int, nanos: int) -> int {
    secs * 1_000_000_000 + nanos
}

/// An instant in whole microseconds since the Unix epoch: what is finer is cut off, towards the
/// past.
pub open spec fn micros(secs: int, nanos: int) -> int {
    secs * 1_000_000 + nanos / 1000
}

/// Microseconds are what is left of nanoseconds when the finer part is cut off, also before 1970.
pub proof fn lemma_micros_cut_off(secs: int, n: int)
    ensures
        micros(secs, n) == nanos(secs, n) / 1000,
{
    assert(nanos(secs, n) == (secs * 1_000_000) * 1000 + n);
}

/// An instant in nanoseconds, if 64 bits hold it.
pub fn instant_nanos(t: Instant) -> (r: Option<i64>)
    ensures
        r == if i64::MIN <= nanos(t.secs as int, t.nanos as int) <= i64::MAX {
            Some(nanos(t.secs as int, t.nanos as int) as i64)
        } else {
            None
        },
{
    let total: i128 = t.secs as i128 * 1_000_000_000 + t.nanos as i128;
    if i64::MIN as i128 <= total && total <= i64::MAX as i128 {
        Some(total as i64)
    } else {
        None
    }
}

/// An instant in microseconds, if 64 bits hold it.
pub fn instant_micros(t: Instant) -> (r: Option<i64>)
    ensures
        r == if i64::MIN <= micros(t.secs as int, t.nanos as int) <= i64::MAX {
            Some(micros(t.secs as int, t.nanos as int) as i64)
        } else {
            None
        },
{
    let total: i128 = t.secs as i128 * 1_000_000 + (t.nanos / 1000) as i128;
    if i64::MIN as i128 <= total && total <= i64::MAX as i128 {
        Some(total as i64)
    } else {
        None
    }
}

/// The nanoseconds that a reading of a timestamp comes to.
pub open spec fn timestamp_nanos(reading: Result<(i64, u32), Seq<char>>) -> Option<i64> {
    match reading {
        Ok(t) => if i64::MIN <= nanos(t.0 as int, t.1 as int) <= i64::MAX {
            Some(nanos(t.0 as int, t.1 as int) as i64)
        } else {
            None
        },
        Err(_) => None,
    }
}

/// Reads a timestamp as nanoseconds since the Unix epoch. There is no result where the text is no
/// timestamp, nor where 64 bits do not hold the instant.
pub fn parse_timestamp_nanos(s: &str) -> (r: Option<i64>)
    ensures
        r == timestamp_nanos(rfc3339(s@)),
{
    match parse_instant(s) {
        Ok(t) => instant_nanos(t),
        Err(_) => None,
    }
}

// ---------------------------------------------------------------------------------------------
// Numerics
// ---------------------------------------------------------------------------------------------

/// Zeros.
pub open spec fn zeros(n: nat) -> Seq<char> {
    Seq::new(n, |i: int| '0')
}

/// The digits of a numeric without its point: those before it, and those after it, of which there
/// are one to nine, padded with zeros to nine.
pub open spec fn numeric_digits(s: Seq<char>) -> Option<Seq<char>> {
    let u = unsigned_part(s);
    if u.contains('.') {
        let whole = u.take(u.index_of_first('.')->Some_0);
        let fraction = u.skip(u.index_of_first('.')->Some_0 + 1);
        if whole.len() > 0 && all_digits(whole) && 1 <= fraction.len() <= 9 && all_digits(
            fraction,
        ) {
            Some(whole + fraction + zeros((9 - fraction.len()) as nat))
        } else {
            None
        }
    } else if u.len() > 0 && all_digits(u) {
        Some(u + zeros(9))
    } else {
        None
    }
}

/// A numeric in billionths.
pub open spec fn numeric_value(s: Seq<char>) -> Option<int> {
    match numeric_digits(s) {
        None => None,
        Some(digits) => {
            let value: int = if s.len() > 0 && s[0] == '-' {
                -(decimal_value(digits) as int)
            } else {
                decimal_value(digits) as int
            };
            if i128::MIN <= value <= i128::MAX {
                Some(value)
            } else {
                None
            }
        },
    }
}

/// A zero at the end of a fraction changes nothing, as long as there is room for it.
pub proof fn lemma_trailing_zero(s: Seq<char>)
    requires
        unsigned_part(s).contains('.'),
        unsigned_part(s).len() - unsigned_part(s).index_of_first('.')->Some_0 <= 9,
        unsigned_part(s).last() != '.',
    ensures
        numeric_value(s.push('0')) == numeric_value(s),
{
    let u = unsigned_part(s);
    let v = unsigned_part(s.push('0'));
    u.index_of_first_ensures('.');
    let i = u.index_of_first('.')->Some_0;
    assert(v =~= u.push('0'));
    assert(v[i] == '.');
    v.index_of_first_ensures('.');
    assert forall|k: int| 0 <= k < i implies v[k] != '.' by {
        assert(v[k] == u[k]);
    }
    assert(v.index_of_first('.')->Some_0 == i);
    let whole = u.take(i);
    let fraction = u.skip(i + 1);
    assert(v.take(i) =~= whole);
    assert(v.skip(i + 1) =~= fraction.push('0'));
    if all_digits(fraction) {
        assert(all_digits(fraction.push('0'))) by {
            assert forall|k: int| 0 <= k < fraction.push('0').len() implies is_digit(
                #[trigger] fraction.push('0')[k],
            ) by {
                if k < fraction.len() {
                    assert(fraction.push('0')[k] == fraction[k]);
                }
            }
        }
        if 1 <= fraction.len() <= 8 {
            assert(whole + fraction + zeros((9 - fraction.len()) as nat) =~= whole
                + fraction.push('0') + zeros((8 - fraction.len()) as nat));
        }
    } else {
        assert(!all_digits(fraction.push('0'))) by {
            let k = choose|k: int| 0 <= k < fraction.len() && !is_digit(#[trigger] fraction[k]);
            assert(fraction.push('0')[k] == fraction[k]);
        }
    }
    if s.len() == 0 {
        assert(u.len() == 0);
    }
}

/// Reads a numeric in billionths. There is no result where the text is no decimal number with at
/// most nine digits after the point, nor where 128 bits do not hold it.
pub fn parse_numeric_i128(s: &str) -> (r: Option<i128>)
    ensures
        match numeric_value(s@) {
            Some(n) => r is Some && r->Some_0 == n,
            None => r is None,
        },
{
    let chars = to_chars(s);
    let negative = chars.len() > 0 && chars[0] == '-';
    let start: usize = if chars.len() > 0 && (chars[0] == '-' || chars[0] == '+') {
        1
    } else {
        0
    };
    let ghost u = unsigned_part(s@);
    assert(u =~= s@.subrange(start as int, s@.len() as int));
    let mut point: usize = start;
    while point < chars.len() && chars[point] != '.'
        invariant
            start <= point <= chars@.len(),
            chars@ == s@,
            u == s@.subrange(start as int, s@.len() as int),
            forall|k: int| 0 <= k < point - start ==> u[k] != '.',
        decreases chars@.len() - point,
    {
        assert(u[point - start] == chars@[point as int]);
        point = point + 1;
    }
    let has_point = point < chars.len();
    let mut run: Vec<char> = Vec::new();
    let mut i: usize = start;
    while i < point
        invariant
            start <= i <= point <= chars@.len(),
            chars@ == s@,
            u == s@.subrange(start as int, s@.len() as int),
            run@ == u.take(i - start),
        decreases point - i,
    {
        run.push(chars[i]);
        i = i + 1;
        assert(run@ =~= u.take(i - start));
    }
    if point == start {
        proof {
            if has_point {
                assert(u[0] == '.');
                u.index_of_first_ensures('.');
                assert(u.index_of_first('.')->Some_0 == 0);
            } else {
                assert(!u.contains('.'));
            }
        }
        return None;
    }
    let width: usize = if has_point {
        chars.len() - point - 1
    } else {
        0
    };
    let ghost whole = u.take(point - start);
    let ghost fraction = if has_point {
        u.skip(point - start + 1)
    } else {
        Seq::<char>::empty()
    };
    proof {
        if has_point {
            assert(u[point - start] == '.');
            u.index_of_first_ensures('.');
            assert(u.index_of_first('.')->Some_0 == point - start);
        } else {
            assert(!u.contains('.'));
            assert(whole =~= u);
        }
        assert(fraction.len() == width);
    }
    if has_point && (width < 1 || width > 9) {
        return None;
    }
    let mut j: usize = 0;
    while j < width
        invariant
            j <= width,
            chars@ == s@,
            u == s@.subrange(start as int, s@.len() as int),
            fraction.len() == width,
            has_point ==> fraction == u.skip(point - start + 1),
            width > 0 ==> has_point && width == chars@.len() - point - 1,
            start <= point <= chars@.len(),
            run@ == whole + fraction.take(j as int),
        decreases width - j,
    {
        assert(fraction[j as int] == chars@[point + 1 + j]);
        run.push(chars[chars.len() - width + j]);
        j = j + 1;
        assert(run@ =~= whole + fraction.take(j as int));
    }
    assert(fraction.take(width as int) =~= fraction);
    let ghost written = whole + fraction;
    assert(run@ == written);
    let mut k: usize = width;
    while k < 9
        invariant
            width <= k <= 9,
            run@ == written + zeros((k - width) as nat),
        decreases 9 - k,
    {
        run.push('0');
        k = k + 1;
        assert(run@ =~= written + zeros((k - width) as nat));
    }
    let ghost padded = written + zeros((9 - width) as nat);
    proof {
        lemma_all_digits_parts(whole, fraction, (9 - width) as nat);
        assert(numeric_digits(s@) is Some <==> all_digits(padded));
        if all_digits(padded) {
            assert(numeric_digits(s@)->Some_0 =~= padded);
        }
    }
    signed_total(&run, negative)
}

proof fn lemma_all_digits_parts(a: Seq<char>, b: Seq<char>, n: nat)
    ensures
        all_digits(a + b + zeros(n)) <==> all_digits(a) && all_digits(b),
{
    let all = a + b + zeros(n);
    if all_digits(all) {
        assert forall|k: int| 0 <= k < a.len() implies is_digit(#[trigger] a[k]) by {
            assert(all[k] == a[k]);
        }
        assert forall|k: int| 0 <= k < b.len() implies is_digit(#[trigger] b[k]) by {
            assert(all[a.len() + k] == b[k]);
        }
    }
    if all_digits(a) && all_digits(b) {
        assert forall|k: int| 0 <= k < all.len() implies is_digit(#[trigger] all[k]) by {
            if k < a.len() {
                assert(all[k] == a[k]);
            } else if k < a.len() + b.len() {
                assert(all[k] == b[k - a.len()]);
            } else {
                assert(all[k] == '0');
            }
        }
    }
}

/// The number that digits write, under a sign, if they are digits and 128 bits hold it.
fn signed_total(run: &Vec<char>, negative: bool) -> (r: Option<i128>)
    ensures
        ({
            let value: int = if negative {
                -(decimal_value(run@) as int)
            } else {
                decimal_value(run@) as int
            };
            if all_digits(run@) && i128::MIN <= value <= i128::MAX {
                r is Some && r->Some_0 == value
            } else {
                r is None
            }
        }),
{
    let limit: u128 = 0x8000_0000_0000_0000_0000_0000_0000_0000;
    let mut total: u128 = 0;
    let mut fits = true;
    let mut i: usize = 0;
    while i < run.len()
        invariant
            i <= run@.len(),
            limit == 0x8000_0000_0000_0000_0000_0000_0000_0000,
            all_digits(run@.take(i as int)),
            fits ==> total == decimal_value(run@.take(i as int)) && total <= limit,
            !fits ==> decimal_value(run@.take(i as int)) > limit,
        decreases run@.len() - i,
    {
        if !digit(run[i]) {
            proof {
                assert(!is_digit(run@[i as int]));
            }
            return None;
        }
        proof {
            let t = run@.take(i + 1);
            assert(t.drop_last() =~= run@.take(i as int));
            assert forall|k: int| 0 <= k < i + 1 implies is_digit(#[trigger] t[k]) by {
                if k < i {
                    assert(run@.take(i as int)[k] == t[k]);
                }
            }
            assert(decimal_value(t) == decimal_value(run@.take(i as int)) * 10 + digit_value(
                run@[i as int],
            ));
        }
        if fits {
            let d: u128 = value_of_digit(run[i]) as u128;
            if total > (limit - d) / 10 {
                fits = false;
            } else {
                total = total * 10 + d;
            }
        }
        i = i + 1;
    }
    assert(run@.take(run@.len() as int) =~= run@);
    if !fits {
        return None;
    }
    if negative {
        if total == limit {
            Some(i128::MIN)
        } else {
            Some(-(total as i128))
        }
    } else if total == limit {
        None
    } else {
        Some(total as i128)
    }
}

} // verus!
