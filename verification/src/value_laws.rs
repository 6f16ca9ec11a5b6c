//! What dates, timestamps, numerics and intervals come to, said of how they are written.

use vstd::arithmetic::power::{lemma_pow0, lemma_pow_adds, pow};
use vstd::prelude::*;

use crate::conversion::{
    date_days, days_before_month, days_in_month, epoch_days, has_date_shape, is_date, is_leap_year,
    micros, nanos, numeric_value, timestamp_nanos, zeros,
};
use crate::interval::{
    components, date_total, fixed_digits, index_from, interval_text, interval_value,
    lemma_fixed_digits, lemma_seconds_round_trip, lemma_trim_zeros, letter_from, nine_digits,
    seconds_text, seconds_value, time_component, time_total, trim_zeros,
};
use crate::number::{fits_i64, int_value, unsigned_part};
use crate::text::{
    all_digits, decimal, decimal_value, is_alphabetic, is_digit, lemma_decimal, signed_decimal,
};
use crate::text_laws::lemma_integer_round_trip;

verus! {

/// Whether a text consists of digits.
pub open spec fn is_number(s: Seq<char>) -> bool {
    forall|i: int| 0 <= i < s.len() ==> '0' <= #[trigger] s[i] && s[i] <= '9'
}

proof fn lemma_is_number(s: Seq<char>)
    ensures
        is_number(s) == all_digits(s),
{
    if is_number(s) {
        assert forall|i: int| 0 <= i < s.len() implies is_digit(#[trigger] s[i]) by {}
    }
    if all_digits(s) {
        assert forall|i: int| 0 <= i < s.len() implies '0' <= #[trigger] s[i] && s[i] <= '9' by {
            assert(is_digit(s[i]));
        }
    }
}

// ---------------------------------------------------------------------------------------------
// Dates and timestamps
// ---------------------------------------------------------------------------------------------

/// The Gregorian calendar: the lengths of the months, a leap day in every year that four divides,
/// but for the years that a hundred divides and four hundred does not, and 146097 days in every four
/// hundred years.
pub proof fn lemma_calendar(year: int, month: int, day: int)
    requires
        year >= 1,
        1 <= month <= 12,
    ensures
        is_leap_year(year) <==> year % 400 == 0 || (year % 4 == 0 && year % 100 != 0),
        days_in_month(year, month) == (if month == 2 {
            if year % 400 == 0 || (year % 4 == 0 && year % 100 != 0) {
                29int
            } else {
                28
            }
        } else if month == 4 || month == 6 || month == 9 || month == 11 {
            30
        } else {
            31
        }),
        is_date(year, month, day) <==> year <= 9999 && 1 <= day <= days_in_month(year, month),
        epoch_days(year + 400, month, day) == epoch_days(year, month, day) + 146097,
        epoch_days(1970, 1, 1) == 0,
        epoch_days(2000, 3, 1) == 11017,
{
    let y = year - 1;
    assert((y + 400) / 4 == y / 4 + 100);
    assert((y + 400) / 100 == y / 100 + 4);
    assert((y + 400) / 400 == y / 400 + 1);
    assert((year + 400) % 4 == year % 4);
    assert((year + 400) % 100 == year % 100);
    assert((year + 400) % 400 == year % 400);
    lemma_same_months(year, month);
    reveal_with_fuel(days_before_month, 4);
}

proof fn lemma_same_months(year: int, month: int)
    requires
        (year + 400) % 4 == year % 4,
        (year + 400) % 100 == year % 100,
        (year + 400) % 400 == year % 400,
    ensures
        days_before_month(year + 400, month) == days_before_month(year, month),
    decreases month,
{
    if month > 1 {
        lemma_same_months(year, month - 1);
    }
}

/// A date is four digits, a hyphen, two digits, a hyphen and two digits that name a day, and stands
/// for the number of that day; a text of any other shape is none.
pub proof fn lemma_dates(y: Seq<char>, m: Seq<char>, d: Seq<char>, s: Seq<char>)
    requires
        y.len() == 4 && m.len() == 2 && d.len() == 2,
        is_number(y) && is_number(m) && is_number(d),
    ensures
        date_days(y + seq!['-'] + m + seq!['-'] + d) == (if is_date(
            decimal_value(y) as int,
            decimal_value(m) as int,
            decimal_value(d) as int,
        ) {
            Some(
                epoch_days(
                    decimal_value(y) as int,
                    decimal_value(m) as int,
                    decimal_value(d) as int,
                ),
            )
        } else {
            None
        }),
        s.len() != 10 ==> date_days(s) is None,
        s.len() == 10 && (s[4] != '-' || s[7] != '-') ==> date_days(s) is None,
        s.len() == 10 && (exists|i: int|
            0 <= i < 10 && i != 4 && i != 7 && !('0' <= #[trigger] s[i] && s[i] <= '9'))
            ==> date_days(s) is None,
{
    let t = y + seq!['-'] + m + seq!['-'] + d;
    assert(t.subrange(0, 4) =~= y);
    assert(t.subrange(5, 7) =~= m);
    assert(t.subrange(8, 10) =~= d);
    lemma_is_number(y);
    lemma_is_number(m);
    lemma_is_number(d);
    if s.len() == 10 && exists|i: int|
        0 <= i < 10 && i != 4 && i != 7 && !('0' <= #[trigger] s[i] && s[i] <= '9') {
        let i = choose|i: int|
            0 <= i < 10 && i != 4 && i != 7 && !('0' <= #[trigger] s[i] && s[i] <= '9');
        assert(!is_digit(s[i]));
        if has_date_shape(s) {
            if i < 4 {
                assert(s.subrange(0, 4)[i] == s[i]);
            } else if i < 7 {
                assert(s.subrange(5, 7)[i - 5] == s[i]);
            } else {
                assert(s.subrange(8, 10)[i - 8] == s[i]);
            }
        }
    }
}

/// An instant in nanoseconds and in microseconds, and what a reading comes to.
pub proof fn lemma_instants(secs: i64, n: u32)
    ensures
        nanos(secs as int, n as int) == 1_000_000_000 * secs + n,
        1000 * micros(secs as int, n as int) <= 1_000_000_000 * secs + n,
        1_000_000_000 * secs + n < 1000 * micros(secs as int, n as int) + 1000,
        timestamp_nanos(Ok((secs, n))) == (if i64::MIN <= 1_000_000_000 * secs + n <= i64::MAX {
            Some((1_000_000_000 * secs + n) as i64)
        } else {
            None
        }),
        forall|m: Seq<char>| #[trigger] timestamp_nanos(Err(m)) is None,
{
}

// ---------------------------------------------------------------------------------------------
// Numerics
// ---------------------------------------------------------------------------------------------

proof fn lemma_zeros_scale(d: Seq<char>, n: nat)
    ensures
        decimal_value(d + zeros(n)) == decimal_value(d) * pow(10, n),
    decreases n,
{
    if n == 0 {
        assert(d + zeros(0) =~= d);
        lemma_pow0(10);
        assert(decimal_value(d) * pow(10, 0) == decimal_value(d)) by (nonlinear_arith)
            requires
                pow(10, 0) == 1,
        ;
    } else {
        let m = (n - 1) as nat;
        lemma_zeros_scale(d, m);
        let s = d + zeros(n);
        assert(s.drop_last() =~= d + zeros(m));
        assert(s.last() == '0');
        lemma_pow_adds(10, 1, m);
        assert(pow(10, 1) == 10) by {
            reveal_with_fuel(pow, 2);
        }
        let v = decimal_value(d);
        assert(10 * (v * pow(10, m)) == v * (10 * pow(10, m))) by (nonlinear_arith);
    }
}

/// A numeric is digits, with at most one sign before them, and behind a point one to nine more: it
/// stands for that many billionths, where 128 bits hold them. More than nine digits behind the point,
/// none on either side of it, and anything but digits there make a text none.
pub proof fn lemma_numerics(whole: Seq<char>, fraction: Seq<char>)
    requires
        whole.len() > 0 ==> whole[0] != '-' && whole[0] != '+',
        !whole.contains('.'),
    ensures
        is_number(whole) && whole.len() > 0 ==> {
            let n = decimal_value(whole) * pow(10, 9);
            &&& numeric_value(whole) == (if n <= i128::MAX {
                Some(n)
            } else {
                None
            })
            &&& numeric_value(seq!['-'] + whole) == (if -n >= i128::MIN {
                Some(-n)
            } else {
                None
            })
            &&& numeric_value(seq!['+'] + whole) == numeric_value(whole)
        },
        is_number(whole) && whole.len() > 0 && is_number(fraction) && 1 <= fraction.len() <= 9 ==> {
            let n = decimal_value(whole + fraction) * pow(10, (9 - fraction.len()) as nat);
            let s = whole.push('.') + fraction;
            &&& numeric_value(s) == (if n <= i128::MAX {
                Some(n)
            } else {
                None
            })
            &&& numeric_value(seq!['-'] + s) == (if -n >= i128::MIN {
                Some(-n)
            } else {
                None
            })
            &&& numeric_value(seq!['+'] + s) == numeric_value(s)
        },
        !is_number(whole) || whole.len() == 0 ==> numeric_value(whole) is None && numeric_value(
            whole.push('.') + fraction,
        ) is None,
        !is_number(fraction) || fraction.len() == 0 || fraction.len() > 9 ==> numeric_value(
            whole.push('.') + fraction,
        ) is None,
{
    let s = whole.push('.') + fraction;
    let n = whole.len() as int;
    assert(s[n] == '.');
    s.index_of_first_ensures('.');
    let i = s.index_of_first('.')->Some_0;
    if i < n {
        assert(whole[i] == '.');
    }
    assert(s.take(n) =~= whole);
    assert(s.skip(n + 1) =~= fraction);
    assert(unsigned_part(whole) == whole);
    if whole.len() > 0 {
        assert(s[0] == whole[0]);
    }
    assert(unsigned_part(s) == s);
    assert((seq!['-'] + s).skip(1) =~= s);
    assert((seq!['+'] + s).skip(1) =~= s);
    assert((seq!['-'] + whole).skip(1) =~= whole);
    assert((seq!['+'] + whole).skip(1) =~= whole);
    lemma_is_number(whole);
    lemma_is_number(fraction);
    lemma_zeros_scale(whole, 9);
    if fraction.len() <= 9 {
        lemma_zeros_scale(whole + fraction, (9 - fraction.len()) as nat);
    }
}

// ---------------------------------------------------------------------------------------------
// Intervals
// ---------------------------------------------------------------------------------------------

proof fn lemma_index_of(s: Seq<char>, c: char, i: int, n: int)
    requires
        0 <= i <= n <= s.len(),
        forall|k: int| i <= k < n ==> #[trigger] s[k] != c,
        n < s.len() ==> s[n] == c,
    ensures
        index_from(s, c, i) == n,
    decreases n - i,
{
    if i < n {
        assert(s[i] != c);
        lemma_index_of(s, c, i + 1, n);
    }
}

/// Seconds are digits with a fraction behind a point, either of which may be missing but not both;
/// of the fraction nine digits count. They stand for that many nanoseconds, where 64 bits hold them.
pub proof fn lemma_seconds(whole: Seq<char>, fraction: Seq<char>)
    requires
        is_number(whole),
        is_number(fraction),
    ensures
        ({
            let nine = (fraction + zeros(9)).take(9);
            let n = decimal_value(whole) * 1_000_000_000 + decimal_value(nine);
            &&& whole.len() + fraction.len() > 0 ==> seconds_value(whole.push('.') + fraction) == (if n
                <= i64::MAX {
                Some(n as int)
            } else {
                None
            })
            &&& whole.len() + fraction.len() == 0 ==> seconds_value(whole.push('.') + fraction)
                is None
            &&& whole.len() > 0 ==> seconds_value(whole) == (if decimal_value(whole) * 1_000_000_000
                <= i64::MAX {
                Some((decimal_value(whole) * 1_000_000_000) as int)
            } else {
                None
            })
            &&& seconds_value(Seq::empty()) is None
        }),
{
    lemma_is_number(whole);
    lemma_is_number(fraction);
    let s = whole.push('.') + fraction;
    let n = whole.len() as int;
    assert forall|k: int| 0 <= k < n implies #[trigger] s[k] != '.' by {
        assert('0' <= whole[k] && whole[k] <= '9');
    }
    lemma_index_of(s, '.', 0, n);
    assert(s.take(n) =~= whole);
    assert(s.skip(n + 1) =~= fraction);
    assert(unsigned_part(s) == s) by {
        if n > 0 {
            assert(s[0] == whole[0]);
            assert('0' <= whole[0] && whole[0] <= '9');
        }
    }
    if n > 0 {
        assert('0' <= whole[0] && whole[0] <= '9');
    }
    assert(unsigned_part(whole) == whole);
    assert forall|k: int| 0 <= k < n implies #[trigger] whole[k] != '.' by {
        assert('0' <= whole[k] && whole[k] <= '9');
    }
    lemma_index_of(whole, '.', 0, n);
    assert(whole.take(n) =~= whole);
    assert(nine_digits(fraction) =~= (fraction + zeros(9)).take(9));
    let none = Seq::<char>::empty();
    assert(nine_digits(none) =~= none + zeros(9));
    lemma_zeros_scale(none, 9);
    assert(decimal_value(none) * pow(10, 9) == 0) by (nonlinear_arith)
        requires
            decimal_value(none) == 0,
    ;
}

proof fn lemma_letter_at(s: Seq<char>, i: int, n: int)
    requires
        0 <= i <= n <= s.len(),
        forall|k: int| i <= k < n ==> !is_alphabetic(#[trigger] s[k]),
        n < s.len() ==> is_alphabetic(s[n]),
    ensures
        letter_from(s, i) == n,
    decreases n - i,
{
    if i < n {
        assert(!is_alphabetic(s[i]));
        lemma_letter_at(s, i + 1, n);
    }
}

proof fn lemma_letter_shift(a: Seq<char>, b: Seq<char>, i: int)
    requires
        0 <= i <= b.len(),
    ensures
        letter_from(a + b, a.len() + i) == a.len() + letter_from(b, i),
        i <= letter_from(b, i) <= b.len(),
    decreases b.len() - i,
{
    if i < b.len() {
        assert((a + b)[a.len() + i] == b[i]);
        lemma_letter_shift(a, b, i + 1);
    }
}

proof fn lemma_components_shift(a: Seq<char>, b: Seq<char>, i: int)
    requires
        0 <= i <= b.len(),
    ensures
        components(a + b, a.len() + i) == components(b, i),
    decreases b.len() - i,
{
    let s = a + b;
    let n = a.len() as int;
    lemma_letter_shift(a, b, i);
    let e = letter_from(b, i);
    if e < b.len() {
        lemma_components_shift(a, b, e + 1);
        assert(s.subrange(n + i, n + e) =~= b.subrange(i, e));
        assert(s[n + e] == b[e]);
    }
}

/// A number and its unit before further components are the first component.
proof fn lemma_component_first(number: Seq<char>, unit: char, rest: Seq<char>)
    requires
        forall|k: int| 0 <= k < number.len() ==> !is_alphabetic(#[trigger] number[k]),
        is_alphabetic(unit),
    ensures
        components(number.push(unit) + rest, 0) == seq![(number, unit)] + components(rest, 0),
{
    let s = number.push(unit) + rest;
    let n = number.len() as int;
    assert forall|k: int| 0 <= k < n implies !is_alphabetic(#[trigger] s[k]) by {
        assert(s[k] == number[k]);
    }
    assert(s[n] == unit);
    lemma_letter_at(s, 0, n);
    assert(s.subrange(0, n) =~= number);
    lemma_components_shift(number.push(unit), rest, 0);
}

proof fn lemma_plain_number(i: int)
    requires
        fits_i64(i),
    ensures
        int_value(signed_decimal(i)) == Some(i),
        forall|k: int|
            0 <= k < signed_decimal(i).len() ==> !is_alphabetic(#[trigger] signed_decimal(i)[k])
                && signed_decimal(i)[k] != 'T',
{
    lemma_integer_round_trip(i);
    let n: nat = if i < 0 {
        (-i) as nat
    } else {
        i as nat
    };
    lemma_decimal(n);
    let d = decimal(n);
    let s = signed_decimal(i);
    assert forall|k: int| 0 <= k < s.len() implies !is_alphabetic(#[trigger] s[k]) && s[k]
        != 'T' by {
        if i < 0 {
            if k > 0 {
                assert(s[k] == d[k - 1]);
                assert(is_digit(d[k - 1]));
            }
        } else {
            assert(is_digit(d[k]));
        }
    }
}

/// A duration with all units: a year is twelve months and a week seven days; hours, minutes and
/// seconds make up the nanoseconds. Months, days and nanoseconds are kept apart.
pub proof fn lemma_interval_units(
    years: int,
    months: int,
    weeks: int,
    days: int,
    hours: int,
    minutes: int,
    seconds: Seq<char>,
)
    requires
        i32::MIN <= years <= i32::MAX,
        i32::MIN <= months <= i32::MAX,
        i32::MIN <= weeks <= i32::MAX,
        i32::MIN <= days <= i32::MAX,
        -1_000_000 <= hours <= 1_000_000,
        -1_000_000 <= minutes <= 1_000_000,
        forall|k: int| 0 <= k < seconds.len() ==> !is_alphabetic(#[trigger] seconds[k]),
        seconds_value(seconds) matches Some(n) ==> -1_000_000_000_000_000_000 <= n
            <= 1_000_000_000_000_000_000,
    ensures
        ({
            let date = signed_decimal(years).push('Y') + (signed_decimal(months).push('M') + (
            signed_decimal(weeks).push('W') + signed_decimal(days).push('D')));
            let time = signed_decimal(hours).push('H') + (signed_decimal(minutes).push('M')
                + seconds.push('S'));
            let m = 12 * years + months;
            let d = 7 * weeks + days;
            let fits = i32::MIN <= m <= i32::MAX && i32::MIN <= d <= i32::MAX;
            &&& interval_value(seq!['P'] + date) == (if fits {
                Some((m, d, 0int))
            } else {
                None
            })
            &&& interval_value(seq!['P'] + date.push('T') + time) == (match seconds_value(seconds) {
                Some(n) => if fits {
                    Some((m, d, 3_600_000_000_000 * hours + 60_000_000_000 * minutes + n))
                } else {
                    None
                },
                None => None,
            })
        }),
{
    let none = Seq::<char>::empty();
    let d3 = signed_decimal(days).push('D');
    let d2 = signed_decimal(weeks).push('W') + d3;
    let d1 = signed_decimal(months).push('M') + d2;
    let date = signed_decimal(years).push('Y') + d1;
    let t3 = seconds.push('S');
    let t2 = signed_decimal(minutes).push('M') + t3;
    let time = signed_decimal(hours).push('H') + t2;
    lemma_plain_number(years);
    lemma_plain_number(months);
    lemma_plain_number(weeks);
    lemma_plain_number(days);
    lemma_plain_number(hours);
    lemma_plain_number(minutes);
    lemma_component_first(signed_decimal(years), 'Y', d1);
    lemma_component_first(signed_decimal(months), 'M', d2);
    lemma_component_first(signed_decimal(weeks), 'W', d3);
    lemma_component_first(signed_decimal(days), 'D', none);
    lemma_component_first(signed_decimal(hours), 'H', t2);
    lemma_component_first(signed_decimal(minutes), 'M', t3);
    lemma_component_first(seconds, 'S', none);
    assert(d3 + none =~= d3);
    assert(t3 + none =~= t3);
    assert(components(none, 0) =~= Seq::empty());
    let c4 = Seq::<(Seq<char>, char)>::empty();
    let c3 = seq![(signed_decimal(days), 'D')] + c4;
    let c2 = seq![(signed_decimal(weeks), 'W')] + c3;
    let c1 = seq![(signed_decimal(months), 'M')] + c2;
    let c0 = seq![(signed_decimal(years), 'Y')] + c1;
    assert(c0.skip(1) =~= c1);
    assert(c1.skip(1) =~= c2);
    assert(c2.skip(1) =~= c3);
    assert(c3.skip(1) =~= c4);
    let m = 12 * years + months;
    let d = 7 * weeks + days;
    assert(date_total(c4, m, d) == Some((m, d)));
    assert(date_total(c3, m, 7 * weeks) == Some((m, d)));
    assert(date_total(c2, m, 0) == Some((m, d)));
    assert(date_total(c1, 12 * years, 0) == Some((m, d)));
    assert(date_total(c0, 0, 0) == Some((m, d)));
    let e3 = seq![(seconds, 'S')] + c4;
    let e2 = seq![(signed_decimal(minutes), 'M')] + e3;
    let e1 = seq![(signed_decimal(hours), 'H')] + e2;
    assert(e1.skip(1) =~= e2);
    assert(e2.skip(1) =~= e3);
    assert(e3.skip(1) =~= c4);
    let h = 3_600_000_000_000 * hours;
    let hm = h + 60_000_000_000 * minutes;
    if seconds_value(seconds) is Some {
        let n = seconds_value(seconds)->Some_0;
        assert(time_total(c4, hm + n) == Some(hm + n));
        assert(time_total(e3, hm) == Some(hm + n));
    } else {
        assert(time_total(e3, hm) is None);
    }
    assert(time_total(e2, h) == time_total(e3, hm));
    assert(time_total(e1, 0) == time_total(e2, h));
    assert forall|k: int| 0 <= k < date.len() implies #[trigger] date[k] != 'T' by {
        let n0 = signed_decimal(years).len();
        let n1 = n0 + 1 + signed_decimal(months).len();
        let n2 = n1 + 1 + signed_decimal(weeks).len();
        if k < n0 {
            assert(date[k] == signed_decimal(years)[k]);
        } else if n0 < k < n1 {
            assert(date[k] == signed_decimal(months)[k - n0 - 1]);
        } else if n1 < k < n2 {
            assert(date[k] == signed_decimal(weeks)[k - n1 - 1]);
        } else if n2 < k < date.len() - 1 {
            assert(date[k] == signed_decimal(days)[k - n2 - 1]);
        }
    }
    let a = seq!['P'] + date;
    assert(a.skip(1) =~= date);
    lemma_index_of(date, 'T', 0, date.len() as int);
    assert(date.take(date.len() as int) =~= date);
    assert(date.last() == 'D');
    let b = seq!['P'] + date.push('T') + time;
    let body = date.push('T') + time;
    assert(b.skip(1) =~= body);
    assert forall|k: int| 0 <= k < date.len() implies #[trigger] body[k] != 'T' by {
        assert(body[k] == date[k]);
    }
    lemma_index_of(body, 'T', 0, date.len() as int);
    assert(body.take(date.len() as int) =~= date);
    assert(body.skip(date.len() as int + 1) =~= time);
    assert(time.last() == 'S');
}

/// A duration of one component: each unit stands for its own number of months, days or nanoseconds,
/// where that fits; a unit of the one half is none of the other.
pub proof fn lemma_single_unit(n: int, unit: char)
    requires
        fits_i64(n),
        is_alphabetic(unit),
        unit != 'T',
    ensures
        interval_value(seq!['P'] + signed_decimal(n).push(unit)) == (if unit == 'Y' && i32::MIN <= 12
            * n <= i32::MAX {
            Some((12 * n, 0int, 0int))
        } else if unit == 'M' && i32::MIN <= n <= i32::MAX {
            Some((n, 0int, 0int))
        } else if unit == 'W' && i32::MIN <= 7 * n <= i32::MAX {
            Some((0int, 7 * n, 0int))
        } else if unit == 'D' && i32::MIN <= n <= i32::MAX {
            Some((0int, n, 0int))
        } else {
            None
        }),
        interval_value(seq!['P', 'T'] + signed_decimal(n).push(unit)) == (if unit == 'H' && fits_i64(
            3_600_000_000_000 * n,
        ) {
            Some((0int, 0int, 3_600_000_000_000 * n))
        } else if unit == 'M' && fits_i64(60_000_000_000 * n) {
            Some((0int, 0int, 60_000_000_000 * n))
        } else if unit == 'S' && fits_i64(1_000_000_000 * n) {
            Some((0int, 0int, 1_000_000_000 * n))
        } else {
            None
        }),
{
    let none = Seq::<char>::empty();
    let d = signed_decimal(n);
    let body = d.push(unit);
    let cs = seq![(d, unit)];
    let nothing = Seq::<(Seq<char>, char)>::empty();
    lemma_plain_number(n);
    lemma_component_first(d, unit, none);
    assert(body + none =~= body);
    assert(components(none, 0) =~= nothing);
    assert(components(body, 0) =~= cs);
    assert(cs.skip(1) =~= nothing);
    assert forall|k: int| 0 <= k < body.len() implies #[trigger] body[k] != 'T' by {
        if k < d.len() {
            assert(body[k] == d[k]);
        }
    }
    assert(body.last() == unit);
    assert(interval_value(seq!['P'] + body) == (match date_total(cs, 0, 0) {
        Some((m, k)) if i32::MIN <= m <= i32::MAX && i32::MIN <= k <= i32::MAX => Some(
            (m, k, 0int),
        ),
        _ => None,
    })) by {
        let a = seq!['P'] + body;
        assert(a.skip(1) =~= body);
        lemma_index_of(body, 'T', 0, body.len() as int);
        assert(body.take(body.len() as int) =~= body);
    }
    assert(date_total(nothing, 12 * n, 0) == Some((12 * n, 0int)));
    assert(date_total(nothing, n, 0) == Some((n, 0int)));
    assert(date_total(nothing, 0, 7 * n) == Some((0int, 7 * n)));
    assert(date_total(nothing, 0, n) == Some((0int, n)));
    assert(time_total(cs, 0) == (match time_component(d, unit) {
        Some(t) if fits_i64(t) => Some(t),
        _ => None,
    })) by {
        if time_component(d, unit) is Some {
            let t = time_component(d, unit)->Some_0;
            assert(time_total(nothing, t) == Some(t));
        }
    }
    assert(interval_value(seq!['P', 'T'] + body) == (match time_total(cs, 0) {
        Some(t) => Some((0int, 0int, t)),
        None => None,
    })) by {
        let b = seq!['P', 'T'] + body;
        let rest = seq!['T'] + body;
        assert(b.skip(1) =~= rest);
        lemma_index_of(rest, 'T', 0, 0);
        assert(rest.take(0) =~= none);
        assert(rest.skip(1) =~= body);
        assert(date_total(nothing, 0, 0) == Some((0int, 0int)));
    }
    lemma_whole_seconds(n);
}

proof fn lemma_whole_seconds(n: int)
    requires
        fits_i64(n),
    ensures
        seconds_value(signed_decimal(n)) == (if fits_i64(1_000_000_000 * n) {
            Some(1_000_000_000 * n)
        } else {
            None
        }),
{
    let m: nat = if n < 0 {
        (-n) as nat
    } else {
        n as nat
    };
    let d = decimal(m);
    lemma_decimal(m);
    lemma_is_number(d);
    let s = signed_decimal(n);
    assert(is_digit(d[0]));
    assert(unsigned_part(s) =~= d) by {
        if n < 0 {
            assert(s =~= seq!['-'] + d);
        }
    }
    assert forall|k: int| 0 <= k < d.len() implies #[trigger] d[k] != '.' by {
        assert(is_digit(d[k]));
    }
    lemma_index_of(d, '.', 0, d.len() as int);
    assert(d.take(d.len() as int) =~= d);
    let none = Seq::<char>::empty();
    assert(nine_digits(none) =~= none + zeros(9));
    lemma_zeros_scale(none, 9);
    assert(decimal_value(none) * pow(10, 9) == 0) by (nonlinear_arith)
        requires
            decimal_value(none) == 0,
    ;
}

/// A duration without components is no time at all.
pub proof fn lemma_empty_durations()
    ensures
        interval_value(seq!['P']) == Some((0int, 0int, 0int)),
        interval_value(seq!['P', 'T']) == Some((0int, 0int, 0int)),
{
    let none = Seq::<char>::empty();
    let nothing = Seq::<(Seq<char>, char)>::empty();
    assert(components(none, 0) =~= nothing);
    assert(seq!['P'].skip(1) =~= none);
    assert(none.take(0) =~= none);
    lemma_index_of(none, 'T', 0, 0);
    let t = seq!['T'];
    assert(seq!['P', 'T'].skip(1) =~= t);
    lemma_index_of(t, 'T', 0, 0);
    assert(t.take(0) =~= none);
    assert(t.skip(1) =~= none);
    assert(date_total(nothing, 0, 0) == Some((0int, 0int)));
    assert(time_total(nothing, 0) == Some(0int));
}

/// Seconds are written in one way only: a sign where they are negative, the whole seconds without
/// leading zeros, and, where there is a fraction, a point and its digits, of which there are at most
/// nine and the last is not a zero.
pub proof fn lemma_seconds_text(whole: nat, part: nat)
    requires
        part < 1_000_000_000,
    ensures
        ({
            let n = whole * 1_000_000_000 + part;
            &&& part == 0 ==> seconds_text(n as int) == decimal(whole)
            &&& part > 0 ==> exists|fraction: Seq<char>|
                #![trigger decimal(whole).push('.') + fraction]
                seconds_text(n as int) == decimal(whole).push('.') + fraction && is_number(fraction)
                    && 1 <= fraction.len() <= 9 && fraction.last() != '0' && decimal_value(
                    (fraction + zeros(9)).take(9),
                ) == part
            &&& n > 0 ==> seconds_text(-n) == seq!['-'] + seconds_text(n as int)
        }),
{
    let n = whole * 1_000_000_000 + part;
    assert(n / 1_000_000_000 == whole);
    assert(n % 1_000_000_000 == part);
    if n > 0 {
        assert(seconds_text(-n) =~= seq!['-'] + seconds_text(n as int));
    }
    if part == 0 {
        assert(seconds_text(n as int) =~= decimal(whole));
    } else {
        let f = fixed_digits(part, 9);
        let t = trim_zeros(f);
        lemma_fixed_digits(part, 9);
        lemma_trim_zeros(f);
        assert(pow(10, 9) == 1_000_000_000) by {
            reveal_with_fuel(pow, 10);
        }
        assert((t + zeros(9)).take(9) =~= f);
        if t.len() == 0 {
            let none = Seq::<char>::empty();
            assert(f =~= none + zeros(9));
            lemma_zeros_scale(none, 9);
            assert(decimal_value(none) * pow(10, 9) == 0) by (nonlinear_arith)
                requires
                    decimal_value(none) == 0,
            ;
        }
        assert(seconds_text(n as int) =~= decimal(whole).push('.') + t);
        assert forall|k: int| 0 <= k < t.len() implies is_digit(#[trigger] t[k]) by {
            assert(t[k] == f[k]);
            assert(is_digit(f[k]));
        }
        lemma_is_number(t);
    }
}

/// What makes a text no interval: no `P` at the front, a number without a unit at the end of the
/// date, and a unit that does not belong to the date.
pub proof fn lemma_no_interval(s: Seq<char>, number: Seq<char>, unit: char, date: Seq<char>)
    requires
        forall|k: int| 0 <= k < number.len() ==> !is_alphabetic(#[trigger] number[k]),
        is_alphabetic(unit),
        unit != 'Y' && unit != 'M' && unit != 'W' && unit != 'D' && unit != 'T',
        !date.contains('T'),
        date.len() > 0,
        !is_alphabetic(date.last()),
    ensures
        s.len() == 0 || s[0] != 'P' ==> interval_value(s) is None,
        interval_value(seq!['P'] + date) is None,
        interval_value(seq!['P'] + number.push(unit)) is None,
{
    let a = seq!['P'] + date;
    assert(a.skip(1) =~= date);
    assert forall|k: int| 0 <= k < date.len() implies #[trigger] date[k] != 'T' by {
        assert(date.contains(date[k]));
    }
    lemma_index_of(date, 'T', 0, date.len() as int);
    assert(date.take(date.len() as int) =~= date);
    let b = seq!['P'] + number.push(unit);
    let body = number.push(unit);
    assert(b.skip(1) =~= body);
    assert forall|k: int| 0 <= k < body.len() implies #[trigger] body[k] != 'T' by {
        if k < number.len() {
            assert(body[k] == number[k]);
        }
    }
    lemma_index_of(body, 'T', 0, body.len() as int);
    assert(body.take(body.len() as int) =~= body);
    lemma_component_first(number, unit, Seq::empty());
    assert(body + Seq::<char>::empty() =~= body);
    let cs = components(body, 0);
    assert(cs[0] == (number, unit));
}

/// The text of an interval: `P`, the months, `M`, the days, `DT`, the seconds and `S`, the seconds
/// read as nanoseconds being those that were written.
pub proof fn lemma_interval_text(months: int, days: int, nanos: int)
    requires
        i32::MIN <= months <= i32::MAX,
        i32::MIN <= days <= i32::MAX,
        i64::MIN <= nanos <= i64::MAX,
    ensures
        exists|seconds: Seq<char>|
            #![trigger seconds.push('S')]
            interval_text(months, days, nanos) == seq!['P'] + signed_decimal(months).push('M')
                + signed_decimal(days).push('D').push('T') + seconds.push('S') && seconds_value(
                seconds,
            ) == Some(nanos) && forall|k: int|
                0 <= k < seconds.len() ==> !is_alphabetic(#[trigger] seconds[k]),
{
    let seconds = seconds_text(nanos);
    lemma_seconds_round_trip(nanos);
    assert(interval_text(months, days, nanos) =~= seq!['P'] + signed_decimal(months).push('M')
        + signed_decimal(days).push('D').push('T') + seconds.push('S'));
}

} // verus!
