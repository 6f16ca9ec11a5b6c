//! What holds of the small operations on texts, said of their characters.

use vstd::prelude::*;

use crate::grouping::{group_of, rows_with, Key};
use crate::metadata::{like, like_from};
use crate::number::{int_value, unsigned_part};
use crate::text::{
    after, before, decimal, decimal_value, is_alphabetic, is_digit, is_whitespace, lemma_decimal,
    lowered, pieces, same_ignoring_case, signed_decimal, uppered,
};

verus! {

// ---------------------------------------------------------------------------------------------
// Characters
// ---------------------------------------------------------------------------------------------

/// The white space characters by their code points.
pub proof fn lemma_whitespace_characters(c: char)
    ensures
        is_whitespace(c) <==> {
            ||| 9 <= c as u32 <= 13
            ||| c as u32 == 32
            ||| c as u32 == 0x85
            ||| c as u32 == 0xa0
            ||| c as u32 == 0x1680
            ||| 0x2000 <= c as u32 <= 0x200a
            ||| c as u32 == 0x2028
            ||| c as u32 == 0x2029
            ||| c as u32 == 0x202f
            ||| c as u32 == 0x205f
            ||| c as u32 == 0x3000
        },
{
}

/// The digits and the letters by their code points.
pub proof fn lemma_digits_and_letters(c: char)
    ensures
        is_digit(c) <==> 48 <= c as u32 <= 57,
        is_alphabetic(c) <==> 65 <= c as u32 <= 90 || 97 <= c as u32 <= 122,
{
}

/// Whether two characters differ at most in being the upper and the lower case of one ASCII letter.
pub open spec fn same_letter(a: char, b: char) -> bool {
    ||| a == b
    ||| 65 <= a as u32 <= 90 && b as u32 == a as u32 + 32
    ||| 65 <= b as u32 <= 90 && a as u32 == b as u32 + 32
}

/// Two texts are the same up to case exactly if they are of one length and differ only in the case
/// of ASCII letters.
pub proof fn lemma_same_ignoring_case(a: Seq<char>, b: Seq<char>)
    ensures
        same_ignoring_case(a, b) <==> a.len() == b.len() && forall|i: int|
            0 <= i < a.len() ==> same_letter(#[trigger] a[i], b[i]),
{
    if same_ignoring_case(a, b) {
        assert(lowered(a).len() == lowered(b).len());
        assert forall|i: int| 0 <= i < a.len() implies same_letter(#[trigger] a[i], b[i]) by {
            assert(lowered(a)[i] == lowered(b)[i]);
        }
    }
    if a.len() == b.len() && forall|i: int|
        0 <= i < a.len() ==> same_letter(#[trigger] a[i], b[i]) {
        assert forall|i: int| 0 <= i < a.len() implies lowered(a)[i] == lowered(b)[i] by {
            assert(same_letter(a[i], b[i]));
        }
        assert(lowered(a) =~= lowered(b));
    }
}

/// Lower and upper case change the case of ASCII letters and nothing else.
pub proof fn lemma_cases(s: Seq<char>, i: int)
    requires
        0 <= i < s.len(),
    ensures
        lowered(s).len() == s.len(),
        uppered(s).len() == s.len(),
        same_letter(lowered(s)[i], s[i]),
        same_letter(uppered(s)[i], s[i]),
        !(65 <= lowered(s)[i] as u32 <= 90),
        !(97 <= uppered(s)[i] as u32 <= 122),
{
}

// ---------------------------------------------------------------------------------------------
// Numbers
// ---------------------------------------------------------------------------------------------

/// Decimal notation digit by digit: the last digit is the remainder by ten, and what stands before
/// it is the quotient, if that is not zero.
pub proof fn lemma_decimal_digits(n: nat, d: nat)
    requires
        d < 10,
    ensures
        n > 0 ==> decimal(10 * n + d) == decimal(n) + decimal(d),
        decimal(d).len() == 1,
        decimal(d)[0] as u32 == 48 + d,
{
    if n > 0 {
        let m = 10 * n + d;
        assert(m / 10 == n && m % 10 == d);
        assert(decimal(m) =~= decimal(n) + decimal(d));
    }
}

/// Reading digits: each stands for ten times what stands before it and its own value.
pub proof fn lemma_decimal_value_digits(s: Seq<char>, c: char)
    requires
        48 <= c as u32 <= 57,
    ensures
        decimal_value(Seq::empty()) == 0,
        decimal_value(s.push(c)) == 10 * decimal_value(s) + (c as u32 - 48),
{
    assert(s.push(c).drop_last() =~= s);
}

/// An integer is digits with at most one sign before them, in the range of 64 bits; any other text
/// is none.
pub proof fn lemma_integers(d: Seq<char>)
    ensures
        d.len() > 0 && (forall|i: int| 0 <= i < d.len() ==> 48 <= #[trigger] d[i] as u32 <= 57)
            ==> {
            &&& int_value(d) == (if decimal_value(d) <= i64::MAX {
                Some(decimal_value(d) as int)
            } else {
                None
            })
            &&& int_value(seq!['+'] + d) == int_value(d)
            &&& int_value(seq!['-'] + d) == (if -decimal_value(d) >= i64::MIN {
                Some(-decimal_value(d))
            } else {
                None
            })
        },
        d.len() == 0 || (exists|i: int|
            0 <= i < d.len() && !(48 <= #[trigger] d[i] as u32 <= 57)) ==> {
            &&& int_value(seq!['+'] + d) is None
            &&& int_value(seq!['-'] + d) is None
            &&& d.len() == 0 || (d[0] != '+' && d[0] != '-') ==> int_value(d) is None
        },
{
    let p = seq!['+'] + d;
    let m = seq!['-'] + d;
    assert(p.skip(1) =~= d);
    assert(m.skip(1) =~= d);
    if d.len() > 0 && forall|i: int| 0 <= i < d.len() ==> 48 <= #[trigger] d[i] as u32 <= 57 {
        assert(48 <= d[0] as u32 <= 57);
        assert(unsigned_part(d) == d);
        assert forall|i: int| 0 <= i < d.len() implies is_digit(#[trigger] d[i]) by {
            assert(48 <= d[i] as u32 <= 57);
            lemma_digits_and_letters(d[i]);
        }
    }
    if exists|i: int| 0 <= i < d.len() && !(48 <= #[trigger] d[i] as u32 <= 57) {
        let i = choose|i: int| 0 <= i < d.len() && !(48 <= #[trigger] d[i] as u32 <= 57);
        assert(!is_digit(d[i]));
    }
}

/// An integer that is written down is read back.
pub proof fn lemma_integer_round_trip(i: int)
    requires
        i64::MIN <= i <= i64::MAX,
    ensures
        int_value(signed_decimal(i)) == Some(i),
        i >= 0 ==> signed_decimal(i) == decimal(i as nat),
        i < 0 ==> signed_decimal(i) == seq!['-'] + decimal((-i) as nat),
{
    let n: nat = if i < 0 {
        (-i) as nat
    } else {
        i as nat
    };
    lemma_decimal(n);
    let d = decimal(n);
    assert(is_digit(d[0]));
    assert((seq!['-'] + d).skip(1) =~= d);
}

// ---------------------------------------------------------------------------------------------
// Splitting
// ---------------------------------------------------------------------------------------------

/// Splitting at a character cuts at its first occurrence and drops only that.
pub proof fn lemma_split_at_first(s: Seq<char>, c: char)
    requires
        s.contains(c),
    ensures
        s == before(s, c).push(c) + after(s, c),
        !before(s, c).contains(c),
{
    s.index_of_first_ensures(c);
    assert(s =~= before(s, c).push(c) + after(s, c));
}

/// `parts` with `c` between each two of them.
pub open spec fn interleaved(parts: Seq<Seq<char>>, c: char) -> Seq<char>
    decreases parts.len(),
{
    if parts.len() == 0 {
        Seq::empty()
    } else if parts.len() == 1 {
        parts[0]
    } else {
        parts[0].push(c) + interleaved(parts.skip(1), c)
    }
}

/// The pieces of a text hold no separator, and with the separators between them they are the text.
pub proof fn lemma_pieces(s: Seq<char>, c: char)
    ensures
        pieces(s, c).len() > 0,
        interleaved(pieces(s, c), c) == s,
        forall|i: int| 0 <= i < pieces(s, c).len() ==> !(#[trigger] pieces(s, c)[i]).contains(c),
    decreases s.len(),
{
    if s.contains(c) {
        s.index_of_first_ensures(c);
        lemma_split_at_first(s, c);
        let rest = pieces(after(s, c), c);
        lemma_pieces(after(s, c), c);
        assert(pieces(s, c).skip(1) =~= rest);
        assert forall|i: int| 0 <= i < pieces(s, c).len() implies !(#[trigger] pieces(s, c)[i]).contains(
            c,
        ) by {
            if i > 0 {
                assert(pieces(s, c)[i] == rest[i - 1]);
            }
        }
    }
}

// ---------------------------------------------------------------------------------------------
// LIKE
// ---------------------------------------------------------------------------------------------

proof fn lemma_like_shift(a: Seq<char>, p: Seq<char>, i: int, b: Seq<char>, v: Seq<char>, j: int)
    requires
        0 <= i,
        0 <= j,
    ensures
        like_from(a + p, a.len() + i, b + v, b.len() + j) == like_from(p, i, v, j),
    decreases p.len() - i, v.len() - j,
{
    if i < p.len() {
        assert((a + p)[a.len() + i] == p[i]);
        lemma_like_shift(a, p, i + 1, b, v, j);
        if j < v.len() {
            assert((b + v)[b.len() + j] == v[j]);
            lemma_like_shift(a, p, i, b, v, j + 1);
            lemma_like_shift(a, p, i + 1, b, v, j + 1);
        }
    }
}

proof fn lemma_like_percent(p: Seq<char>, v: Seq<char>, j: int)
    requires
        0 <= j <= v.len(),
    ensures
        like_from(seq!['%'] + p, 0, v, j) <==> exists|k: int|
            j <= k <= v.len() && like(p, #[trigger] v.skip(k)),
    decreases v.len() - j,
{
    let q = seq!['%'] + p;
    assert(q[0] == '%');
    assert(v =~= v.take(j) + v.skip(j));
    lemma_like_shift(seq!['%'], p, 0, v.take(j), v.skip(j), 0);
    assert(like_from(q, 1, v, j) == like(p, v.skip(j)));
    if j < v.len() {
        lemma_like_percent(p, v, j + 1);
        if like_from(q, 0, v, j) && !like(p, v.skip(j)) {
            let k = choose|k: int| j + 1 <= k <= v.len() && like(p, #[trigger] v.skip(k));
            assert(like(p, v.skip(k)));
        }
        if exists|k: int| j <= k <= v.len() && like(p, #[trigger] v.skip(k)) {
            let k = choose|k: int| j <= k <= v.len() && like(p, #[trigger] v.skip(k));
            if k > j {
                assert(like(p, v.skip(k)));
            }
        }
    } else {
        assert(like_from(q, 0, v, j) == like_from(q, 1, v, j));
    }
}

/// What a pattern matches, by its first character: `%` any run of characters, also an empty one, `_`
/// exactly one, and any other character itself; the rest of the pattern matches what is left. The
/// empty pattern matches only the empty text.
pub proof fn lemma_like(c: char, p: Seq<char>, v: Seq<char>)
    ensures
        like(Seq::empty(), v) <==> v.len() == 0,
        like(seq!['%'] + p, v) <==> exists|k: int|
            0 <= k <= v.len() && like(p, #[trigger] v.skip(k)),
        like(seq!['_'] + p, v) <==> v.len() > 0 && like(p, v.skip(1)),
        c != '%' && c != '_' ==> (like(seq![c] + p, v) <==> v.len() > 0 && v[0] == c && like(
            p,
            v.skip(1),
        )),
{
    lemma_like_percent(p, v, 0);
    if v.len() > 0 {
        assert(v =~= v.take(1) + v.skip(1));
        lemma_like_shift(seq!['_'], p, 0, v.take(1), v.skip(1), 0);
        lemma_like_shift(seq![c], p, 0, v.take(1), v.skip(1), 0);
    }
    assert((seq!['_'] + p)[0] == '_');
    assert((seq![c] + p)[0] == c);
}

// ---------------------------------------------------------------------------------------------
// Groups of rows
// ---------------------------------------------------------------------------------------------

/// The rows of a group are all the rows with its key, each once and in order.
pub proof fn lemma_group_is_all_rows(keys: Seq<Key>, key: Key)
    requires
        keys.len() <= usize::MAX,
    ensures
        forall|i: int|
            0 <= i < group_of(keys, key).len() ==> {
                &&& (#[trigger] group_of(keys, key)[i]) < keys.len()
                &&& keys[group_of(keys, key)[i] as int] == key
            },
        forall|i: int, j: int|
            0 <= i < j < group_of(keys, key).len() ==> #[trigger] group_of(keys, key)[i]
                < #[trigger] group_of(keys, key)[j],
        forall|r: int|
            0 <= r < keys.len() && #[trigger] keys[r] == key ==> group_of(keys, key).contains(
                r as usize,
            ),
{
    lemma_rows_with(keys, key, keys.len() as int);
}

proof fn lemma_rows_with(keys: Seq<Key>, key: Key, n: int)
    requires
        0 <= n <= keys.len() <= usize::MAX,
    ensures
        forall|i: int|
            0 <= i < rows_with(keys, key, n).len() ==> {
                &&& (#[trigger] rows_with(keys, key, n)[i]) < n
                &&& keys[rows_with(keys, key, n)[i] as int] == key
            },
        forall|i: int, j: int|
            0 <= i < j < rows_with(keys, key, n).len() ==> #[trigger] rows_with(keys, key, n)[i]
                < #[trigger] rows_with(keys, key, n)[j],
        forall|r: int|
            0 <= r < n && #[trigger] keys[r] == key ==> rows_with(keys, key, n).contains(
                r as usize,
            ),
    decreases n,
{
    if n > 0 {
        lemma_rows_with(keys, key, n - 1);
        let g0 = rows_with(keys, key, n - 1);
        let g = rows_with(keys, key, n);
        assert forall|r: int| 0 <= r < n && #[trigger] keys[r] == key implies g.contains(
            r as usize,
        ) by {
            if r < n - 1 {
                assert(g0.contains(r as usize));
                let i = choose|i: int| 0 <= i < g0.len() && g0[i] == r as usize;
                assert(g[i] == r as usize);
            } else {
                assert(g[g.len() - 1] == r as usize);
            }
        }
    }
}

} // verus!
