//! What holds of the query-text operations taken together.

use vstd::prelude::*;

use crate::lexer::{
    block_end, has_at, is_ident_char, is_quote, joined, lemma_lexeme_end, lemma_lexemes_partition,
    lemma_word_end, lexeme_at, lexeme_end, lexemes, lexemes_from, line_end, quoted_end, single_end,
    triple_end, word_end, LexemeView,
};
use crate::sql::{
    begins_ddl, begins_dml, first_spellings, has_significant, is_quotable, kept, occurs_in,
    parameters, quoted, references, segments, statements, stripped,
};
use crate::text::{is_whitespace, lemma_trimmed, lowered, same_ignoring_case, trimmed};

verus! {

// ---------------------------------------------------------------------------------------------
// Statements are verbatim, in-order slices
// ---------------------------------------------------------------------------------------------

/// `parts` occur in `s` at the indices `starts`, one behind the other and without overlap.
pub open spec fn in_order_slices(
    parts: Seq<Seq<char>>,
    s: Seq<char>,
    starts: Seq<int>,
) -> bool {
    &&& starts.len() == parts.len()
    &&& forall|k: int|
        0 <= k < parts.len() ==> {
            &&& 0 <= #[trigger] starts[k]
            &&& starts[k] + parts[k].len() <= s.len()
            &&& s.subrange(starts[k], starts[k] + parts[k].len()) == parts[k]
        }
    &&& forall|j: int, k: int|
        0 <= j < k < parts.len() ==> #[trigger] starts[j] + parts[j].len() <= #[trigger] starts[k]
}

/// `segs` with a semicolon between each two of them.
spec fn with_semicolons(segs: Seq<Seq<char>>) -> Seq<char>
    decreases segs.len(),
{
    if segs.len() == 0 {
        Seq::empty()
    } else if segs.len() == 1 {
        segs[0]
    } else {
        with_semicolons(segs.drop_last()) + seq![';'] + segs.last()
    }
}

proof fn lemma_joined_drop_last(ls: Seq<LexemeView>)
    requires
        ls.len() > 0,
    ensures
        joined(ls) == joined(ls.drop_last()) + ls.last().text(),
    decreases ls.len(),
{
    if ls.len() == 1 {
        assert(ls.skip(1) =~= Seq::empty());
        assert(ls.drop_last() =~= Seq::empty());
        assert(joined(ls.skip(1)) =~= Seq::empty());
        assert(joined(ls) =~= ls.last().text());
        assert(joined(ls.drop_last()) + ls.last().text() =~= ls.last().text());
    } else {
        lemma_joined_drop_last(ls.skip(1));
        assert(ls.skip(1).drop_last() =~= ls.drop_last().skip(1));
        assert(joined(ls) =~= joined(ls.drop_last()) + ls.last().text());
    }
}

proof fn lemma_segments_rejoin(ls: Seq<LexemeView>)
    ensures
        segments(ls).len() > 0,
        with_semicolons(segments(ls)) == joined(ls),
    decreases ls.len(),
{
    if ls.len() > 0 {
        lemma_segments_rejoin(ls.drop_last());
        lemma_joined_drop_last(ls);
        let before = segments(ls.drop_last());
        let now = segments(ls);
        if ls.last() == LexemeView::Other(';') {
            assert(now.drop_last() =~= before);
            assert(with_semicolons(now) =~= joined(ls));
        } else {
            assert(now.drop_last() =~= before.drop_last());
            if before.len() > 1 {
                assert(with_semicolons(now) =~= with_semicolons(before) + ls.last().text());
            }
        }
    }
}

proof fn lemma_kept_slices(segs: Seq<Seq<char>>) -> (starts: Seq<int>)
    ensures
        in_order_slices(kept(segs), with_semicolons(segs), starts),
    decreases segs.len(),
{
    if segs.len() == 0 {
        Seq::empty()
    } else {
        let before = segs.drop_last();
        let starts = lemma_kept_slices(before);
        let s0 = with_semicolons(before);
        let s = with_semicolons(segs);
        let offset: int = if segs.len() == 1 {
            0
        } else {
            s0.len() as int + 1
        };
        assert(s0 =~= s.take(s0.len() as int));
        assert(segs.last() =~= s.subrange(offset, s.len() as int));
        assert forall|k: int| 0 <= k < starts.len() implies s.subrange(
            #[trigger] starts[k],
            starts[k] + kept(before)[k].len(),
        ) == kept(before)[k] by {
            assert(s.subrange(starts[k], starts[k] + kept(before)[k].len()) =~= s0.subrange(
                starts[k],
                starts[k] + kept(before)[k].len(),
            ));
        }
        let text = trimmed(segs.last());
        if has_significant(lexemes(text)) {
            lemma_trimmed(segs.last());
            let (i, j) = choose|i: int, j: int|
                #![trigger segs.last().subrange(i, j)]
                {
                    &&& 0 <= i <= j <= segs.last().len()
                    &&& text == segs.last().subrange(i, j)
                    &&& forall|k: int|
                        0 <= k < i || j <= k < segs.last().len() ==> is_whitespace(segs.last()[k])
                };
            assert(s.subrange(offset + i, offset + i + text.len()) =~= text);
            let r = starts.push(offset + i);
            assert(in_order_slices(kept(segs), s, r));
            r
        } else {
            starts
        }
    }
}

proof fn lemma_kept_each(segs: Seq<Seq<char>>, k: int)
    requires
        0 <= k < kept(segs).len(),
    ensures
        has_significant(lexemes(kept(segs)[k])),
        exists|n: int| 0 <= n < segs.len() && kept(segs)[k] == trimmed(#[trigger] segs[n]),
    decreases segs.len(),
{
    if segs.len() > 0 {
        let before = segs.drop_last();
        if k < kept(before).len() {
            lemma_kept_each(before, k);
            let n = choose|n: int|
                0 <= n < before.len() && kept(before)[k] == trimmed(#[trigger] before[n]);
            assert(segs[n] == before[n]);
        } else {
            assert(segs[segs.len() - 1] == segs.last());
        }
    }
}

/// Splitting alters and reorders nothing: the statements of a batch are slices of its text, in
/// order and without overlap; each is trimmed, not empty, and holds more than comments.
pub proof fn lemma_statements_are_verbatim(s: Seq<char>)
    ensures
        exists|starts: Seq<int>| in_order_slices(statements(s), s, starts),
        forall|k: int|
            0 <= k < statements(s).len() ==> {
                &&& (#[trigger] statements(s)[k]).len() > 0
                &&& trimmed(statements(s)[k]) == statements(s)[k]
                &&& has_significant(lexemes(statements(s)[k]))
            },
{
    let segs = segments(lexemes(s));
    lemma_lexemes_partition(s);
    lemma_segments_rejoin(lexemes(s));
    let starts = lemma_kept_slices(segs);
    assert(in_order_slices(statements(s), s, starts));
    assert forall|k: int| 0 <= k < statements(s).len() implies {
        &&& (#[trigger] statements(s)[k]).len() > 0
        &&& trimmed(statements(s)[k]) == statements(s)[k]
        &&& has_significant(lexemes(statements(s)[k]))
    } by {
        lemma_kept_each(segs, k);
        let n = choose|n: int| 0 <= n < segs.len() && kept(segs)[k] == trimmed(#[trigger] segs[n]);
        lemma_trimmed(segs[n]);
        if statements(s)[k].len() == 0 {
            assert(lexemes(statements(s)[k]) =~= Seq::empty());
        }
    }
}

// ---------------------------------------------------------------------------------------------
// Splitting a statement gives it back
// ---------------------------------------------------------------------------------------------

proof fn lemma_word_end_within(s: Seq<char>, a: int, b: int, i: int)
    requires
        0 <= a <= b <= s.len(),
        0 <= i <= b - a,
        b < s.len() ==> is_whitespace(s[b]),
    ensures
        word_end(s, a + i) <= b,
        word_end(s.subrange(a, b), i) + a == word_end(s, a + i),
    decreases b - a - i,
{
    if i < b - a {
        if is_ident_char(s[a + i]) {
            lemma_word_end_within(s, a, b, i + 1);
        }
    }
}

/// The end of a lexeme, seen from a slice: where it is in the whole text, or the slice's own end.
spec fn clipped(end: int, a: int, b: int) -> int {
    if end <= b {
        end - a
    } else {
        b - a
    }
}

proof fn lemma_line_end_within(s: Seq<char>, a: int, b: int, i: int)
    requires
        0 <= a <= b <= s.len(),
        0 <= i <= b - a,
    ensures
        i < b - a || b == s.len() ==> line_end(s.subrange(a, b), i) == clipped(
            line_end(s, a + i),
            a,
            b,
        ),
        line_end(s.subrange(a, b), b - a) == b - a,
    decreases b - a - i,
{
    if i < b - a {
        if s[a + i] != '\n' {
            lemma_line_end_within(s, a, b, i + 1);
            if i + 1 == b - a && b < s.len() {
                lemma_line_end_grows(s, b);
            }
        }
    }
}

proof fn lemma_line_end_grows(s: Seq<char>, i: int)
    requires
        0 <= i < s.len(),
    ensures
        line_end(s, i) > i,
    decreases s.len() - i,
{
    reveal_with_fuel(line_end, 2);
    if s[i] != '\n' && i + 1 < s.len() {
        lemma_line_end_grows(s, i + 1);
    }
}

proof fn lemma_block_end_grows(s: Seq<char>, i: int)
    requires
        0 <= i < s.len(),
    ensures
        block_end(s, i) > i,
    decreases s.len() - i,
{
    if i + 1 < s.len() && !(s[i] == '*' && s[i + 1] == '/') {
        lemma_block_end_grows(s, i + 1);
    }
}

proof fn lemma_block_end_within(s: Seq<char>, a: int, b: int, i: int)
    requires
        0 <= a <= b <= s.len(),
        0 <= i <= b - a,
        b < s.len() ==> is_whitespace(s[b]),
    ensures
        i < b - a || b == s.len() ==> block_end(s.subrange(a, b), i) == clipped(
            block_end(s, a + i),
            a,
            b,
        ),
        block_end(s.subrange(a, b), b - a) == b - a,
    decreases b - a - i,
{
    let t = s.subrange(a, b);
    if i + 1 < b - a {
        if !(s[a + i] == '*' && s[a + i + 1] == '/') {
            lemma_block_end_within(s, a, b, i + 1);
        }
    } else if i < b - a {
        if b < s.len() {
            assert(!(s[a + i] == '*' && s[a + i + 1] == '/'));
            lemma_block_end_grows(s, b);
        }
    }
}

proof fn lemma_single_end_grows(s: Seq<char>, i: int, quote: char)
    requires
        0 <= i < s.len(),
    ensures
        single_end(s, i, quote) > i,
    decreases s.len() - i,
{
    reveal_with_fuel(single_end, 2);
    if s[i] == '\\' {
        if i + 2 < s.len() {
            lemma_single_end_grows(s, i + 2, quote);
        }
    } else if s[i] != quote && i + 1 < s.len() {
        lemma_single_end_grows(s, i + 1, quote);
    }
}

proof fn lemma_single_end_within(s: Seq<char>, a: int, b: int, i: int, quote: char)
    requires
        0 <= a <= b <= s.len(),
        0 <= i,
    ensures
        i < b - a || b == s.len() ==> single_end(s.subrange(a, b), i, quote) == clipped(
            single_end(s, a + i, quote),
            a,
            b,
        ),
        i >= b - a ==> single_end(s.subrange(a, b), i, quote) == b - a,
    decreases b - a + 1 - i,
{
    reveal_with_fuel(single_end, 2);
    if i < b - a {
        if s[a + i] == '\\' {
            lemma_single_end_within(s, a, b, i + 2, quote);
            if i + 2 >= b - a && a + i + 2 < s.len() {
                lemma_single_end_grows(s, a + i + 2, quote);
            }
        } else if s[a + i] != quote {
            lemma_single_end_within(s, a, b, i + 1, quote);
            if i + 1 == b - a && b < s.len() {
                lemma_single_end_grows(s, b, quote);
            }
        }
    }
}

proof fn lemma_triple_end_grows(s: Seq<char>, i: int, quote: char)
    requires
        0 <= i < s.len(),
    ensures
        triple_end(s, i, quote) > i,
    decreases s.len() - i,
{
    reveal_with_fuel(triple_end, 2);
    if s[i] == '\\' {
        if i + 2 < s.len() {
            lemma_triple_end_grows(s, i + 2, quote);
        }
    } else if !(s[i] == quote && has_at(s, i + 1, quote) && has_at(s, i + 2, quote)) && i + 1
        < s.len() {
        lemma_triple_end_grows(s, i + 1, quote);
    }
}

proof fn lemma_triple_end_within(s: Seq<char>, a: int, b: int, i: int, quote: char)
    requires
        0 <= a <= b <= s.len(),
        0 <= i,
        b < s.len() ==> is_whitespace(s[b]),
        is_quote(quote),
    ensures
        i < b - a || b == s.len() ==> triple_end(s.subrange(a, b), i, quote) == clipped(
            triple_end(s, a + i, quote),
            a,
            b,
        ),
        i >= b - a ==> triple_end(s.subrange(a, b), i, quote) == b - a,
    decreases b - a + 1 - i,
{
    reveal_with_fuel(triple_end, 2);
    let t = s.subrange(a, b);
    if i < b - a {
        if s[a + i] == '\\' {
            lemma_triple_end_within(s, a, b, i + 2, quote);
            if i + 2 >= b - a && a + i + 2 < s.len() {
                lemma_triple_end_grows(s, a + i + 2, quote);
            }
        } else {
            assert(has_at(t, i + 1, quote) && has_at(t, i + 2, quote) <==> has_at(
                s,
                a + i + 1,
                quote,
            ) && has_at(s, a + i + 2, quote));
            if !(s[a + i] == quote && has_at(t, i + 1, quote) && has_at(t, i + 2, quote)) {
                lemma_triple_end_within(s, a, b, i + 1, quote);
                if i + 1 == b - a && b < s.len() {
                    lemma_triple_end_grows(s, b, quote);
                }
            }
        }
    }
}

/// Cutting a text off before white space does not change where its lexemes begin, nor what they
/// are, save that the last one may lose its end.
proof fn lemma_lexeme_within(s: Seq<char>, a: int, b: int, i: int)
    requires
        0 <= a <= a + i < b <= s.len(),
        0 <= i,
        b < s.len() ==> is_whitespace(s[b]),
    ensures
        lexeme_end(s.subrange(a, b), i) == clipped(lexeme_end(s, a + i), a, b),
        lexeme_at(s.subrange(a, b), i) == LexemeView::Other(';') <==> lexeme_at(s, a + i)
            == LexemeView::Other(';'),
{
    let t = s.subrange(a, b);
    let c = s[a + i];
    assert(t[i] == c);
    lemma_lexeme_end(s, a + i);
    if is_quote(c) {
        assert(has_at(t, i + 1, c) <==> has_at(s, a + i + 1, c));
        if has_at(s, a + i + 1, c) {
            assert(has_at(t, i + 2, c) <==> has_at(s, a + i + 2, c));
        }
        lemma_single_end_within(s, a, b, i + 1, c);
        if a + i + 1 == b && b < s.len() {
            lemma_single_end_grows(s, b, c);
        }
        lemma_triple_end_within(s, a, b, i + 3, c);
        if a + i + 3 == b && b < s.len() {
            lemma_triple_end_grows(s, b, c);
        }
    } else {
        assert(has_at(t, i + 1, '-') <==> has_at(s, a + i + 1, '-'));
        assert(has_at(t, i + 1, '*') <==> has_at(s, a + i + 1, '*'));
        if c == '#' || (c == '-' && has_at(s, a + i + 1, '-')) {
            lemma_line_end_within(s, a, b, i + 1);
            if a + i + 1 == b && b < s.len() {
                lemma_line_end_grows(s, b);
            }
        } else if c == '/' && has_at(s, a + i + 1, '*') {
            lemma_block_end_within(s, a, b, i + 2);
            if a + i + 2 == b && b < s.len() {
                lemma_block_end_grows(s, b);
            }
        } else if is_ident_char(c) {
            lemma_word_end_within(s, a, b, i + 1);
        }
    }
}

/// Whether the lexemes from `a` on reach `c` exactly, with no semicolon among them.
spec fn runs_to(s: Seq<char>, a: int, c: int) -> bool
    decreases c - a,
    when 0 <= a && c <= s.len()
    via runs_to_decreases
{
    if a >= c {
        a == c
    } else {
        lexeme_at(s, a) != LexemeView::Other(';') && lexeme_end(s, a) <= c && runs_to(
            s,
            lexeme_end(s, a),
            c,
        )
    }
}

#[via_fn]
proof fn runs_to_decreases(s: Seq<char>, a: int, c: int) {
    if a < c {
        lemma_lexeme_end(s, a);
    }
}

proof fn lemma_runs_to_extends(s: Seq<char>, a: int, p: int)
    requires
        0 <= a <= p < s.len(),
        runs_to(s, a, p),
        lexeme_at(s, p) != LexemeView::Other(';'),
    ensures
        runs_to(s, a, lexeme_end(s, p)),
    decreases p - a,
{
    lemma_lexeme_end(s, p);
    if a < p {
        lemma_lexeme_end(s, a);
        lemma_runs_to_extends(s, lexeme_end(s, a), p);
    } else {
        assert(runs_to(s, lexeme_end(s, p), lexeme_end(s, p)));
    }
}

/// `seg` is the text of a run of lexemes of `s` without semicolons.
spec fn is_run(s: Seq<char>, seg: Seq<char>) -> bool {
    exists|a: int, c: int|
        #![trigger s.subrange(a, c)]
        0 <= a <= c <= s.len() && runs_to(s, a, c) && seg == s.subrange(a, c)
}

/// Each segment is a run of lexemes. `done` are the lexemes before index `p`, `a` is where the last
/// segment begins.
proof fn lemma_segments_are_runs(s: Seq<char>, done: Seq<LexemeView>, a: int, p: int)
    requires
        0 <= a <= p <= s.len(),
        runs_to(s, a, p),
        done + lexemes_from(s, p) == lexemes(s),
        segments(done).len() > 0,
        segments(done).last() == s.subrange(a, p),
        forall|n: int| 0 <= n < segments(done).len() ==> is_run(s, #[trigger] segments(done)[n]),
    ensures
        forall|n: int|
            0 <= n < segments(lexemes(s)).len() ==> is_run(
                s,
                #[trigger] segments(lexemes(s))[n],
            ),
    decreases s.len() - p,
{
    if p >= s.len() {
        assert(done + Seq::<LexemeView>::empty() =~= done);
    } else {
        lemma_lexeme_end(s, p);
        let l = lexeme_at(s, p);
        let end = lexeme_end(s, p);
        let now = done.push(l);
        assert(now + lexemes_from(s, end) =~= done + (seq![l] + lexemes_from(s, end)));
        assert(now.drop_last() =~= done);
        if l == LexemeView::Other(';') {
            assert(runs_to(s, end, end));
            assert(s.subrange(end, end) =~= Seq::empty());
            assert(is_run(s, s.subrange(end, end)));
            assert forall|n: int| 0 <= n < segments(now).len() implies is_run(
                s,
                #[trigger] segments(now)[n],
            ) by {
                if n < segments(done).len() {
                    assert(segments(now)[n] == segments(done)[n]);
                }
            }
            lemma_segments_are_runs(s, now, end, end);
        } else {
            lemma_runs_to_extends(s, a, p);
            assert(s.subrange(a, p) + s.subrange(p, end) =~= s.subrange(a, end));
            assert(is_run(s, s.subrange(a, end)));
            assert forall|n: int| 0 <= n < segments(now).len() implies is_run(
                s,
                #[trigger] segments(now)[n],
            ) by {
                if n < segments(done).len() - 1 {
                    assert(segments(now)[n] == segments(done)[n]);
                }
            }
            lemma_segments_are_runs(s, now, a, end);
        }
    }
}

/// Leading white space of a run can be left out of it.
proof fn lemma_runs_to_after_whitespace(s: Seq<char>, a: int, c: int, i: int)
    requires
        0 <= a <= a + i <= c <= s.len(),
        0 <= i,
        runs_to(s, a, c),
        forall|k: int| a <= k < a + i ==> is_whitespace(s[k]),
    ensures
        runs_to(s, a + i, c),
    decreases i,
{
    if i > 0 {
        assert(is_whitespace(s[a]));
        assert(lexeme_end(s, a) == a + 1);
        lemma_runs_to_after_whitespace(s, a + 1, c, i - 1);
    }
}

/// The lexemes of a slice that begins and ends with a run, or inside its last lexeme before white
/// space, hold no semicolon.
proof fn lemma_no_semicolon(s: Seq<char>, a: int, b: int, c: int, i: int)
    requires
        0 <= a <= b <= c <= s.len(),
        0 <= i <= b - a,
        runs_to(s, a + i, c) || i == b - a,
        b < s.len() && b < c ==> is_whitespace(s[b]),
    ensures
        forall|k: int|
            0 <= k < lexemes_from(s.subrange(a, b), i).len() ==> #[trigger] lexemes_from(
                s.subrange(a, b),
                i,
            )[k] != LexemeView::Other(';'),
    decreases b - a - i,
{
    let t = s.subrange(a, b);
    if i < b - a {
        lemma_lexeme_end(t, i);
        lemma_lexeme_end(s, a + i);
        if b == c && c < s.len() {
            let u = s.take(c);
            lemma_lexeme_before_semicolon(s, c, a + i);
            assert(u.subrange(a, b) =~= t);
            lemma_lexeme_within(u, a, b, i);
        } else {
            lemma_lexeme_within(s, a, b, i);
        }
        lemma_no_semicolon(s, a, b, c, lexeme_end(t, i));
        let rest = lexemes_from(t, lexeme_end(t, i));
        assert forall|k: int| 0 <= k < lexemes_from(t, i).len() implies #[trigger] lexemes_from(
            t,
            i,
        )[k] != LexemeView::Other(';') by {
            if k > 0 {
                assert(lexemes_from(t, i)[k] == rest[k - 1]);
            }
        }
    }
}

proof fn lemma_ends_agree(s: Seq<char>, e: int, i: int, quote: char)
    requires
        0 <= i <= e <= s.len(),
    ensures
        word_end(s, i) <= e ==> word_end(s.take(e), i) == word_end(s, i),
        line_end(s, i) <= e ==> line_end(s.take(e), i) == line_end(s, i),
        block_end(s, i) <= e ==> block_end(s.take(e), i) == block_end(s, i),
        single_end(s, i, quote) <= e ==> single_end(s.take(e), i, quote) == single_end(s, i, quote),
        triple_end(s, i, quote) <= e ==> triple_end(s.take(e), i, quote) == triple_end(s, i, quote),
    decreases e - i,
{
    reveal_with_fuel(word_end, 2);
    reveal_with_fuel(line_end, 2);
    reveal_with_fuel(block_end, 2);
    reveal_with_fuel(single_end, 2);
    reveal_with_fuel(triple_end, 2);
    let t = s.take(e);
    if i < e {
        lemma_ends_agree(s, e, i + 1, quote);
        if i + 2 <= e {
            lemma_ends_agree(s, e, i + 2, quote);
        } else if i + 2 < s.len() {
            lemma_single_end_grows(s, i + 2, quote);
            lemma_triple_end_grows(s, i + 2, quote);
        }
        if i + 1 < s.len() {
            lemma_block_end_grows(s, i + 1);
            lemma_triple_end_grows(s, i + 1, quote);
        }
        assert(has_at(t, i + 1, quote) ==> has_at(s, i + 1, quote));
        assert(has_at(t, i + 2, quote) ==> has_at(s, i + 2, quote));
    } else if i < s.len() {
        lemma_word_end(s, i + 1);
        lemma_line_end_grows(s, i);
        lemma_block_end_grows(s, i);
        lemma_single_end_grows(s, i, quote);
        lemma_triple_end_grows(s, i, quote);
    }
}

/// A lexeme that ends no later than `e` is the same lexeme in the text cut off at `e`.
proof fn lemma_lexeme_before_semicolon(s: Seq<char>, e: int, i: int)
    requires
        0 <= i < e <= s.len(),
        runs_to(s, i, e),
    ensures
        lexeme_end(s.take(e), i) == lexeme_end(s, i),
        lexeme_end(s, i) <= e,
        lexeme_at(s.take(e), i) == lexeme_at(s, i),
{
    let t = s.take(e);
    let c = s[i];
    lemma_lexeme_end(s, i);
    assert(lexeme_end(s, i) <= e);
    assert(t[i] == c);
    if i + 1 <= e {
        lemma_ends_agree(s, e, i + 1, c);
    }
    if i + 2 <= e {
        lemma_ends_agree(s, e, i + 2, c);
    }
    if i + 3 <= e {
        lemma_ends_agree(s, e, i + 3, c);
    }
    assert(t.subrange(i, lexeme_end(s, i)) =~= s.subrange(i, lexeme_end(s, i)));
    if is_quote(c) {
        if i + 1 < s.len() {
            lemma_single_end_grows(s, i + 1, c);
        }
        if i + 3 < s.len() {
            lemma_triple_end_grows(s, i + 3, c);
        }
    } else if c == '/' && has_at(s, i + 1, '*') {
        if i + 2 < s.len() {
            lemma_block_end_grows(s, i + 2);
        }
    } else if c == '-' && has_at(s, i + 1, '-') {
        lemma_line_end_grows(s, i + 1);
    }
}

proof fn lemma_segments_without_semicolon(ls: Seq<LexemeView>)
    requires
        forall|k: int| 0 <= k < ls.len() ==> #[trigger] ls[k] != LexemeView::Other(';'),
    ensures
        segments(ls) == seq![joined(ls)],
    decreases ls.len(),
{
    if ls.len() > 0 {
        assert forall|k: int| 0 <= k < ls.drop_last().len() implies #[trigger] ls.drop_last()[k]
            != LexemeView::Other(';') by {
            assert(ls[k] == ls.drop_last()[k]);
        }
        lemma_segments_without_semicolon(ls.drop_last());
        lemma_joined_drop_last(ls);
        assert(ls[ls.len() - 1] == ls.last());
        assert(segments(ls) =~= seq![joined(ls)]);
    } else {
        assert(segments(ls) =~= seq![joined(ls)]);
    }
}

/// A statement of a batch is a batch of one: splitting it gives it back, and stripping it changes
/// nothing.
pub proof fn lemma_statement_is_one_statement(s: Seq<char>, k: int)
    requires
        0 <= k < statements(s).len(),
    ensures
        statements(statements(s)[k]) == seq![statements(s)[k]],
        stripped(statements(s)[k]) == statements(s)[k],
{
    let segs = segments(lexemes(s));
    let t = statements(s)[k];
    lemma_kept_each(segs, k);
    let n = choose|n: int| 0 <= n < segs.len() && kept(segs)[k] == trimmed(#[trigger] segs[n]);
    assert(s.subrange(0, 0) =~= Seq::empty());
    assert(segments(Seq::<LexemeView>::empty()) =~= seq![s.subrange(0, 0)]);
    assert(Seq::<LexemeView>::empty() + lexemes_from(s, 0) =~= lexemes(s));
    assert(is_run(s, s.subrange(0, 0)));
    lemma_segments_are_runs(s, Seq::empty(), 0, 0);
    assert(is_run(s, segs[n]));
    let (a, c) = choose|a: int, c: int|
        #![trigger s.subrange(a, c)]
        0 <= a <= c <= s.len() && runs_to(s, a, c) && segs[n] == s.subrange(a, c);
    lemma_trimmed(segs[n]);
    let (i, j) = choose|i: int, j: int|
        #![trigger segs[n].subrange(i, j)]
        {
            &&& 0 <= i <= j <= segs[n].len()
            &&& trimmed(segs[n]) == segs[n].subrange(i, j)
            &&& forall|m: int| 0 <= m < i || j <= m < segs[n].len() ==> is_whitespace(segs[n][m])
        };
    assert(t =~= s.subrange(a + i, a + j));
    assert forall|m: int| a <= m < a + i implies is_whitespace(s[m]) by {
        assert(s[m] == segs[n][m - a]);
    }
    lemma_runs_to_after_whitespace(s, a, c, i);
    if a + j < c {
        assert(s[a + j] == segs[n][j]);
    }
    lemma_no_semicolon(s, a + i, a + j, c, 0);
    lemma_segments_without_semicolon(lexemes(t));
    lemma_lexemes_partition(t);
    assert(segments(lexemes(t)).drop_last() =~= Seq::empty());
    assert(kept(segments(lexemes(t)).drop_last()) =~= Seq::empty());
    assert(statements(t) =~= seq![t]);
}

// ---------------------------------------------------------------------------------------------
// Classification
// ---------------------------------------------------------------------------------------------

/// No text begins with both a DDL and a DML statement.
pub proof fn lemma_ddl_and_dml_exclude_each_other(s: Seq<char>)
    ensures
        !(begins_ddl(s) && begins_dml(s)),
{
    if begins_ddl(s) && begins_dml(s) {
        let k = crate::sql::keyword_of(lexemes(s))->0;
        reveal_strlit("CREATE");
        reveal_strlit("DROP");
        reveal_strlit("ALTER");
        reveal_strlit("RENAME");
        reveal_strlit("GRANT");
        reveal_strlit("REVOKE");
        reveal_strlit("ANALYZE");
        reveal_strlit("INSERT");
        reveal_strlit("UPDATE");
        reveal_strlit("DELETE");
        let n = lowered(k).len();
        assert(n == k.len());
        assert(lowered("DROP"@).len() == 4);
        assert(lowered("ALTER"@).len() == 5);
        assert(lowered("GRANT"@).len() == 5);
        assert(lowered("ANALYZE"@).len() == 7);
        assert(lowered("INSERT"@).len() == 6);
        assert(lowered("UPDATE"@).len() == 6);
        assert(lowered("DELETE"@).len() == 6);
        let first = lowered(k)[0];
        assert(lowered("CREATE"@)[0] == 'c');
        assert(lowered("RENAME"@)[0] == 'r');
        assert(lowered("REVOKE"@)[0] == 'r');
        assert(lowered("INSERT"@)[0] == 'i');
        assert(lowered("UPDATE"@)[0] == 'u');
        assert(lowered("DELETE"@)[0] == 'd');
    }
}

// ---------------------------------------------------------------------------------------------
// Parameters
// ---------------------------------------------------------------------------------------------

proof fn lemma_first_spellings(names: Seq<Seq<char>>)
    ensures
        forall|i: int, j: int|
            0 <= i < j < first_spellings(names).len() ==> !same_ignoring_case(
                #[trigger] first_spellings(names)[i],
                #[trigger] first_spellings(names)[j],
            ),
        forall|i: int|
            0 <= i < names.len() ==> occurs_in(#[trigger] names[i], first_spellings(names)),
        forall|i: int|
            0 <= i < first_spellings(names).len() ==> names.contains(
                #[trigger] first_spellings(names)[i],
            ),
    decreases names.len(),
{
    if names.len() > 0 {
        let before = names.drop_last();
        let name = names.last();
        let f0 = first_spellings(before);
        let f = first_spellings(names);
        lemma_first_spellings(before);
        assert forall|i: int| 0 <= i < f.len() implies names.contains(#[trigger] f[i]) by {
            if i < f0.len() {
                assert(before.contains(f0[i]));
                let m = choose|m: int| 0 <= m < before.len() && before[m] == f0[i];
                assert(names[m] == f[i]);
            } else {
                assert(names[names.len() - 1] == f[i]);
            }
        }
        assert forall|i: int, j: int| 0 <= i < j < f.len() implies !same_ignoring_case(
            #[trigger] f[i],
            #[trigger] f[j],
        ) by {
            if j == f0.len() {
                assert(before.contains(f0[i]));
                let m = choose|m: int| 0 <= m < before.len() && before[m] == f0[i];
                assert(!same_ignoring_case(before[m], name));
            }
        }
        assert forall|i: int| 0 <= i < names.len() implies occurs_in(#[trigger] names[i], f) by {
            if i < before.len() {
                assert(occurs_in(before[i], f0));
                let m = choose|m: int|
                    0 <= m < f0.len() && same_ignoring_case(#[trigger] f0[m], before[i]);
                assert(f[m] == f0[m]);
            } else if occurs_in(name, before) {
                let m = choose|m: int|
                    0 <= m < before.len() && same_ignoring_case(#[trigger] before[m], name);
                assert(occurs_in(before[m], f0));
                let q = choose|q: int|
                    0 <= q < f0.len() && same_ignoring_case(#[trigger] f0[q], before[m]);
                assert(same_ignoring_case(f[q], name));
            } else {
                assert(same_ignoring_case(f[f.len() - 1], name));
            }
        }
    }
}

/// The parameters of a statement are the names it refers to, each exactly once: no two are equal up
/// to case, every reference is among them up to case, and none is made up.
pub proof fn lemma_parameters_are_distinct(s: Seq<char>)
    ensures
        forall|i: int, j: int|
            0 <= i < j < parameters(s).len() ==> !same_ignoring_case(
                #[trigger] parameters(s)[i],
                #[trigger] parameters(s)[j],
            ),
        forall|i: int|
            0 <= i < references(lexemes(s)).len() ==> occurs_in(
                #[trigger] references(lexemes(s))[i],
                parameters(s),
            ),
        forall|i: int|
            0 <= i < parameters(s).len() ==> references(lexemes(s)).contains(
                #[trigger] parameters(s)[i],
            ),
{
    lemma_first_spellings(references(lexemes(s)));
}

// ---------------------------------------------------------------------------------------------
// Quoted identifiers
// ---------------------------------------------------------------------------------------------

proof fn lemma_single_end_of_plain(s: Seq<char>, i: int, quote: char)
    requires
        0 <= i < s.len(),
        s.last() == quote,
        quote != '\\',
        forall|k: int| i <= k < s.len() - 1 ==> #[trigger] s[k] != quote && s[k] != '\\',
    ensures
        single_end(s, i, quote) == s.len(),
    decreases s.len() - i,
{
    if i < s.len() - 1 {
        assert(s[i] != quote);
        lemma_single_end_of_plain(s, i + 1, quote);
    }
}

/// A quoted identifier is one opaque token: it lexes to a single quoted lexeme, and between its two
/// delimiters stands neither a backtick nor a backslash.
pub proof fn lemma_quoted_ident_is_one_token(ident: Seq<char>)
    requires
        is_quotable(ident),
    ensures
        lexemes(quoted(ident)) == seq![LexemeView::Quoted(quoted(ident))],
        forall|i: int|
            0 < i < quoted(ident).len() - 1 ==> #[trigger] quoted(ident)[i] != '`' && quoted(
                ident,
            )[i] != '\\',
{
    let q = quoted(ident);
    assert forall|i: int| 0 < i < q.len() - 1 implies #[trigger] q[i] != '`' && q[i] != '\\' by {
        assert(q[i] == ident[i - 1]);
    }
    lemma_single_end_of_plain(q, 1, '`');
    assert(quoted_end(q, 0) == q.len());
    assert(q.subrange(0, q.len() as int) =~= q);
    assert(lexemes_from(q, q.len() as int) =~= Seq::empty());
    assert(lexemes(q) =~= seq![LexemeView::Quoted(q)]);
}

} // verus!
