//! What splitting, classifying and binding make of a text, said of the text itself.

use vstd::prelude::*;

use crate::lexer::{
    joined, lemma_lexeme_end, lemma_lexemes_partition, lexeme_at, lexeme_end, lexemes,
    lexemes_from, LexemeView,
};
use crate::lexer_laws::{
    is_name, is_name_char, lemma_block_comment, lemma_lexemes_append, lemma_lexemes_drop_last,
    lemma_line_comment, lemma_mark_stands_alone, lemma_name_is_a_word,
};
use crate::sql::{
    after_hint, begins_ddl, begins_dml, case_depth, completes_clause, first_spellings, follows_then,
    has_significant, has_then_return, is_quotable, keyword_of, kept, letters_end, named_schema,
    occurs_in, parameters, quoted, references, segments, skip_blanks, statements, stripped, word_is,
};
use crate::text::{is_whitespace, lemma_trimmed, same_ignoring_case, trimmed};

verus! {

// ---------------------------------------------------------------------------------------------
// Statements
// ---------------------------------------------------------------------------------------------

/// Whether a lexeme is part of a statement: neither a comment nor white space.
pub open spec fn is_substance(l: LexemeView) -> bool {
    match l {
        LexemeView::Word(_) => true,
        LexemeView::Quoted(_) => true,
        LexemeView::Comment(_) => false,
        LexemeView::Other(c) => !is_whitespace(c),
    }
}

/// Whether a text holds anything but comments and white space.
pub open spec fn has_substance(s: Seq<char>) -> bool {
    exists|k: int| 0 <= k < lexemes(s).len() && is_substance(#[trigger] lexemes(s)[k])
}

proof fn lemma_segments_append(x: Seq<LexemeView>, y: Seq<LexemeView>)
    ensures
        segments(x.push(LexemeView::Other(';')) + y) == segments(x) + segments(y),
        segments(y).len() > 0,
    decreases y.len(),
{
    let semi = LexemeView::Other(';');
    let all = x.push(semi) + y;
    if y.len() == 0 {
        assert(all =~= x.push(semi));
        assert(all.drop_last() =~= x);
        assert(segments(all) =~= segments(x) + segments(y));
    } else {
        lemma_segments_append(x, y.drop_last());
        assert(all.drop_last() =~= x.push(semi) + y.drop_last());
        assert(all.last() == y.last());
        assert(segments(all) =~= segments(x) + segments(y));
    }
}

proof fn lemma_kept_append(x: Seq<Seq<char>>, y: Seq<Seq<char>>)
    ensures
        kept(x + y) == kept(x) + kept(y),
    decreases y.len(),
{
    if y.len() == 0 {
        assert(x + y =~= x);
        assert(kept(x) + kept(y) =~= kept(x));
    } else {
        lemma_kept_append(x, y.drop_last());
        assert((x + y).drop_last() =~= x + y.drop_last());
        assert(kept(x + y) =~= kept(x) + kept(y));
    }
}

/// A top-level semicolon parts a text: the statements are those before it and then those behind it,
/// whatever they are and however many. A semicolon is top-level if, with the text ending there, it
/// stands on its own.
pub proof fn lemma_semicolon_parts_statements(a: Seq<char>, b: Seq<char>)
    requires
        lexemes(a.push(';')).len() > 0,
        lexemes(a.push(';')).last() == LexemeView::Other(';'),
    ensures
        statements(a.push(';') + b) == statements(a) + statements(b),
{
    let t = a.push(';');
    lemma_lexemes_append(t, b);
    lemma_lexemes_drop_last(t);
    assert(t.drop_last() =~= a);
    assert(lexemes(t) =~= lexemes(a).push(LexemeView::Other(';')));
    lemma_segments_append(lexemes(a), lexemes(b));
    lemma_kept_append(segments(lexemes(a)), segments(lexemes(b)));
}

proof fn lemma_one_segment(ls: Seq<LexemeView>)
    requires
        !ls.contains(LexemeView::Other(';')),
    ensures
        segments(ls) == seq![joined(ls)],
    decreases ls.len(),
{
    if ls.len() == 0 {
        assert(segments(ls) =~= seq![joined(ls)]);
    } else {
        let before = ls.drop_last();
        assert forall|l: LexemeView| before.contains(l) implies ls.contains(l) by {
            let i = choose|i: int| 0 <= i < before.len() && before[i] == l;
            assert(ls[i] == l);
        }
        lemma_one_segment(before);
        assert(ls.contains(ls.last()));
        lemma_joined_last(ls);
        assert(segments(ls) =~= seq![joined(ls)]);
    }
}

proof fn lemma_joined_last(ls: Seq<LexemeView>)
    requires
        ls.len() > 0,
    ensures
        joined(ls) == joined(ls.drop_last()) + ls.last().text(),
    decreases ls.len(),
{
    if ls.len() == 1 {
        assert(ls.skip(1) =~= Seq::empty());
        assert(ls.drop_last() =~= Seq::empty());
        assert(joined(ls.skip(1)) =~= Seq::empty());
        assert(joined(ls) =~= joined(ls.drop_last()) + ls.last().text());
    } else {
        lemma_joined_last(ls.skip(1));
        assert(ls.skip(1).drop_last() =~= ls.drop_last().skip(1));
        assert(joined(ls) =~= joined(ls.drop_last()) + ls.last().text());
    }
}

/// White space holds no substance, and none is added by it behind a text.
proof fn lemma_substance_from(u: Seq<char>, w: Seq<char>, i: int)
    requires
        0 <= i <= u.len() + w.len(),
        forall|k: int| 0 <= k < w.len() ==> is_whitespace(#[trigger] w[k]),
    ensures
        i >= u.len() ==> !has_significant(lexemes_from(u + w, i)),
        i <= u.len() ==> has_significant(lexemes_from(u + w, i)) == has_significant(
            lexemes_from(u, i),
        ),
    decreases u.len() + w.len() - i,
{
    let s = u + w;
    if i < s.len() {
        lemma_lexeme_end(s, i);
        let end = lexeme_end(s, i);
        let rest = lexemes_from(s, end);
        lemma_substance_from(u, w, end);
        let all = lexemes_from(s, i);
        assert(all =~= seq![lexeme_at(s, i)] + rest);
        lemma_significant_head(lexeme_at(s, i), rest);
        if i >= u.len() {
            assert(s[i] == w[i - u.len()]);
            assert(lexeme_at(s, i) == LexemeView::Other(s[i]));
            if i == u.len() {
                assert(lexemes_from(u, i) =~= Seq::empty());
            }
        } else {
            lemma_lexeme_end(u, i);
            let inner = lexeme_end(u, i);
            let tail = lexemes_from(u, inner);
            assert(lexemes_from(u, i) =~= seq![lexeme_at(u, i)] + tail);
            lemma_significant_head(lexeme_at(u, i), tail);
            assert(s[i] == u[i]);
            if i + 1 < s.len() {
                if i + 1 < u.len() {
                    assert(s[i + 1] == u[i + 1]);
                } else {
                    assert(s[i + 1] == w[0]);
                }
            }
            assert(lexeme_at(s, i).is_blank() == lexeme_at(u, i).is_blank());
            assert(u =~= s.take(u.len() as int));
            if end <= u.len() {
                crate::lexer_laws::lemma_lexeme_cut(s, u.len() as int, i);
            } else {
                crate::lexer_laws::lemma_lexeme_cut_inside(s, u.len() as int, i);
                assert(tail =~= Seq::empty());
            }
        }
    } else if i == u.len() {
        assert(lexemes_from(u, i) =~= Seq::empty());
        assert(lexemes_from(s, i) =~= Seq::empty());
    }
}

proof fn lemma_significant_head(l: LexemeView, rest: Seq<LexemeView>)
    ensures
        has_significant(seq![l] + rest) == (!l.is_blank() || has_significant(rest)),
{
    let all = seq![l] + rest;
    if !l.is_blank() {
        assert(!all[0].is_blank());
    }
    if has_significant(rest) {
        let k = choose|k: int| 0 <= k < rest.len() && !(#[trigger] rest[k]).is_blank();
        assert(!all[k + 1].is_blank());
    }
    if has_significant(all) {
        let k = choose|k: int| 0 <= k < all.len() && !(#[trigger] all[k]).is_blank();
        if k > 0 {
            assert(!rest[k - 1].is_blank());
        }
    }
}

proof fn lemma_whitespace_first(w: Seq<char>, u: Seq<char>)
    requires
        forall|k: int| 0 <= k < w.len() ==> is_whitespace(#[trigger] w[k]),
    ensures
        lexemes(w + u).len() == w.len() + lexemes(u).len(),
        forall|k: int| 0 <= k < w.len() ==> #[trigger] lexemes(w + u)[k] == LexemeView::Other(w[k]),
        lexemes(w + u).skip(w.len() as int) == lexemes(u),
    decreases w.len(),
{
    if w.len() == 0 {
        assert(w + u =~= u);
        assert(lexemes(u).skip(0) =~= lexemes(u));
    } else {
        let rest = w.skip(1);
        assert forall|k: int| 0 <= k < rest.len() implies is_whitespace(#[trigger] rest[k]) by {
            assert(rest[k] == w[k + 1]);
        }
        lemma_whitespace_first(rest, u);
        assert(is_whitespace(w[0]));
        lemma_mark_stands_alone(w[0], rest + u);
        assert(w + u =~= seq![w[0]] + (rest + u));
        let ls = lexemes(w + u);
        assert(ls.skip(w.len() as int) =~= lexemes(rest + u).skip(rest.len() as int));
        assert forall|k: int| 0 <= k < w.len() implies #[trigger] ls[k] == LexemeView::Other(
            w[k],
        ) by {
            if k > 0 {
                assert(ls[k] == lexemes(rest + u)[k - 1]);
                assert(w[k] == rest[k - 1]);
            }
        }
    }
}

/// Trimming a text changes nothing about whether it holds substance.
proof fn lemma_trimming_keeps_substance(t: Seq<char>)
    ensures
        has_significant(lexemes(trimmed(t))) == has_significant(lexemes(t)),
{
    lemma_trimmed(t);
    let (i, j) = choose|i: int, j: int|
        #![trigger t.subrange(i, j)]
        {
            &&& 0 <= i <= j <= t.len()
            &&& trimmed(t) == t.subrange(i, j)
            &&& forall|k: int| 0 <= k < i || j <= k < t.len() ==> is_whitespace(t[k])
        };
    let w1 = t.take(i);
    let u = t.subrange(i, j);
    let w2 = t.skip(j);
    assert(t =~= w1 + (u + w2));
    lemma_substance_from(u, w2, 0);
    lemma_whitespace_first(w1, u + w2);
    let ls = lexemes(t);
    let inner = lexemes(u + w2);
    if has_significant(ls) {
        let k = choose|k: int| 0 <= k < ls.len() && !(#[trigger] ls[k]).is_blank();
        if k < w1.len() {
            assert(ls[k] == LexemeView::Other(w1[k]));
            assert(is_whitespace(t[k]));
        }
        assert(inner[k - w1.len()] == ls[k]);
    }
    if has_significant(inner) {
        let k = choose|k: int| 0 <= k < inner.len() && !(#[trigger] inner[k]).is_blank();
        assert(ls[k + w1.len()] == inner[k]);
    }
}

/// A text without a top-level semicolon is one statement, trimmed, if it holds anything but comments
/// and white space, and none if it does not.
pub proof fn lemma_text_without_semicolon_is_one_statement(t: Seq<char>)
    requires
        !lexemes(t).contains(LexemeView::Other(';')),
    ensures
        has_substance(t) ==> statements(t) == seq![trimmed(t)],
        !has_substance(t) ==> statements(t) == Seq::<Seq<char>>::empty(),
{
    lemma_one_segment(lexemes(t));
    lemma_lexemes_partition(t);
    lemma_trimming_keeps_substance(t);
    assert(has_substance(t) == has_significant(lexemes(t))) by {
        if has_substance(t) {
            let k = choose|k: int| 0 <= k < lexemes(t).len() && is_substance(#[trigger] lexemes(t)[k]);
            assert(!lexemes(t)[k].is_blank());
        }
        if has_significant(lexemes(t)) {
            let k = choose|k: int| 0 <= k < lexemes(t).len() && !(#[trigger] lexemes(t)[k]).is_blank();
            assert(is_substance(lexemes(t)[k]));
        }
    }
    let segs = segments(lexemes(t));
    assert(segs.drop_last() =~= Seq::<Seq<char>>::empty());
    assert(kept(segs.drop_last()) =~= Seq::<Seq<char>>::empty());
    assert(segs.last() == t);
    if has_substance(t) {
        assert(statements(t) =~= seq![trimmed(t)]);
    }
}

// ---------------------------------------------------------------------------------------------
// Plain texts
// ---------------------------------------------------------------------------------------------

/// Whether a text holds no character that could begin a literal, a quoted name or a comment.
pub open spec fn is_plain(s: Seq<char>) -> bool {
    &&& !s.contains('\'')
    &&& !s.contains('"')
    &&& !s.contains('`')
    &&& !s.contains('#')
    &&& !s.contains('-')
    &&& !s.contains('/')
}

proof fn lemma_plain_skip(s: Seq<char>, n: int)
    requires
        is_plain(s),
        0 <= n <= s.len(),
    ensures
        is_plain(s.skip(n)),
{
    assert forall|c: char| s.skip(n).contains(c) implies s.contains(c) by {
        let i = choose|i: int| 0 <= i < s.skip(n).len() && s.skip(n)[i] == c;
        assert(s[i + n] == c);
    }
}

/// The name at the front of a text.
proof fn lemma_name_at_front(s: Seq<char>) -> (n: int)
    requires
        s.len() > 0,
        is_name_char(s[0]),
    ensures
        0 < n <= s.len(),
        is_name(s.take(n)),
        n < s.len() ==> !is_name_char(s[n]),
    decreases s.len(),
{
    if s.len() == 1 || !is_name_char(s[1]) {
        assert(is_name(s.take(1)));
        1
    } else {
        let m = lemma_name_at_front(s.skip(1));
        assert forall|k: int| 0 <= k < m + 1 implies is_name_char(#[trigger] s.take(m + 1)[k]) by {
            if k > 0 {
                assert(s.take(m + 1)[k] == s.skip(1).take(m)[k - 1]);
            }
        }
        m + 1
    }
}

/// The lexemes of a plain text are words and marks, and behind a semicolon lexing starts afresh.
proof fn lemma_plain_lexemes(a: Seq<char>)
    requires
        is_plain(a),
    ensures
        lexemes(a.push(';')) == lexemes(a).push(LexemeView::Other(';')),
        lexemes(a).contains(LexemeView::Other(';')) ==> a.contains(';'),
        has_substance(a) <==> exists|k: int| 0 <= k < a.len() && !is_whitespace(#[trigger] a[k]),
    decreases a.len(),
{
    let semi = LexemeView::Other(';');
    let s = a.push(';');
    if a.len() == 0 {
        lemma_mark_stands_alone(';', Seq::empty());
        assert(seq![';'] + Seq::<char>::empty() =~= s);
        assert(lexemes(Seq::<char>::empty()) =~= Seq::empty());
        assert(a =~= Seq::empty());
        assert(lexemes(s) =~= lexemes(a).push(semi));
    } else {
        let n: int = if is_name_char(a[0]) {
            lemma_name_at_front(a)
        } else {
            1
        };
        let rest = a.skip(n);
        lemma_plain_skip(a, n);
        lemma_plain_lexemes(rest);
        assert(s =~= a.take(n) + rest.push(';'));
        assert(a =~= a.take(n) + rest);
        assert(a.contains(a[0]));
        let head = if is_name_char(a[0]) {
            LexemeView::Word(a.take(n))
        } else {
            LexemeView::Other(a[0])
        };
        if is_name_char(a[0]) {
            lemma_name_is_a_word(a.take(n), rest.push(';'));
            lemma_name_is_a_word(a.take(n), rest);
        } else {
            assert(a.take(1) =~= seq![a[0]]);
            lemma_mark_stands_alone(a[0], rest.push(';'));
            lemma_mark_stands_alone(a[0], rest);
        }
        let ls = lexemes(a);
        assert(ls == seq![head] + lexemes(rest));
        assert(lexemes(s) =~= ls.push(semi));
        if ls.contains(semi) {
            let k = choose|k: int| 0 <= k < ls.len() && ls[k] == semi;
            if k > 0 {
                assert(lexemes(rest)[k - 1] == semi);
                assert(lexemes(rest).contains(semi));
                let i = choose|i: int| 0 <= i < rest.len() && rest[i] == ';';
                assert(a[i + n] == ';');
            }
        }
        if has_substance(a) {
            let k = choose|k: int| 0 <= k < ls.len() && is_substance(#[trigger] ls[k]);
            if k > 0 {
                assert(is_substance(lexemes(rest)[k - 1]));
                assert(has_substance(rest));
                let i = choose|i: int| 0 <= i < rest.len() && !is_whitespace(#[trigger] rest[i]);
                assert(!is_whitespace(a[i + n]));
            } else {
                assert(!is_whitespace(a[0]));
            }
        }
        if exists|k: int| 0 <= k < a.len() && !is_whitespace(#[trigger] a[k]) {
            let k = choose|k: int| 0 <= k < a.len() && !is_whitespace(#[trigger] a[k]);
            if k >= n {
                assert(!is_whitespace(rest[k - n]));
                assert(has_substance(rest));
                let i = choose|i: int|
                    0 <= i < lexemes(rest).len() && is_substance(#[trigger] lexemes(rest)[i]);
                assert(ls[i + 1] == lexemes(rest)[i]);
            } else {
                assert(ls[0] == head);
                assert(is_substance(ls[0]));
            }
        }
    }
}

/// `parts` with a semicolon between each two of them.
pub open spec fn with_semicolons_between(parts: Seq<Seq<char>>) -> Seq<char>
    decreases parts.len(),
{
    if parts.len() == 0 {
        Seq::empty()
    } else if parts.len() == 1 {
        parts[0]
    } else {
        parts[0].push(';') + with_semicolons_between(parts.skip(1))
    }
}

/// Nothing is lost: texts without literals, comments and semicolons, written with semicolons between
/// them, come out one by one, trimmed and in order, however many they are.
pub proof fn lemma_plain_statements_come_out(parts: Seq<Seq<char>>)
    requires
        forall|i: int|
            0 <= i < parts.len() ==> {
                &&& is_plain(#[trigger] parts[i])
                &&& !parts[i].contains(';')
                &&& exists|k: int| 0 <= k < parts[i].len() && !is_whitespace(parts[i][k])
            },
    ensures
        statements(with_semicolons_between(parts)) == parts.map_values(
            |p: Seq<char>| trimmed(p),
        ),
    decreases parts.len(),
{
    let s = with_semicolons_between(parts);
    let want = parts.map_values(|p: Seq<char>| trimmed(p));
    if parts.len() == 0 {
        assert(lexemes(s) =~= Seq::empty());
        lemma_text_without_semicolon_is_one_statement(s);
        assert(want =~= Seq::empty());
    } else {
        let p = parts[0];
        lemma_plain_lexemes(p);
        let k = choose|k: int| 0 <= k < p.len() && !is_whitespace(p[k]);
        assert(!is_whitespace(p[k]));
        lemma_text_without_semicolon_is_one_statement(p);
        if parts.len() == 1 {
            assert(want =~= seq![trimmed(p)]);
        } else {
            let rest = parts.skip(1);
            assert forall|i: int| 0 <= i < rest.len() implies {
                &&& is_plain(#[trigger] rest[i])
                &&& !rest[i].contains(';')
                &&& exists|k: int| 0 <= k < rest[i].len() && !is_whitespace(rest[i][k])
            } by {
                assert(rest[i] == parts[i + 1]);
            }
            lemma_plain_statements_come_out(rest);
            lemma_semicolon_parts_statements(p, with_semicolons_between(rest));
            assert(want =~= seq![trimmed(p)] + rest.map_values(|p: Seq<char>| trimmed(p)));
        }
    }
}

/// Terminators behind the only statement of a text are stripped with the white space around it; a
/// text with more than one statement, or none, is left as it is.
pub proof fn lemma_terminators_are_stripped(a: Seq<char>, b: Seq<char>)
    requires
        !lexemes(a).contains(LexemeView::Other(';')),
        lexemes(a.push(';')).len() > 0,
        lexemes(a.push(';')).last() == LexemeView::Other(';'),
    ensures
        has_substance(a) && statements(b).len() == 0 ==> stripped(a.push(';') + b) == trimmed(a),
        has_substance(a) && statements(b).len() > 0 ==> stripped(a.push(';') + b) == a.push(';')
            + b,
        !has_substance(a) && statements(b).len() == 0 ==> stripped(a.push(';') + b) == a.push(
            ';',
        ) + b,
{
    lemma_semicolon_parts_statements(a, b);
    lemma_text_without_semicolon_is_one_statement(a);
    if statements(b).len() == 0 {
        assert(statements(b) =~= Seq::empty());
        assert(statements(a) + statements(b) =~= statements(a));
    }
}

// ---------------------------------------------------------------------------------------------
// Parameters
// ---------------------------------------------------------------------------------------------

pub open spec fn is_letter(c: char) -> bool {
    ('a' <= c && c <= 'z') || ('A' <= c && c <= 'Z')
}

/// Whether an `@` written behind a text stands on its own there, and is the first that does.
pub open spec fn takes_parameter(a: Seq<char>) -> bool {
    &&& lexemes(a.push('@')).len() > 0
    &&& lexemes(a.push('@')).last() == LexemeView::Other('@')
    &&& !lexemes(a).contains(LexemeView::Other('@'))
}

/// `names` without those that are `name` up to the case of their letters.
pub open spec fn without_name(names: Seq<Seq<char>>, name: Seq<char>) -> Seq<Seq<char>> {
    names.filter(|m: Seq<char>| !same_ignoring_case(m, name))
}

proof fn lemma_filter_push<T>(s: Seq<T>, x: T, p: spec_fn(T) -> bool)
    ensures
        s.push(x).filter(p) == (if p(x) {
            s.filter(p).push(x)
        } else {
            s.filter(p)
        }),
{
    reveal(Seq::filter);
    assert(s.push(x).drop_last() =~= s);
}

proof fn lemma_first_spelling_first(n: Seq<char>, names: Seq<Seq<char>>)
    ensures
        first_spellings(seq![n] + names) == seq![n] + without_name(first_spellings(names), n),
    decreases names.len(),
{
    let all = seq![n] + names;
    let other = |m: Seq<char>| !same_ignoring_case(m, n);
    reveal(Seq::filter);
    if names.len() == 0 {
        assert(all =~= seq![n]);
        assert(all.drop_last() =~= Seq::<Seq<char>>::empty());
        assert(first_spellings(all.drop_last()) =~= Seq::<Seq<char>>::empty());
        assert(first_spellings(all) =~= seq![n]);
        assert(seq![n] + without_name(first_spellings(names), n) =~= seq![n]);
    } else {
        let before = names.drop_last();
        let x = names.last();
        lemma_first_spelling_first(n, before);
        let all0 = seq![n] + before;
        assert(all.drop_last() =~= all0);
        assert(occurs_in(x, all0) == (same_ignoring_case(n, x) || occurs_in(x, before))) by {
            if occurs_in(x, all0) {
                let i = choose|i: int| 0 <= i < all0.len() && same_ignoring_case(#[trigger] all0[i], x);
                if i > 0 {
                    assert(same_ignoring_case(before[i - 1], x));
                }
            }
            if same_ignoring_case(n, x) {
                assert(same_ignoring_case(all0[0], x));
            }
            if occurs_in(x, before) {
                let i = choose|i: int|
                    0 <= i < before.len() && same_ignoring_case(#[trigger] before[i], x);
                assert(same_ignoring_case(all0[i + 1], x));
            }
        }
        let f0 = first_spellings(before);
        lemma_filter_push(f0, x, other);
        assert(first_spellings(all) =~= seq![n] + without_name(first_spellings(names), n));
    }
}

proof fn lemma_references_behind(x: Seq<LexemeView>, y: Seq<LexemeView>)
    requires
        !x.contains(LexemeView::Other('@')),
    ensures
        references(x + y) == references(y),
    decreases x.len(),
{
    if x.len() == 0 {
        assert(x + y =~= y);
    } else {
        assert(x.contains(x[0]));
        let rest = x.skip(1);
        assert forall|l: LexemeView| rest.contains(l) implies x.contains(l) by {
            let i = choose|i: int| 0 <= i < rest.len() && rest[i] == l;
            assert(x[i + 1] == l);
        }
        lemma_references_behind(rest, y);
        assert((x + y).skip(1) =~= rest + y);
    }
}

/// The lexemes of a text behind the first `@` of another.
proof fn lemma_behind_at(a: Seq<char>, c: Seq<char>)
    requires
        takes_parameter(a),
    ensures
        lexemes(a.push('@') + c) == lexemes(a) + (seq![LexemeView::Other('@')] + lexemes(c)),
        references(lexemes(a.push('@') + c)) == references(
            seq![LexemeView::Other('@')] + lexemes(c),
        ),
{
    let t = a.push('@');
    lemma_lexemes_append(t, c);
    lemma_lexemes_drop_last(t);
    assert(t.drop_last() =~= a);
    let at = LexemeView::Other('@');
    assert(lexemes(t) =~= lexemes(a).push(at));
    assert(lexemes(t + c) =~= lexemes(a) + (seq![at] + lexemes(c)));
    lemma_references_behind(lexemes(a), seq![at] + lexemes(c));
}

/// The name behind an `@` is a parameter: all its letters, digits and underscores, and nothing else.
/// It comes first, and what the rest of the text names follows, without this name again.
pub proof fn lemma_name_is_a_parameter(a: Seq<char>, n: Seq<char>, b: Seq<char>)
    requires
        takes_parameter(a),
        is_name(n),
        is_letter(n[0]) || n[0] == '_',
        b.len() > 0 ==> !is_name_char(b[0]),
    ensures
        parameters(a.push('@') + (n + b)) == seq![n] + without_name(parameters(b), n),
{
    lemma_behind_at(a, n + b);
    lemma_name_is_a_word(n, b);
    let ls = seq![LexemeView::Other('@')] + lexemes(n + b);
    assert(ls.skip(1) =~= lexemes(n + b));
    let rest = lexemes(n + b);
    assert(rest[0] == LexemeView::Word(n));
    assert(skip_blanks(rest) == rest);
    assert(rest.skip(1) =~= lexemes(b));
    assert(references(ls) == seq![n] + references(lexemes(b)));
    lemma_first_spelling_first(n, references(lexemes(b)));
}

/// A parameter alone is the only one.
pub proof fn lemma_parameter_alone(n: Seq<char>)
    requires
        is_name(n),
        is_letter(n[0]) || n[0] == '_',
    ensures
        parameters(seq!['@'] + n) == seq![n],
{
    let none = Seq::<char>::empty();
    lemma_mark_stands_alone('@', none);
    assert(none.push('@') =~= seq!['@'] + none);
    assert(lexemes(none) =~= Seq::empty());
    lemma_name_is_a_parameter(none, n, none);
    assert(none.push('@') + (n + none) =~= seq!['@'] + n);
    assert(references(Seq::<LexemeView>::empty()) =~= Seq::empty());
    assert(parameters(none) =~= Seq::empty());
    reveal(Seq::filter);
    assert(seq![n] + without_name(parameters(none), n) =~= seq![n]);
}

/// A name between backticks behind an `@` is a parameter as it is written.
pub proof fn lemma_quoted_name_is_a_parameter(a: Seq<char>, n: Seq<char>, b: Seq<char>)
    requires
        takes_parameter(a),
        n.len() > 0,
        !n.contains('`') && !n.contains('\\'),
    ensures
        parameters(a.push('@') + (seq!['`'] + n + seq!['`'] + b)) == seq![n] + without_name(
            parameters(b),
            n,
        ),
{
    let q = seq!['`'] + n + seq!['`'];
    lemma_body_without_escapes(n, '`');
    crate::lexer_laws::lemma_quoted_text('`', n, b);
    lemma_behind_at(a, q + b);
    let ls = seq![LexemeView::Other('@')] + lexemes(q + b);
    let rest = lexemes(q + b);
    assert(ls.skip(1) =~= rest);
    assert(rest[0] == LexemeView::Quoted(q));
    assert(skip_blanks(rest) == rest);
    assert(rest.skip(1) =~= lexemes(b));
    assert(!q.contains('\\')) by {
        if q.contains('\\') {
            let i = choose|i: int| 0 <= i < q.len() && q[i] == '\\';
            assert(n[i - 1] == '\\');
        }
    }
    assert(q.subrange(1, q.len() - 1) =~= n);
    assert(references(ls) == seq![n] + references(lexemes(b)));
    lemma_first_spelling_first(n, references(lexemes(b)));
}

proof fn lemma_body_without_escapes(n: Seq<char>, quote: char)
    requires
        !n.contains(quote) && !n.contains('\\'),
    ensures
        crate::lexer_laws::is_quotable_body(n, quote),
    decreases n.len(),
{
    if n.len() > 0 {
        assert(n.contains(n[0]));
        let rest = n.skip(1);
        assert forall|c: char| rest.contains(c) implies n.contains(c) by {
            let i = choose|i: int| 0 <= i < rest.len() && rest[i] == c;
            assert(n[i + 1] == c);
        }
        lemma_body_without_escapes(rest, quote);
    }
}

/// `@@` before a name makes it a system variable, and `@{` opens a hint: neither names a parameter.
pub proof fn lemma_doubled_mark_is_no_parameter(a: Seq<char>, mark: char, b: Seq<char>)
    requires
        takes_parameter(a),
        mark == '@' || mark == '{',
    ensures
        parameters(a.push('@') + (seq![mark] + b)) == parameters(b),
{
    lemma_behind_at(a, seq![mark] + b);
    lemma_mark_stands_alone(mark, b);
    let ls = seq![LexemeView::Other('@')] + lexemes(seq![mark] + b);
    let rest = lexemes(seq![mark] + b);
    assert(ls.skip(1) =~= rest);
    assert(rest[0] == LexemeView::Other(mark));
    assert(skip_blanks(rest) == rest);
    assert(rest.skip(1) =~= lexemes(b));
}

/// White space and comments between an `@` and what follows it do not matter.
pub proof fn lemma_blanks_behind_at(a: Seq<char>, gap: Seq<char>, b: Seq<char>)
    requires
        takes_parameter(a),
        lexemes(gap + b) == lexemes(gap) + lexemes(b),
        forall|k: int| 0 <= k < lexemes(gap).len() ==> !is_substance(#[trigger] lexemes(gap)[k]),
    ensures
        parameters(a.push('@') + (gap + b)) == parameters(a.push('@') + b),
{
    let at = LexemeView::Other('@');
    lemma_behind_at(a, gap + b);
    lemma_behind_at(a, b);
    let with = seq![at] + lexemes(gap + b);
    let without = seq![at] + lexemes(b);
    assert(with.skip(1) =~= lexemes(gap) + lexemes(b));
    assert(without.skip(1) =~= lexemes(b));
    lemma_skip_blanks_over(lexemes(gap), lexemes(b));
}

proof fn lemma_skip_blanks_over(x: Seq<LexemeView>, y: Seq<LexemeView>)
    requires
        forall|k: int| 0 <= k < x.len() ==> !is_substance(#[trigger] x[k]),
    ensures
        skip_blanks(x + y) == skip_blanks(y),
    decreases x.len(),
{
    if x.len() == 0 {
        assert(x + y =~= y);
    } else {
        let rest = x.skip(1);
        assert forall|k: int| 0 <= k < rest.len() implies !is_substance(#[trigger] rest[k]) by {
            assert(rest[k] == x[k + 1]);
        }
        lemma_skip_blanks_over(rest, y);
        assert(!is_substance(x[0]));
        assert((x + y)[0] == x[0]);
        assert((x + y).skip(1) =~= rest + y);
    }
}

proof fn lemma_bound_quote(n: Seq<char>, quote: char)
    requires
        crate::lexer_laws::is_quotable_body(n, quote),
        n.contains(quote),
    ensures
        n.contains('\\'),
    decreases n.len(),
{
    if n[0] != '\\' {
        let rest = n.skip(1);
        let i = choose|i: int| 0 <= i < n.len() && n[i] == quote;
        assert(rest[i - 1] == quote);
        lemma_bound_quote(rest, quote);
        let k = choose|k: int| 0 <= k < rest.len() && rest[k] == '\\';
        assert(n[k + 1] == '\\');
    }
}

/// An `@` before quoted text names nothing where that text is empty, holds a backslash or is not
/// closed.
pub proof fn lemma_quoted_text_that_names_nothing(a: Seq<char>, n: Seq<char>, b: Seq<char>)
    requires
        takes_parameter(a),
        crate::lexer_laws::is_quotable_body(n, '`'),
    ensures
        n.len() == 0 || n.contains('\\') ==> parameters(
            a.push('@') + (seq!['`'] + n + seq!['`'] + b),
        ) == parameters(b),
        parameters(a.push('@') + (seq!['`'] + n)) == Seq::<Seq<char>>::empty(),
{
    crate::lexer_laws::lemma_quoted_text('`', n, b);
    let none = Seq::<LexemeView>::empty();
    assert(references(none) =~= Seq::empty());
    if n.len() == 0 || n.contains('\\') {
        let q = seq!['`'] + n + seq!['`'];
        let ls = seq![LexemeView::Other('@')] + lexemes(q + b);
        let rest = lexemes(q + b);
        lemma_behind_at(a, q + b);
        assert(ls.skip(1) =~= rest);
        assert(rest[0] == LexemeView::Quoted(q));
        assert(skip_blanks(rest) == rest);
        assert(rest.skip(1) =~= lexemes(b));
        if n.contains('\\') {
            let i = choose|i: int| 0 <= i < n.len() && n[i] == '\\';
            assert(q[i + 1] == '\\');
        }
        assert(references(ls) == references(rest));
        assert(references(rest) == references(lexemes(b)));
    }
    let q = seq!['`'] + n;
    let ls = seq![LexemeView::Other('@')] + lexemes(q);
    let rest = lexemes(q);
    lemma_behind_at(a, q);
    assert(ls.skip(1) =~= rest);
    assert(rest[0] == LexemeView::Quoted(q));
    assert(skip_blanks(rest) == rest);
    assert(rest.skip(1) =~= none);
    if n.len() > 0 && q.last() == '`' {
        assert(n.last() == '`');
        lemma_bound_quote(n, '`');
        let i = choose|i: int| 0 <= i < n.len() && n[i] == '\\';
        assert(q[i + 1] == '\\');
    }
    assert(references(ls) == references(rest));
    assert(references(rest) == references(none));
    assert(first_spellings(references(ls)) =~= Seq::empty());
}

/// An `@` before anything else, a number for instance, names nothing.
pub proof fn lemma_mark_before_anything_else(a: Seq<char>, b: Seq<char>)
    requires
        takes_parameter(a),
        b.len() > 0,
        !is_letter(b[0]) && b[0] != '_' && b[0] != '`' && b[0] != '@' && b[0] != '{',
        !is_whitespace(b[0]) && b[0] != '#' && b[0] != '-' && b[0] != '/',
    ensures
        parameters(a.push('@') + b) == parameters(b),
{
    lemma_behind_at(a, b);
    let ls = seq![LexemeView::Other('@')] + lexemes(b);
    let rest = lexemes(b);
    assert(ls.skip(1) =~= rest);
    lemma_lexeme_end(b, 0);
    assert(rest[0] == lexeme_at(b, 0));
    assert(rest[0].text()[0] == b[0]);
    assert(skip_blanks(rest) == rest);
}

/// A text in which no `@` stands on its own has no parameters.
pub proof fn lemma_no_mark_no_parameters(s: Seq<char>)
    requires
        !lexemes(s).contains(LexemeView::Other('@')),
    ensures
        parameters(s) == Seq::<Seq<char>>::empty(),
{
    let none = Seq::<LexemeView>::empty();
    lemma_references_behind(lexemes(s), none);
    assert(lexemes(s) + none =~= lexemes(s));
    assert(references(none) =~= Seq::empty());
}

// ---------------------------------------------------------------------------------------------
// The leading keyword
// ---------------------------------------------------------------------------------------------

proof fn lemma_letters_end_of(w: Seq<char>, rest: Seq<char>, i: int)
    requires
        0 <= i <= w.len(),
        forall|k: int| 0 <= k < w.len() ==> is_letter(#[trigger] w[k]),
        rest.len() > 0 ==> !is_letter(rest[0]),
    ensures
        letters_end(w + rest, i) == w.len(),
    decreases w.len() - i,
{
    if i < w.len() {
        assert((w + rest)[i] == w[i]);
        assert(is_letter(w[i]));
        lemma_letters_end_of(w, rest, i + 1);
    } else if rest.len() > 0 {
        assert((w + rest)[i] == rest[0]);
    }
}

/// The keyword of a text that begins with a letter is its leading run of letters.
pub proof fn lemma_leading_letters_are_the_keyword(w: Seq<char>, rest: Seq<char>)
    requires
        w.len() > 0,
        forall|k: int| 0 <= k < w.len() ==> is_letter(#[trigger] w[k]),
        rest.len() > 0 ==> !is_letter(rest[0]),
    ensures
        keyword_of(lexemes(w + rest)) == Some(w),
{
    let s = w + rest;
    assert(is_letter(w[0]));
    assert(s[0] == w[0]);
    let n = lemma_name_at_front(s);
    let name = s.take(n);
    let tail = s.skip(n);
    assert(n >= w.len()) by {
        if n < w.len() {
            assert(s[n] == w[n]);
            assert(is_letter(w[n]));
        }
    }
    assert(s =~= name + tail);
    lemma_name_is_a_word(name, tail);
    let more = rest.take(n - w.len());
    assert(name =~= w + more);
    if more.len() > 0 {
        assert(more[0] == rest[0]);
    }
    lemma_letters_end_of(w, more, 0);
    assert(name.take(w.len() as int) =~= w);
    assert(lexemes(s)[0] == LexemeView::Word(name));
}

/// White space and comments before a text do not change its keyword.
pub proof fn lemma_blanks_before_the_keyword(gap: Seq<char>, s: Seq<char>)
    requires
        lexemes(gap + s) == lexemes(gap) + lexemes(s),
        forall|k: int| 0 <= k < lexemes(gap).len() ==> !is_substance(#[trigger] lexemes(gap)[k]),
    ensures
        keyword_of(lexemes(gap + s)) == keyword_of(lexemes(s)),
        begins_ddl(gap + s) == begins_ddl(s),
        begins_dml(gap + s) == begins_dml(s),
{
    lemma_keyword_over(lexemes(gap), lexemes(s));
}

proof fn lemma_keyword_over(x: Seq<LexemeView>, y: Seq<LexemeView>)
    requires
        forall|k: int| 0 <= k < x.len() ==> !is_substance(#[trigger] x[k]),
    ensures
        keyword_of(x + y) == keyword_of(y),
    decreases x.len(),
{
    if x.len() == 0 {
        assert(x + y =~= y);
    } else {
        let rest = x.skip(1);
        assert forall|k: int| 0 <= k < rest.len() implies !is_substance(#[trigger] rest[k]) by {
            assert(rest[k] == x[k + 1]);
        }
        lemma_keyword_over(rest, y);
        assert(!is_substance(x[0]));
        assert((x + y)[0] == x[0]);
        assert((x + y).skip(1) =~= rest + y);
    }
}

/// White space, a line comment and a block comment before a text are skipped.
pub proof fn lemma_keyword_behind_blanks(
    space: Seq<char>,
    line: Seq<char>,
    block: Seq<char>,
    s: Seq<char>,
)
    requires
        forall|k: int| 0 <= k < space.len() ==> is_whitespace(#[trigger] space[k]),
        !line.contains('\n'),
        forall|k: int|
            0 <= k < block.len() - 1 ==> !(#[trigger] block[k] == '*' && block[k + 1] == '/'),
    ensures
        keyword_of(lexemes(space + s)) == keyword_of(lexemes(s)),
        keyword_of(lexemes(seq!['-', '-'] + line + seq!['\n'] + s)) == keyword_of(lexemes(s)),
        keyword_of(lexemes(seq!['#'] + line + seq!['\n'] + s)) == keyword_of(lexemes(s)),
        keyword_of(lexemes(seq!['/', '*'] + block + seq!['*', '/'] + s)) == keyword_of(
            lexemes(s),
        ),
{
    lemma_whitespace_first(space, s);
    let ls = lexemes(space + s);
    let x = ls.take(space.len() as int);
    assert(ls =~= x + lexemes(s));
    assert forall|k: int| 0 <= k < x.len() implies !is_substance(#[trigger] x[k]) by {
        assert(x[k] == ls[k]);
        assert(is_whitespace(space[k]));
    }
    lemma_keyword_over(x, lexemes(s));
    lemma_line_comment(seq!['-', '-'], line, s);
    lemma_line_comment(seq!['#'], line, s);
    lemma_block_comment(block, s);
    lemma_keyword_over(
        seq![LexemeView::Comment(seq!['-', '-'] + line + seq!['\n'])],
        lexemes(s),
    );
    lemma_keyword_over(seq![LexemeView::Comment(seq!['#'] + line + seq!['\n'])], lexemes(s));
    lemma_keyword_over(
        seq![LexemeView::Comment(seq!['/', '*'] + block + seq!['*', '/'])],
        lexemes(s),
    );
}

proof fn lemma_after_hint_of(x: Seq<LexemeView>, y: Seq<LexemeView>)
    requires
        !x.contains(LexemeView::Other('}')),
    ensures
        after_hint(x.push(LexemeView::Other('}')) + y) == y,
    decreases x.len(),
{
    let close = LexemeView::Other('}');
    let all = x.push(close) + y;
    if x.len() == 0 {
        assert(all.skip(1) =~= y);
    } else {
        assert(x.contains(x[0]));
        let rest = x.skip(1);
        assert forall|l: LexemeView| rest.contains(l) implies x.contains(l) by {
            let i = choose|i: int| 0 <= i < rest.len() && rest[i] == l;
            assert(x[i + 1] == l);
        }
        lemma_after_hint_of(rest, y);
        assert(all.skip(1) =~= rest.push(close) + y);
    }
}

/// A statement hint before a text is skipped, up to the first `}` that stands on its own.
pub proof fn lemma_keyword_behind_a_hint(hint: Seq<char>, s: Seq<char>)
    requires
        lexemes(hint.push('}')).len() > 0,
        lexemes(hint.push('}')).last() == LexemeView::Other('}'),
        !lexemes(hint).contains(LexemeView::Other('}')),
    ensures
        keyword_of(lexemes(seq!['@', '{'] + hint.push('}') + s)) == keyword_of(lexemes(s)),
{
    let t = hint.push('}');
    lemma_lexemes_append(t, s);
    lemma_lexemes_drop_last(t);
    assert(t.drop_last() =~= hint);
    assert(lexemes(t) =~= lexemes(hint).push(LexemeView::Other('}')));
    lemma_mark_stands_alone('{', t + s);
    lemma_mark_stands_alone('@', seq!['{'] + (t + s));
    let all = seq!['@', '{'] + t + s;
    assert(all =~= seq!['@'] + (seq!['{'] + (t + s)));
    let open = LexemeView::Other('{');
    let ls = lexemes(all);
    let rest = seq![open] + lexemes(t + s);
    assert(ls.skip(1) =~= rest);
    assert(skip_blanks(rest) == rest);
    assert(rest.skip(1) =~= lexemes(t + s));
    assert(after_hint(rest) == after_hint(lexemes(t + s)));
    lemma_after_hint_of(lexemes(hint), lexemes(s));
}

/// A text that begins with anything but a letter, white space, a comment or a hint has no keyword.
pub proof fn lemma_no_keyword(s: Seq<char>)
    requires
        s.len() == 0 || !(is_letter(s[0]) || is_whitespace(s[0]) || s[0] == '@' || s[0] == '#'
            || s[0] == '-' || s[0] == '/'),
    ensures
        keyword_of(lexemes(s)) is None,
        !begins_ddl(s),
        !begins_dml(s),
{
    if s.len() > 0 {
        lemma_lexeme_end(s, 0);
        assert(lexemes(s)[0] == lexeme_at(s, 0));
    }
}

/// Seven words begin a DDL statement and three a DML statement, in any case of their letters, and no
/// other word begins either.
pub proof fn lemma_keywords_classify(w: Seq<char>, rest: Seq<char>)
    requires
        w.len() > 0,
        forall|k: int| 0 <= k < w.len() ==> is_letter(#[trigger] w[k]),
        rest.len() > 0 ==> !is_letter(rest[0]),
    ensures
        begins_ddl(w + rest) <==> {
            ||| same_ignoring_case(w, seq!['C', 'R', 'E', 'A', 'T', 'E'])
            ||| same_ignoring_case(w, seq!['D', 'R', 'O', 'P'])
            ||| same_ignoring_case(w, seq!['A', 'L', 'T', 'E', 'R'])
            ||| same_ignoring_case(w, seq!['R', 'E', 'N', 'A', 'M', 'E'])
            ||| same_ignoring_case(w, seq!['G', 'R', 'A', 'N', 'T'])
            ||| same_ignoring_case(w, seq!['R', 'E', 'V', 'O', 'K', 'E'])
            ||| same_ignoring_case(w, seq!['A', 'N', 'A', 'L', 'Y', 'Z', 'E'])
        },
        begins_dml(w + rest) <==> {
            ||| same_ignoring_case(w, seq!['I', 'N', 'S', 'E', 'R', 'T'])
            ||| same_ignoring_case(w, seq!['U', 'P', 'D', 'A', 'T', 'E'])
            ||| same_ignoring_case(w, seq!['D', 'E', 'L', 'E', 'T', 'E'])
        },
{
    lemma_leading_letters_are_the_keyword(w, rest);
    reveal_strlit("CREATE");
    reveal_strlit("DROP");
    reveal_strlit("ALTER");
    reveal_strlit("RENAME");
    reveal_strlit("GRANT");
    reveal_strlit("REVOKE");
    reveal_strlit("ANALYZE");
    reveal_strlit("INSERT");
    reveal_strlit("UPDATE");
    reveal_strlit("DELETE");
    assert("CREATE"@ =~= seq!['C', 'R', 'E', 'A', 'T', 'E']);
    assert("DROP"@ =~= seq!['D', 'R', 'O', 'P']);
    assert("ALTER"@ =~= seq!['A', 'L', 'T', 'E', 'R']);
    assert("RENAME"@ =~= seq!['R', 'E', 'N', 'A', 'M', 'E']);
    assert("GRANT"@ =~= seq!['G', 'R', 'A', 'N', 'T']);
    assert("REVOKE"@ =~= seq!['R', 'E', 'V', 'O', 'K', 'E']);
    assert("ANALYZE"@ =~= seq!['A', 'N', 'A', 'L', 'Y', 'Z', 'E']);
    assert("INSERT"@ =~= seq!['I', 'N', 'S', 'E', 'R', 'T']);
    assert("UPDATE"@ =~= seq!['U', 'P', 'D', 'A', 'T', 'E']);
    assert("DELETE"@ =~= seq!['D', 'E', 'L', 'E', 'T', 'E']);
}

// ---------------------------------------------------------------------------------------------
// THEN RETURN
// ---------------------------------------------------------------------------------------------

/// Whether a lexeme is a word, in any case of its letters.
pub open spec fn is_word(l: LexemeView, word: Seq<char>) -> bool {
    l matches LexemeView::Word(w) && same_ignoring_case(w, word)
}

/// How often a word stands among lexemes.
pub open spec fn occurrences(ls: Seq<LexemeView>, word: Seq<char>) -> nat {
    ls.filter(|l: LexemeView| is_word(l, word)).len()
}

/// Whether `THEN` stands at `i` and `RETURN` at `j` behind it, with no word or quoted text between.
pub open spec fn then_return_at(ls: Seq<LexemeView>, i: int, j: int) -> bool {
    &&& 0 <= i < j < ls.len()
    &&& is_word(ls[i], seq!['T', 'H', 'E', 'N'])
    &&& is_word(ls[j], seq!['R', 'E', 'T', 'U', 'R', 'N'])
    &&& forall|k: int| i < k < j ==> !((#[trigger] ls[k]) is Word) && !(ls[k] is Quoted)
}

/// Whether no `CASE` before `j` is open there: from wherever one looks on, no more of them have
/// been opened than closed.
pub open spec fn no_case_open(ls: Seq<LexemeView>, j: int) -> bool {
    forall|m: int|
        0 <= m <= j ==> occurrences(#[trigger] ls.subrange(m, j), seq!['C', 'A', 'S', 'E'])
            <= occurrences(ls.subrange(m, j), seq!['E', 'N', 'D'])
}

proof fn lemma_occurrences_push(ls: Seq<LexemeView>, l: LexemeView, word: Seq<char>)
    ensures
        occurrences(ls.push(l), word) == occurrences(ls, word) + (if is_word(l, word) {
            1nat
        } else {
            0nat
        }),
        occurrences(Seq::empty(), word) == 0,
{
    reveal(Seq::filter);
    lemma_filter_push(ls, l, |l: LexemeView| is_word(l, word));
}

/// The depth is at least what any stretch opens over what it closes, and for one stretch it is that.
proof fn lemma_case_depth(ls: Seq<LexemeView>, n: int) -> (from: int)
    requires
        0 <= n <= ls.len(),
    ensures
        0 <= from <= n,
        case_depth(ls, n) == occurrences(ls.subrange(from, n), seq!['C', 'A', 'S', 'E'])
            - occurrences(ls.subrange(from, n), seq!['E', 'N', 'D']),
        forall|m: int|
            0 <= m <= n ==> case_depth(ls, n) >= occurrences(
                #[trigger] ls.subrange(m, n),
                seq!['C', 'A', 'S', 'E'],
            ) - occurrences(ls.subrange(m, n), seq!['E', 'N', 'D']),
    decreases n,
{
    let case = seq!['C', 'A', 'S', 'E'];
    let end = seq!['E', 'N', 'D'];
    lemma_occurrences_push(ls, LexemeView::Other(' '), case);
    lemma_occurrences_push(ls, LexemeView::Other(' '), end);
    assert(ls.subrange(n, n) =~= Seq::empty());
    if n == 0 {
        0
    } else {
        let before = lemma_case_depth(ls, n - 1);
        let l = ls[n - 1];
        lemma_case_words(l);
        assert forall|m: int| 0 <= m <= n - 1 implies {
            let s = #[trigger] ls.subrange(m, n);
            let s0 = ls.subrange(m, n - 1);
            &&& occurrences(s, case) == occurrences(s0, case) + (if is_word(l, case) {
                1nat
            } else {
                0nat
            })
            &&& occurrences(s, end) == occurrences(s0, end) + (if is_word(l, end) {
                1nat
            } else {
                0nat
            })
        } by {
            let s0 = ls.subrange(m, n - 1);
            assert(ls.subrange(m, n) =~= s0.push(l));
            lemma_occurrences_push(s0, l, case);
            lemma_occurrences_push(s0, l, end);
        }
        let depth = case_depth(ls, n - 1);
        let from = if is_word(l, end) && depth == 0 {
            n
        } else {
            before
        };
        assert forall|m: int| 0 <= m <= n implies case_depth(ls, n) >= occurrences(
            #[trigger] ls.subrange(m, n),
            case,
        ) - occurrences(ls.subrange(m, n), end) by {
            if m < n {
                let s = ls.subrange(m, n);
                let s0 = ls.subrange(m, n - 1);
                assert(depth >= occurrences(s0, case) - occurrences(s0, end));
            }
        }
        if from < n {
            let s = ls.subrange(from, n);
            assert(occurrences(ls.subrange(from, n - 1), case) - occurrences(
                ls.subrange(from, n - 1),
                end,
            ) == depth);
        }
        from
    }
}

proof fn lemma_case_words(l: LexemeView)
    ensures
        word_is(l, "CASE"@) == is_word(l, seq!['C', 'A', 'S', 'E']),
        word_is(l, "END"@) == is_word(l, seq!['E', 'N', 'D']),
        word_is(l, "RETURN"@) == is_word(l, seq!['R', 'E', 'T', 'U', 'R', 'N']),
        word_is(l, "THEN"@) == is_word(l, seq!['T', 'H', 'E', 'N']),
        !(is_word(l, seq!['C', 'A', 'S', 'E']) && is_word(l, seq!['E', 'N', 'D'])),
{
    reveal_strlit("CASE");
    reveal_strlit("END");
    reveal_strlit("RETURN");
    reveal_strlit("THEN");
    assert("CASE"@ =~= seq!['C', 'A', 'S', 'E']);
    assert("END"@ =~= seq!['E', 'N', 'D']);
    assert("RETURN"@ =~= seq!['R', 'E', 'T', 'U', 'R', 'N']);
    assert("THEN"@ =~= seq!['T', 'H', 'E', 'N']);
    if is_word(l, seq!['C', 'A', 'S', 'E']) && is_word(l, seq!['E', 'N', 'D']) {
        let w = l->Word_0;
        assert(crate::text::lowered(w).len() == w.len());
        assert(crate::text::lowered(seq!['C', 'A', 'S', 'E']).len() == 4);
        assert(crate::text::lowered(seq!['E', 'N', 'D']).len() == 3);
    }
}

proof fn lemma_follows_then(ls: Seq<LexemeView>, n: int)
    requires
        0 <= n <= ls.len(),
    ensures
        follows_then(ls, n) <==> exists|i: int|
            0 <= i < n && is_word(#[trigger] ls[i], seq!['T', 'H', 'E', 'N']) && forall|k: int|
                i < k < n ==> !((#[trigger] ls[k]) is Word) && !(ls[k] is Quoted),
    decreases n,
{
    let then = seq!['T', 'H', 'E', 'N'];
    if n > 0 {
        let l = ls[n - 1];
        lemma_case_words(l);
        lemma_follows_then(ls, n - 1);
        if follows_then(ls, n) {
            if l is Word {
                assert(is_word(ls[n - 1], then));
            } else {
                let i = choose|i: int|
                    0 <= i < n - 1 && is_word(#[trigger] ls[i], then) && forall|k: int|
                        i < k < n - 1 ==> !((#[trigger] ls[k]) is Word) && !(ls[k] is Quoted);
                assert(is_word(ls[i], then));
            }
        }
        if exists|i: int|
            0 <= i < n && is_word(#[trigger] ls[i], then) && forall|k: int|
                i < k < n ==> !((#[trigger] ls[k]) is Word) && !(ls[k] is Quoted) {
            let i = choose|i: int|
                0 <= i < n && is_word(#[trigger] ls[i], then) && forall|k: int|
                    i < k < n ==> !((#[trigger] ls[k]) is Word) && !(ls[k] is Quoted);
            if i < n - 1 {
                assert(!(ls[n - 1] is Word) && !(ls[n - 1] is Quoted));
                assert(follows_then(ls, n - 1));
            }
        }
    }
}

/// A text returns rows exactly if `THEN` and then `RETURN` stand in it, with no word or quoted text
/// between them, where no `CASE` is open.
pub proof fn lemma_then_return(s: Seq<char>)
    ensures
        has_then_return(lexemes(s)) <==> exists|i: int, j: int|
            #[trigger] then_return_at(lexemes(s), i, j) && no_case_open(lexemes(s), j),
{
    let ls = lexemes(s);
    if has_then_return(ls) {
        let j = choose|j: int| 0 <= j < ls.len() && #[trigger] completes_clause(ls, j);
        lemma_case_words(ls[j]);
        lemma_follows_then(ls, j);
        let i = choose|i: int|
            0 <= i < j && is_word(#[trigger] ls[i], seq!['T', 'H', 'E', 'N']) && forall|k: int|
                i < k < j ==> !((#[trigger] ls[k]) is Word) && !(ls[k] is Quoted);
        let from = lemma_case_depth(ls, j);
        assert(then_return_at(ls, i, j) && no_case_open(ls, j));
    }
    if exists|i: int, j: int| #[trigger] then_return_at(ls, i, j) && no_case_open(ls, j) {
        let (i, j) = choose|i: int, j: int|
            #[trigger] then_return_at(ls, i, j) && no_case_open(ls, j);
        lemma_case_words(ls[j]);
        lemma_follows_then(ls, j);
        let from = lemma_case_depth(ls, j);
        assert(is_word(ls[i], seq!['T', 'H', 'E', 'N']));
        assert(occurrences(ls.subrange(from, j), seq!['C', 'A', 'S', 'E']) <= occurrences(
            ls.subrange(from, j),
            seq!['E', 'N', 'D'],
        ));
        assert(completes_clause(ls, j));
    }
}

/// A text without the word `CASE` outside literals and comments returns rows exactly if `THEN` and
/// then `RETURN` stand in it, with no word or quoted text between them.
pub proof fn lemma_then_return_without_case(s: Seq<char>)
    requires
        forall|k: int|
            0 <= k < lexemes(s).len() ==> !is_word(
                #[trigger] lexemes(s)[k],
                seq!['C', 'A', 'S', 'E'],
            ),
    ensures
        has_then_return(lexemes(s)) <==> exists|i: int, j: int| #[trigger]
            then_return_at(lexemes(s), i, j),
{
    let ls = lexemes(s);
    lemma_then_return(s);
    assert forall|j: int| 0 <= j <= ls.len() implies #[trigger] no_case_open(ls, j) by {
        assert forall|m: int| 0 <= m <= j implies occurrences(
            #[trigger] ls.subrange(m, j),
            seq!['C', 'A', 'S', 'E'],
        ) <= occurrences(ls.subrange(m, j), seq!['E', 'N', 'D']) by {
            let part = ls.subrange(m, j);
            assert forall|k: int| 0 <= k < part.len() implies !is_word(
                #[trigger] part[k],
                seq!['C', 'A', 'S', 'E'],
            ) by {
                assert(part[k] == ls[m + k]);
            }
            lemma_no_occurrence(part, seq!['C', 'A', 'S', 'E']);
        }
    }
    if exists|i: int, j: int| #[trigger] then_return_at(ls, i, j) {
        let (i, j) = choose|i: int, j: int| #[trigger] then_return_at(ls, i, j);
        assert(no_case_open(ls, j));
    }
}

proof fn lemma_no_occurrence(ls: Seq<LexemeView>, word: Seq<char>)
    requires
        forall|k: int| 0 <= k < ls.len() ==> !is_word(#[trigger] ls[k], word),
    ensures
        occurrences(ls, word) == 0,
    decreases ls.len(),
{
    reveal(Seq::filter);
    if ls.len() > 0 {
        let before = ls.drop_last();
        assert forall|k: int| 0 <= k < before.len() implies !is_word(#[trigger] before[k], word) by {
            assert(before[k] == ls[k]);
        }
        lemma_no_occurrence(before, word);
        assert(!is_word(ls[ls.len() - 1], word));
    }
}

// ---------------------------------------------------------------------------------------------
// Quoted names
// ---------------------------------------------------------------------------------------------

/// A name can be quoted unless it is empty or holds a backtick, a backslash, a newline, a carriage
/// return, a tab or a NUL, and quoting it puts one backtick on either side of it.
pub proof fn lemma_quoted_names(ident: Seq<char>)
    ensures
        is_quotable(ident) <==> ident.len() > 0 && !ident.contains('`') && !ident.contains('\\')
            && !ident.contains('\n') && !ident.contains('\r') && !ident.contains('\t')
            && !ident.contains('\0'),
        quoted(ident).len() == ident.len() + 2,
        quoted(ident)[0] == '`',
        quoted(ident).last() == '`',
        quoted(ident).subrange(1, quoted(ident).len() - 1) == ident,
{
    assert(quoted(ident).subrange(1, quoted(ident).len() - 1) =~= ident);
    if is_quotable(ident) {
        assert forall|i: int| 0 <= i < ident.len() implies crate::sql::is_nameable(
            #[trigger] ident[i],
        ) by {}
    } else if ident.len() > 0 {
        let i = choose|i: int|
            0 <= i < ident.len() && !crate::sql::is_nameable(#[trigger] ident[i]);
        assert(ident.contains(ident[i]));
    }
}

/// A table is qualified exactly by a schema that is given and not empty.
pub proof fn lemma_qualifying_schemas(schema: &str)
    ensures
        named_schema(None) is None,
        named_schema(Some(schema)) is None <==> schema@.len() == 0,
        named_schema(Some(schema)) matches Some(s) ==> s == schema@,
{
}

} // verus!
