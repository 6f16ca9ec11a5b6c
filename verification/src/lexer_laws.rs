//! What holds of the lexemes of a text, said of its characters.

use vstd::prelude::*;

use crate::lexer::{
    block_end, has_at, is_ident_char, lemma_lexeme_end, lemma_word_end, lexeme_at, lexeme_end,
    lexemes, lexemes_from, line_end, single_end, triple_end, word_end, LexemeView,
};

verus! {

/// A character of a keyword, an identifier or a number.
pub open spec fn is_name_char(c: char) -> bool {
    ('a' <= c && c <= 'z') || ('A' <= c && c <= 'Z') || ('0' <= c && c <= '9') || c == '_'
}

/// Whether `s` consists of name characters.
pub open spec fn is_name(s: Seq<char>) -> bool {
    s.len() > 0 && forall|i: int| 0 <= i < s.len() ==> is_name_char(#[trigger] s[i])
}

// ---------------------------------------------------------------------------------------------
// A text behind another
// ---------------------------------------------------------------------------------------------

proof fn lemma_ends_shift(a: Seq<char>, b: Seq<char>, i: int, quote: char)
    requires
        0 <= i,
    ensures
        word_end(a + b, a.len() + i) == a.len() + word_end(b, i),
        i <= b.len() ==> line_end(a + b, a.len() + i) == a.len() + line_end(b, i),
        i <= b.len() ==> block_end(a + b, a.len() + i) == a.len() + block_end(b, i),
        single_end(a + b, a.len() + i, quote) == a.len() + single_end(b, i, quote),
        triple_end(a + b, a.len() + i, quote) == a.len() + triple_end(b, i, quote),
    decreases b.len() + 2 - i,
{
    let s = a + b;
    let n = a.len() as int;
    if i < b.len() {
        assert(s[n + i] == b[i]);
        lemma_ends_shift(a, b, i + 1, quote);
        lemma_ends_shift(a, b, i + 2, quote);
        if i + 1 < b.len() {
            assert(s[n + i + 1] == b[i + 1]);
        }
        if i + 2 < b.len() {
            assert(s[n + i + 2] == b[i + 2]);
        }
        assert(has_at(s, n + i + 1, quote) == has_at(b, i + 1, quote));
        assert(has_at(s, n + i + 2, quote) == has_at(b, i + 2, quote));
    }
}

proof fn lemma_lexeme_shift(a: Seq<char>, b: Seq<char>, i: int)
    requires
        0 <= i < b.len(),
    ensures
        lexeme_end(a + b, a.len() + i) == a.len() + lexeme_end(b, i),
        lexeme_at(a + b, a.len() + i) == lexeme_at(b, i),
{
    let s = a + b;
    let n = a.len() as int;
    let c = b[i];
    assert(s[n + i] == c);
    lemma_ends_shift(a, b, i + 1, c);
    lemma_ends_shift(a, b, i + 2, c);
    lemma_ends_shift(a, b, i + 3, c);
    if i + 1 < b.len() {
        assert(s[n + i + 1] == b[i + 1]);
    }
    if i + 2 < b.len() {
        assert(s[n + i + 2] == b[i + 2]);
    }
    lemma_lexeme_end(b, i);
    let end = lexeme_end(b, i);
    assert(s.subrange(n + i, n + end) =~= b.subrange(i, end));
}

/// What stands before a text where a lexeme begins does not change the lexemes behind it.
pub proof fn lemma_lexemes_shift(a: Seq<char>, b: Seq<char>, i: int)
    requires
        0 <= i <= b.len(),
    ensures
        lexemes_from(a + b, a.len() + i) == lexemes_from(b, i),
    decreases b.len() - i,
{
    if i < b.len() {
        lemma_lexeme_shift(a, b, i);
        lemma_lexeme_end(b, i);
        lemma_lexemes_shift(a, b, lexeme_end(b, i));
    }
}

// ---------------------------------------------------------------------------------------------
// A text before another
// ---------------------------------------------------------------------------------------------

proof fn lemma_ends_stay(a: Seq<char>, b: Seq<char>, i: int, quote: char)
    requires
        0 <= i,
    ensures
        word_end(a, i) < a.len() ==> word_end(a + b, i) == word_end(a, i),
        line_end(a, i) < a.len() ==> line_end(a + b, i) == line_end(a, i),
        block_end(a, i) < a.len() ==> block_end(a + b, i) == block_end(a, i),
        single_end(a, i, quote) < a.len() ==> single_end(a + b, i, quote) == single_end(
            a,
            i,
            quote,
        ),
        triple_end(a, i, quote) < a.len() ==> triple_end(a + b, i, quote) == triple_end(
            a,
            i,
            quote,
        ),
    decreases a.len() + 2 - i,
{
    let s = a + b;
    if i < a.len() {
        assert(s[i] == a[i]);
        lemma_ends_stay(a, b, i + 1, quote);
        lemma_ends_stay(a, b, i + 2, quote);
        if i + 1 < a.len() {
            assert(s[i + 1] == a[i + 1]);
        }
        if i + 2 < a.len() {
            assert(s[i + 2] == a[i + 2]);
        } else {
            assert(triple_end(a, i + 1, quote) >= a.len()) by {
                lemma_triple_reaches(a, i + 1, quote);
            }
        }
    }
}

proof fn lemma_triple_reaches(a: Seq<char>, i: int, quote: char)
    requires
        i + 1 >= a.len(),
        0 <= i,
    ensures
        triple_end(a, i, quote) >= a.len(),
    decreases a.len() + 1 - i,
{
    reveal_with_fuel(triple_end, 3);
}

/// A lexeme that ends before the end of a text is not changed by what is written behind that text.
proof fn lemma_lexeme_stays(a: Seq<char>, b: Seq<char>, i: int)
    requires
        0 <= i < a.len(),
        lexeme_end(a, i) < a.len(),
    ensures
        lexeme_end(a + b, i) == lexeme_end(a, i),
        lexeme_at(a + b, i) == lexeme_at(a, i),
{
    let s = a + b;
    let c = a[i];
    assert(s[i] == c);
    lemma_lexeme_end(a, i);
    lemma_ends_stay(a, b, i + 1, c);
    lemma_ends_stay(a, b, i + 2, c);
    lemma_ends_stay(a, b, i + 3, c);
    assert(s[i + 1] == a[i + 1]);
    if i + 2 < a.len() {
        assert(s[i + 2] == a[i + 2]);
    }
    let end = lexeme_end(a, i);
    assert(s.subrange(i, end) =~= a.subrange(i, end));
}

proof fn lemma_append_from(a: Seq<char>, b: Seq<char>, i: int)
    requires
        0 <= i < a.len(),
        lexemes_from(a, i).last() matches LexemeView::Other(c) && c != '-' && c != '/',
    ensures
        lexemes_from(a + b, i) == lexemes_from(a, i) + lexemes(b),
    decreases a.len() - i,
{
    let s = a + b;
    let end = lexeme_end(a, i);
    lemma_lexeme_end(a, i);
    lemma_lexemes_shift(a, b, 0);
    if end < a.len() {
        lemma_lexeme_stays(a, b, i);
        let rest = lexemes_from(a, end);
        lemma_lexeme_end(a, end);
        assert(rest.len() > 0);
        assert(lexemes_from(a, i).last() == rest.last());
        lemma_append_from(a, b, end);
        assert(seq![lexeme_at(a, i)] + (rest + lexemes(b)) =~= (seq![lexeme_at(a, i)] + rest)
            + lexemes(b));
    } else {
        assert(lexemes_from(a, end) =~= Seq::empty());
        assert(lexemes_from(a, i) =~= seq![lexeme_at(a, i)]);
        assert(lexeme_at(a, i) is Other);
        assert(end == i + 1);
        assert(s[i] == a[i]);
        assert(lexeme_at(s, i) == lexeme_at(a, i));
        assert(lexemes_from(s, i) =~= seq![lexeme_at(a, i)] + lexemes(b));
    }
}

/// Behind a mark that stands on its own at the end of a text, lexing starts afresh: the lexemes of
/// the two texts written one after the other are the lexemes of the one and those of the other. Only
/// a `-` or `/` may still become the beginning of a comment.
pub proof fn lemma_lexemes_append(a: Seq<char>, b: Seq<char>)
    requires
        lexemes(a).len() > 0,
        lexemes(a).last() matches LexemeView::Other(c) && c != '-' && c != '/',
    ensures
        lexemes(a + b) == lexemes(a) + lexemes(b),
{
    lemma_append_from(a, b, 0);
}

proof fn lemma_ends_cut(s: Seq<char>, e: int, i: int, quote: char)
    requires
        0 <= i,
        0 <= e <= s.len(),
    ensures
        i <= e && word_end(s, i) <= e ==> word_end(s.take(e), i) == word_end(s, i),
        line_end(s, i) <= e ==> line_end(s.take(e), i) == line_end(s, i),
        block_end(s, i) <= e ==> block_end(s.take(e), i) == block_end(s, i),
        single_end(s, i, quote) <= e ==> single_end(s.take(e), i, quote) == single_end(s, i, quote),
        triple_end(s, i, quote) <= e ==> triple_end(s.take(e), i, quote) == triple_end(s, i, quote),
        i < s.len() ==> line_end(s, i) > i && block_end(s, i) > i && single_end(s, i, quote) > i
            && triple_end(s, i, quote) > i,
    decreases s.len() + 2 - i,
{
    let t = s.take(e);
    if i < s.len() {
        lemma_ends_cut(s, e, i + 1, quote);
        lemma_ends_cut(s, e, i + 2, quote);
        reveal_with_fuel(line_end, 2);
        reveal_with_fuel(block_end, 2);
        reveal_with_fuel(single_end, 2);
        reveal_with_fuel(triple_end, 2);
        lemma_word_end(s, i);
    }
}

/// A lexeme that ends no later than the text is cut off is not changed by that.
pub proof fn lemma_lexeme_cut(s: Seq<char>, e: int, i: int)
    requires
        0 <= i < s.len(),
        lexeme_end(s, i) <= e <= s.len(),
    ensures
        lexeme_end(s.take(e), i) == lexeme_end(s, i),
        lexeme_at(s.take(e), i) == lexeme_at(s, i),
{
    let t = s.take(e);
    let c = s[i];
    lemma_lexeme_end(s, i);
    assert(t[i] == c);
    lemma_ends_cut(s, e, i + 1, c);
    lemma_ends_cut(s, e, i + 2, c);
    lemma_ends_cut(s, e, i + 3, c);
    let end = lexeme_end(s, i);
    assert(t.subrange(i, end) =~= s.subrange(i, end));
}

/// A lexeme that the text is cut off inside of reaches to the cut.
pub proof fn lemma_lexeme_cut_inside(s: Seq<char>, e: int, i: int)
    requires
        0 <= i < e <= s.len(),
        e < lexeme_end(s, i),
    ensures
        lexeme_end(s.take(e), i) == e,
{
    let t = s.take(e);
    let c = s[i];
    assert(t[i] == c);
    lemma_lexeme_end(t, i);
    let end = lexeme_end(t, i);
    if end < e {
        lemma_lexeme_stays(t, s.skip(e), i);
        assert(t + s.skip(e) =~= s);
    }
}

proof fn lemma_drop_last_from(s: Seq<char>, i: int)
    requires
        0 <= i < s.len(),
        lexemes_from(s, i).last() is Other,
    ensures
        lexemes_from(s.drop_last(), i) == lexemes_from(s, i).drop_last(),
        lexemes_from(s, i).last() == LexemeView::Other(s.last()),
    decreases s.len() - i,
{
    let t = s.take(s.len() - 1);
    assert(t =~= s.drop_last());
    let end = lexeme_end(s, i);
    lemma_lexeme_end(s, i);
    if end < s.len() {
        let rest = lexemes_from(s, end);
        lemma_lexeme_end(s, end);
        assert(lexemes_from(s, i).last() == rest.last());
        lemma_drop_last_from(s, end);
        lemma_lexeme_cut(s, s.len() - 1, i);
        assert(lexemes_from(t, i) =~= lexemes_from(s, i).drop_last());
    } else {
        assert(lexemes_from(s, end) =~= Seq::empty());
        assert(lexemes_from(s, i) =~= seq![lexeme_at(s, i)]);
        assert(end == i + 1);
        assert(lexemes_from(t, i) =~= Seq::empty());
        assert(lexemes_from(s, i).drop_last() =~= Seq::empty());
    }
}

/// A mark that stands on its own at the end of a text is its last character, and the lexemes before
/// it are those of the text before it.
pub proof fn lemma_lexemes_drop_last(s: Seq<char>)
    requires
        lexemes(s).len() > 0,
        lexemes(s).last() is Other,
    ensures
        lexemes(s.drop_last()) == lexemes(s).drop_last(),
        lexemes(s).last() == LexemeView::Other(s.last()),
{
    lemma_drop_last_from(s, 0);
}

// ---------------------------------------------------------------------------------------------
// Words and marks
// ---------------------------------------------------------------------------------------------

proof fn lemma_begins(head: Seq<char>, b: Seq<char>)
    requires
        head.len() > 0,
        lexeme_end(head + b, 0) == head.len(),
    ensures
        lexemes(head + b) == seq![lexeme_at(head + b, 0)] + lexemes(b),
        (head + b).subrange(0, head.len() as int) == head,
{
    lemma_lexemes_shift(head, b, 0);
    assert((head + b).subrange(0, head.len() as int) =~= head);
}

proof fn lemma_word_end_of_name(n: Seq<char>, b: Seq<char>, i: int)
    requires
        0 <= i <= n.len(),
        is_name(n),
        b.len() > 0 ==> !is_name_char(b[0]),
    ensures
        word_end(n + b, i) == n.len(),
    decreases n.len() - i,
{
    if i < n.len() {
        assert((n + b)[i] == n[i]);
        assert(is_name_char(n[i]));
        lemma_word_end_of_name(n, b, i + 1);
    } else if b.len() > 0 {
        assert((n + b)[i] == b[0]);
    }
}

/// A run of letters, digits and underscores that none of them follows is one word.
pub proof fn lemma_name_is_a_word(n: Seq<char>, b: Seq<char>)
    requires
        is_name(n),
        b.len() > 0 ==> !is_name_char(b[0]),
    ensures
        lexemes(n + b) == seq![LexemeView::Word(n)] + lexemes(b),
{
    assert(is_name_char(n[0]));
    assert((n + b)[0] == n[0]);
    lemma_word_end_of_name(n, b, 1);
    lemma_begins(n, b);
}

/// Any other character that opens neither quoted text nor a comment stands on its own.
pub proof fn lemma_mark_stands_alone(c: char, b: Seq<char>)
    requires
        !is_name_char(c),
        c != '\'' && c != '"' && c != '`' && c != '#',
        c == '-' && b.len() > 0 ==> b[0] != '-',
        c == '/' && b.len() > 0 ==> b[0] != '*',
    ensures
        lexemes(seq![c] + b) == seq![LexemeView::Other(c)] + lexemes(b),
{
    let s = seq![c] + b;
    assert(s[0] == c);
    if b.len() > 0 {
        assert(s[1] == b[0]);
    }
    lemma_begins(seq![c], b);
}

proof fn lemma_kinds_from(s: Seq<char>, i: int, k: int)
    requires
        0 <= i <= s.len(),
        0 <= k < lexemes_from(s, i).len(),
    ensures
        lexemes_from(s, i)[k] matches LexemeView::Word(w) ==> is_name(w),
        lexemes_from(s, i)[k] is Word && k + 1 < lexemes_from(s, i).len() ==> !is_name_char(
            lexemes_from(s, i)[k + 1].text()[0],
        ),
        lexemes_from(s, i)[k] matches LexemeView::Other(c) ==> !is_name_char(c) && c != '\'' && c
            != '"' && c != '`' && c != '#',
    decreases s.len() - i,
{
    if i < s.len() {
        let end = lexeme_end(s, i);
        lemma_lexeme_end(s, i);
        let rest = lexemes_from(s, end);
        assert(lexemes_from(s, i) =~= seq![lexeme_at(s, i)] + rest);
        if k > 0 {
            assert(lexemes_from(s, i)[k] == rest[k - 1]);
            if k + 1 < lexemes_from(s, i).len() {
                assert(lexemes_from(s, i)[k + 1] == rest[k]);
            }
            lemma_kinds_from(s, end, k - 1);
        } else if lexeme_at(s, i) is Word {
            lemma_run_of_names(s, i + 1);
            let w = s.subrange(i, end);
            assert forall|m: int| 0 <= m < w.len() implies is_name_char(#[trigger] w[m]) by {
                assert(w[m] == s[i + m]);
            }
            if rest.len() > 0 {
                lemma_lexeme_end(s, end);
                assert(rest[0] == lexeme_at(s, end));
                assert(rest[0].text()[0] == s[end]);
            }
        }
    }
}

proof fn lemma_run_of_names(s: Seq<char>, i: int)
    requires
        0 <= i <= s.len(),
    ensures
        i <= word_end(s, i) <= s.len(),
        forall|m: int| i <= m < word_end(s, i) ==> is_name_char(#[trigger] s[m]),
        word_end(s, i) < s.len() ==> !is_name_char(s[word_end(s, i)]),
    decreases s.len() - i,
{
    if i < s.len() && is_ident_char(s[i]) {
        lemma_run_of_names(s, i + 1);
    }
}

/// The words of a text are the maximal runs of letters, digits and underscores outside quoted text
/// and comments: a word holds nothing else, what follows it does not begin with such a character,
/// and none stands on its own.
pub proof fn lemma_words_are_maximal(s: Seq<char>)
    ensures
        forall|k: int|
            0 <= k < lexemes(s).len() ==> (#[trigger] lexemes(s)[k] matches LexemeView::Word(w)
                ==> is_name(w)),
        forall|k: int|
            0 <= k < lexemes(s).len() - 1 && (#[trigger] lexemes(s)[k]) is Word ==> !is_name_char(
                lexemes(s)[k + 1].text()[0],
            ),
        forall|k: int|
            0 <= k < lexemes(s).len() ==> (#[trigger] lexemes(s)[k] matches LexemeView::Other(c)
                ==> !is_name_char(c) && c != '\'' && c != '"' && c != '`' && c != '#'),
{
    assert forall|k: int| 0 <= k < lexemes(s).len() implies {
        let l = #[trigger] lexemes(s)[k];
        &&& l matches LexemeView::Word(w) ==> is_name(w)
        &&& l is Word && k + 1 < lexemes(s).len() ==> !is_name_char(lexemes(s)[k + 1].text()[0])
        &&& l matches LexemeView::Other(c) ==> !is_name_char(c) && c != '\'' && c != '"' && c
            != '`' && c != '#'
    } by {
        lemma_kinds_from(s, 0, k);
    }
}

// ---------------------------------------------------------------------------------------------
// Comments
// ---------------------------------------------------------------------------------------------

proof fn lemma_line_end_of(s: Seq<char>, i: int, e: int)
    requires
        0 <= i <= e <= s.len(),
        forall|k: int| i <= k < e ==> #[trigger] s[k] != '\n',
        e < s.len() ==> s[e] == '\n',
    ensures
        line_end(s, i) == (if e < s.len() {
            e + 1
        } else {
            e
        }),
    decreases e - i,
{
    if i < e {
        assert(s[i] != '\n');
        lemma_line_end_of(s, i + 1, e);
    }
}

/// A `#` or `--` begins a comment that reaches through the end of its line.
pub proof fn lemma_line_comment(open: Seq<char>, body: Seq<char>, b: Seq<char>)
    requires
        open == seq!['#'] || open == seq!['-', '-'],
        !body.contains('\n'),
    ensures
        lexemes(open + body + seq!['\n'] + b) == seq![
            LexemeView::Comment(open + body + seq!['\n']),
        ] + lexemes(b),
        lexemes(open + body) == seq![LexemeView::Comment(open + body)],
{
    let head = open + body + seq!['\n'];
    let s = head + b;
    let e = open.len() + body.len();
    assert forall|k: int| 1 <= k < e implies #[trigger] s[k] != '\n' by {
        if k >= open.len() {
            assert(s[k] == body[k - open.len()]);
            assert(body.contains(body[k - open.len()]));
        } else {
            assert(s[k] == open[k]);
        }
    }
    assert(s[e as int] == '\n');
    assert(s[0] == open[0]);
    if open.len() == 2 {
        assert(s[1] == open[1]);
    }
    lemma_line_end_of(s, 1, e as int);
    lemma_begins(head, b);
    let t = open + body;
    assert(t =~= s.take(e as int));
    lemma_line_end_of(t, 1, e as int);
    assert(t[0] == open[0]);
    if open.len() == 2 {
        assert(t[1] == open[1]);
    }
    lemma_begins(t, Seq::empty());
    assert(t + Seq::<char>::empty() =~= t);
    assert(lexemes(Seq::<char>::empty()) =~= Seq::empty());
    assert(lexemes(t) =~= seq![LexemeView::Comment(t)]);
}

proof fn lemma_block_end_of(s: Seq<char>, i: int, e: int)
    requires
        0 <= i <= e,
        e + 1 < s.len(),
        s[e] == '*' && s[e + 1] == '/',
        forall|k: int| i <= k < e ==> !(#[trigger] s[k] == '*' && s[k + 1] == '/'),
    ensures
        block_end(s, i) == e + 2,
    decreases e - i,
{
    if i < e {
        assert(!(s[i] == '*' && s[i + 1] == '/'));
        lemma_block_end_of(s, i + 1, e);
    }
}

proof fn lemma_block_runs_out(s: Seq<char>, i: int)
    requires
        0 <= i <= s.len(),
        forall|k: int| i <= k < s.len() - 1 ==> !(#[trigger] s[k] == '*' && s[k + 1] == '/'),
    ensures
        block_end(s, i) == s.len(),
    decreases s.len() - i,
{
    if i + 1 < s.len() {
        assert(!(s[i] == '*' && s[i + 1] == '/'));
        lemma_block_runs_out(s, i + 1);
    }
}

/// A `/*` begins a comment that reaches through the first `*/`, or to the end of the text if there
/// is none.
pub proof fn lemma_block_comment(body: Seq<char>, b: Seq<char>)
    requires
        forall|k: int|
            0 <= k < body.len() - 1 ==> !(#[trigger] body[k] == '*' && body[k + 1] == '/'),
    ensures
        lexemes(seq!['/', '*'] + body + seq!['*', '/'] + b) == seq![
            LexemeView::Comment(seq!['/', '*'] + body + seq!['*', '/']),
        ] + lexemes(b),
        lexemes(seq!['/', '*'] + body) == seq![LexemeView::Comment(seq!['/', '*'] + body)],
{
    let open = seq!['/', '*'];
    let head = open + body + seq!['*', '/'];
    let s = head + b;
    let e: int = body.len() as int + 2;
    assert forall|k: int| 2 <= k < e implies !(#[trigger] s[k] == '*' && s[k + 1] == '/') by {
        assert(s[k] == body[k - 2]);
        if k + 1 < e {
            assert(s[k + 1] == body[k - 1]);
        }
    }
    assert(s[0] == '/' && s[1] == '*' && s[e] == '*' && s[e + 1] == '/');
    lemma_block_end_of(s, 2, e);
    lemma_begins(head, b);
    let t = open + body;
    assert forall|k: int| 2 <= k < t.len() - 1 implies !(#[trigger] t[k] == '*' && t[k + 1]
        == '/') by {
        assert(t[k] == body[k - 2]);
        assert(t[k + 1] == body[k - 1]);
    }
    assert(t[0] == '/' && t[1] == '*');
    lemma_block_runs_out(t, 2);
    lemma_begins(t, Seq::empty());
    assert(t + Seq::<char>::empty() =~= t);
    assert(lexemes(Seq::<char>::empty()) =~= Seq::empty());
    assert(lexemes(t) =~= seq![LexemeView::Comment(t)]);
}

// ---------------------------------------------------------------------------------------------
// Quoted text
// ---------------------------------------------------------------------------------------------

/// Whether `t` can stand between two `quote`s: every `quote` and every backslash in it is bound by
/// a backslash before it.
pub open spec fn is_quotable_body(t: Seq<char>, quote: char) -> bool
    decreases t.len(),
{
    if t.len() == 0 {
        true
    } else if t[0] == '\\' {
        t.len() >= 2 && is_quotable_body(t.skip(2), quote)
    } else {
        t[0] != quote && is_quotable_body(t.skip(1), quote)
    }
}

/// Whether `t` can stand between two runs of three `quote`s: no such run begins in it but behind a
/// backslash.
pub open spec fn is_long_body(t: Seq<char>, quote: char) -> bool
    decreases t.len(),
{
    if t.len() == 0 {
        true
    } else if t[0] == '\\' {
        t.len() >= 2 && is_long_body(t.skip(2), quote)
    } else {
        (t + seq![quote, quote, quote]).take(3) != seq![quote, quote, quote] && is_long_body(
            t.skip(1),
            quote,
        )
    }
}

proof fn lemma_single_end_of(t: Seq<char>, b: Seq<char>, quote: char)
    requires
        is_quotable_body(t, quote),
        quote != '\\',
    ensures
        single_end(t + seq![quote] + b, 0, quote) == t.len() + 1,
        single_end(t, 0, quote) == t.len(),
    decreases t.len(),
{
    let s = t + seq![quote] + b;
    if t.len() > 0 {
        let n: int = if t[0] == '\\' {
            2
        } else {
            1
        };
        let rest = t.skip(n);
        lemma_single_end_of(rest, b, quote);
        assert(s =~= t.take(n) + (rest + seq![quote] + b));
        lemma_ends_shift(t.take(n), rest + seq![quote] + b, 0, quote);
        assert(t =~= t.take(n) + rest);
        lemma_ends_shift(t.take(n), rest, 0, quote);
        assert(s[0] == t[0]);
    } else {
        assert(s[0] == quote);
    }
}

proof fn lemma_triple_end_of(t: Seq<char>, b: Seq<char>, quote: char)
    requires
        is_long_body(t, quote),
        quote != '\\',
    ensures
        triple_end(t + seq![quote, quote, quote] + b, 0, quote) == t.len() + 3,
    decreases t.len(),
{
    let q3 = seq![quote, quote, quote];
    let s = t + q3 + b;
    if t.len() > 0 {
        let n: int = if t[0] == '\\' {
            2
        } else {
            1
        };
        let rest = t.skip(n);
        lemma_triple_end_of(rest, b, quote);
        assert(s =~= t.take(n) + (rest + q3 + b));
        lemma_ends_shift(t.take(n), rest + q3 + b, 0, quote);
        assert(s[0] == t[0]);
        if t[0] == quote {
            let u = t + q3;
            assert(s[1] == u[1] && s[2] == u[2]);
            if s[1] == quote && s[2] == quote {
                assert(u.take(3) =~= q3);
            }
        }
    } else {
        assert(s[0] == quote && s[1] == quote && s[2] == quote);
    }
}

/// A quote opens quoted text that reaches through the next such quote that no backslash binds, or to
/// the end of the text if there is none. Where the text is empty, a third quote would make it long.
pub proof fn lemma_quoted_text(quote: char, t: Seq<char>, b: Seq<char>)
    requires
        quote == '\'' || quote == '"' || quote == '`',
        is_quotable_body(t, quote),
        t.len() == 0 && b.len() > 0 && quote != '`' ==> b[0] != quote,
    ensures
        lexemes(seq![quote] + t + seq![quote] + b) == seq![
            LexemeView::Quoted(seq![quote] + t + seq![quote]),
        ] + lexemes(b),
        lexemes(seq![quote] + t) == seq![LexemeView::Quoted(seq![quote] + t)],
{
    let head = seq![quote] + t + seq![quote];
    let s = head + b;
    let body = t + seq![quote] + b;
    assert(s =~= seq![quote] + body);
    lemma_single_end_of(t, b, quote);
    lemma_ends_shift(seq![quote], body, 0, quote);
    assert(s[0] == quote);
    if t.len() > 0 {
        assert(s[1] == t[0]);
    } else {
        assert(s[1] == quote);
        if b.len() > 0 {
            assert(s[2] == b[0]);
        }
    }
    lemma_begins(head, b);
    let u = seq![quote] + t;
    lemma_ends_shift(seq![quote], t, 0, quote);
    assert(u[0] == quote);
    if t.len() > 0 {
        assert(u[1] == t[0]);
    }
    lemma_begins(u, Seq::empty());
    assert(u + Seq::<char>::empty() =~= u);
    assert(lexemes(Seq::<char>::empty()) =~= Seq::empty());
    assert(lexemes(u) =~= seq![LexemeView::Quoted(u)]);
}

/// Three quotes open quoted text that reaches through the next three of them that no backslash
/// interrupts. A backtick is never tripled.
pub proof fn lemma_long_quoted_text(quote: char, t: Seq<char>, b: Seq<char>)
    requires
        quote == '\'' || quote == '"',
        is_long_body(t, quote),
    ensures
        lexemes(seq![quote, quote, quote] + t + seq![quote, quote, quote] + b) == seq![
            LexemeView::Quoted(seq![quote, quote, quote] + t + seq![quote, quote, quote]),
        ] + lexemes(b),
{
    let q3 = seq![quote, quote, quote];
    let head = q3 + t + q3;
    let s = head + b;
    assert(s =~= q3 + (t + q3 + b));
    lemma_triple_end_of(t, b, quote);
    lemma_ends_shift(q3, t + q3 + b, 0, quote);
    assert(s[0] == quote && s[1] == quote && s[2] == quote);
    lemma_begins(head, b);
}

} // verus!
