//! GoogleSQL text helpers: statement classification and splitting, identifier quoting, and
//! bind-parameter extraction, all over the lexemes of [`crate::lexer`].
//!
//! Spanner applies DDL through a separate admin operation and DML only in read/write transactions,
//! so the driver has to tell from the text alone which of them a statement is, where the statements
//! of a batch begin and end, and which parameters a statement names.

use vstd::hash_set::StringHashSet;
use vstd::prelude::*;
use vstd::string::*;

use crate::error::{fails, gives, invalid_argument, Error, Status};
use crate::lexer::{blank, is_other, lex, lexemes, views, Lexeme, LexemeView};
use crate::text::{
    alphabetic, debug_quoted, debug_text, eq_ignoring_case, is_alphabetic,
    lowered, same_ignoring_case, substring, texts, to_chars, to_lower, trim,
    trimmed,
};

verus! {

// ---------------------------------------------------------------------------------------------
// The leading keyword
// ---------------------------------------------------------------------------------------------

/// `ls` without its leading comments and white space.
pub open spec fn skip_blanks(ls: Seq<LexemeView>) -> Seq<LexemeView>
    decreases ls.len(),
{
    if ls.len() > 0 && ls[0].is_blank() {
        skip_blanks(ls.skip(1))
    } else {
        ls
    }
}

/// What follows the first `}` of `ls`; nothing, if there is none.
pub open spec fn after_hint(ls: Seq<LexemeView>) -> Seq<LexemeView>
    decreases ls.len(),
{
    if ls.len() == 0 {
        ls
    } else if ls[0] == LexemeView::Other('}') {
        ls.skip(1)
    } else {
        after_hint(ls.skip(1))
    }
}

/// Where the run of ASCII letters that reaches `i` ends.
pub open spec fn letters_end(w: Seq<char>, i: int) -> int
    decreases w.len() - i,
{
    if 0 <= i < w.len() && is_alphabetic(w[i]) {
        letters_end(w, i + 1)
    } else {
        i
    }
}

/// The leading run of ASCII letters of `w`, unless it is empty.
pub open spec fn leading_letters(w: Seq<char>) -> Option<Seq<char>> {
    if letters_end(w, 0) > 0 {
        Some(w.take(letters_end(w, 0)))
    } else {
        None
    }
}

/// The first keyword of `ls`: the leading letters of the first word, behind nothing but comments,
/// white space and statement hints (`@{…}`, with comments and white space allowed between the two
/// marks).
pub open spec fn keyword_of(ls: Seq<LexemeView>) -> Option<Seq<char>>
    decreases ls.len(),
    via keyword_of_decreases
{
    if ls.len() == 0 {
        None
    } else if ls[0].is_blank() {
        keyword_of(ls.skip(1))
    } else {
        match ls[0] {
            LexemeView::Word(w) => leading_letters(w),
            LexemeView::Other(c) => {
                let rest = skip_blanks(ls.skip(1));
                if c == '@' && rest.len() > 0 && rest[0] == LexemeView::Other('{') {
                    keyword_of(after_hint(rest))
                } else {
                    None
                }
            },
            _ => None,
        }
    }
}

#[via_fn]
proof fn keyword_of_decreases(ls: Seq<LexemeView>) {
    if ls.len() > 0 {
        lemma_skip_blanks_len(ls.skip(1));
        lemma_after_hint_len(skip_blanks(ls.skip(1)));
    }
}

proof fn lemma_skip_blanks_len(ls: Seq<LexemeView>)
    ensures
        skip_blanks(ls).len() <= ls.len(),
        skip_blanks(ls) == ls.skip(ls.len() - skip_blanks(ls).len()),
        skip_blanks(ls).len() > 0 ==> !skip_blanks(ls)[0].is_blank(),
    decreases ls.len(),
{
    if ls.len() > 0 && ls[0].is_blank() {
        lemma_skip_blanks_len(ls.skip(1));
        let n = ls.len() - skip_blanks(ls).len();
        assert(ls.skip(1).skip(n - 1) =~= ls.skip(n));
    } else {
        assert(ls.skip(0) =~= ls);
    }
}

proof fn lemma_after_hint_len(ls: Seq<LexemeView>)
    ensures
        after_hint(ls).len() <= ls.len(),
    decreases ls.len(),
{
    if ls.len() > 0 && ls[0] != LexemeView::Other('}') {
        lemma_after_hint_len(ls.skip(1));
    }
}

/// The index of the first lexeme at or after `from` that is neither a comment nor white space.
fn find_significant(ls: &Vec<Lexeme>, from: usize) -> (r: usize)
    requires
        from <= ls@.len(),
    ensures
        from <= r <= ls@.len(),
        views(ls@).skip(r as int) == skip_blanks(views(ls@).skip(from as int)),
{
    let mut i: usize = from;
    while i < ls.len() && blank(&ls[i])
        invariant
            from <= i <= ls@.len(),
            skip_blanks(views(ls@).skip(i as int)) == skip_blanks(views(ls@).skip(from as int)),
        decreases ls@.len() - i,
    {
        assert(views(ls@).skip(i as int)[0] == ls@[i as int]@);
        assert(views(ls@).skip(i as int).skip(1) =~= views(ls@).skip(i + 1));
        i = i + 1;
    }
    if i < ls.len() {
        assert(views(ls@).skip(i as int)[0] == ls@[i as int]@);
    }
    i
}

/// The index just behind the first `}` at or after `from`, or the end.
fn find_hint_end(ls: &Vec<Lexeme>, from: usize) -> (r: usize)
    requires
        from <= ls@.len(),
    ensures
        from <= r <= ls@.len(),
        views(ls@).skip(r as int) == after_hint(views(ls@).skip(from as int)),
{
    let mut i: usize = from;
    while i < ls.len()
        invariant
            from <= i <= ls@.len(),
            after_hint(views(ls@).skip(i as int)) == after_hint(views(ls@).skip(from as int)),
        decreases ls@.len() - i,
    {
        assert(views(ls@).skip(i as int)[0] == ls@[i as int]@);
        assert(views(ls@).skip(i as int).skip(1) =~= views(ls@).skip(i + 1));
        if is_other(&ls[i], '}') {
            return i + 1;
        }
        i = i + 1;
    }
    i
}

/// The leading run of ASCII letters of `word`, unless it is empty.
fn leading_word(word: &str) -> (r: Option<String>)
    ensures
        match r {
            Some(k) => leading_letters(word@) == Some(k@),
            None => leading_letters(word@) is None,
        },
{
    let chars = to_chars(word);
    let mut i: usize = 0;
    while i < chars.len() && alphabetic(chars[i])
        invariant
            i <= chars@.len(),
            chars@ == word@,
            letters_end(word@, i as int) == letters_end(word@, 0),
        decreases chars@.len() - i,
    {
        i = i + 1;
    }
    if i > 0 {
        assert(chars@.subrange(0, i as int) =~= word@.take(i as int));
        Some(substring(chars.as_slice(), 0, i))
    } else {
        None
    }
}

/// The first keyword of `sql`, in its original case.
///
/// Leading white space, comments and statement hints are skipped. A hint body is lexed like any
/// text, so a `}` inside a literal does not close it, and an unterminated hint or comment leaves no
/// keyword. Anything else before the first word means that there is none, as does a first word that
/// does not begin with an ASCII letter.
pub fn first_keyword(sql: &str) -> (r: Option<String>)
    ensures
        match r {
            Some(k) => keyword_of(lexemes(sql@)) == Some(k@),
            None => keyword_of(lexemes(sql@)) is None,
        },
{
    let ls = lex(sql);
    let mut i: usize = 0;
    assert(views(ls@).skip(0) =~= views(ls@));
    while i < ls.len()
        invariant
            i <= ls@.len(),
            views(ls@) == lexemes(sql@),
            keyword_of(views(ls@).skip(i as int)) == keyword_of(lexemes(sql@)),
        decreases ls@.len() - i,
    {
        let ghost here = views(ls@).skip(i as int);
        assert(here[0] == ls@[i as int]@);
        assert(here.skip(1) =~= views(ls@).skip(i + 1));
        if blank(&ls[i]) {
            i = i + 1;
        } else {
            match &ls[i] {
                Lexeme::Word(w) => {
                    return leading_word(w.as_str());
                },
                Lexeme::Other(c) => {
                    let next: usize = find_significant(&ls, i + 1);
                    if next < ls.len() {
                        assert(views(ls@).skip(next as int)[0] == ls@[next as int]@);
                    }
                    if *c == '@' && next < ls.len() && is_other(&ls[next], '{') {
                        let end: usize = find_hint_end(&ls, next);
                        i = end;
                    } else {
                        return None;
                    }
                },
                _ => {
                    return None;
                },
            }
        }
    }
    None
}

pub open spec fn is_ddl_keyword(k: Seq<char>) -> bool {
    ||| same_ignoring_case(k, "CREATE"@)
    ||| same_ignoring_case(k, "DROP"@)
    ||| same_ignoring_case(k, "ALTER"@)
    ||| same_ignoring_case(k, "RENAME"@)
    ||| same_ignoring_case(k, "GRANT"@)
    ||| same_ignoring_case(k, "REVOKE"@)
    ||| same_ignoring_case(k, "ANALYZE"@)
}

pub open spec fn is_dml_keyword(k: Seq<char>) -> bool {
    ||| same_ignoring_case(k, "INSERT"@)
    ||| same_ignoring_case(k, "UPDATE"@)
    ||| same_ignoring_case(k, "DELETE"@)
}

/// Whether the text begins with a DDL statement.
pub open spec fn begins_ddl(s: Seq<char>) -> bool {
    match keyword_of(lexemes(s)) {
        Some(k) => is_ddl_keyword(k),
        None => false,
    }
}

/// Whether the text begins with a DML statement.
pub open spec fn begins_dml(s: Seq<char>) -> bool {
    match keyword_of(lexemes(s)) {
        Some(k) => is_dml_keyword(k),
        None => false,
    }
}

/// Whether `sql` begins with a DDL statement (`CREATE`, `DROP`, `ALTER`, `RENAME`, `GRANT`,
/// `REVOKE`, `ANALYZE`).
pub fn is_ddl(sql: &str) -> (r: bool)
    ensures
        r == begins_ddl(sql@),
{
    match first_keyword(sql) {
        Some(k) => {
            let k = k.as_str();
            eq_ignoring_case(k, "CREATE") || eq_ignoring_case(k, "DROP") || eq_ignoring_case(
                k,
                "ALTER",
            ) || eq_ignoring_case(k, "RENAME") || eq_ignoring_case(k, "GRANT") || eq_ignoring_case(
                k,
                "REVOKE",
            ) || eq_ignoring_case(k, "ANALYZE")
        },
        None => false,
    }
}

/// Whether `sql` begins with a DML statement (`INSERT`, `UPDATE`, `DELETE`).
pub fn is_dml(sql: &str) -> (r: bool)
    ensures
        r == begins_dml(sql@),
{
    match first_keyword(sql) {
        Some(k) => {
            let k = k.as_str();
            eq_ignoring_case(k, "INSERT") || eq_ignoring_case(k, "UPDATE") || eq_ignoring_case(
                k,
                "DELETE",
            )
        },
        None => false,
    }
}

// ---------------------------------------------------------------------------------------------
// THEN RETURN
// ---------------------------------------------------------------------------------------------

/// Whether the lexeme is the word `keyword`, in any case.
pub open spec fn word_is(l: LexemeView, keyword: Seq<char>) -> bool {
    match l {
        LexemeView::Word(w) => same_ignoring_case(w, keyword),
        _ => false,
    }
}

/// How many `CASE` words of the first `n` lexemes are still open. An `END` with none open is
/// ignored.
pub open spec fn case_depth(ls: Seq<LexemeView>, n: int) -> nat
    decreases n,
{
    if n <= 0 {
        0
    } else {
        let depth = case_depth(ls, n - 1);
        if word_is(ls[n - 1], "CASE"@) {
            depth + 1
        } else if word_is(ls[n - 1], "END"@) && depth > 0 {
            (depth - 1) as nat
        } else {
            depth
        }
    }
}

/// Whether the last word or quoted text among the first `n` lexemes is the word `THEN`.
pub open spec fn follows_then(ls: Seq<LexemeView>, n: int) -> bool
    decreases n,
{
    if n <= 0 {
        false
    } else {
        match ls[n - 1] {
            LexemeView::Word(w) => same_ignoring_case(w, "THEN"@),
            LexemeView::Quoted(_) => false,
            _ => follows_then(ls, n - 1),
        }
    }
}

/// Whether the lexeme at `i` completes a top-level `THEN RETURN`.
pub open spec fn completes_clause(ls: Seq<LexemeView>, i: int) -> bool {
    word_is(ls[i], "RETURN"@) && follows_then(ls, i) && case_depth(ls, i) == 0
}

/// Whether `ls` holds a `THEN RETURN` clause: the two words in this order, with no word or quoted
/// text between them, outside every `CASE … END`.
pub open spec fn has_then_return(ls: Seq<LexemeView>) -> bool {
    exists|i: int| 0 <= i < ls.len() && #[trigger] completes_clause(ls, i)
}

/// Whether `sql` contains a top-level `THEN RETURN` clause.
///
/// A `THEN` inside `CASE … END` belongs to the `CASE`, so a branch expression that is a column named
/// `return` is not a clause.
pub fn is_dml_returning(sql: &str) -> (r: bool)
    ensures
        r == has_then_return(lexemes(sql@)),
{
    let ls = lex(sql);
    let mut previous_was_then = false;
    let mut depth: usize = 0;
    let mut i: usize = 0;
    while i < ls.len()
        invariant
            i <= ls@.len(),
            depth <= i,
            views(ls@) == lexemes(sql@),
            depth == case_depth(lexemes(sql@), i as int),
            previous_was_then == follows_then(lexemes(sql@), i as int),
            forall|k: int| 0 <= k < i ==> !#[trigger] completes_clause(lexemes(sql@), k),
        decreases ls@.len() - i,
    {
        assert(views(ls@)[i as int] == ls@[i as int]@);
        match &ls[i] {
            Lexeme::Word(w) => {
                let w = w.as_str();
                if previous_was_then && depth == 0 && eq_ignoring_case(w, "RETURN") {
                    assert(completes_clause(lexemes(sql@), i as int));
                    return true;
                }
                previous_was_then = eq_ignoring_case(w, "THEN");
                if eq_ignoring_case(w, "CASE") {
                    depth = depth + 1;
                } else if eq_ignoring_case(w, "END") {
                    if depth > 0 {
                        depth = depth - 1;
                    }
                }
            },
            Lexeme::Quoted(_) => {
                previous_was_then = false;
            },
            _ => {},
        }
        i = i + 1;
    }
    false
}

// ---------------------------------------------------------------------------------------------
// Splitting a batch
// ---------------------------------------------------------------------------------------------

/// The texts between the top-level semicolons.
pub open spec fn segments(ls: Seq<LexemeView>) -> Seq<Seq<char>>
    decreases ls.len(),
{
    if ls.len() == 0 {
        seq![Seq::empty()]
    } else {
        let before = segments(ls.drop_last());
        if ls.last() == LexemeView::Other(';') {
            before.push(Seq::empty())
        } else {
            before.drop_last().push(before.last() + ls.last().text())
        }
    }
}

/// Whether `ls` holds anything but comments and white space.
pub open spec fn has_significant(ls: Seq<LexemeView>) -> bool {
    exists|i: int| 0 <= i < ls.len() && !(#[trigger] ls[i]).is_blank()
}

/// The segments, trimmed, without those that hold only comments and white space.
pub open spec fn kept(segs: Seq<Seq<char>>) -> Seq<Seq<char>>
    decreases segs.len(),
{
    if segs.len() == 0 {
        Seq::empty()
    } else {
        let text = trimmed(segs.last());
        if has_significant(lexemes(text)) {
            kept(segs.drop_last()).push(text)
        } else {
            kept(segs.drop_last())
        }
    }
}

/// The statements of a batch.
pub open spec fn statements(s: Seq<char>) -> Seq<Seq<char>> {
    kept(segments(lexemes(s)))
}

fn push_statement(out: &mut Vec<String>, current: &str)
    ensures
        texts(final(out)@) == (if has_significant(lexemes(trimmed(current@))) {
            texts(old(out)@).push(trimmed(current@))
        } else {
            texts(old(out)@)
        }),
{
    let text = trim(current);
    let ls = lex(text.as_str());
    let mut i: usize = 0;
    while i < ls.len()
        invariant
            i <= ls@.len(),
            text@ == trimmed(current@),
            views(ls@) == lexemes(text@),
            out@ == old(out)@,
            forall|k: int| 0 <= k < i ==> (#[trigger] views(ls@)[k]).is_blank(),
        decreases ls@.len() - i,
    {
        assert(views(ls@)[i as int] == ls@[i as int]@);
        if !blank(&ls[i]) {
            out.push(text);
            assert(texts(out@) =~= texts(old(out)@).push(trimmed(current@)));
            return;
        }
        i = i + 1;
    }
}

proof fn lemma_segments_nonempty(ls: Seq<LexemeView>)
    ensures
        segments(ls).len() > 0,
    decreases ls.len(),
{
    if ls.len() > 0 {
        lemma_segments_nonempty(ls.drop_last());
    }
}

/// The statements of a (possibly multi-statement) text: the trimmed texts between its top-level
/// semicolons, without those that hold nothing but comments and white space.
pub fn split_statements(sql: &str) -> (r: Vec<String>)
    ensures
        texts(r@) == statements(sql@),
{
    let ls = lex(sql);
    let mut out: Vec<String> = Vec::new();
    let mut current = String::new();
    let mut i: usize = 0;
    assert(views(ls@).take(0) =~= Seq::empty());
    assert(segments(views(ls@).take(0)).drop_last() =~= Seq::<Seq<char>>::empty());
    assert(texts(out@) =~= Seq::<Seq<char>>::empty());
    while i < ls.len()
        invariant
            i <= ls@.len(),
            views(ls@) == lexemes(sql@),
            segments(views(ls@).take(i as int)).len() > 0,
            current@ == segments(views(ls@).take(i as int)).last(),
            texts(out@) == kept(segments(views(ls@).take(i as int)).drop_last()),
        decreases ls@.len() - i,
    {
        let ghost before = segments(views(ls@).take(i as int));
        let ghost next = views(ls@).take(i + 1);
        assert(next.drop_last() =~= views(ls@).take(i as int));
        assert(next.last() == ls@[i as int]@);
        match &ls[i] {
            Lexeme::Word(s) => {
                current.append(s.as_str());
            },
            Lexeme::Quoted(s) => {
                current.append(s.as_str());
            },
            Lexeme::Comment(s) => {
                current.append(s.as_str());
            },
            Lexeme::Other(c) => {
                if *c == ';' {
                    push_statement(&mut out, current.as_str());
                    current = String::new();
                } else {
                    current.push(*c);
                    assert(current@ =~= before.last() + seq![*c]);
                }
            },
        }
        proof {
            if ls@[i as int]@ == LexemeView::Other(';') {
                assert(segments(next).drop_last() =~= before);
            } else {
                assert(segments(next).drop_last() =~= before.drop_last());
                assert(segments(next).last() == before.last() + next.last().text());
            }
        }
        i = i + 1;
    }
    assert(views(ls@).take(ls@.len() as int) =~= views(ls@));
    push_statement(&mut out, current.as_str());
    out
}

/// What is sent for a single query: its one statement, or the text itself.
pub open spec fn stripped(s: Seq<char>) -> Seq<char> {
    if statements(s).len() == 1 {
        statements(s)[0]
    } else {
        s
    }
}

/// The only statement of `sql`, without terminators and surrounding white space. A text with no
/// statement, or with more than one, is returned unchanged.
pub fn strip_trailing_terminators(sql: &str) -> (r: String)
    ensures
        r@ == stripped(sql@),
{
    let mut found = split_statements(sql);
    assert(found@.len() == texts(found@).len());
    if found.len() == 1 {
        assert(texts(found@)[0] == found@[0]@);
        match found.pop() {
            Some(statement) => statement,
            None => sql.to_owned(),
        }
    } else {
        sql.to_owned()
    }
}

// ---------------------------------------------------------------------------------------------
// Bind parameters
// ---------------------------------------------------------------------------------------------

/// Whether a word can be a parameter name: it begins with a letter or an underscore.
pub open spec fn is_parameter_word(w: Seq<char>) -> bool {
    w.len() > 0 && (w[0] == '_' || is_alphabetic(w[0]))
}

/// Whether `q` is a backtick-quoted name that is closed, not empty, and without escapes.
pub open spec fn is_parameter_quote(q: Seq<char>) -> bool {
    &&& q.len() > 2
    &&& q[0] == '`'
    &&& q.last() == '`'
    &&& !q.contains('\\')
}

/// The parameter references (`@name`) among `ls`, in order. Comments and white space may stand
/// between the `@` and the name. `@@name` is a system variable and `@{` opens a hint: neither is a
/// reference.
pub open spec fn references(ls: Seq<LexemeView>) -> Seq<Seq<char>>
    decreases ls.len(),
    via references_decreases
{
    if ls.len() == 0 {
        Seq::empty()
    } else if ls[0] != LexemeView::Other('@') {
        references(ls.skip(1))
    } else {
        let rest = skip_blanks(ls.skip(1));
        if rest.len() == 0 {
            Seq::empty()
        } else {
            match rest[0] {
                LexemeView::Word(w) if is_parameter_word(w) => seq![w] + references(rest.skip(1)),
                LexemeView::Quoted(q) if is_parameter_quote(q) => seq![
                    q.subrange(1, q.len() - 1),
                ] + references(rest.skip(1)),
                LexemeView::Other(c) if c == '@' || c == '{' => references(rest.skip(1)),
                _ => references(rest),
            }
        }
    }
}

#[via_fn]
proof fn references_decreases(ls: Seq<LexemeView>) {
    if ls.len() > 0 {
        lemma_skip_blanks_len(ls.skip(1));
    }
}

/// Whether `name` is among `names`, up to the case of ASCII letters.
pub open spec fn occurs_in(name: Seq<char>, names: Seq<Seq<char>>) -> bool {
    exists|i: int| 0 <= i < names.len() && same_ignoring_case(#[trigger] names[i], name)
}

/// `names` without those that repeat an earlier one up to the case of ASCII letters.
pub open spec fn first_spellings(names: Seq<Seq<char>>) -> Seq<Seq<char>>
    decreases names.len(),
{
    if names.len() == 0 {
        names
    } else {
        let before = names.drop_last();
        if occurs_in(names.last(), before) {
            first_spellings(before)
        } else {
            first_spellings(before).push(names.last())
        }
    }
}

/// The distinct parameters of a statement, each in its first spelling, in order of first appearance.
pub open spec fn parameters(s: Seq<char>) -> Seq<Seq<char>> {
    first_spellings(references(lexemes(s)))
}

/// The name a lexeme gives to the parameter whose `@` stands before it.
pub open spec fn name_of(l: LexemeView) -> Option<Seq<char>> {
    match l {
        LexemeView::Word(w) if is_parameter_word(w) => Some(w),
        LexemeView::Quoted(q) if is_parameter_quote(q) => Some(q.subrange(1, q.len() - 1)),
        _ => None,
    }
}

fn parameter_name(lexeme: &Lexeme) -> (r: Option<String>)
    ensures
        match r {
            Some(n) => name_of(lexeme@) == Some(n@),
            None => name_of(lexeme@) is None,
        },
{
    match lexeme {
        Lexeme::Word(w) => {
            let chars = to_chars(w.as_str());
            if chars.len() > 0 && (chars[0] == '_' || alphabetic(chars[0])) {
                Some(w.clone())
            } else {
                None
            }
        },
        Lexeme::Quoted(q) => {
            let chars = to_chars(q.as_str());
            let n: usize = chars.len();
            if n > 2 && chars[0] == '`' && chars[n - 1] == '`' {
                let mut i: usize = 0;
                while i < n
                    invariant
                        i <= n == chars@.len(),
                        chars@ == q@,
                        lexeme@ == LexemeView::Quoted(q@),
                        forall|k: int| 0 <= k < i ==> chars@[k] != '\\',
                    decreases n - i,
                {
                    if chars[i] == '\\' {
                        assert(q@.contains('\\'));
                        return None;
                    }
                    i = i + 1;
                }
                assert(!q@.contains('\\'));
                Some(substring(chars.as_slice(), 1, n - 1))
            } else {
                None
            }
        },
        _ => None,
    }
}

/// The distinct parameters (`@name`) of `sql`, each in its first spelling, in order of first
/// appearance. Names that differ only in the case of ASCII letters are the same parameter.
pub fn named_parameters(sql: &str) -> (r: Vec<String>)
    ensures
        texts(r@) == parameters(sql@),
{
    let ls = lex(sql);
    let mut out: Vec<String> = Vec::new();
    let mut seen = StringHashSet::new();
    let ghost mut found: Seq<Seq<char>> = Seq::empty();
    let mut i: usize = 0;
    assert(views(ls@).skip(0) =~= views(ls@));
    assert(texts(out@) =~= Seq::<Seq<char>>::empty());
    assert(found + references(lexemes(sql@)) =~= references(lexemes(sql@)));
    while i < ls.len()
        invariant
            i <= ls@.len(),
            views(ls@) == lexemes(sql@),
            found + references(views(ls@).skip(i as int)) == references(lexemes(sql@)),
            texts(out@) == first_spellings(found),
            forall|n: Seq<char>| #[trigger]
                seen@.contains(n) <==> exists|j: int|
                    0 <= j < found.len() && lowered(#[trigger] found[j]) == n,
        decreases ls@.len() - i,
    {
        let ghost here = views(ls@).skip(i as int);
        assert(here[0] == ls@[i as int]@);
        assert(here.skip(1) =~= views(ls@).skip(i + 1));
        if !is_other(&ls[i], '@') {
            i = i + 1;
        } else {
            let next: usize = find_significant(&ls, i + 1);
            if next >= ls.len() {
                i = next;
                assert(views(ls@).skip(i as int) =~= Seq::<LexemeView>::empty());
            } else {
                let ghost rest = views(ls@).skip(next as int);
                assert(rest[0] == ls@[next as int]@);
                assert(rest.skip(1) =~= views(ls@).skip(next + 1));
                match parameter_name(&ls[next]) {
                    Some(name) => {
                        let lowercase = to_lower(name.as_str());
                        let ghost old_found = found;
                        let ghost old_out = texts(out@);
                        let ghost text = name@;
                        proof {
                            found = found.push(name@);
                            assert(found.drop_last() =~= old_found);
                            assert(old_found + (seq![name@] + references(rest.skip(1))) =~= found
                                + references(rest.skip(1)));
                            assert(occurs_in(name@, old_found) <==> seen@.contains(lowercase@)) by {
                                if occurs_in(name@, old_found) {
                                    let j = choose|j: int|
                                        0 <= j < old_found.len() && same_ignoring_case(
                                            #[trigger] old_found[j],
                                            name@,
                                        );
                                    assert(lowered(old_found[j]) == lowercase@);
                                }
                                if seen@.contains(lowercase@) {
                                    let j = choose|j: int|
                                        0 <= j < old_found.len() && lowered(
                                            #[trigger] old_found[j],
                                        ) == lowercase@;
                                    assert(same_ignoring_case(old_found[j], name@));
                                }
                            }
                        }
                        let ghost old_seen = seen@;
                        let ghost key = lowercase@;
                        if !seen.contains(lowercase.as_str()) {
                            seen.insert(lowercase);
                            out.push(name);
                            assert(texts(out@) =~= old_out.push(text));
                        }
                        proof {
                            assert(seen@ =~= old_seen.insert(key));
                            assert forall|n: Seq<char>| #[trigger]
                                seen@.contains(n) <==> exists|j: int|
                                    0 <= j < found.len() && lowered(#[trigger] found[j]) == n by {
                                if seen@.contains(n) {
                                    if n == key {
                                        assert(lowered(found[found.len() - 1]) == n);
                                    } else {
                                        let j = choose|j: int|
                                            0 <= j < old_found.len() && lowered(
                                                #[trigger] old_found[j],
                                            ) == n;
                                        assert(found[j] == old_found[j]);
                                    }
                                }
                                if exists|j: int|
                                    0 <= j < found.len() && lowered(#[trigger] found[j]) == n {
                                    let j = choose|j: int|
                                        0 <= j < found.len() && lowered(#[trigger] found[j]) == n;
                                    if j < old_found.len() {
                                        assert(lowered(old_found[j]) == n);
                                        assert(old_seen.contains(n));
                                    }
                                }
                            }
                        }
                        i = next + 1;
                    },
                    None => {
                        if is_other(&ls[next], '@') || is_other(&ls[next], '{') {
                            i = next + 1;
                        } else {
                            i = next;
                        }
                    },
                }
            }
        }
    }
    assert(views(ls@).skip(i as int) =~= Seq::<LexemeView>::empty());
    assert(found + Seq::<Seq<char>>::empty() =~= found);
    out
}

// ---------------------------------------------------------------------------------------------
// Identifiers
// ---------------------------------------------------------------------------------------------

/// Whether a name may hold the character: no delimiter, no escape, and nothing that ends a line, sets
/// a column or ends a C string.
pub open spec fn is_nameable(c: char) -> bool {
    c != '`' && c != '\\' && c != '\n' && c != '\r' && c != '\t' && c != '\0'
}

/// Whether a name can stand between backticks under every Spanner grammar: it is not empty and
/// holds no character that it may not.
pub open spec fn is_quotable(ident: Seq<char>) -> bool {
    &&& ident.len() > 0
    &&& forall|i: int| 0 <= i < ident.len() ==> is_nameable(#[trigger] ident[i])
}

/// `ident` between backticks.
pub open spec fn quoted(ident: Seq<char>) -> Seq<char> {
    seq!['`'] + ident + seq!['`']
}

pub open spec fn unquotable_message(ident: Seq<char>) -> Seq<char> {
    "identifier "@ + debug_text(ident)
        + " cannot be quoted: a name must not be empty or hold a backtick, a backslash, a newline, a carriage return, a tab or a NUL"@
}

/// `ident` between backticks. A name that backticks cannot safely contain is rejected: Spanner's
/// query and DDL parsers disagree about escapes, so no escaping would be safe in both.
pub fn quote_ident(ident: &str) -> (r: Result<String, Error>)
    ensures
        is_quotable(ident@) ==> gives(r, quoted(ident@)),
        !is_quotable(ident@) ==> fails(
            r,
            Status::InvalidArguments,
            unquotable_message(ident@),
        ),
{
    let chars = to_chars(ident);
    let mut ok = chars.len() > 0;
    let mut out = String::new();
    out.push('`');
    let mut i: usize = 0;
    while i < chars.len()
        invariant
            i <= chars@.len(),
            chars@ == ident@,
            out@ == seq!['`'] + ident@.take(i as int),
            ok <==> ident@.len() > 0 && forall|k: int|
                0 <= k < i ==> is_nameable(#[trigger] ident@[k]),
        decreases chars@.len() - i,
    {
        let c = chars[i];
        if c == '`' || c == '\\' || c == '\n' || c == '\r' || c == '\t' || c == '\0' {
            ok = false;
        }
        out.push(c);
        assert(ident@.take(i + 1) =~= ident@.take(i as int).push(c));
        assert(out@ =~= seq!['`'] + ident@.take(i + 1));
        i = i + 1;
    }
    assert(ident@.take(i as int) =~= ident@);
    if ok {
        out.push('`');
        assert(out@ =~= quoted(ident@));
        Ok(out)
    } else {
        let mut message = "identifier ".to_owned();
        message.append(debug_quoted(ident).as_str());
        message.append(
            " cannot be quoted: a name must not be empty or hold a backtick, a backslash, a newline, a carriage return, a tab or a NUL",
        );
        Err(invalid_argument(message))
    }
}

/// A schema that qualifies a table: absent and empty both mean Spanner's unnamed schema.
pub open spec fn named_schema(db_schema: Option<&str>) -> Option<Seq<char>> {
    match db_schema {
        Some(s) if s@.len() > 0 => Some(s@),
        _ => None,
    }
}

/// `table_name` between backticks, behind its schema (also between backticks) if that has a name.
/// The schema is one identifier, not a path. If either half cannot be quoted the name is rejected,
/// the schema being looked at first.
pub fn qualified_table(db_schema: Option<&str>, table_name: &str) -> (r: Result<String, Error>)
    ensures
        match named_schema(db_schema) {
            None => {
                &&& is_quotable(table_name@) ==> gives(r, quoted(table_name@))
                &&& !is_quotable(table_name@) ==> fails(
                    r,
                    Status::InvalidArguments,
                    unquotable_message(table_name@),
                )
            },
            Some(schema) => {
                &&& is_quotable(schema) && is_quotable(table_name@) ==> gives(
                    r,
                    quoted(schema) + seq!['.'] + quoted(table_name@),
                )
                &&& !is_quotable(schema) ==> fails(
                    r,
                    Status::InvalidArguments,
                    unquotable_message(schema),
                )
                &&& is_quotable(schema) && !is_quotable(table_name@) ==> fails(
                    r,
                    Status::InvalidArguments,
                    unquotable_message(table_name@),
                )
            },
        },
{
    match db_schema {
        Some(schema) if !schema.is_empty() => {
            match quote_ident(schema) {
                Ok(first) => match quote_ident(table_name) {
                    Ok(second) => {
                        let mut out = first;
                        out.push('.');
                        out.append(second.as_str());
                        assert(out@ =~= quoted(schema@) + seq!['.'] + quoted(table_name@));
                        Ok(out)
                    },
                    Err(e) => Err(e),
                },
                Err(e) => Err(e),
            }
        },
        _ => quote_ident(table_name),
    }
}

} // verus!
