//! The GoogleSQL tokenizer: where words, quoted text and comments begin and end.
//!
//! A lexeme is a maximal word, a string/bytes literal or quoted identifier, a comment, or any other
//! single character. The lexemes of a text partition it: every character belongs to exactly one of
//! them, and [`lemma_lexemes_partition`] states that writing them one after the other gives the text
//! back.

use vstd::prelude::*;

use crate::text::{
    alphabetic, digit, is_alphabetic, is_digit, is_whitespace, substring, to_chars, whitespace,
};

verus! {

/// One lexeme, with the text it covers (delimiters included).
#[derive(Debug, Clone, PartialEq, Eq)]
pub enum Lexeme {
    /// A maximal run of identifier characters (`[A-Za-z0-9_]`): a keyword, identifier or number.
    Word(String),
    /// A string/bytes literal or quoted identifier. A backslash binds the character after it,
    /// whatever prefix stands before the quote, and `'''`/`"""` close only on three quotes.
    Quoted(String),
    /// A `--`/`#` comment through its newline, or a `/* … */` comment. An unterminated comment
    /// runs to the end of the text.
    Comment(String),
    /// Any other single character.
    Other(char),
}

/// What a [`Lexeme`] stands for.
pub enum LexemeView {
    Word(Seq<char>),
    Quoted(Seq<char>),
    Comment(Seq<char>),
    Other(char),
}

impl View for Lexeme {
    type V = LexemeView;

    open spec fn view(&self) -> LexemeView {
        match self {
            Lexeme::Word(s) => LexemeView::Word(s@),
            Lexeme::Quoted(s) => LexemeView::Quoted(s@),
            Lexeme::Comment(s) => LexemeView::Comment(s@),
            Lexeme::Other(c) => LexemeView::Other(*c),
        }
    }
}

impl LexemeView {
    /// The text that the lexeme covers.
    pub open spec fn text(self) -> Seq<char> {
        match self {
            LexemeView::Word(s) => s,
            LexemeView::Quoted(s) => s,
            LexemeView::Comment(s) => s,
            LexemeView::Other(c) => seq![c],
        }
    }

    /// A comment or a white-space character.
    pub open spec fn is_blank(self) -> bool {
        match self {
            LexemeView::Comment(_) => true,
            LexemeView::Other(c) => is_whitespace(c),
            _ => false,
        }
    }
}

/// The lexemes that a slice of [`Lexeme`]s stands for.
pub open spec fn views(lexemes: Seq<Lexeme>) -> Seq<LexemeView> {
    lexemes.map_values(|l: Lexeme| l@)
}

/// The texts of `lexemes`, one after the other.
pub open spec fn joined(lexemes: Seq<LexemeView>) -> Seq<char>
    decreases lexemes.len(),
{
    if lexemes.len() == 0 {
        Seq::empty()
    } else {
        lexemes[0].text() + joined(lexemes.skip(1))
    }
}

pub open spec fn is_ident_char(c: char) -> bool {
    c == '_' || is_alphabetic(c) || is_digit(c)
}

/// Whether `s` has the character `c` at index `i`.
pub open spec fn has_at(s: Seq<char>, i: int, c: char) -> bool {
    0 <= i < s.len() && s[i] == c
}

/// Where the run of identifier characters that reaches `i` ends.
pub open spec fn word_end(s: Seq<char>, i: int) -> int
    decreases s.len() - i,
{
    if 0 <= i < s.len() && is_ident_char(s[i]) {
        word_end(s, i + 1)
    } else {
        i
    }
}

/// Just behind the first newline at or after `i`, or the end of the text.
pub open spec fn line_end(s: Seq<char>, i: int) -> int
    decreases s.len() - i,
{
    if i >= s.len() {
        s.len() as int
    } else if s[i] == '\n' {
        i + 1
    } else {
        line_end(s, i + 1)
    }
}

/// Just behind the first `*/` at or after `i`, or the end of the text.
pub open spec fn block_end(s: Seq<char>, i: int) -> int
    decreases s.len() - i,
{
    if i + 1 >= s.len() {
        s.len() as int
    } else if s[i] == '*' && s[i + 1] == '/' {
        i + 2
    } else {
        block_end(s, i + 1)
    }
}

/// Just behind the first `quote` at or after `i` that no backslash binds, or the end of the text.
pub open spec fn single_end(s: Seq<char>, i: int, quote: char) -> int
    decreases s.len() + 1 - i,
{
    if i >= s.len() {
        s.len() as int
    } else if s[i] == '\\' {
        single_end(s, i + 2, quote)
    } else if s[i] == quote {
        i + 1
    } else {
        single_end(s, i + 1, quote)
    }
}

/// Just behind the first three consecutive `quote`s at or after `i` that no backslash interrupts,
/// or the end of the text.
pub open spec fn triple_end(s: Seq<char>, i: int, quote: char) -> int
    decreases s.len() + 1 - i,
{
    if i >= s.len() {
        s.len() as int
    } else if s[i] == '\\' {
        triple_end(s, i + 2, quote)
    } else if s[i] == quote && has_at(s, i + 1, quote) && has_at(s, i + 2, quote) {
        i + 3
    } else {
        triple_end(s, i + 1, quote)
    }
}

/// Where the quoted text ends whose opening quote stands at `i`.
pub open spec fn quoted_end(s: Seq<char>, i: int) -> int {
    let quote = s[i];
    if quote == '`' || !has_at(s, i + 1, quote) {
        single_end(s, i + 1, quote)
    } else if has_at(s, i + 2, quote) {
        triple_end(s, i + 3, quote)
    } else {
        i + 2
    }
}

pub open spec fn is_quote(c: char) -> bool {
    c == '\'' || c == '"' || c == '`'
}

/// Where the lexeme ends that begins at `i`.
pub open spec fn lexeme_end(s: Seq<char>, i: int) -> int {
    let c = s[i];
    if is_quote(c) {
        quoted_end(s, i)
    } else if c == '#' || (c == '-' && has_at(s, i + 1, '-')) {
        line_end(s, i + 1)
    } else if c == '/' && has_at(s, i + 1, '*') {
        block_end(s, i + 2)
    } else if is_ident_char(c) {
        word_end(s, i + 1)
    } else {
        i + 1
    }
}

/// The lexeme that begins at `i`.
pub open spec fn lexeme_at(s: Seq<char>, i: int) -> LexemeView {
    let c = s[i];
    let text = s.subrange(i, lexeme_end(s, i));
    if is_quote(c) {
        LexemeView::Quoted(text)
    } else if c == '#' || (c == '-' && has_at(s, i + 1, '-')) || (c == '/' && has_at(
        s,
        i + 1,
        '*',
    )) {
        LexemeView::Comment(text)
    } else if is_ident_char(c) {
        LexemeView::Word(text)
    } else {
        LexemeView::Other(c)
    }
}

/// The lexemes of `s` from index `i` on.
pub open spec fn lexemes_from(s: Seq<char>, i: int) -> Seq<LexemeView>
    decreases s.len() - i,
    when 0 <= i
    via lexemes_from_decreases
{
    if i >= s.len() {
        Seq::empty()
    } else {
        seq![lexeme_at(s, i)] + lexemes_from(s, lexeme_end(s, i))
    }
}

#[via_fn]
proof fn lexemes_from_decreases(s: Seq<char>, i: int) {
    if i < s.len() {
        lemma_lexeme_end(s, i);
    }
}

/// The lexemes of `s`.
pub open spec fn lexemes(s: Seq<char>) -> Seq<LexemeView> {
    lexemes_from(s, 0)
}

/// A run of identifier characters ends at or after its start, within the text.
pub proof fn lemma_word_end(s: Seq<char>, i: int)
    requires
        0 <= i <= s.len(),
    ensures
        i <= word_end(s, i) <= s.len(),
    decreases s.len() - i,
{
    if i < s.len() && is_ident_char(s[i]) {
        lemma_word_end(s, i + 1);
    }
}

proof fn lemma_line_end(s: Seq<char>, i: int)
    requires
        0 <= i <= s.len(),
    ensures
        i <= line_end(s, i) <= s.len(),
    decreases s.len() - i,
{
    if i < s.len() && s[i] != '\n' {
        lemma_line_end(s, i + 1);
    }
}

proof fn lemma_block_end(s: Seq<char>, i: int)
    requires
        0 <= i <= s.len(),
    ensures
        i <= block_end(s, i) <= s.len(),
    decreases s.len() - i,
{
    if i + 1 < s.len() && !(s[i] == '*' && s[i + 1] == '/') {
        lemma_block_end(s, i + 1);
    }
}

proof fn lemma_single_end(s: Seq<char>, i: int, quote: char)
    requires
        0 <= i,
    ensures
        single_end(s, i, quote) <= s.len(),
        i <= s.len() ==> i <= single_end(s, i, quote),
    decreases s.len() + 1 - i,
{
    if i < s.len() {
        if s[i] == '\\' {
            lemma_single_end(s, i + 2, quote);
        } else if s[i] != quote {
            lemma_single_end(s, i + 1, quote);
        }
    }
}

proof fn lemma_triple_end(s: Seq<char>, i: int, quote: char)
    requires
        0 <= i,
    ensures
        triple_end(s, i, quote) <= s.len(),
        i <= s.len() ==> i <= triple_end(s, i, quote),
    decreases s.len() + 1 - i,
{
    if i < s.len() {
        if s[i] == '\\' {
            lemma_triple_end(s, i + 2, quote);
        } else if !(s[i] == quote && has_at(s, i + 1, quote) && has_at(s, i + 2, quote)) {
            lemma_triple_end(s, i + 1, quote);
        }
    }
}

/// A lexeme covers at least one character and ends within the text.
pub proof fn lemma_lexeme_end(s: Seq<char>, i: int)
    requires
        0 <= i < s.len(),
    ensures
        i < lexeme_end(s, i) <= s.len(),
        lexeme_at(s, i).text() == s.subrange(i, lexeme_end(s, i)),
{
    let c = s[i];
    if is_quote(c) {
        lemma_single_end(s, i + 1, c);
        lemma_triple_end(s, i + 3, c);
    } else {
        lemma_line_end(s, i + 1);
        if has_at(s, i + 1, '*') {
            lemma_block_end(s, i + 2);
        }
        lemma_word_end(s, i + 1);
    }
    assert(seq![c] =~= s.subrange(i, i + 1));
}

proof fn lemma_lexemes_from_partition(s: Seq<char>, i: int)
    requires
        0 <= i <= s.len(),
    ensures
        joined(lexemes_from(s, i)) == s.skip(i),
        forall|k: int|
            0 <= k < lexemes_from(s, i).len() ==> (#[trigger] lexemes_from(s, i)[k]).text().len() > 0,
    decreases s.len() - i,
{
    if i < s.len() {
        lemma_lexeme_end(s, i);
        let end = lexeme_end(s, i);
        lemma_lexemes_from_partition(s, end);
        let ls = lexemes_from(s, i);
        assert(ls.skip(1) =~= lexemes_from(s, end));
        assert(s.subrange(i, end) + s.skip(end) =~= s.skip(i));
        assert forall|k: int| 0 <= k < ls.len() implies (#[trigger] ls[k]).text().len() > 0 by {
            if k > 0 {
                assert(ls[k] == lexemes_from(s, end)[k - 1]);
            }
        }
    } else {
        assert(s.skip(i) =~= Seq::empty());
    }
}

/// The lexemes of a text partition it: written one after the other they give the text back, and none
/// of them is empty.
pub proof fn lemma_lexemes_partition(s: Seq<char>)
    ensures
        joined(lexemes(s)) == s,
        forall|k: int| 0 <= k < lexemes(s).len() ==> (#[trigger] lexemes(s)[k]).text().len() > 0,
{
    lemma_lexemes_from_partition(s, 0);
    assert(s.skip(0) =~= s);
}

pub fn ident_char(c: char) -> (r: bool)
    ensures
        r == is_ident_char(c),
{
    c == '_' || alphabetic(c) || digit(c)
}

fn scan_word(s: &[char], from: usize) -> (end: usize)
    requires
        from <= s@.len(),
    ensures
        end == word_end(s@, from as int),
        from <= end <= s@.len(),
{
    let mut i: usize = from;
    while i < s.len() && ident_char(s[i])
        invariant
            from <= i <= s@.len(),
            word_end(s@, i as int) == word_end(s@, from as int),
        decreases s@.len() - i,
    {
        i = i + 1;
    }
    i
}

fn scan_line(s: &[char], from: usize) -> (end: usize)
    requires
        from <= s@.len(),
    ensures
        end == line_end(s@, from as int),
        from <= end <= s@.len(),
{
    let mut i: usize = from;
    while i < s.len()
        invariant
            from <= i <= s@.len(),
            line_end(s@, i as int) == line_end(s@, from as int),
        decreases s@.len() - i,
    {
        if s[i] == '\n' {
            return i + 1;
        }
        i = i + 1;
    }
    i
}

fn scan_block(s: &[char], from: usize) -> (end: usize)
    requires
        from <= s@.len(),
    ensures
        end == block_end(s@, from as int),
        from <= end <= s@.len(),
{
    let mut i: usize = from;
    while i < s.len() && s.len() - i > 1
        invariant
            from <= i <= s@.len(),
            block_end(s@, i as int) == block_end(s@, from as int),
        decreases s@.len() - i,
    {
        if s[i] == '*' && s[i + 1] == '/' {
            return i + 2;
        }
        i = i + 1;
    }
    s.len()
}

fn scan_single(s: &[char], from: usize, quote: char) -> (end: usize)
    requires
        from <= s@.len(),
    ensures
        end == single_end(s@, from as int, quote),
        from <= end <= s@.len(),
{
    let mut i: usize = from;
    while i < s.len()
        invariant
            from <= i <= s@.len(),
            single_end(s@, i as int, quote) == single_end(s@, from as int, quote),
        decreases s@.len() - i,
    {
        if s[i] == '\\' {
            if s.len() - i <= 2 {
                assert(single_end(s@, i + 2, quote) == s@.len());
                return s.len();
            }
            i = i + 2;
        } else if s[i] == quote {
            return i + 1;
        } else {
            i = i + 1;
        }
    }
    i
}

fn scan_triple(s: &[char], from: usize, quote: char) -> (end: usize)
    requires
        from <= s@.len(),
    ensures
        end == triple_end(s@, from as int, quote),
        from <= end <= s@.len(),
{
    let mut i: usize = from;
    while i < s.len()
        invariant
            from <= i <= s@.len(),
            triple_end(s@, i as int, quote) == triple_end(s@, from as int, quote),
        decreases s@.len() - i,
    {
        if s[i] == '\\' {
            if s.len() - i <= 2 {
                assert(triple_end(s@, i + 2, quote) == s@.len());
                return s.len();
            }
            i = i + 2;
        } else if s[i] == quote && char_at(s, i + 1, quote) && (s.len() - i > 2 && s[i + 2]
            == quote) {
            return i + 3;
        } else {
            i = i + 1;
        }
    }
    i
}

fn char_at(s: &[char], i: usize, c: char) -> (r: bool)
    ensures
        r == has_at(s@, i as int, c),
{
    i < s.len() && s[i] == c
}

/// Where the quoted text ends whose opening quote stands at `start`.
fn consume_quoted(s: &[char], start: usize) -> (end: usize)
    requires
        start < s@.len(),
        is_quote(s@[start as int]),
    ensures
        end == quoted_end(s@, start as int),
        start < end <= s@.len(),
{
    let quote = s[start];
    if quote == '`' || !char_at(s, start + 1, quote) {
        scan_single(s, start + 1, quote)
    } else if char_at(s, start + 2, quote) {
        scan_triple(s, start + 3, quote)
    } else {
        start + 2
    }
}

/// The lexeme that begins at `start`, and where it ends.
fn next_lexeme(s: &[char], start: usize) -> (r: (Lexeme, usize))
    requires
        start < s@.len(),
    ensures
        r.0@ == lexeme_at(s@, start as int),
        r.1 == lexeme_end(s@, start as int),
        start < r.1 <= s@.len(),
{
    let c = s[start];
    if c == '\'' || c == '"' || c == '`' {
        let end: usize = consume_quoted(s, start);
        (Lexeme::Quoted(substring(s, start, end)), end)
    } else if c == '#' || (c == '-' && char_at(s, start + 1, '-')) {
        let end: usize = scan_line(s, start + 1);
        (Lexeme::Comment(substring(s, start, end)), end)
    } else if c == '/' && char_at(s, start + 1, '*') {
        let end: usize = scan_block(s, start + 2);
        (Lexeme::Comment(substring(s, start, end)), end)
    } else if ident_char(c) {
        let end: usize = scan_word(s, start + 1);
        (Lexeme::Word(substring(s, start, end)), end)
    } else {
        (Lexeme::Other(c), start + 1)
    }
}

/// A text that is taken apart into its lexemes, one at a time.
#[derive(Debug)]
pub struct Lexer {
    pub chars: Vec<char>,
    /// Where the next lexeme begins.
    pub pos: usize,
}

impl Lexer {
    pub open spec fn is_well_formed(&self) -> bool {
        self.pos <= self.chars@.len()
    }

    /// The lexemes that are still to come.
    pub open spec fn remaining(&self) -> Seq<LexemeView> {
        lexemes_from(self.chars@, self.pos as int)
    }

    /// A lexer at the beginning of `sql`.
    pub fn new(sql: &str) -> (r: Lexer)
        ensures
            r.is_well_formed(),
            r.chars@ == sql@,
            r.remaining() == lexemes(sql@),
    {
        Lexer { chars: to_chars(sql), pos: 0 }
    }

    /// The next lexeme, until there is none.
    pub fn next(&mut self) -> (r: Option<Lexeme>)
        requires
            old(self).is_well_formed(),
        ensures
            final(self).is_well_formed(),
            final(self).chars == old(self).chars,
            match r {
                Some(lexeme) => {
                    &&& old(self).remaining().len() > 0
                    &&& lexeme@ == old(self).remaining()[0]
                    &&& final(self).remaining() == old(self).remaining().skip(1)
                    &&& final(self).pos > old(self).pos
                },
                None => old(self).remaining().len() == 0 && final(self).pos == old(self).pos,
            },
    {
        if self.pos >= self.chars.len() {
            return None;
        }
        let (lexeme, end) = next_lexeme(self.chars.as_slice(), self.pos);
        assert(self.remaining().skip(1) =~= lexemes_from(self.chars@, end as int));
        self.pos = end;
        Some(lexeme)
    }
}

/// The lexemes of `sql`. They partition it.
pub fn lex(sql: &str) -> (r: Vec<Lexeme>)
    ensures
        views(r@) == lexemes(sql@),
        joined(views(r@)) == sql@,
        forall|k: int| 0 <= k < r@.len() ==> (#[trigger] r@[k])@.text().len() > 0,
{
    let mut lexer = Lexer::new(sql);
    let mut out: Vec<Lexeme> = Vec::new();
    assert(views(out@) + lexer.remaining() =~= lexemes(sql@));
    loop
        invariant
            lexer.is_well_formed(),
            lexer.chars@ == sql@,
            views(out@) + lexer.remaining() == lexemes(sql@),
        decreases lexer.chars@.len() - lexer.pos,
    {
        let ghost before = views(out@);
        let ghost coming = lexer.remaining();
        match lexer.next() {
            Some(lexeme) => {
                out.push(lexeme);
                assert(views(out@) =~= before.push(lexeme@));
                assert(before + coming =~= before.push(lexeme@) + coming.skip(1));
            },
            None => {
                assert(views(out@) + coming =~= views(out@));
                proof {
                    lemma_lexemes_partition(sql@);
                    assert forall|k: int| 0 <= k < out@.len() implies (
                    #[trigger] out@[k])@.text().len() > 0 by {
                        assert(views(out@)[k] == out@[k]@);
                    }
                }
                return out;
            },
        }
    }
}

/// Whether the lexeme is a comment or a white-space character.
pub fn blank(lexeme: &Lexeme) -> (r: bool)
    ensures
        r == lexeme@.is_blank(),
{
    match lexeme {
        Lexeme::Comment(_) => true,
        Lexeme::Other(c) => whitespace(*c),
        _ => false,
    }
}

/// Whether the lexeme is the single character `c`.
pub fn is_other(lexeme: &Lexeme, c: char) -> (r: bool)
    ensures
        r == (lexeme@ == LexemeView::Other(c)),
{
    match lexeme {
        Lexeme::Other(d) => *d == c,
        _ => false,
    }
}

} // verus!
