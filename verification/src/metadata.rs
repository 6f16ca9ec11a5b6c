//! What the driver's own `INFORMATION_SCHEMA` reads share: the catalog check, the column accessor
//! their results are decoded with, and the ADBC `LIKE` matcher.

use vstd::prelude::*;
use vstd::string::*;

use crate::error::{fails, internal, not_found, Error, Status};
use crate::text::{debug_quoted, debug_text, decimal, push_decimal, to_chars};

verus! {

// ---------------------------------------------------------------------------------------------
// Catalogs
// ---------------------------------------------------------------------------------------------

pub open spec fn unknown_catalog_message(catalog: Seq<char>) -> Seq<char> {
    "catalog "@ + debug_text(catalog)
        + " not found: Spanner has only the default, unnamed catalog"@
}

/// Validates a lookup's catalog. Spanner has one catalog, without a name: no catalog and the empty
/// one are accepted, and nothing can be found in any other.
pub fn check_lookup_catalog(catalog: Option<&str>) -> (r: Result<(), Error>)
    ensures
        match catalog {
            Some(other) if other@.len() > 0 => fails(
                r,
                Status::NotFound,
                unknown_catalog_message(other@),
            ),
            _ => r is Ok,
        },
{
    match catalog {
        Some(other) if !other.is_empty() => {
            let mut message = "catalog ".to_owned();
            message.append(debug_quoted(other).as_str());
            message.append(" not found: Spanner has only the default, unnamed catalog");
            Err(not_found(message))
        },
        _ => Ok(()),
    }
}

// ---------------------------------------------------------------------------------------------
// Whether a table exists
// ---------------------------------------------------------------------------------------------

/// Looks a table up by the parameters `schema` and `table`. The default schema is the empty string.
pub const TABLE_EXISTS_SQL: &'static str = "SELECT TABLE_NAME FROM INFORMATION_SCHEMA.TABLES WHERE TABLE_SCHEMA = @schema AND TABLE_NAME = @table";

/// Whether a lookup found its table.
pub fn table_exists(found: &MetadataBatch) -> (r: bool)
    ensures
        r == (found.rows > 0),
{
    found.rows > 0
}

// ---------------------------------------------------------------------------------------------
// Results
// ---------------------------------------------------------------------------------------------

/// One column of a metadata result.
pub enum MetadataColumn {
    /// Text, absent where the value is NULL.
    Strings(Vec<Option<String>>),
    /// 64-bit integers, absent where the value is NULL.
    Ints(Vec<Option<i64>>),
    /// A column of any other type.
    Other,
}

/// The result of a metadata query, column by column. Every column has a value for every row.
pub struct MetadataBatch {
    pub rows: usize,
    pub columns: Vec<MetadataColumn>,
}

impl MetadataBatch {
    /// Every column has `rows` values.
    pub open spec fn is_well_formed(&self) -> bool {
        forall|i: int|
            0 <= i < self.columns@.len() ==> match #[trigger] self.columns@[i] {
                MetadataColumn::Strings(values) => values@.len() == self.rows,
                MetadataColumn::Ints(values) => values@.len() == self.rows,
                MetadataColumn::Other => true,
            }
    }

    /// Whether column `i` is there and holds text.
    pub open spec fn has_text(&self, i: int) -> bool {
        0 <= i < self.columns@.len() && self.columns@[i] is Strings
    }

    /// Whether column `i` is there and holds integers.
    pub open spec fn has_ints(&self, i: int) -> bool {
        0 <= i < self.columns@.len() && self.columns@[i] is Ints
    }

    /// The text in column `i` of `row`; empty where it is NULL.
    pub open spec fn text_at(&self, i: int, row: int) -> Seq<char> {
        match self.columns@[i]->Strings_0@[row] {
            Some(s) => s@,
            None => Seq::empty(),
        }
    }

    /// Whether the text in column `i` of `row` is NULL.
    pub open spec fn null_at(&self, i: int, row: int) -> bool {
        self.columns@[i]->Strings_0@[row] is None
    }

    /// The integer in column `i` of `row`; zero where it is NULL.
    pub open spec fn int_at(&self, i: int, row: int) -> i64 {
        match self.columns@[i]->Ints_0@[row] {
            Some(n) => n,
            None => 0,
        }
    }

    pub fn text(&self, i: usize, row: usize) -> (r: &str)
        requires
            self.is_well_formed(),
            self.has_text(i as int),
            row < self.rows,
        ensures
            r@ == self.text_at(i as int, row as int),
    {
        match &self.columns[i] {
            MetadataColumn::Strings(values) => match &values[row] {
                Some(s) => s.as_str(),
                None => {
                    proof {
                        reveal_strlit("");
                        assert(""@ =~= Seq::<char>::empty());
                    }
                    ""
                },
            },
            _ => "",
        }
    }

    pub fn is_null(&self, i: usize, row: usize) -> (r: bool)
        requires
            self.is_well_formed(),
            self.has_text(i as int),
            row < self.rows,
        ensures
            r == self.null_at(i as int, row as int),
    {
        match &self.columns[i] {
            MetadataColumn::Strings(values) => values[row].is_none(),
            _ => true,
        }
    }

    pub fn integer(&self, i: usize, row: usize) -> (r: i64)
        requires
            self.is_well_formed(),
            self.has_ints(i as int),
            row < self.rows,
        ensures
            r == self.int_at(i as int, row as int),
    {
        match &self.columns[i] {
            MetadataColumn::Ints(values) => match &values[row] {
                Some(n) => *n,
                None => 0,
            },
            _ => 0,
        }
    }
}

pub open spec fn column_range_message(columns: nat, index: nat) -> Seq<char> {
    "INFORMATION_SCHEMA batch has "@ + decimal(columns) + " column(s); column "@ + decimal(index)
        + " is out of range"@
}

pub open spec fn column_type_message(index: nat) -> Seq<char> {
    "INFORMATION_SCHEMA column "@ + decimal(index) + " is not a string"@
}

/// Why column `index` of a metadata result is not one of text.
pub open spec fn text_complaint(batch: MetadataBatch, index: int) -> Option<Seq<char>> {
    if index >= batch.columns@.len() {
        Some(column_range_message(batch.columns@.len(), index as nat))
    } else if batch.columns@[index] is Strings {
        None
    } else {
        Some(column_type_message(index as nat))
    }
}

/// The text column `index` of a metadata result. A result of an unexpected shape is an error.
pub fn str_col(batch: &MetadataBatch, index: usize) -> (r: Result<&Vec<Option<String>>, Error>)
    ensures
        index >= batch.columns@.len() ==> fails(
            r,
            Status::Internal,
            column_range_message(batch.columns@.len(), index as nat),
        ),
        index < batch.columns@.len() ==> match batch.columns@[index as int] {
            MetadataColumn::Strings(values) => r == Ok::<&Vec<Option<String>>, Error>(&values),
            _ => fails(
                r,
                Status::Internal,
                column_type_message(index as nat),
            ),
        },
{
    if index >= batch.columns.len() {
        let mut message = "INFORMATION_SCHEMA batch has ".to_owned();
        push_decimal(&mut message, batch.columns.len() as u128);
        message.append(" column(s); column ");
        push_decimal(&mut message, index as u128);
        message.append(" is out of range");
        return Err(internal(message));
    }
    match &batch.columns[index] {
        MetadataColumn::Strings(values) => Ok(values),
        _ => {
            let mut message = "INFORMATION_SCHEMA column ".to_owned();
            push_decimal(&mut message, index as u128);
            message.append(" is not a string");
            Err(internal(message))
        },
    }
}

// ---------------------------------------------------------------------------------------------
// LIKE
// ---------------------------------------------------------------------------------------------

/// Whether the value `v` from `j` on matches the pattern `p` from `i` on: `%` stands for any run of
/// characters, `_` for exactly one, and every other character for itself.
pub open spec fn like_from(p: Seq<char>, i: int, v: Seq<char>, j: int) -> bool
    decreases p.len() - i, v.len() - j,
{
    if i >= p.len() {
        j >= v.len()
    } else if p[i] == '%' {
        like_from(p, i + 1, v, j) || (j < v.len() && like_from(p, i, v, j + 1))
    } else {
        j < v.len() && (p[i] == '_' || p[i] == v[j]) && like_from(p, i + 1, v, j + 1)
    }
}

/// Whether `v` matches the `LIKE` pattern `p`, case-sensitively.
pub open spec fn like(p: Seq<char>, v: Seq<char>) -> bool {
    like_from(p, 0, v, 0)
}

/// A `%` that can match from `j` on can match from any earlier position.
proof fn lemma_percent_absorbs(p: Seq<char>, i: int, v: Seq<char>, j0: int, j: int)
    requires
        0 <= i < p.len(),
        p[i] == '%',
        0 <= j0 <= j <= v.len(),
        like_from(p, i, v, j),
    ensures
        like_from(p, i, v, j0),
    decreases j - j0,
{
    if j0 < j {
        lemma_percent_absorbs(p, i, v, j0 + 1, j);
    }
}

/// Without a `%` in `p[a..b]`, a match that begins at `k` is a match of what follows, as many
/// characters further on.
proof fn lemma_literals_advance(p: Seq<char>, a: int, b: int, v: Seq<char>, k: int)
    requires
        0 <= a <= b <= p.len(),
        0 <= k <= v.len(),
        forall|n: int| a <= n < b ==> #[trigger] p[n] != '%',
        like_from(p, a, v, k),
    ensures
        k + (b - a) <= v.len(),
        like_from(p, b, v, k + (b - a)),
    decreases b - a,
{
    if a < b {
        assert(p[a] != '%');
        lemma_literals_advance(p, a + 1, b, v, k + 1);
    }
}

/// A `%` at `i` matches from `j` on exactly if the rest matches from some later position.
proof fn lemma_percent_witness(p: Seq<char>, i: int, v: Seq<char>, j: int) -> (k: int)
    requires
        0 <= i < p.len(),
        p[i] == '%',
        0 <= j <= v.len(),
        like_from(p, i, v, j),
    ensures
        j <= k <= v.len(),
        like_from(p, i + 1, v, k),
    decreases v.len() - j,
{
    if like_from(p, i + 1, v, j) {
        j
    } else {
        lemma_percent_witness(p, i, v, j + 1)
    }
}

/// A compiled ADBC `LIKE` pattern, to be matched against many values.
pub struct LikeMatcher {
    pub pattern: Vec<char>,
}

impl LikeMatcher {
    pub fn new(pattern: &str) -> (r: LikeMatcher)
        ensures
            r.pattern@ == pattern@,
    {
        LikeMatcher { pattern: to_chars(pattern) }
    }

    /// Whether `value` matches. The match needs no recursion: only the last `%` is ever retried, so
    /// the work is at most the product of the two lengths.
    pub fn matches(&self, value: &str) -> (r: bool)
        ensures
            r == like(self.pattern@, value@),
    {
        let p = &self.pattern;
        let v = to_chars(value);
        let mut pi: usize = 0;
        let mut vi: usize = 0;
        let mut starred = false;
        let mut sp: usize = 0;
        let mut sv: usize = 0;
        let ghost answer = like(p@, v@);
        while vi < v.len()
            invariant
                p@ == self.pattern@,
                v@ == value@,
                answer == like(p@, v@),
                pi <= p@.len(),
                vi <= v@.len(),
                !starred ==> answer == like_from(p@, pi as int, v@, vi as int),
                starred ==> {
                    &&& sp < pi
                    &&& sv <= vi
                    &&& p@[sp as int] == '%'
                    &&& vi - sv == pi - (sp + 1)
                    &&& forall|n: int| sp + 1 <= n < pi ==> #[trigger] p@[n] != '%'
                    &&& answer == like_from(p@, sp as int, v@, sv as int)
                    &&& like_from(p@, sp + 1, v@, sv as int) == like_from(
                        p@,
                        pi as int,
                        v@,
                        vi as int,
                    )
                },
            decreases
                    (if starred {
                        v@.len() - sv
                    } else {
                        v@.len() as int + 1
                    }),
                    p@.len() - pi,
        {
            if pi < p.len() && p[pi] == '%' {
                proof {
                    if starred && answer {
                        let k = lemma_percent_witness(p@, sp as int, v@, sv as int);
                        lemma_literals_advance(p@, sp + 1, pi as int, v@, k);
                        lemma_percent_absorbs(
                            p@,
                            pi as int,
                            v@,
                            vi as int,
                            k + (pi - (sp + 1)),
                        );
                    }
                }
                starred = true;
                sp = pi;
                sv = vi;
                pi = pi + 1;
            } else if pi < p.len() && (p[pi] == '_' || p[pi] == v[vi]) {
                pi = pi + 1;
                vi = vi + 1;
            } else if starred {
                assert(!like_from(p@, pi as int, v@, vi as int));
                pi = sp + 1;
                vi = sv + 1;
                sv = vi;
            } else {
                return false;
            }
        }
        proof {
            if starred && answer {
                let k = lemma_percent_witness(p@, sp as int, v@, sv as int);
                lemma_literals_advance(p@, sp + 1, pi as int, v@, k);
                assert(k == sv);
            }
        }
        while pi < p.len() && p[pi] == '%'
            invariant
                p@ == self.pattern@,
                pi <= p@.len(),
                vi == v@.len(),
                answer == like_from(p@, pi as int, v@, vi as int),
            decreases p@.len() - pi,
        {
            pi = pi + 1;
        }
        pi == p.len()
    }
}

/// Whether `value` matches the ADBC `LIKE` pattern (`%` any run, `_` one character),
/// case-sensitively.
pub fn like_match(pattern: &str, value: &str) -> (r: bool)
    ensures
        r == like(pattern@, value@),
{
    LikeMatcher::new(pattern).matches(value)
}

// ---------------------------------------------------------------------------------------------
// Laws of LIKE
// ---------------------------------------------------------------------------------------------

/// The pattern `%` matches every value.
pub proof fn lemma_percent_matches_everything(v: Seq<char>)
    ensures
        like(seq!['%'], v),
{
    lemma_percent_matches_from(v, 0);
}

proof fn lemma_percent_matches_from(v: Seq<char>, j: int)
    requires
        0 <= j <= v.len(),
    ensures
        like_from(seq!['%'], 0, v, j),
    decreases v.len() - j,
{
    reveal_with_fuel(like_from, 2);
    if j < v.len() {
        lemma_percent_matches_from(v, j + 1);
    }
}

/// A pattern without wildcards matches exactly the value that it spells.
pub proof fn lemma_plain_pattern_matches_itself(p: Seq<char>, v: Seq<char>)
    requires
        forall|i: int| 0 <= i < p.len() ==> #[trigger] p[i] != '%' && p[i] != '_',
    ensures
        like(p, v) <==> p == v,
{
    lemma_plain_from(p, v, 0);
    if like(p, v) {
        assert(p =~= v);
    }
}

proof fn lemma_plain_from(p: Seq<char>, v: Seq<char>, i: int)
    requires
        0 <= i <= p.len(),
        i <= v.len(),
        forall|k: int| 0 <= k < p.len() ==> #[trigger] p[k] != '%' && p[k] != '_',
    ensures
        like_from(p, i, v, i) <==> p.len() == v.len() && forall|k: int|
            i <= k < p.len() ==> #[trigger] p[k] == v[k],
    decreases p.len() - i,
{
    if i < p.len() {
        assert(p[i] != '%' && p[i] != '_');
        if i < v.len() {
            lemma_plain_from(p, v, i + 1);
        }
    }
}

} // verus!
