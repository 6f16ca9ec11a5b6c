//! What the collected hierarchy holds, said of the rows of the results.

use vstd::prelude::*;

use crate::discovery::{
    by_ordinal, columns_in, constraints_in, insert_by_ordinal, key_columns_in, key_positions,
    pair_keys, passes, picked_columns, picked_constraints, picked_schemas, picked_tables,
    referenced_columns, row_at_ordinal, rows_for, rows_named, shape_complaint, single_keys,
    texts_complaint, type_passes, usages_in, ColumnView, ConstraintView, DbSchemaView,
    ObjectBatches, TableView, UsageView,
};
use crate::grouping::group_of;
use crate::metadata::{
    column_range_message, column_type_message, like, text_complaint, MetadataBatch,
};
use crate::number::int_value;
use crate::objects::ObjectDepth;
use crate::text::{same_ignoring_case, texts};
use crate::text_laws::lemma_group_is_all_rows;

verus! {

// ---------------------------------------------------------------------------------------------
// Rows in order
// ---------------------------------------------------------------------------------------------

/// Whether each of `rows` stands before the next.
pub open spec fn is_increasing(rows: Seq<int>) -> bool {
    forall|i: int, j: int| 0 <= i < j < rows.len() ==> #[trigger] rows[i] < #[trigger] rows[j]
}

/// Whether `rows` are the rows below `n` that `p` holds of, in order.
pub open spec fn are_all(rows: Seq<int>, n: int, p: spec_fn(int) -> bool) -> bool {
    &&& is_increasing(rows)
    &&& forall|i: int| 0 <= i < rows.len() ==> 0 <= #[trigger] rows[i] < n && p(rows[i])
    &&& forall|r: int| 0 <= r < n && #[trigger] p(r) ==> rows.contains(r)
}

spec fn is_ordered(s: Seq<int>, lt: spec_fn(int, int) -> bool) -> bool {
    forall|i: int, j: int| 0 <= i < j < s.len() ==> #[trigger] lt(s[i], s[j])
}

proof fn lemma_ordered_unique(x: Seq<int>, y: Seq<int>, lt: spec_fn(int, int) -> bool)
    requires
        is_ordered(x, lt),
        is_ordered(y, lt),
        forall|a: int, b: int| #[trigger] lt(a, b) ==> !lt(b, a),
        forall|a: int| #[trigger] x.contains(a) <==> y.contains(a),
    ensures
        x == y,
    decreases x.len(),
{
    if x.len() == 0 {
        if y.len() > 0 {
            assert(y.contains(y[0]));
            assert(x.contains(y[0]));
        }
        assert(x =~= y);
    } else {
        let a = x.last();
        assert(x.contains(a));
        assert(y.contains(a));
        let i = choose|i: int| 0 <= i < y.len() && y[i] == a;
        let b = y.last();
        assert(y.contains(b));
        assert(x.contains(b));
        let j = choose|j: int| 0 <= j < x.len() && x[j] == b;
        if i < y.len() - 1 {
            assert(lt(y[i], y[y.len() - 1]));
            if j < x.len() - 1 {
                assert(lt(x[j], x[x.len() - 1]));
            }
            assert(false);
        }
        let x0 = x.drop_last();
        let y0 = y.drop_last();
        assert(is_ordered(x0, lt)) by {
            assert forall|i: int, j: int| 0 <= i < j < x0.len() implies #[trigger] lt(
                x0[i],
                x0[j],
            ) by {
                assert(lt(x[i], x[j]));
            }
        }
        assert(is_ordered(y0, lt)) by {
            assert forall|i: int, j: int| 0 <= i < j < y0.len() implies #[trigger] lt(
                y0[i],
                y0[j],
            ) by {
                assert(lt(y[i], y[j]));
            }
        }
        assert forall|c: int| #[trigger] x0.contains(c) <==> y0.contains(c) by {
            if x0.contains(c) {
                let m = choose|m: int| 0 <= m < x0.len() && x0[m] == c;
                assert(x[m] == c);
                assert(x.contains(c));
                let q = choose|q: int| 0 <= q < y.len() && y[q] == c;
                assert(lt(x[m], x[x.len() - 1]));
                assert(c != b);
                assert(y0[q] == c);
            }
            if y0.contains(c) {
                let m = choose|m: int| 0 <= m < y0.len() && y0[m] == c;
                assert(y[m] == c);
                assert(y.contains(c));
                assert(x.contains(c));
                let q = choose|q: int| 0 <= q < x.len() && x[q] == c;
                assert(lt(y[m], y[y.len() - 1]));
                assert(c != a);
                assert(x0[q] == c);
            }
        }
        lemma_ordered_unique(x0, y0, lt);
        assert(x =~= x0.push(a));
        assert(y =~= y0.push(b));
    }
}

proof fn lemma_all_unique(x: Seq<int>, y: Seq<int>, n: int, p: spec_fn(int) -> bool)
    requires
        are_all(x, n, p),
        are_all(y, n, p),
    ensures
        x == y,
{
    let lt = |a: int, b: int| a < b;
    assert forall|i: int, j: int| 0 <= i < j < x.len() implies #[trigger] lt(x[i], x[j]) by {
        assert(x[i] < x[j]);
    }
    assert forall|i: int, j: int| 0 <= i < j < y.len() implies #[trigger] lt(y[i], y[j]) by {
        assert(y[i] < y[j]);
    }
    assert forall|a: int| #[trigger] x.contains(a) <==> y.contains(a) by {
        if x.contains(a) {
            let i = choose|i: int| 0 <= i < x.len() && x[i] == a;
            assert(0 <= x[i] < n && p(x[i]));
        }
        if y.contains(a) {
            let i = choose|i: int| 0 <= i < y.len() && y[i] == a;
            assert(0 <= y[i] < n && p(y[i]));
        }
    }
    lemma_ordered_unique(x, y, lt);
}

/// Those of the first `n` of `s` that `p` holds of.
spec fn pick(s: Seq<int>, p: spec_fn(int) -> bool, n: int) -> Seq<int>
    decreases n,
{
    if n <= 0 {
        Seq::empty()
    } else if p(s[n - 1]) {
        pick(s, p, n - 1).push(s[n - 1])
    } else {
        pick(s, p, n - 1)
    }
}

proof fn lemma_pick(s: Seq<int>, p: spec_fn(int) -> bool, n: int, lt: spec_fn(int, int) -> bool)
    requires
        0 <= n <= s.len(),
        is_ordered(s, lt),
    ensures
        is_ordered(pick(s, p, n), lt),
        forall|a: int|
            #[trigger] pick(s, p, n).contains(a) <==> p(a) && exists|i: int|
                0 <= i < n && #[trigger] s[i] == a,
        pick(s, p, n).len() > 0 ==> exists|i: int|
            0 <= i < n && #[trigger] s[i] == pick(s, p, n).last(),
    decreases n,
{
    if n > 0 {
        lemma_pick(s, p, n - 1, lt);
        let r0 = pick(s, p, n - 1);
        let r = pick(s, p, n);
        let x = s[n - 1];
        if p(x) {
            assert forall|i: int, j: int| 0 <= i < j < r.len() implies #[trigger] lt(r[i], r[j]) by {
                if j < r0.len() {
                    assert(lt(r0[i], r0[j]));
                } else {
                    assert(r0.contains(r0[i]));
                    let m = choose|m: int| 0 <= m < n - 1 && #[trigger] s[m] == r0[i];
                    assert(lt(s[m], s[n - 1]));
                }
            }
            assert(s[n - 1] == r.last());
        }
        assert forall|a: int|
            #[trigger] r.contains(a) <==> p(a) && exists|i: int|
                0 <= i < n && #[trigger] s[i] == a by {
            if r.contains(a) {
                let q = choose|q: int| 0 <= q < r.len() && r[q] == a;
                if q < r0.len() {
                    assert(r0[q] == a);
                    assert(r0.contains(a));
                } else {
                    assert(s[n - 1] == a);
                }
            }
            if p(a) && exists|i: int| 0 <= i < n && #[trigger] s[i] == a {
                let i = choose|i: int| 0 <= i < n && #[trigger] s[i] == a;
                if i < n - 1 {
                    assert(s[i] == a);
                    assert(r0.contains(a));
                    let q = choose|q: int| 0 <= q < r0.len() && r0[q] == a;
                    assert(r[q] == a);
                } else {
                    assert(r[r.len() - 1] == a);
                }
            }
        }
    }
}

/// The rows with a pair of names, as integers.
spec fn ints(rows: Seq<usize>) -> Seq<int> {
    rows.map_values(|r: usize| r as int)
}

proof fn lemma_rows_for_all(b: MetadataBatch, first: Seq<char>, second: Seq<char>)
    ensures
        are_all(
            ints(rows_for(Some(b), first, second)),
            b.rows as int,
            |r: int| b.text_at(0, r) == first && b.text_at(1, r) == second,
        ),
{
    let keys = pair_keys(b, 0, 1);
    let key = (first, second);
    let g = group_of(keys, key);
    let rows = ints(g);
    let p = |r: int| b.text_at(0, r) == first && b.text_at(1, r) == second;
    lemma_group_is_all_rows(keys, key);
    assert forall|i: int, j: int| 0 <= i < j < rows.len() implies #[trigger] rows[i]
        < #[trigger] rows[j] by {
        assert(g[i] < g[j]);
    }
    assert forall|i: int| 0 <= i < rows.len() implies 0 <= #[trigger] rows[i] < b.rows && p(
        rows[i],
    ) by {
        assert(g[i] < keys.len());
    }
    assert forall|r: int| 0 <= r < b.rows && #[trigger] p(r) implies rows.contains(r) by {
        assert(keys[r] == key);
        assert(g.contains(r as usize));
        let i = choose|i: int| 0 <= i < g.len() && g[i] == r as usize;
        assert(rows[i] == r);
    }
}

proof fn lemma_rows_named_all(b: MetadataBatch, first: Seq<char>)
    ensures
        are_all(
            ints(rows_named(Some(b), first)),
            b.rows as int,
            |r: int| b.text_at(0, r) == first,
        ),
{
    let keys = single_keys(b, 0);
    let key = (first, Seq::<char>::empty());
    let g = group_of(keys, key);
    let rows = ints(g);
    let p = |r: int| b.text_at(0, r) == first;
    lemma_group_is_all_rows(keys, key);
    assert forall|i: int, j: int| 0 <= i < j < rows.len() implies #[trigger] rows[i]
        < #[trigger] rows[j] by {
        assert(g[i] < g[j]);
    }
    assert forall|i: int| 0 <= i < rows.len() implies 0 <= #[trigger] rows[i] < b.rows && p(
        rows[i],
    ) by {
        assert(g[i] < keys.len());
    }
    assert forall|r: int| 0 <= r < b.rows && #[trigger] p(r) implies rows.contains(r) by {
        assert(keys[r] == key);
        assert(g.contains(r as usize));
        let i = choose|i: int| 0 <= i < g.len() && g[i] == r as usize;
        assert(rows[i] == r);
    }
}

/// Picking among all rows that `p` holds of gives all rows that `p` and `q` hold of.
proof fn lemma_pick_all(
    rows: Seq<int>,
    n: int,
    p: spec_fn(int) -> bool,
    q: spec_fn(int) -> bool,
)
    requires
        are_all(rows, n, p),
    ensures
        are_all(pick(rows, q, rows.len() as int), n, |r: int| p(r) && q(r)),
{
    let lt = |a: int, b: int| a < b;
    assert forall|i: int, j: int| 0 <= i < j < rows.len() implies #[trigger] lt(
        rows[i],
        rows[j],
    ) by {
        assert(rows[i] < rows[j]);
    }
    lemma_pick(rows, q, rows.len() as int, lt);
    let both = |r: int| p(r) && q(r);
    let r = pick(rows, q, rows.len() as int);
    assert forall|i: int, j: int| 0 <= i < j < r.len() implies #[trigger] r[i] < #[trigger] r[j] by {
        assert(lt(r[i], r[j]));
    }
    assert forall|i: int| 0 <= i < r.len() implies 0 <= #[trigger] r[i] < n && both(r[i]) by {
        assert(r.contains(r[i]));
        let m = choose|m: int| 0 <= m < rows.len() && #[trigger] rows[m] == r[i];
        assert(0 <= rows[m] < n);
    }
    assert forall|a: int| 0 <= a < n && #[trigger] both(a) implies r.contains(a) by {
        assert(p(a));
        assert(rows.contains(a));
        let m = choose|m: int| 0 <= m < rows.len() && rows[m] == a;
        assert(rows[m] == a);
    }
}

// ---------------------------------------------------------------------------------------------
// Columns, key columns and constraints
// ---------------------------------------------------------------------------------------------

spec fn column_of(b: MetadataBatch, r: int) -> ColumnView {
    ColumnView {
        name: b.text_at(2, r),
        ordinal: b.int_at(3, r) as i32,
        nullable: same_ignoring_case(b.text_at(4, r), "YES"@),
        spanner_type: b.text_at(5, r),
    }
}

proof fn lemma_picked_columns(b: MetadataBatch, rows: Seq<usize>, filter: Option<&str>, n: int)
    requires
        0 <= n <= rows.len(),
    ensures
        picked_columns(b, rows, filter, n) == pick(
            ints(rows),
            |r: int| passes(filter, b.text_at(2, r)),
            n,
        ).map_values(|r: int| column_of(b, r)),
    decreases n,
{
    let p = |r: int| passes(filter, b.text_at(2, r));
    if n > 0 {
        lemma_picked_columns(b, rows, filter, n - 1);
        assert(ints(rows)[n - 1] == rows[n - 1] as int);
        assert(picked_columns(b, rows, filter, n) =~= pick(ints(rows), p, n).map_values(
            |r: int| column_of(b, r),
        ));
    } else {
        assert(picked_columns(b, rows, filter, n) =~= pick(ints(rows), p, n).map_values(
            |r: int| column_of(b, r),
        ));
    }
}

/// The columns of a table are the rows of the column query with its schema and name whose own name
/// passes the filter, all of them, in order, each with its name, ordinal, nullability and type.
pub proof fn lemma_columns_of_a_table(
    batches: ObjectBatches,
    schema: Seq<char>,
    table: Seq<char>,
    filter: Option<&str>,
    rows: Seq<int>,
)
    requires
        batches.columns is Some,
        are_all(
            rows,
            batches.columns->0.rows as int,
            |r: int|
                {
                    let b = batches.columns->0;
                    &&& b.text_at(0, r) == schema
                    &&& b.text_at(1, r) == table
                    &&& filter matches Some(p) ==> like(p@, b.text_at(2, r))
                },
        ),
    ensures
        columns_in(batches, schema, table, filter).len() == rows.len(),
        forall|i: int|
            0 <= i < rows.len() ==> {
                let b = batches.columns->0;
                let column = #[trigger] columns_in(batches, schema, table, filter)[i];
                &&& column.name == b.text_at(2, rows[i])
                &&& column.ordinal == b.int_at(3, rows[i]) as i32
                &&& column.nullable <==> same_ignoring_case(
                    b.text_at(4, rows[i]),
                    seq!['Y', 'E', 'S'],
                )
                &&& column.spanner_type == b.text_at(5, rows[i])
            },
{
    let b = batches.columns->0;
    let g = rows_for(batches.columns, schema, table);
    let named = |r: int| b.text_at(0, r) == schema && b.text_at(1, r) == table;
    let q = |r: int| passes(filter, b.text_at(2, r));
    lemma_rows_for_all(b, schema, table);
    lemma_pick_all(ints(g), b.rows as int, named, q);
    lemma_picked_columns(b, g, filter, g.len() as int);
    let picked = pick(ints(g), q, g.len() as int);
    let want = |r: int|
        {
            let b = batches.columns->0;
            &&& b.text_at(0, r) == schema
            &&& b.text_at(1, r) == table
            &&& filter matches Some(p) ==> like(p@, b.text_at(2, r))
        };
    lemma_same_all(picked, b.rows as int, |r: int| named(r) && q(r), want);
    lemma_all_unique(rows, picked, b.rows as int, want);
    reveal_strlit("YES");
    assert("YES"@ =~= seq!['Y', 'E', 'S']);
}

proof fn lemma_same_all(
    rows: Seq<int>,
    n: int,
    p: spec_fn(int) -> bool,
    q: spec_fn(int) -> bool,
)
    requires
        are_all(rows, n, p),
        forall|r: int| #[trigger] p(r) == q(r),
    ensures
        are_all(rows, n, q),
{
    assert forall|i: int| 0 <= i < rows.len() implies 0 <= #[trigger] rows[i] < n && q(
        rows[i],
    ) by {
        assert(p(rows[i]) == q(rows[i]));
    }
    assert forall|r: int| 0 <= r < n && #[trigger] q(r) implies rows.contains(r) by {
        assert(p(r) == q(r));
    }
}

/// The key columns of a constraint are the names in the rows of the key query with its schema and
/// name, all of them, in order.
pub proof fn lemma_key_columns_of_a_constraint(
    batches: ObjectBatches,
    schema: Seq<char>,
    constraint: Seq<char>,
    rows: Seq<int>,
)
    requires
        batches.key_columns is Some,
        are_all(
            rows,
            batches.key_columns->0.rows as int,
            |r: int|
                batches.key_columns->0.text_at(0, r) == schema && batches.key_columns->0.text_at(
                    1,
                    r,
                ) == constraint,
        ),
    ensures
        key_columns_in(batches, schema, constraint) == rows.map_values(
            |r: int| batches.key_columns->0.text_at(4, r),
        ),
{
    let b = batches.key_columns->0;
    let g = rows_for(batches.key_columns, schema, constraint);
    let p = |r: int| b.text_at(0, r) == schema && b.text_at(1, r) == constraint;
    let want = |r: int|
        batches.key_columns->0.text_at(0, r) == schema && batches.key_columns->0.text_at(1, r)
            == constraint;
    lemma_rows_for_all(b, schema, constraint);
    lemma_same_all(ints(g), b.rows as int, p, want);
    lemma_all_unique(rows, ints(g), b.rows as int, want);
    assert(key_columns_in(batches, schema, constraint) =~= rows.map_values(
        |r: int| batches.key_columns->0.text_at(4, r),
    ));
}

spec fn constraint_of(batches: ObjectBatches, schema: Seq<char>, r: int) -> ConstraintView {
    let b = batches.constraints->0;
    ConstraintView {
        name: Some(b.text_at(2, r)),
        constraint_type: b.text_at(3, r),
        columns: key_columns_in(batches, schema, b.text_at(2, r)),
        usages: if b.text_at(3, r) == "FOREIGN KEY"@ {
            usages_in(batches, schema, b.text_at(2, r))
        } else {
            Seq::empty()
        },
    }
}

proof fn lemma_picked_constraints(
    batches: ObjectBatches,
    schema: Seq<char>,
    rows: Seq<usize>,
    n: int,
)
    requires
        0 <= n <= rows.len(),
    ensures
        picked_constraints(batches, schema, rows, n) == ints(rows).take(n).map_values(
            |r: int| constraint_of(batches, schema, r),
        ),
    decreases n,
{
    let f = |r: int| constraint_of(batches, schema, r);
    if n > 0 {
        lemma_picked_constraints(batches, schema, rows, n - 1);
        assert(ints(rows).take(n) =~= ints(rows).take(n - 1).push(ints(rows)[n - 1]));
    }
    assert(picked_constraints(batches, schema, rows, n) =~= ints(rows).take(n).map_values(f));
}

/// The constraints of a table are the rows of the constraint query with its schema and name, all of
/// them, in order. Each has its own key columns, and a foreign key, and nothing else, the columns it
/// refers to.
pub proof fn lemma_constraints_of_a_table(
    batches: ObjectBatches,
    schema: Seq<char>,
    table: Seq<char>,
    rows: Seq<int>,
)
    requires
        batches.constraints is Some,
        are_all(
            rows,
            batches.constraints->0.rows as int,
            |r: int|
                batches.constraints->0.text_at(0, r) == schema && batches.constraints->0.text_at(
                    1,
                    r,
                ) == table,
        ),
    ensures
        constraints_in(batches, schema, table).len() == rows.len(),
        forall|i: int|
            0 <= i < rows.len() ==> {
                let b = batches.constraints->0;
                let c = #[trigger] constraints_in(batches, schema, table)[i];
                &&& c.name == Some(b.text_at(2, rows[i]))
                &&& c.constraint_type == b.text_at(3, rows[i])
                &&& c.columns == key_columns_in(batches, schema, b.text_at(2, rows[i]))
                &&& b.text_at(3, rows[i]) == seq![
                    'F',
                    'O',
                    'R',
                    'E',
                    'I',
                    'G',
                    'N',
                    ' ',
                    'K',
                    'E',
                    'Y',
                ] ==> c.usages == usages_in(batches, schema, b.text_at(2, rows[i]))
                &&& b.text_at(3, rows[i]) != seq![
                    'F',
                    'O',
                    'R',
                    'E',
                    'I',
                    'G',
                    'N',
                    ' ',
                    'K',
                    'E',
                    'Y',
                ] ==> c.usages.len() == 0
            },
{
    let b = batches.constraints->0;
    let g = rows_for(batches.constraints, schema, table);
    let p = |r: int| b.text_at(0, r) == schema && b.text_at(1, r) == table;
    let want = |r: int|
        batches.constraints->0.text_at(0, r) == schema && batches.constraints->0.text_at(1, r)
            == table;
    lemma_rows_for_all(b, schema, table);
    lemma_same_all(ints(g), b.rows as int, p, want);
    lemma_all_unique(rows, ints(g), b.rows as int, want);
    lemma_picked_constraints(batches, schema, g, g.len() as int);
    assert(ints(g).take(g.len() as int) =~= ints(g));
    reveal_strlit("FOREIGN KEY");
    assert("FOREIGN KEY"@ =~= seq!['F', 'O', 'R', 'E', 'I', 'G', 'N', ' ', 'K', 'E', 'Y']);
}

// ---------------------------------------------------------------------------------------------
// Foreign keys
// ---------------------------------------------------------------------------------------------

/// The number in a column of a row of the key query.
pub open spec fn number_at(b: MetadataBatch, column: int, r: int) -> int {
    int_value(b.text_at(column, r))->Some_0
}

/// Whether row `r` of the key query is one of a constraint's.
pub open spec fn is_key_row(b: MetadataBatch, schema: Seq<char>, name: Seq<char>, r: int) -> bool {
    0 <= r < b.rows && b.text_at(0, r) == schema && b.text_at(1, r) == name
}

/// Whether row `r` has a number for its ordinal and one for the position it refers to.
pub open spec fn has_numbers(b: MetadataBatch, r: int) -> bool {
    &&& int_value(b.text_at(5, r)) is Some
    &&& !b.null_at(6, r)
    &&& int_value(b.text_at(6, r)) is Some
}

/// Whether the ordinal of row `t` is the position that row `r` refers to.
pub open spec fn refers_to(b: MetadataBatch, r: int, t: int) -> bool {
    int_value(b.text_at(5, t)) == Some(number_at(b, 6, r))
}

/// Whether row `a` comes before row `b` in the order of a key: by ordinal, equal ones as the result
/// has them.
pub open spec fn comes_before(keys: MetadataBatch, a: int, b: int) -> bool {
    number_at(keys, 5, a) < number_at(keys, 5, b) || (number_at(keys, 5, a) == number_at(
        keys,
        5,
        b,
    ) && a < b)
}

spec fn insert_row(keys: MetadataBatch, s: Seq<int>, x: int) -> Seq<int>
    decreases s.len(),
{
    if s.len() == 0 || number_at(keys, 5, s.last()) <= number_at(keys, 5, x) {
        s.push(x)
    } else {
        insert_row(keys, s.drop_last(), x).push(s.last())
    }
}

spec fn sorted_rows(keys: MetadataBatch, s: Seq<int>) -> Seq<int>
    decreases s.len(),
{
    if s.len() == 0 {
        s
    } else {
        insert_row(keys, sorted_rows(keys, s.drop_last()), s.last())
    }
}

spec fn pair_of(keys: MetadataBatch, r: int) -> (int, int) {
    (number_at(keys, 5, r), number_at(keys, 6, r))
}

proof fn lemma_key_positions(keys: MetadataBatch, rows: Seq<usize>, n: int)
    requires
        0 <= n <= rows.len(),
    ensures
        key_positions(keys, rows, n) == pick(
            ints(rows),
            |r: int| has_numbers(keys, r),
            n,
        ).map_values(|r: int| pair_of(keys, r)),
    decreases n,
{
    let p = |r: int| has_numbers(keys, r);
    if n > 0 {
        lemma_key_positions(keys, rows, n - 1);
        assert(ints(rows)[n - 1] == rows[n - 1] as int);
    }
    assert(key_positions(keys, rows, n) =~= pick(ints(rows), p, n).map_values(
        |r: int| pair_of(keys, r),
    ));
}

proof fn lemma_insert_row(keys: MetadataBatch, s: Seq<int>, x: int)
    requires
        is_ordered(s, |a: int, b: int| comes_before(keys, a, b)),
        forall|i: int| 0 <= i < s.len() ==> #[trigger] s[i] < x,
    ensures
        insert_by_ordinal(s.map_values(|r: int| pair_of(keys, r)), pair_of(keys, x))
            == insert_row(keys, s, x).map_values(|r: int| pair_of(keys, r)),
        is_ordered(insert_row(keys, s, x), |a: int, b: int| comes_before(keys, a, b)),
        forall|a: int| #[trigger] insert_row(keys, s, x).contains(a) <==> a == x || s.contains(a),
    decreases s.len(),
{
    let g = |r: int| pair_of(keys, r);
    let lt = |a: int, b: int| comes_before(keys, a, b);
    let m = s.map_values(g);
    let r = insert_row(keys, s, x);
    if s.len() == 0 || number_at(keys, 5, s.last()) <= number_at(keys, 5, x) {
        assert(m.push(g(x)) =~= s.push(x).map_values(g));
        assert forall|i: int, j: int| 0 <= i < j < r.len() implies #[trigger] lt(r[i], r[j]) by {
            if j < s.len() {
                assert(lt(s[i], s[j]));
            } else if i < s.len() - 1 {
                assert(lt(s[i], s[s.len() - 1]));
                assert(s[i] < x);
            } else {
                assert(s[i] < x);
            }
        }
        assert forall|a: int| #[trigger] r.contains(a) <==> a == x || s.contains(a) by {
            if r.contains(a) {
                let k = choose|k: int| 0 <= k < r.len() && r[k] == a;
                if k < s.len() {
                    assert(s[k] == a);
                }
            }
            if a == x {
                assert(r[s.len() as int] == a);
            }
            if s.contains(a) {
                let k = choose|k: int| 0 <= k < s.len() && s[k] == a;
                assert(r[k] == a);
            }
        }
    } else {
        let s0 = s.drop_last();
        assert forall|i: int, j: int| 0 <= i < j < s0.len() implies #[trigger] lt(s0[i], s0[j]) by {
            assert(lt(s[i], s[j]));
        }
        assert forall|i: int| 0 <= i < s0.len() implies #[trigger] s0[i] < x by {
            assert(s[i] < x);
        }
        lemma_insert_row(keys, s0, x);
        let r0 = insert_row(keys, s0, x);
        assert(m.drop_last() =~= s0.map_values(g));
        assert(m.last() == g(s.last()));
        assert(r0.push(s.last()).map_values(g) =~= r0.map_values(g).push(g(s.last())));
        assert forall|i: int, j: int| 0 <= i < j < r.len() implies #[trigger] lt(r[i], r[j]) by {
            if j < r0.len() {
                assert(lt(r0[i], r0[j]));
            } else {
                assert(r0.contains(r0[i]));
                if r0[i] != x {
                    assert(s0.contains(r0[i]));
                    let k = choose|k: int| 0 <= k < s0.len() && s0[k] == r0[i];
                    assert(lt(s[k], s[s.len() - 1]));
                }
            }
        }
        assert forall|a: int| #[trigger] r.contains(a) <==> a == x || s.contains(a) by {
            if r.contains(a) {
                let k = choose|k: int| 0 <= k < r.len() && r[k] == a;
                if k < r0.len() {
                    assert(r0[k] == a);
                    assert(r0.contains(a));
                    if a != x {
                        let q = choose|q: int| 0 <= q < s0.len() && s0[q] == a;
                        assert(s[q] == a);
                    }
                } else {
                    assert(s[s.len() - 1] == a);
                }
            }
            if a == x || s.contains(a) {
                if a == s.last() {
                    assert(r[r.len() - 1] == a);
                } else {
                    if s.contains(a) {
                        let k = choose|k: int| 0 <= k < s.len() && s[k] == a;
                        assert(s0[k] == a);
                    }
                    assert(r0.contains(a));
                    let q = choose|q: int| 0 <= q < r0.len() && r0[q] == a;
                    assert(r[q] == a);
                }
            }
        }
    }
}

proof fn lemma_sorted_rows(keys: MetadataBatch, s: Seq<int>)
    requires
        is_increasing(s),
    ensures
        by_ordinal(s.map_values(|r: int| pair_of(keys, r))) == sorted_rows(keys, s).map_values(
            |r: int| pair_of(keys, r),
        ),
        is_ordered(sorted_rows(keys, s), |a: int, b: int| comes_before(keys, a, b)),
        forall|a: int| #[trigger] sorted_rows(keys, s).contains(a) <==> s.contains(a),
    decreases s.len(),
{
    let g = |r: int| pair_of(keys, r);
    if s.len() == 0 {
        assert(s.map_values(g) =~= Seq::empty());
        assert(sorted_rows(keys, s).map_values(g) =~= Seq::empty());
    } else {
        let s0 = s.drop_last();
        let x = s.last();
        assert forall|i: int, j: int| 0 <= i < j < s0.len() implies #[trigger] s0[i]
            < #[trigger] s0[j] by {
            assert(s[i] < s[j]);
        }
        lemma_sorted_rows(keys, s0);
        let t = sorted_rows(keys, s0);
        assert forall|i: int| 0 <= i < t.len() implies #[trigger] t[i] < x by {
            assert(t.contains(t[i]));
            assert(s0.contains(t[i]));
            let k = choose|k: int| 0 <= k < s0.len() && s0[k] == t[i];
            assert(s[k] < s[s.len() - 1]);
        }
        lemma_insert_row(keys, t, x);
        assert(s.map_values(g).drop_last() =~= s0.map_values(g));
        assert forall|a: int| #[trigger] sorted_rows(keys, s).contains(a) <==> s.contains(a) by {
            if a == x {
                assert(s[s.len() - 1] == a);
            }
            if s0.contains(a) {
                let k = choose|k: int| 0 <= k < s0.len() && s0[k] == a;
                assert(s[k] == a);
            }
            if s.contains(a) && a != x {
                let k = choose|k: int| 0 <= k < s.len() && s[k] == a;
                assert(s0[k] == a);
            }
            assert(t.contains(a) <==> s0.contains(a));
        }
    }
}

proof fn lemma_row_at_ordinal(keys: MetadataBatch, rows: Seq<usize>, position: int, n: int)
    requires
        0 <= n <= rows.len(),
        is_increasing(ints(rows)),
    ensures
        row_at_ordinal(keys, rows, position, n) matches Some(t) ==> {
            &&& exists|i: int| 0 <= i < n && #[trigger] rows[i] == t
            &&& int_value(keys.text_at(5, t as int)) == Some(position)
            &&& forall|i: int|
                0 <= i < n && (#[trigger] rows[i]) > t ==> int_value(
                    keys.text_at(5, rows[i] as int),
                ) != Some(position)
        },
        row_at_ordinal(keys, rows, position, n) is None ==> forall|i: int|
            0 <= i < n ==> int_value(keys.text_at(5, (#[trigger] rows[i]) as int)) != Some(
                position,
            ),
    decreases n,
{
    if n > 0 {
        lemma_row_at_ordinal(keys, rows, position, n - 1);
        assert forall|i: int| 0 <= i < n implies (#[trigger] rows[i]) <= rows[n - 1] by {
            if i < n - 1 {
                assert(ints(rows)[i] < ints(rows)[n - 1]);
            }
        }
    }
}

spec fn usage_of(keys: MetadataBatch, t: int) -> UsageView {
    UsageView {
        db_schema: keys.text_at(2, t),
        table: keys.text_at(3, t),
        column: keys.text_at(4, t),
    }
}

proof fn lemma_referenced_columns(
    keys: MetadataBatch,
    targets: Seq<usize>,
    own: Seq<int>,
    n: int,
)
    requires
        0 <= n <= own.len(),
    ensures
        referenced_columns(keys, targets, own.map_values(|r: int| pair_of(keys, r)), n) == pick(
            own,
            |r: int|
                row_at_ordinal(
                    keys,
                    targets,
                    number_at(keys, 6, r),
                    targets.len() as int,
                ) is Some,
            n,
        ).map_values(
            |r: int|
                usage_of(
                    keys,
                    row_at_ordinal(
                        keys,
                        targets,
                        number_at(keys, 6, r),
                        targets.len() as int,
                    )->Some_0 as int,
                ),
        ),
    decreases n,
{
    let g = |r: int| pair_of(keys, r);
    let p = |r: int|
        row_at_ordinal(keys, targets, number_at(keys, 6, r), targets.len() as int) is Some;
    let f = |r: int|
        usage_of(
            keys,
            row_at_ordinal(
                keys,
                targets,
                number_at(keys, 6, r),
                targets.len() as int,
            )->Some_0 as int,
        );
    if n > 0 {
        lemma_referenced_columns(keys, targets, own, n - 1);
        assert(own.map_values(g)[n - 1] == g(own[n - 1]));
    }
    assert(referenced_columns(keys, targets, own.map_values(g), n) =~= pick(
        own,
        p,
        n,
    ).map_values(f));
}

/// What a foreign key refers to: for each of its columns, in key order, the column of the key it
/// refers to that has the ordinal the column names as its position.
///
/// `link` is the first row that links the foreign key to the key it refers to. `own` are the rows of
/// the foreign key that have an ordinal and a position which some row of that key has as its ordinal,
/// in key order, and `target` the rows they refer to, the last where there are several.
pub proof fn lemma_foreign_key_columns(
    batches: ObjectBatches,
    schema: Seq<char>,
    foreign_key: Seq<char>,
    link: int,
    own: Seq<int>,
    target: Seq<int>,
)
    requires
        batches.referential is Some,
        batches.key_columns is Some,
        is_key_row(batches.referential->0, schema, foreign_key, link),
        forall|r: int| 0 <= r < link ==> !is_key_row(batches.referential->0, schema, foreign_key, r),
        own.len() == target.len(),
        ({
            let keys = batches.key_columns->0;
            let parent_schema = batches.referential->0.text_at(2, link);
            let parent = batches.referential->0.text_at(3, link);
            &&& forall|i: int|
                0 <= i < own.len() ==> {
                    &&& is_key_row(keys, schema, foreign_key, #[trigger] own[i])
                    &&& has_numbers(keys, own[i])
                    &&& is_key_row(keys, parent_schema, parent, target[i])
                    &&& refers_to(keys, own[i], target[i])
                    &&& forall|t: int|
                        t > target[i] && #[trigger] is_key_row(keys, parent_schema, parent, t)
                            ==> !refers_to(keys, own[i], t)
                }
            &&& forall|r: int, t: int|
                #[trigger] is_key_row(keys, schema, foreign_key, r) && has_numbers(keys, r)
                    && #[trigger] is_key_row(keys, parent_schema, parent, t) && refers_to(
                    keys,
                    r,
                    t,
                ) ==> own.contains(r)
            &&& forall|i: int, j: int|
                0 <= i < j < own.len() ==> comes_before(keys, #[trigger] own[i], #[trigger] own[j])
        }),
    ensures
        usages_in(batches, schema, foreign_key).len() == own.len(),
        forall|i: int|
            0 <= i < own.len() ==> {
                let keys = batches.key_columns->0;
                let usage = #[trigger] usages_in(batches, schema, foreign_key)[i];
                &&& usage.db_schema == keys.text_at(2, target[i])
                &&& usage.table == keys.text_at(3, target[i])
                &&& usage.column == keys.text_at(4, target[i])
            },
{
    let refs = batches.referential->0;
    let keys = batches.key_columns->0;
    let parent_schema = refs.text_at(2, link);
    let parent = refs.text_at(3, link);
    let links = rows_for(batches.referential, schema, foreign_key);
    lemma_rows_for_all(refs, schema, foreign_key);
    let named = |r: int| refs.text_at(0, r) == schema && refs.text_at(1, r) == foreign_key;
    assert(named(link));
    assert(ints(links).contains(link));
    let at = choose|at: int| 0 <= at < ints(links).len() && ints(links)[at] == link;
    let first = ints(links)[0];
    assert(0 <= first < refs.rows && named(first));
    assert(first <= link) by {
        if at > 0 {
            assert(ints(links)[0] < ints(links)[at]);
        }
    }
    assert(is_key_row(refs, schema, foreign_key, first));
    assert(links[0] as int == link);
    let mine = rows_for(batches.key_columns, schema, foreign_key);
    let targets = rows_for(batches.key_columns, parent_schema, parent);
    lemma_rows_for_all(keys, schema, foreign_key);
    lemma_rows_for_all(keys, parent_schema, parent);
    let mine_named = |r: int| keys.text_at(0, r) == schema && keys.text_at(1, r) == foreign_key;
    let parent_named = |r: int| keys.text_at(0, r) == parent_schema && keys.text_at(1, r) == parent;
    let numbered = |r: int| has_numbers(keys, r);
    lemma_key_positions(keys, mine, mine.len() as int);
    lemma_pick_all(ints(mine), keys.rows as int, mine_named, numbered);
    let rows = pick(ints(mine), numbered, mine.len() as int);
    lemma_sorted_rows(keys, rows);
    let sorted = sorted_rows(keys, rows);
    let lt = |a: int, b: int| comes_before(keys, a, b);
    let found = |r: int|
        row_at_ordinal(keys, targets, number_at(keys, 6, r), targets.len() as int) is Some;
    let pairs = by_ordinal(key_positions(keys, mine, mine.len() as int));
    assert(pairs == sorted.map_values(|r: int| pair_of(keys, r)));
    lemma_referenced_columns(keys, targets, sorted, sorted.len() as int);
    lemma_pick(sorted, found, sorted.len() as int, lt);
    let picked = pick(sorted, found, sorted.len() as int);
    assert forall|r: int|
        #[trigger] found(r) <==> exists|t: int|
            #[trigger] is_key_row(keys, parent_schema, parent, t) && refers_to(keys, r, t) by {
        lemma_row_at_ordinal(keys, targets, number_at(keys, 6, r), targets.len() as int);
        if found(r) {
            let t = row_at_ordinal(
                keys,
                targets,
                number_at(keys, 6, r),
                targets.len() as int,
            )->Some_0;
            let i = choose|i: int| 0 <= i < targets.len() && #[trigger] targets[i] == t;
            assert(0 <= ints(targets)[i] < keys.rows && parent_named(ints(targets)[i]));
            assert(is_key_row(keys, parent_schema, parent, t as int));
        }
        if exists|t: int|
            #[trigger] is_key_row(keys, parent_schema, parent, t) && refers_to(keys, r, t) {
            let t = choose|t: int|
                #[trigger] is_key_row(keys, parent_schema, parent, t) && refers_to(keys, r, t);
            assert(parent_named(t));
            assert(ints(targets).contains(t));
            let i = choose|i: int| 0 <= i < ints(targets).len() && ints(targets)[i] == t;
            assert(targets[i] as int == t);
        }
    }
    assert forall|a: int| #[trigger] picked.contains(a) <==> own.contains(a) by {
        if picked.contains(a) {
            let i = choose|i: int| 0 <= i < sorted.len() && #[trigger] sorted[i] == a;
            assert(sorted.contains(a));
            assert(rows.contains(a));
            let k = choose|k: int| 0 <= k < rows.len() && rows[k] == a;
            assert(mine_named(rows[k]) && numbered(rows[k]));
            assert(found(a));
            let t = choose|t: int|
                #[trigger] is_key_row(keys, parent_schema, parent, t) && refers_to(keys, a, t);
            assert(is_key_row(keys, schema, foreign_key, a));
        }
        if own.contains(a) {
            let i = choose|i: int| 0 <= i < own.len() && own[i] == a;
            assert(is_key_row(keys, schema, foreign_key, own[i]));
            assert(is_key_row(keys, parent_schema, parent, target[i]));
            let both = |r: int| mine_named(r) && numbered(r);
            assert(both(a));
            assert(rows.contains(a));
            assert(sorted.contains(a));
            let k = choose|k: int| 0 <= k < sorted.len() && sorted[k] == a;
            assert(sorted[k] == a);
            assert(found(a));
        }
    }
    assert forall|i: int, j: int| 0 <= i < j < own.len() implies #[trigger] lt(own[i], own[j]) by {
        assert(comes_before(keys, own[i], own[j]));
    }
    lemma_ordered_unique(picked, own, lt);
    assert forall|i: int| 0 <= i < own.len() implies {
        let usage = #[trigger] usages_in(batches, schema, foreign_key)[i];
        &&& usage.db_schema == keys.text_at(2, target[i])
        &&& usage.table == keys.text_at(3, target[i])
        &&& usage.column == keys.text_at(4, target[i])
    } by {
        let r = own[i];
        let position = number_at(keys, 6, r);
        lemma_row_at_ordinal(keys, targets, position, targets.len() as int);
        assert(is_key_row(keys, parent_schema, parent, target[i]));
        assert(parent_named(target[i]));
        assert(ints(targets).contains(target[i]));
        let k = choose|k: int| 0 <= k < ints(targets).len() && ints(targets)[k] == target[i];
        assert(targets[k] as int == target[i]);
        let t = row_at_ordinal(keys, targets, position, targets.len() as int)->Some_0;
        let m = choose|m: int| 0 <= m < targets.len() && #[trigger] targets[m] == t;
        assert(parent_named(ints(targets)[m]));
        assert(is_key_row(keys, parent_schema, parent, t as int));
        assert(t as int == target[i]);
    }
}

// ---------------------------------------------------------------------------------------------
// Tables and db schemas
// ---------------------------------------------------------------------------------------------

spec fn table_of(
    batches: ObjectBatches,
    schema: Seq<char>,
    column_name: Option<&str>,
    r: int,
) -> TableView {
    let b = batches.tables->0;
    TableView {
        name: b.text_at(1, r),
        table_type: b.text_at(2, r),
        columns: columns_in(batches, schema, b.text_at(1, r), column_name),
        constraints: constraints_in(batches, schema, b.text_at(1, r)),
    }
}

proof fn lemma_picked_tables(
    batches: ObjectBatches,
    schema: Seq<char>,
    rows: Seq<usize>,
    table_name: Option<&str>,
    table_type: Option<&Vec<String>>,
    column_name: Option<&str>,
    n: int,
)
    requires
        0 <= n <= rows.len(),
    ensures
        picked_tables(batches, schema, rows, table_name, table_type, column_name, n) == pick(
            ints(rows),
            |r: int|
                passes(table_name, batches.tables->0.text_at(1, r)) && type_passes(
                    table_type,
                    batches.tables->0.text_at(2, r),
                ),
            n,
        ).map_values(|r: int| table_of(batches, schema, column_name, r)),
    decreases n,
{
    let p = |r: int|
        passes(table_name, batches.tables->0.text_at(1, r)) && type_passes(
            table_type,
            batches.tables->0.text_at(2, r),
        );
    if n > 0 {
        lemma_picked_tables(
            batches,
            schema,
            rows,
            table_name,
            table_type,
            column_name,
            n - 1,
        );
        assert(ints(rows)[n - 1] == rows[n - 1] as int);
    }
    assert(picked_tables(batches, schema, rows, table_name, table_type, column_name, n) =~= pick(
        ints(rows),
        p,
        n,
    ).map_values(|r: int| table_of(batches, schema, column_name, r)));
}

/// The tables of a db schema that are reported under the filters.
pub open spec fn tables_in(
    batches: ObjectBatches,
    schema: Seq<char>,
    table_name: Option<&str>,
    table_type: Option<&Vec<String>>,
    column_name: Option<&str>,
) -> Seq<TableView> {
    let rows = rows_named(batches.tables, schema);
    picked_tables(
        batches,
        schema,
        rows,
        table_name,
        table_type,
        column_name,
        rows.len() as int,
    )
}

/// The tables of a db schema are the rows of the table query with its name whose own name and type
/// pass the filters, all of them, in order, each with its own columns and constraints.
pub proof fn lemma_tables_of_a_schema(
    batches: ObjectBatches,
    schema: Seq<char>,
    table_name: Option<&str>,
    table_type: Option<&Vec<String>>,
    column_name: Option<&str>,
    rows: Seq<int>,
)
    requires
        batches.tables is Some,
        are_all(
            rows,
            batches.tables->0.rows as int,
            |r: int|
                {
                    let b = batches.tables->0;
                    &&& b.text_at(0, r) == schema
                    &&& table_name matches Some(p) ==> like(p@, b.text_at(1, r))
                    &&& table_type matches Some(ts) ==> exists|i: int|
                        0 <= i < ts@.len() && (#[trigger] ts@[i])@ == b.text_at(2, r)
                },
        ),
    ensures
        ({
            let tables = tables_in(batches, schema, table_name, table_type, column_name);
            let b = batches.tables->0;
            &&& tables.len() == rows.len()
            &&& forall|i: int|
                0 <= i < rows.len() ==> {
                    let t = #[trigger] tables[i];
                    &&& t.name == b.text_at(1, rows[i])
                    &&& t.table_type == b.text_at(2, rows[i])
                    &&& t.columns == columns_in(batches, schema, t.name, column_name)
                    &&& t.constraints == constraints_in(batches, schema, t.name)
                }
        }),
{
    let b = batches.tables->0;
    let g = rows_named(batches.tables, schema);
    let named = |r: int| b.text_at(0, r) == schema;
    let q = |r: int|
        passes(table_name, batches.tables->0.text_at(1, r)) && type_passes(
            table_type,
            batches.tables->0.text_at(2, r),
        );
    lemma_rows_named_all(b, schema);
    lemma_pick_all(ints(g), b.rows as int, named, q);
    lemma_picked_tables(
        batches,
        schema,
        g,
        table_name,
        table_type,
        column_name,
        g.len() as int,
    );
    let picked = pick(ints(g), q, g.len() as int);
    let want = |r: int|
        {
            let b = batches.tables->0;
            &&& b.text_at(0, r) == schema
            &&& table_name matches Some(p) ==> like(p@, b.text_at(1, r))
            &&& table_type matches Some(ts) ==> exists|i: int|
                0 <= i < ts@.len() && (#[trigger] ts@[i])@ == b.text_at(2, r)
        };
    lemma_same_all(picked, b.rows as int, |r: int| named(r) && q(r), want);
    lemma_all_unique(rows, picked, b.rows as int, want);
}

proof fn lemma_picked_schemas(
    batches: ObjectBatches,
    db_schema: Option<&str>,
    table_name: Option<&str>,
    table_type: Option<&Vec<String>>,
    column_name: Option<&str>,
    n: int,
)
    requires
        0 <= n,
    ensures
        picked_schemas(batches, db_schema, table_name, table_type, column_name, n) == pick(
            Seq::new(n as nat, |r: int| r),
            |r: int| passes(db_schema, batches.schemas.text_at(0, r)),
            n,
        ).map_values(
            |r: int|
                DbSchemaView {
                    name: batches.schemas.text_at(0, r),
                    tables: tables_in(
                        batches,
                        batches.schemas.text_at(0, r),
                        table_name,
                        table_type,
                        column_name,
                    ),
                },
        ),
    decreases n,
{
    let p = |r: int| passes(db_schema, batches.schemas.text_at(0, r));
    let f = |r: int|
        DbSchemaView {
            name: batches.schemas.text_at(0, r),
            tables: tables_in(
                batches,
                batches.schemas.text_at(0, r),
                table_name,
                table_type,
                column_name,
            ),
        };
    let all = Seq::new(n as nat, |r: int| r);
    if n > 0 {
        lemma_picked_schemas(batches, db_schema, table_name, table_type, column_name, n - 1);
        lemma_pick_prefix(Seq::new((n - 1) as nat, |r: int| r), all, p, n - 1);
        assert(all[n - 1] == n - 1);
    }
    assert(picked_schemas(batches, db_schema, table_name, table_type, column_name, n) =~= pick(
        all,
        p,
        n,
    ).map_values(f));
}

proof fn lemma_pick_prefix(s: Seq<int>, t: Seq<int>, p: spec_fn(int) -> bool, n: int)
    requires
        n <= s.len(),
        n <= t.len(),
        forall|i: int| 0 <= i < n ==> #[trigger] s[i] == t[i],
    ensures
        pick(s, p, n) == pick(t, p, n),
    decreases n,
{
    if n > 0 {
        lemma_pick_prefix(s, t, p, n - 1);
        assert(s[n - 1] == t[n - 1]);
    }
}

/// The db schemas are the rows of the schema query whose name passes the filter, all of them, in
/// order, each with its own tables.
pub proof fn lemma_schemas(
    batches: ObjectBatches,
    db_schema: Option<&str>,
    table_name: Option<&str>,
    table_type: Option<&Vec<String>>,
    column_name: Option<&str>,
    rows: Seq<int>,
)
    requires
        are_all(
            rows,
            batches.schemas.rows as int,
            |r: int| db_schema matches Some(p) ==> like(p@, batches.schemas.text_at(0, r)),
        ),
    ensures
        ({
            let schemas = picked_schemas(
                batches,
                db_schema,
                table_name,
                table_type,
                column_name,
                batches.schemas.rows as int,
            );
            &&& schemas.len() == rows.len()
            &&& forall|i: int|
                0 <= i < rows.len() ==> {
                    let s = #[trigger] schemas[i];
                    &&& s.name == batches.schemas.text_at(0, rows[i])
                    &&& s.tables == tables_in(
                        batches,
                        s.name,
                        table_name,
                        table_type,
                        column_name,
                    )
                }
        }),
{
    let n = batches.schemas.rows as int;
    let all = Seq::new(n as nat, |r: int| r);
    let p = |r: int| true;
    let q = |r: int| passes(db_schema, batches.schemas.text_at(0, r));
    let want = |r: int| db_schema matches Some(p) ==> like(p@, batches.schemas.text_at(0, r));
    assert(are_all(all, n, p)) by {
        assert forall|r: int| 0 <= r < n && #[trigger] p(r) implies all.contains(r) by {
            assert(all[r] == r);
        }
    }
    lemma_pick_all(all, n, p, q);
    lemma_picked_schemas(batches, db_schema, table_name, table_type, column_name, n);
    let picked = pick(all, q, n);
    assert(all.len() == n);
    lemma_same_all(picked, n, |r: int| p(r) && q(r), want);
    lemma_all_unique(rows, picked, n, want);
}

// ---------------------------------------------------------------------------------------------
// The shape of the results
// ---------------------------------------------------------------------------------------------

/// Whether a column of a result is there and holds text.
pub open spec fn is_text(b: MetadataBatch, i: int) -> bool {
    0 <= i < b.columns@.len() && b.columns@[i] is Strings
}

/// Whether the columns before `n` are there and hold text.
pub open spec fn are_texts(b: MetadataBatch, n: int) -> bool {
    forall|i: int| 0 <= i < n ==> is_text(b, i)
}

proof fn lemma_texts_complaint(b: MetadataBatch, i: int, n: int)
    requires
        0 <= i <= n,
    ensures
        texts_complaint(b, i, n) is None <==> forall|k: int| i <= k < n ==> is_text(b, k),
    decreases n - i,
{
    if i < n {
        lemma_texts_complaint(b, i + 1, n);
        assert(text_complaint(b, i) is None <==> is_text(b, i));
    }
}

/// Results are taken exactly if they have the columns that are asked for: text, but for the ordinal
/// of a column, which is an integer; three of a table, six of a column, four of a constraint, seven
/// of a key column and four of a reference. A column that is missing is told from one of another
/// type.
pub proof fn lemma_shapes(batches: ObjectBatches, b: MetadataBatch, i: int)
    requires
        0 <= i,
    ensures
        shape_complaint(batches) is None <==> {
            &&& is_text(batches.schemas, 0)
            &&& batches.tables matches Some(t) ==> are_texts(t, 3)
            &&& batches.columns matches Some(c) ==> {
                &&& are_texts(c, 3)
                &&& is_text(c, 4)
                &&& is_text(c, 5)
                &&& 3 < c.columns@.len()
                &&& c.columns@[3] is Ints
            }
            &&& batches.constraints matches Some(c) ==> are_texts(c, 4)
            &&& batches.key_columns matches Some(k) ==> are_texts(k, 7)
            &&& batches.referential matches Some(r) ==> are_texts(r, 4)
        },
        shape_complaint(batches) is None <==> batches.has_expected_shape(),
        i >= b.columns@.len() ==> text_complaint(b, i) == Some(
            column_range_message(b.columns@.len(), i as nat),
        ),
        i < b.columns@.len() ==> text_complaint(b, i) == (if b.columns@[i] is Strings {
            None
        } else {
            Some(column_type_message(i as nat))
        }),
{
    if let Some(t) = batches.tables {
        lemma_texts_complaint(t, 0, 3);
        assert forall|k: int| 0 <= k < 3 implies t.has_text(k) == is_text(t, k) by {}
    }
    if let Some(c) = batches.columns {
        lemma_texts_complaint(c, 0, 3);
        lemma_texts_complaint(c, 4, 6);
        assert(is_text(c, 0) == c.has_text(0));
        assert(is_text(c, 1) == c.has_text(1));
        assert(is_text(c, 2) == c.has_text(2));
        assert(is_text(c, 4) == c.has_text(4));
        assert(is_text(c, 5) == c.has_text(5));
    }
    if let Some(c) = batches.constraints {
        lemma_texts_complaint(c, 0, 4);
        assert forall|k: int| 0 <= k < 4 implies c.has_text(k) == is_text(c, k) by {}
    }
    if let Some(k) = batches.key_columns {
        lemma_texts_complaint(k, 0, 7);
        assert forall|j: int| 0 <= j < 7 implies k.has_text(j) == is_text(k, j) by {}
    }
    if let Some(r) = batches.referential {
        lemma_texts_complaint(r, 0, 4);
        assert forall|k: int| 0 <= k < 4 implies r.has_text(k) == is_text(r, k) by {}
    }
}

/// Which results a depth needs: the tables at three depths, and what belongs to a table at two.
pub proof fn lemma_needed_results(batches: ObjectBatches, depth: ObjectDepth)
    requires
        batches.answer(depth),
    ensures
        batches.tables is Some <==> depth == ObjectDepth::All || depth == ObjectDepth::Tables
            || depth == ObjectDepth::Columns,
        batches.columns is Some <==> depth == ObjectDepth::All || depth == ObjectDepth::Columns,
        batches.constraints is Some <==> batches.columns is Some,
        batches.key_columns is Some <==> batches.columns is Some,
        batches.referential is Some <==> batches.columns is Some,
{
}

/// The text in a cell is empty where it is NULL, and the integer zero.
pub proof fn lemma_cells_of_a_result(b: MetadataBatch, i: int, row: int)
    ensures
        is_text(b, i) ==> match b.columns@[i]->Strings_0@[row] {
            Some(s) => b.text_at(i, row) == s@ && !b.null_at(i, row),
            None => b.text_at(i, row).len() == 0 && b.null_at(i, row),
        },
        b.has_ints(i) ==> match b.columns@[i]->Ints_0@[row] {
            Some(n) => b.int_at(i, row) == n,
            None => b.int_at(i, row) == 0,
        },
{
}

/// A filter that is not given lets everything pass; a pattern lets pass what is like it, and a list
/// of table types exactly the types that it lists, letter by letter.
pub proof fn lemma_filters(pattern: &str, types: Option<&Vec<String>>, name: Seq<char>)
    ensures
        passes(None, name),
        passes(Some(pattern), name) <==> like(pattern@, name),
        types is None ==> type_passes(types, name),
        types matches Some(ts) ==> (type_passes(types, name) <==> texts(ts@).contains(name)),
{
    if let Some(ts) = types {
        assert forall|k: int| 0 <= k < ts@.len() implies #[trigger] texts(ts@)[k] == ts@[k]@ by {}
        if type_passes(types, name) {
            let k = choose|k: int| 0 <= k < ts@.len() && (#[trigger] ts@[k])@ == name;
            assert(texts(ts@)[k] == name);
        }
        if texts(ts@).contains(name) {
            let k = choose|k: int| 0 <= k < texts(ts@).len() && texts(ts@)[k] == name;
            assert(ts@[k]@ == name);
        }
    }
}

/// Every query that a depth needs is run, and no other.
pub proof fn lemma_queries(needed: bool, sql: &'static str)
    ensures
        crate::discovery::when(needed, sql) is Some <==> needed,
        crate::discovery::when(needed, sql) matches Some(q) ==> q == sql,
{
}

} // verus!
