//! What the nested metadata result holds, and which bound values are accepted.

use vstd::prelude::*;
use vstd::utf8::encode_utf8;

use crate::arrow::{text_cell, utf8_total, Cell};
use crate::bound::{
    batch_complaint, bind_complaint, finished_after, handed_complaint, imported_complaint,
    is_readable_indexing, is_readable_sized, is_readable_variable, pulled_as, schema_complaint,
    stream_failure, table_complaint, Handed, Indexing, NextReply, SchemaReply, SizedType,
    StreamStep, StreamTable, VariableType,
};
use crate::nested::{concat, grouped, lengths_are, texts_fit};
use crate::objects::{
    all_columns, all_constraints, all_key_columns, all_tables, all_usages, catalog_cell,
    column_cell, constraint_cell, db_schema_cell, objects_complaint, table_cell, usage_cell,
    yes_or_no, Column, Constraint, DbSchema, ObjectDepth, Table, Usage,
};
use crate::text::{debug_text, signed_decimal};

verus! {

// ---------------------------------------------------------------------------------------------
// Cells
// ---------------------------------------------------------------------------------------------

/// Whether a struct has a field of this name and value.
pub open spec fn has_field(cell: Cell, name: Seq<char>, value: Cell) -> bool {
    cell matches Cell::Struct(fields) && fields.contains((name, value))
}

/// Whether a struct has a field of this name that lists so many cells, the i-th of them being this
/// one.
pub open spec fn lists_at(cell: Cell, name: Seq<char>, len: nat, i: int, item: Cell) -> bool {
    cell matches Cell::Struct(fields) && exists|items: Seq<Cell>|
        items.len() == len && items[i] == item && #[trigger] fields.contains(
            (name, Cell::List(items)),
        )
}

proof fn lemma_field(cell: Cell, k: int)
    requires
        cell is Struct,
        0 <= k < cell->Struct_0.len(),
    ensures
        has_field(cell, cell->Struct_0[k].0, cell->Struct_0[k].1),
{
    let fields = cell->Struct_0;
    assert(fields[k] == (fields[k].0, fields[k].1));
}

/// A column's cell holds its name, its place, its type and whether it may be NULL, and nothing else
/// of the nineteen fields.
pub proof fn lemma_column_cells(c: Column)
    ensures
        has_field(column_cell(c), "column_name"@, Cell::Text(c.name@)),
        has_field(column_cell(c), "ordinal_position"@, Cell::Int(c.ordinal as int)),
        has_field(column_cell(c), "xdbc_type_name"@, Cell::Text(c.spanner_type@)),
        has_field(
            column_cell(c),
            "xdbc_is_nullable"@,
            Cell::Text(
                if c.nullable {
                    seq!['Y', 'E', 'S']
                } else {
                    seq!['N', 'O']
                },
            ),
        ),
        column_cell(c) matches Cell::Struct(fields) && fields.len() == 19 && forall|k: int|
            0 <= k < 19 && !(fields[k].1 is Null) ==> k == 0 || k == 1 || k == 4 || k == 13,
{
    reveal_strlit("YES");
    reveal_strlit("NO");
    assert("YES"@ =~= seq!['Y', 'E', 'S']);
    assert("NO"@ =~= seq!['N', 'O']);
    let cell = column_cell(c);
    lemma_field(cell, 0);
    lemma_field(cell, 1);
    lemma_field(cell, 4);
    lemma_field(cell, 13);
}

/// A usage's cell names the column that is referred to, in the unnamed catalog.
pub proof fn lemma_usage_cells(u: Usage)
    ensures
        has_field(usage_cell(u), "fk_catalog"@, Cell::Text(Seq::empty())),
        has_field(usage_cell(u), "fk_db_schema"@, Cell::Text(u.db_schema@)),
        has_field(usage_cell(u), "fk_table"@, Cell::Text(u.table@)),
        has_field(usage_cell(u), "fk_column_name"@, Cell::Text(u.column@)),
{
    reveal_strlit("");
    assert(""@ =~= Seq::<char>::empty());
    let cell = usage_cell(u);
    lemma_field(cell, 0);
    lemma_field(cell, 1);
    lemma_field(cell, 2);
    lemma_field(cell, 3);
}

/// A constraint's cell lists its key columns in key order, and of a foreign key, and of no other
/// constraint, what it refers to, in the same order.
pub proof fn lemma_constraint_cells(c: Constraint, i: int)
    ensures
        has_field(
            constraint_cell(c),
            "constraint_name"@,
            match c.name {
                Some(name) => Cell::Text(name@),
                None => Cell::Null,
            },
        ),
        has_field(constraint_cell(c), "constraint_type"@, Cell::Text(c.constraint_type@)),
        0 <= i < c.columns@.len() ==> lists_at(
            constraint_cell(c),
            "constraint_column_names"@,
            c.columns@.len(),
            i,
            Cell::Text(c.columns@[i]@),
        ),
        c.constraint_type@ == seq!['F', 'O', 'R', 'E', 'I', 'G', 'N', ' ', 'K', 'E', 'Y'] ==> (0
            <= i < c.usages@.len() ==> lists_at(
            constraint_cell(c),
            "constraint_column_usage"@,
            c.usages@.len(),
            i,
            usage_cell(c.usages@[i]),
        )),
        c.constraint_type@ != seq!['F', 'O', 'R', 'E', 'I', 'G', 'N', ' ', 'K', 'E', 'Y']
            ==> has_field(constraint_cell(c), "constraint_column_usage"@, Cell::Null),
{
    reveal_strlit("FOREIGN KEY");
    assert("FOREIGN KEY"@ =~= seq!['F', 'O', 'R', 'E', 'I', 'G', 'N', ' ', 'K', 'E', 'Y']);
    let cell = constraint_cell(c);
    lemma_field(cell, 0);
    lemma_field(cell, 1);
    lemma_field(cell, 2);
    lemma_field(cell, 3);
    let names = c.columns@.map_values(|s: String| Cell::Text(s@));
    if 0 <= i < c.columns@.len() {
        assert(names[i] == Cell::Text(c.columns@[i]@));
        assert(cell->Struct_0.contains(("constraint_column_names"@, Cell::List(names))));
    }
    let usages = c.usages@.map_values(|u: Usage| usage_cell(u));
    if c.constraint_type@ == "FOREIGN KEY"@ && 0 <= i < c.usages@.len() {
        assert(usages[i] == usage_cell(c.usages@[i]));
        assert(cell->Struct_0.contains(("constraint_column_usage"@, Cell::List(usages))));
    }
}

/// A table's cell names the table and its type, and lists its columns and constraints exactly at
/// the two depths that go down to them.
pub proof fn lemma_table_cells(t: Table, depth: ObjectDepth, i: int)
    ensures
        has_field(table_cell(t, depth), "table_name"@, Cell::Text(t.name@)),
        has_field(table_cell(t, depth), "table_type"@, Cell::Text(t.table_type@)),
        match depth {
            ObjectDepth::All | ObjectDepth::Columns => {
                &&& 0 <= i < t.columns@.len() ==> lists_at(
                    table_cell(t, depth),
                    "table_columns"@,
                    t.columns@.len(),
                    i,
                    column_cell(t.columns@[i]),
                )
                &&& 0 <= i < t.constraints@.len() ==> lists_at(
                    table_cell(t, depth),
                    "table_constraints"@,
                    t.constraints@.len(),
                    i,
                    constraint_cell(t.constraints@[i]),
                )
            },
            _ => {
                &&& has_field(table_cell(t, depth), "table_columns"@, Cell::Null)
                &&& has_field(table_cell(t, depth), "table_constraints"@, Cell::Null)
            },
        },
{
    let cell = table_cell(t, depth);
    lemma_field(cell, 0);
    lemma_field(cell, 1);
    lemma_field(cell, 2);
    lemma_field(cell, 3);
    let columns = t.columns@.map_values(|c: Column| column_cell(c));
    let constraints = t.constraints@.map_values(|c: Constraint| constraint_cell(c));
    if depth == ObjectDepth::All || depth == ObjectDepth::Columns {
        assert(cell->Struct_0.contains(("table_columns"@, Cell::List(columns))));
        assert(cell->Struct_0.contains(("table_constraints"@, Cell::List(constraints))));
    }
}

/// A db schema's cell names it and lists its tables at the depths that go down to them, and the
/// catalog's, which has no name, lists the db schemas at every depth but that of catalogs.
pub proof fn lemma_schema_cells(ss: Seq<DbSchema>, s: DbSchema, depth: ObjectDepth, i: int)
    ensures
        has_field(catalog_cell(ss, depth), "catalog_name"@, Cell::Text(Seq::empty())),
        match depth {
            ObjectDepth::Catalogs => has_field(
                catalog_cell(ss, depth),
                "catalog_db_schemas"@,
                Cell::Null,
            ),
            _ => 0 <= i < ss.len() ==> lists_at(
                catalog_cell(ss, depth),
                "catalog_db_schemas"@,
                ss.len(),
                i,
                db_schema_cell(ss[i], depth),
            ),
        },
        has_field(db_schema_cell(s, depth), "db_schema_name"@, Cell::Text(s.name@)),
        match depth {
            ObjectDepth::Catalogs | ObjectDepth::Schemas => has_field(
                db_schema_cell(s, depth),
                "db_schema_tables"@,
                Cell::Null,
            ),
            _ => 0 <= i < s.tables@.len() ==> lists_at(
                db_schema_cell(s, depth),
                "db_schema_tables"@,
                s.tables@.len(),
                i,
                table_cell(s.tables@[i], depth),
            ),
        },
{
    reveal_strlit("");
    assert(""@ =~= Seq::<char>::empty());
    let cell = catalog_cell(ss, depth);
    lemma_field(cell, 0);
    lemma_field(cell, 1);
    let schemas = ss.map_values(|s: DbSchema| db_schema_cell(s, depth));
    if depth != ObjectDepth::Catalogs {
        assert(cell->Struct_0.contains(("catalog_db_schemas"@, Cell::List(schemas))));
    }
    let inner = db_schema_cell(s, depth);
    lemma_field(inner, 0);
    lemma_field(inner, 1);
    let tables = s.tables@.map_values(|t: Table| table_cell(t, depth));
    if depth != ObjectDepth::Catalogs && depth != ObjectDepth::Schemas {
        assert(inner->Struct_0.contains(("db_schema_tables"@, Cell::List(tables))));
    }
}

// ---------------------------------------------------------------------------------------------
// What fits
// ---------------------------------------------------------------------------------------------

/// The bytes of texts are counted one text after the other, and NULLs take none.
pub proof fn lemma_text_totals(a: Seq<Cell>, b: Seq<Cell>, s: Seq<char>)
    ensures
        utf8_total(Seq::empty()) == 0,
        utf8_total(a.push(Cell::Text(s))) == utf8_total(a) + encode_utf8(s).len(),
        utf8_total(a.push(Cell::Null)) == utf8_total(a),
        utf8_total(a + b) == utf8_total(a) + utf8_total(b),
        texts_fit(a) <==> utf8_total(a) < 0x8000_0000,
    decreases b.len(),
{
    assert(a.push(Cell::Text(s)).drop_last() =~= a);
    assert(a.push(Cell::Null).drop_last() =~= a);
    if b.len() == 0 {
        assert(a + b =~= a);
    } else {
        lemma_text_totals(a, b.drop_last(), s);
        assert((a + b).drop_last() =~= a + b.drop_last());
    }
}

/// Whether a list of so many entries fits 32-bit offsets.
pub open spec fn counts(n: nat) -> bool {
    n < 0x8000_0000
}

/// Whether texts fit 32-bit offsets.
pub open spec fn weighs<T>(items: Seq<T>, text: spec_fn(T) -> Cell) -> bool {
    utf8_total(items.map_values(text)) < 0x8000_0000
}

/// A result is built exactly where every list and every text column of it fits 32-bit offsets, down
/// to its depth and no further.
pub proof fn lemma_what_fits(ss: Seq<DbSchema>, depth: ObjectDepth)
    ensures
        ({
            let ts = all_tables(ss);
            let cols = all_columns(ts);
            let cons = all_constraints(ts);
            let keys = all_key_columns(cons);
            let uses = all_usages(cons);
            objects_complaint(ss, depth) is None <==> {
                &&& depth != ObjectDepth::Catalogs ==> counts(ss.len()) && weighs(
                    ss,
                    |s: DbSchema| Cell::Text(s.name@),
                )
                &&& depth != ObjectDepth::Catalogs && depth != ObjectDepth::Schemas ==> counts(
                    ts.len(),
                ) && weighs(ts, |t: Table| Cell::Text(t.name@)) && weighs(
                    ts,
                    |t: Table| Cell::Text(t.table_type@),
                )
                &&& depth == ObjectDepth::All || depth == ObjectDepth::Columns ==> {
                    &&& counts(cols.len())
                    &&& weighs(cols, |c: Column| Cell::Text(c.name@))
                    &&& weighs(cols, |c: Column| Cell::Text(c.spanner_type@))
                    &&& weighs(cols, |c: Column| Cell::Text(yes_or_no(c.nullable)))
                    &&& counts(cons.len())
                    &&& weighs(cons, |c: Constraint| text_cell(c.name))
                    &&& weighs(cons, |c: Constraint| Cell::Text(c.constraint_type@))
                    &&& counts(keys.len())
                    &&& weighs(keys, |s: String| Cell::Text(s@))
                    &&& counts(uses.len())
                    &&& weighs(uses, |u: Usage| Cell::Text(u.db_schema@))
                    &&& weighs(uses, |u: Usage| Cell::Text(u.table@))
                    &&& weighs(uses, |u: Usage| Cell::Text(u.column@))
                }
            }
        }),
{
}

/// Parts are put one after the other, in order, and none is left out.
pub proof fn lemma_concatenation<T>(parts: Seq<Seq<T>>, part: Seq<T>, i: int, k: int)
    ensures
        concat(Seq::<Seq<T>>::empty()) == Seq::<T>::empty(),
        concat(parts.push(part)) == concat(parts) + part,
        concat(seq![part]) == part,
        0 <= i < parts.len() && 0 <= k < parts[i].len() ==> concat(parts).contains(parts[i][k]),
    decreases parts.len(),
{
    assert(parts.push(part).drop_last() =~= parts);
    assert(seq![part].drop_last() =~= Seq::<Seq<T>>::empty());
    assert(concat(Seq::<Seq<T>>::empty()) + part =~= part);
    if 0 <= i < parts.len() && 0 <= k < parts[i].len() {
        let n = parts.len() - 1;
        let front = concat(parts.drop_last());
        if i < n {
            lemma_concatenation(parts.drop_last(), part, i, k);
            assert(parts.drop_last()[i] == parts[i]);
            let at = choose|at: int| 0 <= at < front.len() && front[at] == parts[i][k];
            assert(concat(parts)[at] == parts[i][k]);
        } else {
            assert(concat(parts)[front.len() + k] == parts[i][k]);
        }
    }
}

/// Items are cut into lists of the lengths given, from the front and in order; a list that is marked
/// invalid is NULL, and its items are passed over.
pub proof fn lemma_lists_are_cut(
    parts: Seq<Seq<Cell>>,
    lengths: Seq<usize>,
    validity: Option<Vec<bool>>,
    i: int,
)
    requires
        lengths_are(lengths, parts),
        0 <= i < parts.len(),
        validity matches Some(v) ==> v@.len() == parts.len(),
    ensures
        grouped(lengths, validity, concat(parts)).len() == parts.len(),
        validity is None ==> grouped(lengths, validity, concat(parts))[i] == Cell::List(parts[i]),
        validity matches Some(v) ==> grouped(lengths, validity, concat(parts))[i] == (if v@[i] {
            Cell::List(parts[i])
        } else {
            Cell::Null
        }),
{
    crate::nested::lemma_grouped_concat(parts, lengths, validity);
}

// ---------------------------------------------------------------------------------------------
// Bound values
// ---------------------------------------------------------------------------------------------

/// A bad layout is reported before any column, and of several bad columns the first, by its name.
pub proof fn lemma_first_bad_column(
    names: Seq<Seq<char>>,
    columns: Seq<Option<Seq<char>>>,
    words: Seq<char>,
    i: int,
)
    requires
        0 <= i < columns.len(),
        i < names.len(),
        columns[i] is Some,
        forall|k: int| 0 <= k < i ==> (#[trigger] columns[k]) is None,
    ensures
        imported_complaint(names, Some(words), columns) == Some(
            "the top-level struct is invalid: "@ + words,
        ),
        imported_complaint(names, None, columns) == Some(
            "column "@ + debug_text(names[i]) + " is invalid: "@ + columns[i]->Some_0,
        ),
{
    lemma_first_bad_column_from(names, columns, 0, i);
}

proof fn lemma_first_bad_column_from(
    names: Seq<Seq<char>>,
    columns: Seq<Option<Seq<char>>>,
    from: int,
    i: int,
)
    requires
        0 <= from <= i < columns.len(),
        i < names.len(),
        columns[i] is Some,
        forall|k: int| 0 <= k < i ==> (#[trigger] columns[k]) is None,
    ensures
        crate::bound::columns_complaint(names, columns, from) == Some(
            "column "@ + debug_text(names[i]) + " is invalid: "@ + columns[i]->Some_0,
        ),
    decreases i - from,
{
    if from < i {
        assert(columns[from] is None);
        lemma_first_bad_column_from(names, columns, from + 1, i);
    }
}

/// Values are bound exactly if they are rows of columns, sound, and none of them NULL as a whole;
/// batches of a stream are accepted on the same two last conditions.
pub proof fn lemma_accepted_values(
    fields: Option<Seq<Seq<char>>>,
    type_text: Seq<char>,
    complaint: Option<Seq<char>>,
    nulls: usize,
)
    ensures
        bind_complaint(fields, type_text, complaint, nulls) is None <==> fields is Some && complaint
            is None && nulls == 0,
        fields is None ==> bind_complaint(fields, type_text, complaint, nulls) == Some(
            "bind values must be a struct array, not "@ + type_text,
        ),
        fields is Some && complaint is Some ==> bind_complaint(fields, type_text, complaint, nulls)
            == Some("bind values are not a valid Arrow array: "@ + complaint->Some_0),
        batch_complaint(complaint, nulls) is None <==> complaint is None && nulls == 0,
        complaint is Some ==> batch_complaint(complaint, nulls) == Some(
            "bound stream returned an invalid Arrow array: "@ + complaint->Some_0,
        ),
{
}

/// A structure is taken over exactly if it is live, and a stream exactly if it is live and has all
/// its callbacks; what is missing is reported in the order release, schema, next, last error.
pub proof fn lemma_taken_over(name: Seq<char>, handed: Handed, table: Option<StreamTable>)
    ensures
        handed_complaint(name, handed) is None <==> handed == Handed::Live,
        handed_complaint(name, Handed::Null) == Some(name + " must not be null"@),
        handed_complaint(name, Handed::Released) == Some(name + " has already been released"@),
        table_complaint(table) is None <==> (table matches Some(t) && t.release && t.get_schema
            && t.get_next && t.get_last_error),
        table is None ==> table_complaint(table) == Some("stream must not be null"@),
        table matches Some(t) ==> {
            &&& !t.release ==> table_complaint(table) == Some("stream has already been released"@)
            &&& t.release && !t.get_schema ==> table_complaint(table) == Some(
                "stream is missing its get_schema callback"@,
            )
            &&& t.release && t.get_schema && !t.get_next ==> table_complaint(table) == Some(
                "stream is missing its get_next callback"@,
            )
            &&& t.release && t.get_schema && t.get_next && !t.get_last_error ==> table_complaint(
                table,
            ) == Some("stream is missing its get_last_error callback"@)
        },
{
}

/// A schema is accepted exactly if its callback succeeded and left a live one that can be read.
pub proof fn lemma_accepted_schemas(reply: SchemaReply)
    ensures
        schema_complaint(reply) is None <==> reply.code == 0 && !reply.released && reply.fields
            is Ok,
        reply.code == 0 && reply.released ==> schema_complaint(reply) == Some(
            "bound stream get_schema returned a released schema"@,
        ),
        reply.code == 0 && !reply.released && reply.fields is Err ==> schema_complaint(reply)
            == Some("bound stream returned an invalid schema: "@ + reply.fields->Err_0@),
{
}

/// A batch is imported exactly if the stream is not finished and its callback succeeded and left a
/// live array of as many columns as the schema has. A released one is the end; everything else is a
/// failure, and all but an import finishes the stream.
pub proof fn lemma_pulling(finished: bool, declared: nat, reply: NextReply)
    ensures
        pulled_as(finished, declared, reply) is Import <==> !finished && reply.code == 0
            && !reply.released && reply.columns == declared,
        pulled_as(finished, declared, reply) is End <==> finished || (reply.code == 0
            && reply.released),
        finished_after(finished, declared, StreamStep::Pulled(reply)) <==> !(pulled_as(
            finished,
            declared,
            reply,
        ) is Import),
        finished_after(finished, declared, StreamStep::Failed),
        forall|complaint: Option<Seq<char>>, nulls: usize| #[trigger]
            finished_after(finished, declared, StreamStep::Judged { complaint, nulls })
                <==> finished || complaint is Some || nulls > 0,
{
}

/// How wide the offsets, ranges and views of each type are: 4 bytes for the types of 32-bit offsets,
/// 8 for the large ones, 16 for views. A buffer that holds anything but whole ones is not read; one
/// that is not there is.
pub proof fn lemma_widths(n: usize, m: usize)
    ensures
        is_readable_variable(VariableType::Utf8, seq![n]) <==> n % 4 == 0,
        is_readable_variable(VariableType::Binary, seq![n]) <==> n % 4 == 0,
        is_readable_variable(VariableType::List, seq![n]) <==> n % 4 == 0,
        is_readable_variable(VariableType::Entries, seq![n]) <==> n % 4 == 0,
        is_readable_variable(VariableType::LargeUtf8, seq![n]) <==> n % 8 == 0,
        is_readable_variable(VariableType::LargeBinary, seq![n]) <==> n % 8 == 0,
        is_readable_variable(VariableType::LargeList, seq![n]) <==> n % 8 == 0,
        is_readable_variable(VariableType::ListView, seq![n, m]) <==> n % 4 == 0 && m % 4 == 0,
        usize::MAX > u32::MAX ==> (is_readable_variable(VariableType::LargeListView, seq![n, m])
            <==> n % 8 == 0 && m % 8 == 0),
        usize::MAX > u32::MAX ==> (is_readable_variable(VariableType::Utf8View, seq![n]) <==> n % 16
            == 0),
        usize::MAX > u32::MAX ==> (is_readable_variable(VariableType::BinaryView, seq![n]) <==> n
            % 16 == 0),
        is_readable_variable(VariableType::Utf8, Seq::empty()),
        is_readable_variable(VariableType::Other, seq![n, m]),
        is_readable_sized(SizedType::DenseUnion, 0, 0, seq![n, m]) <==> m % 4 == 0,
{
}

/// Which sizes can be computed with: a width that is not negative, and a number of items that a size
/// can hold. Keys out of a dictionary of their own are never read.
pub proof fn lemma_sizes(n: i32, len: usize, offset: usize, lengths: Seq<usize>, width: usize)
    requires
        width > 0,
    ensures
        is_readable_sized(SizedType::FixedSizeBinary(n), len, offset, lengths) <==> n >= 0,
        n >= 0 && len + offset <= usize::MAX ==> (is_readable_sized(
            SizedType::FixedSizeList(n),
            len,
            offset,
            lengths,
        ) <==> (len + offset) * n <= usize::MAX),
        is_readable_sized(SizedType::Other, len, offset, lengths),
        is_readable_indexing(Indexing::Keys(Some(width)), seq![len], None) <==> len % width == 0,
        is_readable_indexing(Indexing::Runs(Some(width)), lengths, Some(seq![len])) <==> len % width
            == 0,
        is_readable_indexing(Indexing::BinaryKeys(n), lengths, None) <==> n >= 0,
        !is_readable_indexing(Indexing::NestedKeys, lengths, None),
        is_readable_indexing(Indexing::Direct, lengths, None),
{
}

/// A failed callback is reported by its name, its code and what the producer says of it, or that it
/// says nothing.
pub proof fn lemma_stream_failures(callback: Seq<char>, code: i32, words: Seq<char>)
    ensures
        stream_failure(callback, code, Some(words)) == "bound Arrow C stream "@ + callback
            + " failed with error code "@ + signed_decimal(code as int) + ": "@ + words,
        stream_failure(callback, code, None) == stream_failure(
            callback,
            code,
            Some("producer supplied no error description"@),
        ),
{
}

} // verus!
