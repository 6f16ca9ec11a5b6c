//! The nested result of `get_objects`: catalog → list of db schemas → list of tables → lists of
//! columns and constraints.
//!
//! A Spanner database is a single, unnamed catalog. List levels strictly below the requested depth
//! are NULL; a list at or above it is never NULL, however few entries a filter left in it.

use arrow_data::ArrayData;
use vstd::prelude::*;
use vstd::utf8::encode_utf8;

use crate::arrow::{
    are_arrays, are_struct_columns, array_cells, array_type, arrow_field, columns_type,
    constraints_type, db_schemas_type, int32_array, int32_cell, is_array, is_valid, null_array,
    objects_batch, objects_rows, objects_type, struct_array, struct_cell, struct_type, tables_type,
    text_cell, text_cells, usages_type, utf8_total, ArrowField, ArrowType, Cell, NullType,
    StructColumn,
};
use crate::error::{fails, internal, Error, Status};
use crate::nested::{
    arrow_err, concat, grouped, lemma_concat_len, lemma_concat_map, lemma_grouped_concat,
    lemma_total_of_push, lengths_are, list_of, list_of_nullable, list_range_message, text_column,
    text_range_message, texts_fit, total_of,
};
use crate::text::eq_str;

verus! {

/// How deep a `get_objects` result goes.
#[derive(Debug, Clone, Copy, PartialEq, Eq, Structural)]
pub enum ObjectDepth {
    All,
    Catalogs,
    Schemas,
    Tables,
    Columns,
}

/// A column of a table.
pub struct Column {
    pub name: String,
    pub ordinal: i32,
    pub nullable: bool,
    /// The Spanner type, such as `STRING(MAX)`.
    pub spanner_type: String,
}

/// A column that a foreign key refers to.
pub struct Usage {
    pub db_schema: String,
    pub table: String,
    pub column: String,
}

/// A constraint of a table.
pub struct Constraint {
    pub name: Option<String>,
    /// `PRIMARY KEY`, `FOREIGN KEY`, `UNIQUE` or `CHECK`.
    pub constraint_type: String,
    /// The key columns, in key order.
    pub columns: Vec<String>,
    /// The columns that a foreign key refers to, in the order of `columns`.
    pub usages: Vec<Usage>,
}

/// A table with its columns and constraints.
pub struct Table {
    pub name: String,
    pub table_type: String,
    pub columns: Vec<Column>,
    pub constraints: Vec<Constraint>,
}

/// A db schema with its tables.
pub struct DbSchema {
    pub name: String,
    pub tables: Vec<Table>,
}

impl ObjectDepth {
    /// Whether the result goes down to the db schemas.
    pub open spec fn has_schemas(self) -> bool {
        self != ObjectDepth::Catalogs
    }

    /// Whether the result goes down to the tables.
    pub open spec fn has_tables(self) -> bool {
        self == ObjectDepth::All || self == ObjectDepth::Tables || self == ObjectDepth::Columns
    }

    /// Whether the result goes down to the columns and constraints.
    pub open spec fn has_columns(self) -> bool {
        self == ObjectDepth::All || self == ObjectDepth::Columns
    }

    pub fn populates_schemas(self) -> (r: bool)
        ensures
            r == self.has_schemas(),
    {
        self != ObjectDepth::Catalogs
    }

    pub fn populates_tables(self) -> (r: bool)
        ensures
            r == self.has_tables(),
    {
        self == ObjectDepth::All || self == ObjectDepth::Tables || self == ObjectDepth::Columns
    }

    pub fn populates_columns(self) -> (r: bool)
        ensures
            r == self.has_columns(),
    {
        self == ObjectDepth::All || self == ObjectDepth::Columns
    }
}

// ---------------------------------------------------------------------------------------------
// What the result holds
// ---------------------------------------------------------------------------------------------

/// A list of cells, or NULL where the level is not asked for.
pub open spec fn list_or_null(present: bool, cells: Seq<Cell>) -> Cell {
    if present {
        Cell::List(cells)
    } else {
        Cell::Null
    }
}

pub open spec fn yes_or_no(b: bool) -> Seq<char> {
    if b {
        "YES"@
    } else {
        "NO"@
    }
}

pub open spec fn column_cell(c: Column) -> Cell {
    Cell::Struct(
        seq![
            ("column_name"@, Cell::Text(c.name@)),
            ("ordinal_position"@, Cell::Int(c.ordinal as int)),
            ("remarks"@, Cell::Null),
            ("xdbc_data_type"@, Cell::Null),
            ("xdbc_type_name"@, Cell::Text(c.spanner_type@)),
            ("xdbc_column_size"@, Cell::Null),
            ("xdbc_decimal_digits"@, Cell::Null),
            ("xdbc_num_prec_radix"@, Cell::Null),
            ("xdbc_nullable"@, Cell::Null),
            ("xdbc_column_def"@, Cell::Null),
            ("xdbc_sql_data_type"@, Cell::Null),
            ("xdbc_datetime_sub"@, Cell::Null),
            ("xdbc_char_octet_length"@, Cell::Null),
            ("xdbc_is_nullable"@, Cell::Text(yes_or_no(c.nullable))),
            ("xdbc_scope_catalog"@, Cell::Null),
            ("xdbc_scope_schema"@, Cell::Null),
            ("xdbc_scope_table"@, Cell::Null),
            ("xdbc_is_autoincrement"@, Cell::Null),
            ("xdbc_is_generatedcolumn"@, Cell::Null),
        ],
    )
}

pub open spec fn usage_cell(u: Usage) -> Cell {
    Cell::Struct(
        seq![
            ("fk_catalog"@, Cell::Text(""@)),
            ("fk_db_schema"@, Cell::Text(u.db_schema@)),
            ("fk_table"@, Cell::Text(u.table@)),
            ("fk_column_name"@, Cell::Text(u.column@)),
        ],
    )
}

/// Only foreign keys carry a usage list; for every other constraint it is NULL.
pub open spec fn is_foreign_key(c: Constraint) -> bool {
    c.constraint_type@ == "FOREIGN KEY"@
}

pub open spec fn constraint_cell(c: Constraint) -> Cell {
    Cell::Struct(
        seq![
            ("constraint_name"@, text_cell(c.name)),
            ("constraint_type"@, Cell::Text(c.constraint_type@)),
            (
                "constraint_column_names"@,
                Cell::List(c.columns@.map_values(|s: String| Cell::Text(s@))),
            ),
            (
                "constraint_column_usage"@,
                list_or_null(is_foreign_key(c), c.usages@.map_values(|u: Usage| usage_cell(u))),
            ),
        ],
    )
}

pub open spec fn table_cell(t: Table, depth: ObjectDepth) -> Cell {
    Cell::Struct(
        seq![
            ("table_name"@, Cell::Text(t.name@)),
            ("table_type"@, Cell::Text(t.table_type@)),
            (
                "table_columns"@,
                list_or_null(
                    depth.has_columns(),
                    t.columns@.map_values(|c: Column| column_cell(c)),
                ),
            ),
            (
                "table_constraints"@,
                list_or_null(
                    depth.has_columns(),
                    t.constraints@.map_values(|c: Constraint| constraint_cell(c)),
                ),
            ),
        ],
    )
}

pub open spec fn db_schema_cell(s: DbSchema, depth: ObjectDepth) -> Cell {
    Cell::Struct(
        seq![
            ("db_schema_name"@, Cell::Text(s.name@)),
            (
                "db_schema_tables"@,
                list_or_null(
                    depth.has_tables(),
                    s.tables@.map_values(|t: Table| table_cell(t, depth)),
                ),
            ),
        ],
    )
}

/// The one row of the result: the unnamed catalog with its db schemas.
pub open spec fn catalog_cell(schemas: Seq<DbSchema>, depth: ObjectDepth) -> Cell {
    Cell::Struct(
        seq![
            ("catalog_name"@, Cell::Text(""@)),
            (
                "catalog_db_schemas"@,
                list_or_null(
                    depth.has_schemas(),
                    schemas.map_values(|s: DbSchema| db_schema_cell(s, depth)),
                ),
            ),
        ],
    )
}

// ---------------------------------------------------------------------------------------------
// What fits Arrow's 32-bit offsets
// ---------------------------------------------------------------------------------------------

/// The first of two complaints.
pub open spec fn first_of(a: Option<Seq<char>>, b: Option<Seq<char>>) -> Option<Seq<char>> {
    if a is Some {
        a
    } else {
        b
    }
}

/// Why so many entries do not fit one list array.
pub open spec fn count_complaint(n: nat) -> Option<Seq<char>> {
    if n <= i32::MAX {
        None
    } else {
        Some(list_range_message())
    }
}

/// Why texts do not fit one text array.
pub open spec fn texts_complaint(cells: Seq<Cell>) -> Option<Seq<char>> {
    if texts_fit(cells) {
        None
    } else {
        Some(text_range_message())
    }
}

pub open spec fn usages_complaint(us: Seq<Usage>) -> Option<Seq<char>> {
    first_of(
        count_complaint(us.len()),
        first_of(
            texts_complaint(us.map_values(|u: Usage| Cell::Text(u.db_schema@))),
            first_of(
                texts_complaint(us.map_values(|u: Usage| Cell::Text(u.table@))),
                texts_complaint(us.map_values(|u: Usage| Cell::Text(u.column@))),
            ),
        ),
    )
}

pub open spec fn columns_complaint(cs: Seq<Column>) -> Option<Seq<char>> {
    first_of(
        count_complaint(cs.len()),
        first_of(
            texts_complaint(cs.map_values(|c: Column| Cell::Text(c.name@))),
            first_of(
                texts_complaint(cs.map_values(|c: Column| Cell::Text(c.spanner_type@))),
                texts_complaint(cs.map_values(|c: Column| Cell::Text(yes_or_no(c.nullable)))),
            ),
        ),
    )
}

/// The key columns of all constraints, one after the other.
pub open spec fn all_key_columns(cs: Seq<Constraint>) -> Seq<String> {
    concat(cs.map_values(|c: Constraint| c.columns@))
}

/// The usages of all constraints, one after the other.
pub open spec fn all_usages(cs: Seq<Constraint>) -> Seq<Usage> {
    concat(cs.map_values(|c: Constraint| c.usages@))
}

pub open spec fn constraints_complaint(cs: Seq<Constraint>) -> Option<Seq<char>> {
    first_of(
        count_complaint(cs.len()),
        first_of(
            texts_complaint(cs.map_values(|c: Constraint| text_cell(c.name))),
            first_of(
                texts_complaint(cs.map_values(|c: Constraint| Cell::Text(c.constraint_type@))),
                first_of(
                    texts_complaint(all_key_columns(cs).map_values(|s: String| Cell::Text(s@))),
                    first_of(
                        count_complaint(all_key_columns(cs).len()),
                        usages_complaint(all_usages(cs)),
                    ),
                ),
            ),
        ),
    )
}

/// The columns of all tables, one after the other.
pub open spec fn all_columns(ts: Seq<Table>) -> Seq<Column> {
    concat(ts.map_values(|t: Table| t.columns@))
}

/// The constraints of all tables, one after the other.
pub open spec fn all_constraints(ts: Seq<Table>) -> Seq<Constraint> {
    concat(ts.map_values(|t: Table| t.constraints@))
}

/// A complaint about what the result goes down to.
pub open spec fn down_to(reached: bool, complaint: Option<Seq<char>>) -> Option<Seq<char>> {
    if reached {
        complaint
    } else {
        None
    }
}

pub open spec fn tables_complaint(ts: Seq<Table>, depth: ObjectDepth) -> Option<Seq<char>> {
    first_of(
        count_complaint(ts.len()),
        first_of(
            texts_complaint(ts.map_values(|t: Table| Cell::Text(t.name@))),
            first_of(
                texts_complaint(ts.map_values(|t: Table| Cell::Text(t.table_type@))),
                first_of(
                    down_to(depth.has_columns(), columns_complaint(all_columns(ts))),
                    down_to(depth.has_columns(), constraints_complaint(all_constraints(ts))),
                ),
            ),
        ),
    )
}

/// The tables of all db schemas, one after the other.
pub open spec fn all_tables(ss: Seq<DbSchema>) -> Seq<Table> {
    concat(ss.map_values(|s: DbSchema| s.tables@))
}

/// Why the result does not fit 32-bit offsets: the first of its lists and text columns that does not,
/// in the order in which they are built.
pub open spec fn objects_complaint(ss: Seq<DbSchema>, depth: ObjectDepth) -> Option<Seq<char>> {
    down_to(
        depth.has_schemas(),
        first_of(
            count_complaint(ss.len()),
            first_of(
                texts_complaint(ss.map_values(|s: DbSchema| Cell::Text(s.name@))),
                down_to(depth.has_tables(), tables_complaint(all_tables(ss), depth)),
            ),
        ),
    )
}

// ---------------------------------------------------------------------------------------------
// Building it
// ---------------------------------------------------------------------------------------------

/// The values behind a sequence of references.
pub open spec fn values_of<T>(refs: Seq<&T>) -> Seq<T> {
    refs.map_values(|r: &T| *r)
}

/// Whether a result failed exactly if there is a complaint, and then with it.
pub open spec fn built_unless<T>(r: Result<T, Error>, complaint: Option<Seq<char>>) -> bool {
    match complaint {
        Some(m) => fails(r, Status::Internal, m),
        None => r is Ok,
    }
}

/// Puts the columns of a struct together.
fn assemble(columns: Vec<StructColumn>) -> (r: Result<ArrayData, Error>)
    requires
        are_arrays(columns@),
    ensures
        r is Ok <==> are_struct_columns(columns@),
        r matches Ok(a) ==> {
            &&& array_cells(a) == Seq::new(
                array_cells(columns@[0].2).len(),
                |i: int| struct_cell(columns@, i),
            )
            &&& array_type(a) == struct_type(columns@)
            &&& is_array(a)
        },
{
    match struct_array(columns) {
        Ok(a) => Ok(a),
        Err(e) => Err(arrow_err(e)),
    }
}

fn too_long() -> (r: Error)
    ensures
        r.says(Status::Internal, list_range_message()),
{
    internal("metadata result list exceeds the i32 offset range".to_owned())
}

/// What `f` makes of each item.
fn mapped<'a, T, U, F: Fn(&'a T) -> U>(items: &Vec<&'a T>, f: F) -> (r: Vec<U>)
    requires
        forall|i: int| 0 <= i < items@.len() ==> call_requires(f, (#[trigger] items@[i],)),
    ensures
        r@.len() == items@.len(),
        forall|i: int|
            0 <= i < items@.len() ==> call_ensures(f, (items@[i],), #[trigger] r@[i]),
{
    let mut r: Vec<U> = Vec::new();
    let mut i: usize = 0;
    while i < items.len()
        invariant
            i <= items@.len(),
            r@.len() == i,
            forall|k: int| 0 <= k < items@.len() ==> call_requires(f, (#[trigger] items@[k],)),
            forall|k: int| 0 <= k < i ==> call_ensures(f, (items@[k],), #[trigger] r@[k]),
        decreases items@.len() - i,
    {
        r.push(f(items[i]));
        i = i + 1;
    }
    r
}

fn usage_schemas(items: &Vec<&Usage>) -> (r: Vec<Option<String>>)
    ensures
        text_cells(r@) == values_of(items@).map_values(|u: Usage| Cell::Text(u.db_schema@)),
{
    let pick = |u: &Usage| -> (x: Option<String>)
        ensures
            text_cell(x) == Cell::Text(u.db_schema@),
    {
        Some(u.db_schema.clone())
    };
    let r = mapped(items, pick);
    assert(text_cells(r@) =~= values_of(items@).map_values(|u: Usage| Cell::Text(u.db_schema@)));
    r
}

fn usage_tables(items: &Vec<&Usage>) -> (r: Vec<Option<String>>)
    ensures
        text_cells(r@) == values_of(items@).map_values(|u: Usage| Cell::Text(u.table@)),
{
    let pick = |u: &Usage| -> (x: Option<String>)
        ensures
            text_cell(x) == Cell::Text(u.table@),
    {
        Some(u.table.clone())
    };
    let r = mapped(items, pick);
    assert(text_cells(r@) =~= values_of(items@).map_values(|u: Usage| Cell::Text(u.table@)));
    r
}

fn usage_columns(items: &Vec<&Usage>) -> (r: Vec<Option<String>>)
    ensures
        text_cells(r@) == values_of(items@).map_values(|u: Usage| Cell::Text(u.column@)),
{
    let pick = |u: &Usage| -> (x: Option<String>)
        ensures
            text_cell(x) == Cell::Text(u.column@),
    {
        Some(u.column.clone())
    };
    let r = mapped(items, pick);
    assert(text_cells(r@) =~= values_of(items@).map_values(|u: Usage| Cell::Text(u.column@)));
    r
}

/// `n` empty texts.
fn empty_texts(n: usize) -> (r: Vec<Option<String>>)
    ensures
        text_cells(r@) == Seq::new(n as nat, |i: int| Cell::Text(""@)),
        texts_fit(text_cells(r@)),
{
    let mut r: Vec<Option<String>> = Vec::new();
    let mut i: usize = 0;
    while i < n
        invariant
            i <= n,
            r@.len() == i,
            forall|k: int| 0 <= k < i ==> text_cell(#[trigger] r@[k]) == Cell::Text(""@),
        decreases n - i,
    {
        r.push(Some("".to_owned()));
        i = i + 1;
    }
    assert(text_cells(r@) =~= Seq::new(n as nat, |i: int| Cell::Text(""@)));
    proof {
        lemma_empty_texts_fit(text_cells(r@));
    }
    r
}

proof fn lemma_empty_texts_fit(cells: Seq<Cell>)
    requires
        forall|k: int| 0 <= k < cells.len() ==> #[trigger] cells[k] == Cell::Text(""@),
    ensures
        utf8_total(cells) == 0,
    decreases cells.len(),
{
    if cells.len() > 0 {
        lemma_empty_texts_fit(cells.drop_last());
        assert(cells[cells.len() - 1] == Cell::Text(""@));
        reveal_strlit("");
        assert(""@ =~= Seq::<char>::empty());
        assert(encode_utf8(Seq::<char>::empty()).len() == 0);
    }
}

pub open spec fn usage_fields() -> Seq<ArrowField> {
    seq![
        arrow_field("fk_catalog"@, true, ArrowType::Utf8),
        arrow_field("fk_db_schema"@, true, ArrowType::Utf8),
        arrow_field("fk_table"@, false, ArrowType::Utf8),
        arrow_field("fk_column_name"@, false, ArrowType::Utf8),
    ]
}

/// The struct array of foreign-key usages.
fn build_usage_struct(usages: &Vec<&Usage>) -> (r: Result<ArrayData, Error>)
    ensures
        built_unless(r, usages_complaint(values_of(usages@))),
        r matches Ok(a) ==> {
            &&& array_cells(a) == values_of(usages@).map_values(|u: Usage| usage_cell(u))
            &&& array_type(a) == ArrowType::Struct(usage_fields())
            &&& is_array(a)
        },
{
    let n: usize = usages.len();
    if n > 0x7fff_ffff {
        return Err(too_long());
    }
    let catalogs = match text_column(empty_texts(n)) {
        Ok(a) => a,
        Err(e) => {
            return Err(e);
        },
    };
    let schemas = match text_column(usage_schemas(usages)) {
        Ok(a) => a,
        Err(e) => {
            return Err(e);
        },
    };
    let tables = match text_column(usage_tables(usages)) {
        Ok(a) => a,
        Err(e) => {
            return Err(e);
        },
    };
    let columns = match text_column(usage_columns(usages)) {
        Ok(a) => a,
        Err(e) => {
            return Err(e);
        },
    };
    let mut parts: Vec<StructColumn> = Vec::new();
    parts.push(("fk_catalog".to_owned(), true, catalogs));
    parts.push(("fk_db_schema".to_owned(), true, schemas));
    parts.push(("fk_table".to_owned(), false, tables));
    parts.push(("fk_column_name".to_owned(), false, columns));
    proof {
        let us = values_of(usages@);
        assert(are_struct_columns(parts@));
        assert forall|i: int| 0 <= i < n implies #[trigger] struct_cell(parts@, i) == usage_cell(
            us[i],
        ) by {
            assert(Seq::new(
                parts@.len(),
                |k: int| (parts@[k].0@, array_cells(parts@[k].2)[i]),
            ) =~= seq![
                ("fk_catalog"@, Cell::Text(""@)),
                ("fk_db_schema"@, Cell::Text(us[i].db_schema@)),
                ("fk_table"@, Cell::Text(us[i].table@)),
                ("fk_column_name"@, Cell::Text(us[i].column@)),
            ]);
        }
        assert(Seq::new(n as nat, |i: int| struct_cell(parts@, i)) =~= us.map_values(
            |u: Usage| usage_cell(u),
        ));
        assert(struct_type(parts@) == ArrowType::Struct(usage_fields())) by {
            assert(Seq::new(
                parts@.len(),
                |k: int|
                    ArrowField {
                        name: parts@[k].0@,
                        nullable: parts@[k].1,
                        data_type: array_type(parts@[k].2),
                    },
            ) =~= usage_fields());
        }
    }
    assemble(parts)
}

/// The sequences behind a sequence of references to vectors.
pub open spec fn parts_of<T>(parts: Seq<&Vec<T>>) -> Seq<Seq<T>> {
    parts.map_values(|p: &Vec<T>| p@)
}

/// All items of all parts, in order.
fn flatten<'a, T>(parts: &Vec<&'a Vec<T>>) -> (r: Vec<&'a T>)
    ensures
        values_of(r@) == concat(parts_of(parts@)),
{
    let mut r: Vec<&'a T> = Vec::new();
    let mut i: usize = 0;
    assert(parts_of(parts@).take(0) =~= Seq::empty());
    assert(values_of(r@) =~= Seq::<T>::empty());
    while i < parts.len()
        invariant
            i <= parts@.len(),
            values_of(r@) == concat(parts_of(parts@).take(i as int)),
        decreases parts@.len() - i,
    {
        let part: &'a Vec<T> = parts[i];
        let ghost before = values_of(r@);
        let mut k: usize = 0;
        while k < part.len()
            invariant
                k <= part@.len(),
                values_of(r@) == before + part@.take(k as int),
            decreases part@.len() - k,
        {
            let ghost prior = r@;
            r.push(&part[k]);
            k = k + 1;
            assert(values_of(r@) =~= values_of(prior).push(part@[k - 1]));
            assert(part@.take(k as int) =~= part@.take(k - 1).push(part@[k - 1]));
            assert(values_of(r@) =~= before + part@.take(k as int));
        }
        proof {
            let taken = parts_of(parts@).take(i + 1);
            assert(taken.drop_last() =~= parts_of(parts@).take(i as int));
            assert(taken.last() == part@);
            assert(part@.take(k as int) =~= part@);
        }
        i = i + 1;
    }
    assert(parts_of(parts@).take(i as int) =~= parts_of(parts@));
    r
}

/// The lengths of the parts.
fn lengths_of<T>(parts: &Vec<&Vec<T>>) -> (r: Vec<usize>)
    ensures
        lengths_are(r@, parts_of(parts@)),
{
    let mut r: Vec<usize> = Vec::new();
    let mut i: usize = 0;
    while i < parts.len()
        invariant
            i <= parts@.len(),
            r@.len() == i,
            forall|k: int| 0 <= k < i ==> #[trigger] r@[k] == parts@[k]@.len(),
        decreases parts@.len() - i,
    {
        r.push(parts[i].len());
        i = i + 1;
    }
    r
}

/// One list per part, of the items' cells; NULL where `validity` says so.
fn list_parts<T>(
    parts: &Vec<&Vec<T>>,
    child: ArrayData,
    validity: Option<Vec<bool>>,
    Ghost(f): Ghost<spec_fn(T) -> Cell>,
) -> (r: Result<ArrayData, Error>)
    requires
        array_cells(child) == concat(parts_of(parts@)).map_values(f),
        is_array(child),
        validity matches Some(v) ==> v@.len() == parts@.len(),
    ensures
        built_unless(r, count_complaint(concat(parts_of(parts@)).len())),
        r matches Ok(a) ==> {
            &&& array_cells(a) == Seq::new(
                parts@.len(),
                |i: int| list_or_null(is_valid(validity, i), parts@[i]@.map_values(f)),
            )
            &&& array_type(a) == ArrowType::List(Box::new(array_type(child)))
            &&& is_array(a)
        },
{
    let lengths = lengths_of(parts);
    proof {
        let ps = parts_of(parts@);
        let cells = ps.map_values(|p: Seq<T>| p.map_values(f));
        lemma_concat_len(ps, lengths@);
        lemma_concat_map(ps, f);
        assert(lengths_are(lengths@, cells)) by {
            assert forall|i: int| 0 <= i < cells.len() implies #[trigger] lengths@[i]
                == cells[i].len() by {
                assert(cells[i] == ps[i].map_values(f));
            }
        }
        lemma_grouped_concat(cells, lengths@, validity);
        assert(grouped(lengths@, validity, array_cells(child)) =~= Seq::new(
            parts@.len(),
            |i: int| list_or_null(is_valid(validity, i), parts@[i]@.map_values(f)),
        ));
    }
    if validity.is_none() {
        list_of(&lengths, child)
    } else {
        list_of_nullable(&lengths, child, validity)
    }
}

fn key_columns_of<'a>(items: &Vec<&'a Constraint>) -> (r: Vec<&'a Vec<String>>)
    ensures
        parts_of(r@) == values_of(items@).map_values(|c: Constraint| c.columns@),
{
    let pick = |c: &'a Constraint| -> (x: &'a Vec<String>)
        ensures
            x@ == c.columns@,
    {
        &c.columns
    };
    let r = mapped(items, pick);
    assert(parts_of(r@) =~= values_of(items@).map_values(|c: Constraint| c.columns@));
    r
}

fn usages_of<'a>(items: &Vec<&'a Constraint>) -> (r: Vec<&'a Vec<Usage>>)
    ensures
        parts_of(r@) == values_of(items@).map_values(|c: Constraint| c.usages@),
{
    let pick = |c: &'a Constraint| -> (x: &'a Vec<Usage>)
        ensures
            x@ == c.usages@,
    {
        &c.usages
    };
    let r = mapped(items, pick);
    assert(parts_of(r@) =~= values_of(items@).map_values(|c: Constraint| c.usages@));
    r
}

fn columns_of<'a>(items: &Vec<&'a Table>) -> (r: Vec<&'a Vec<Column>>)
    ensures
        parts_of(r@) == values_of(items@).map_values(|t: Table| t.columns@),
{
    let pick = |t: &'a Table| -> (x: &'a Vec<Column>)
        ensures
            x@ == t.columns@,
    {
        &t.columns
    };
    let r = mapped(items, pick);
    assert(parts_of(r@) =~= values_of(items@).map_values(|t: Table| t.columns@));
    r
}

fn constraints_of<'a>(items: &Vec<&'a Table>) -> (r: Vec<&'a Vec<Constraint>>)
    ensures
        parts_of(r@) == values_of(items@).map_values(|t: Table| t.constraints@),
{
    let pick = |t: &'a Table| -> (x: &'a Vec<Constraint>)
        ensures
            x@ == t.constraints@,
    {
        &t.constraints
    };
    let r = mapped(items, pick);
    assert(parts_of(r@) =~= values_of(items@).map_values(|t: Table| t.constraints@));
    r
}

fn column_names(items: &Vec<&Column>) -> (r: Vec<Option<String>>)
    ensures
        text_cells(r@) == values_of(items@).map_values(|c: Column| Cell::Text(c.name@)),
{
    let pick = |c: &Column| -> (x: Option<String>)
        ensures
            text_cell(x) == Cell::Text(c.name@),
    {
        Some(c.name.clone())
    };
    let r = mapped(items, pick);
    assert(text_cells(r@) =~= values_of(items@).map_values(|c: Column| Cell::Text(c.name@)));
    r
}

fn column_types(items: &Vec<&Column>) -> (r: Vec<Option<String>>)
    ensures
        text_cells(r@) == values_of(items@).map_values(|c: Column| Cell::Text(c.spanner_type@)),
{
    let pick = |c: &Column| -> (x: Option<String>)
        ensures
            text_cell(x) == Cell::Text(c.spanner_type@),
    {
        Some(c.spanner_type.clone())
    };
    let r = mapped(items, pick);
    assert(text_cells(r@) =~= values_of(items@).map_values(|c: Column| Cell::Text(c.spanner_type@)));
    r
}

fn column_nullability(items: &Vec<&Column>) -> (r: Vec<Option<String>>)
    ensures
        text_cells(r@) == values_of(items@).map_values(|c: Column| Cell::Text(yes_or_no(c.nullable))),
{
    let pick = |c: &Column| -> (x: Option<String>)
        ensures
            text_cell(x) == Cell::Text(yes_or_no(c.nullable)),
    {
        Some(if c.nullable { "YES".to_owned() } else { "NO".to_owned() })
    };
    let r = mapped(items, pick);
    assert(text_cells(r@) =~= values_of(items@).map_values(|c: Column| Cell::Text(yes_or_no(c.nullable))));
    r
}

fn column_ordinals(items: &Vec<&Column>) -> (r: Vec<Option<i32>>)
    ensures
        r@.map_values(|v: Option<i32>| int32_cell(v)) == values_of(items@).map_values(
            |c: Column| Cell::Int(c.ordinal as int),
        ),
{
    let pick = |c: &Column| -> (x: Option<i32>)
        ensures
            x == Some(c.ordinal),
    {
        Some(c.ordinal)
    };
    let r = mapped(items, pick);
    assert(r@.map_values(|v: Option<i32>| int32_cell(v)) =~= values_of(items@).map_values(
        |c: Column| Cell::Int(c.ordinal as int),
    ));
    r
}

pub open spec fn column_fields() -> Seq<ArrowField> {
    seq![
        arrow_field("column_name"@, false, ArrowType::Utf8),
        arrow_field("ordinal_position"@, true, ArrowType::Int32),
        arrow_field("remarks"@, true, ArrowType::Utf8),
        arrow_field("xdbc_data_type"@, true, ArrowType::Int16),
        arrow_field("xdbc_type_name"@, true, ArrowType::Utf8),
        arrow_field("xdbc_column_size"@, true, ArrowType::Int32),
        arrow_field("xdbc_decimal_digits"@, true, ArrowType::Int16),
        arrow_field("xdbc_num_prec_radix"@, true, ArrowType::Int16),
        arrow_field("xdbc_nullable"@, true, ArrowType::Int16),
        arrow_field("xdbc_column_def"@, true, ArrowType::Utf8),
        arrow_field("xdbc_sql_data_type"@, true, ArrowType::Int16),
        arrow_field("xdbc_datetime_sub"@, true, ArrowType::Int16),
        arrow_field("xdbc_char_octet_length"@, true, ArrowType::Int32),
        arrow_field("xdbc_is_nullable"@, true, ArrowType::Utf8),
        arrow_field("xdbc_scope_catalog"@, true, ArrowType::Utf8),
        arrow_field("xdbc_scope_schema"@, true, ArrowType::Utf8),
        arrow_field("xdbc_scope_table"@, true, ArrowType::Utf8),
        arrow_field("xdbc_is_autoincrement"@, true, ArrowType::Boolean),
        arrow_field("xdbc_is_generatedcolumn"@, true, ArrowType::Boolean),
    ]
}

/// The struct array of columns. What the driver does not know of a column is NULL.
fn build_column_struct(columns: &Vec<&Column>) -> (r: Result<ArrayData, Error>)
    ensures
        built_unless(r, columns_complaint(values_of(columns@))),
        r matches Ok(a) ==> {
            &&& array_cells(a) == values_of(columns@).map_values(|c: Column| column_cell(c))
            &&& array_type(a) == ArrowType::Struct(column_fields())
            &&& is_array(a)
        },
{
    let n: usize = columns.len();
    if n > 0x7fff_ffff {
        return Err(too_long());
    }
    let names = match text_column(column_names(columns)) {
        Ok(a) => a,
        Err(e) => {
            return Err(e);
        },
    };
    let types = match text_column(column_types(columns)) {
        Ok(a) => a,
        Err(e) => {
            return Err(e);
        },
    };
    let nullability = match text_column(column_nullability(columns)) {
        Ok(a) => a,
        Err(e) => {
            return Err(e);
        },
    };
    let ordinals = int32_array(column_ordinals(columns));
    let mut parts: Vec<StructColumn> = Vec::new();
    parts.push(("column_name".to_owned(), false, names));
    parts.push(("ordinal_position".to_owned(), true, ordinals));
    parts.push(("remarks".to_owned(), true, null_array(NullType::Utf8, n)));
    parts.push(("xdbc_data_type".to_owned(), true, null_array(NullType::Int16, n)));
    parts.push(("xdbc_type_name".to_owned(), true, types));
    parts.push(("xdbc_column_size".to_owned(), true, null_array(NullType::Int32, n)));
    parts.push(("xdbc_decimal_digits".to_owned(), true, null_array(NullType::Int16, n)));
    parts.push(("xdbc_num_prec_radix".to_owned(), true, null_array(NullType::Int16, n)));
    parts.push(("xdbc_nullable".to_owned(), true, null_array(NullType::Int16, n)));
    parts.push(("xdbc_column_def".to_owned(), true, null_array(NullType::Utf8, n)));
    parts.push(("xdbc_sql_data_type".to_owned(), true, null_array(NullType::Int16, n)));
    parts.push(("xdbc_datetime_sub".to_owned(), true, null_array(NullType::Int16, n)));
    parts.push(("xdbc_char_octet_length".to_owned(), true, null_array(NullType::Int32, n)));
    parts.push(("xdbc_is_nullable".to_owned(), true, nullability));
    parts.push(("xdbc_scope_catalog".to_owned(), true, null_array(NullType::Utf8, n)));
    parts.push(("xdbc_scope_schema".to_owned(), true, null_array(NullType::Utf8, n)));
    parts.push(("xdbc_scope_table".to_owned(), true, null_array(NullType::Utf8, n)));
    parts.push(("xdbc_is_autoincrement".to_owned(), true, null_array(NullType::Boolean, n)));
    parts.push(("xdbc_is_generatedcolumn".to_owned(), true, null_array(NullType::Boolean, n)));
    proof {
        let cs = values_of(columns@);
        assert(are_struct_columns(parts@));
        assert forall|i: int| 0 <= i < n implies #[trigger] struct_cell(parts@, i) == column_cell(
            cs[i],
        ) by {
            assert(Seq::new(
                parts@.len(),
                |k: int| (parts@[k].0@, array_cells(parts@[k].2)[i]),
            ) =~= column_cell(cs[i])->Struct_0);
        }
        assert(Seq::new(n as nat, |i: int| struct_cell(parts@, i)) =~= cs.map_values(
            |c: Column| column_cell(c),
        ));
        assert(Seq::new(
            parts@.len(),
            |k: int|
                ArrowField {
                    name: parts@[k].0@,
                    nullable: parts@[k].1,
                    data_type: array_type(parts@[k].2),
                },
        ) =~= column_fields());
    }
    assemble(parts)
}

fn constraint_names(items: &Vec<&Constraint>) -> (r: Vec<Option<String>>)
    ensures
        text_cells(r@) == values_of(items@).map_values(|c: Constraint| text_cell(c.name)),
{
    let pick = |c: &Constraint| -> (x: Option<String>)
        ensures
            text_cell(x) == text_cell(c.name),
    {
        c.name.clone()
    };
    let r = mapped(items, pick);
    assert(text_cells(r@) =~= values_of(items@).map_values(|c: Constraint| text_cell(c.name)));
    r
}

fn constraint_types(items: &Vec<&Constraint>) -> (r: Vec<Option<String>>)
    ensures
        text_cells(r@) == values_of(items@).map_values(|c: Constraint| Cell::Text(c.constraint_type@)),
{
    let pick = |c: &Constraint| -> (x: Option<String>)
        ensures
            text_cell(x) == Cell::Text(c.constraint_type@),
    {
        Some(c.constraint_type.clone())
    };
    let r = mapped(items, pick);
    assert(text_cells(r@) =~= values_of(items@).map_values(|c: Constraint| Cell::Text(c.constraint_type@)));
    r
}

fn key_column_texts(items: &Vec<&String>) -> (r: Vec<Option<String>>)
    ensures
        text_cells(r@) == values_of(items@).map_values(|s: String| Cell::Text(s@)),
{
    let pick = |s: &String| -> (x: Option<String>)
        ensures
            text_cell(x) == Cell::Text(s@),
    {
        Some(s.clone())
    };
    let r = mapped(items, pick);
    assert(text_cells(r@) =~= values_of(items@).map_values(|s: String| Cell::Text(s@)));
    r
}

/// Which constraints are foreign keys.
fn foreign_keys(items: &Vec<&Constraint>) -> (r: Vec<bool>)
    ensures
        r@ == values_of(items@).map_values(|c: Constraint| is_foreign_key(c)),
{
    let pick = |c: &Constraint| -> (x: bool)
        ensures
            x == is_foreign_key(*c),
    {
        eq_str(c.constraint_type.as_str(), "FOREIGN KEY")
    };
    let r = mapped(items, pick);
    assert(r@ =~= values_of(items@).map_values(|c: Constraint| is_foreign_key(c)));
    r
}

pub open spec fn constraint_fields() -> Seq<ArrowField> {
    seq![
        arrow_field("constraint_name"@, true, ArrowType::Utf8),
        arrow_field("constraint_type"@, false, ArrowType::Utf8),
        arrow_field(
            "constraint_column_names"@,
            false,
            ArrowType::List(Box::new(ArrowType::Utf8)),
        ),
        arrow_field(
            "constraint_column_usage"@,
            true,
            ArrowType::List(Box::new(ArrowType::Struct(usage_fields()))),
        ),
    ]
}

/// The struct array of constraints: name, type, key columns, and the columns a foreign key refers
/// to, NULL for every other constraint.
fn build_constraint_struct(constraints: &Vec<&Constraint>) -> (r: Result<ArrayData, Error>)
    ensures
        built_unless(r, constraints_complaint(values_of(constraints@))),
        r matches Ok(a) ==> {
            &&& array_cells(a) == values_of(constraints@).map_values(
                |c: Constraint| constraint_cell(c),
            )
            &&& array_type(a) == ArrowType::Struct(constraint_fields())
            &&& is_array(a)
        },
{
    let n: usize = constraints.len();
    if n > 0x7fff_ffff {
        return Err(too_long());
    }
    let ghost cs = values_of(constraints@);
    let names = match text_column(constraint_names(constraints)) {
        Ok(a) => a,
        Err(e) => {
            return Err(e);
        },
    };
    let types = match text_column(constraint_types(constraints)) {
        Ok(a) => a,
        Err(e) => {
            return Err(e);
        },
    };
    let key_parts = key_columns_of(constraints);
    let key_items = flatten(&key_parts);
    let key_child = match text_column(key_column_texts(&key_items)) {
        Ok(a) => a,
        Err(e) => {
            return Err(e);
        },
    };
    let ghost key_f = |s: String| Cell::Text(s@);
    let keys = match list_parts(&key_parts, key_child, None, Ghost(key_f)) {
        Ok(a) => a,
        Err(e) => {
            return Err(e);
        },
    };
    let usage_parts = usages_of(constraints);
    let usage_items = flatten(&usage_parts);
    let usage_child = match build_usage_struct(&usage_items) {
        Ok(a) => a,
        Err(e) => {
            return Err(e);
        },
    };
    let ghost usage_f = |u: Usage| usage_cell(u);
    let marks = foreign_keys(constraints);
    let usages = match list_parts(&usage_parts, usage_child, Some(marks), Ghost(usage_f)) {
        Ok(a) => a,
        Err(e) => {
            return Err(e);
        },
    };
    let mut parts: Vec<StructColumn> = Vec::new();
    parts.push(("constraint_name".to_owned(), true, names));
    parts.push(("constraint_type".to_owned(), false, types));
    parts.push(("constraint_column_names".to_owned(), false, keys));
    parts.push(("constraint_column_usage".to_owned(), true, usages));
    proof {
        assert forall|i: int| 0 <= i < n implies {
            &&& #[trigger] array_cells(keys)[i] == Cell::List(
                cs[i].columns@.map_values(|s: String| Cell::Text(s@)),
            )
            &&& array_cells(usages)[i] == list_or_null(
                is_foreign_key(cs[i]),
                cs[i].usages@.map_values(|u: Usage| usage_cell(u)),
            )
        } by {
            assert(parts_of(key_parts@)[i] == cs[i].columns@);
            assert(parts_of(usage_parts@)[i] == cs[i].usages@);
            assert(marks@[i] == is_foreign_key(cs[i]));
        }
        assert(are_struct_columns(parts@));
        assert forall|i: int| 0 <= i < n implies #[trigger] struct_cell(parts@, i)
            == constraint_cell(cs[i]) by {
            assert(array_cells(keys)[i] == Cell::List(
                cs[i].columns@.map_values(|s: String| Cell::Text(s@)),
            ));
            assert(Seq::new(
                parts@.len(),
                |k: int| (parts@[k].0@, array_cells(parts@[k].2)[i]),
            ) =~= constraint_cell(cs[i])->Struct_0);
        }
        assert(Seq::new(n as nat, |i: int| struct_cell(parts@, i)) =~= cs.map_values(
            |c: Constraint| constraint_cell(c),
        ));
        assert(Seq::new(
            parts@.len(),
            |k: int|
                ArrowField {
                    name: parts@[k].0@,
                    nullable: parts@[k].1,
                    data_type: array_type(parts@[k].2),
                },
        ) =~= constraint_fields());
    }
    assemble(parts)
}

fn table_names(items: &Vec<&Table>) -> (r: Vec<Option<String>>)
    ensures
        text_cells(r@) == values_of(items@).map_values(|t: Table| Cell::Text(t.name@)),
{
    let pick = |t: &Table| -> (x: Option<String>)
        ensures
            text_cell(x) == Cell::Text(t.name@),
    {
        Some(t.name.clone())
    };
    let r = mapped(items, pick);
    assert(text_cells(r@) =~= values_of(items@).map_values(|t: Table| Cell::Text(t.name@)));
    r
}

fn table_types(items: &Vec<&Table>) -> (r: Vec<Option<String>>)
    ensures
        text_cells(r@) == values_of(items@).map_values(|t: Table| Cell::Text(t.table_type@)),
{
    let pick = |t: &Table| -> (x: Option<String>)
        ensures
            text_cell(x) == Cell::Text(t.table_type@),
    {
        Some(t.table_type.clone())
    };
    let r = mapped(items, pick);
    assert(text_cells(r@) =~= values_of(items@).map_values(|t: Table| Cell::Text(t.table_type@)));
    r
}

fn schema_names(items: &Vec<&DbSchema>) -> (r: Vec<Option<String>>)
    ensures
        text_cells(r@) == values_of(items@).map_values(|s: DbSchema| Cell::Text(s.name@)),
{
    let pick = |s: &DbSchema| -> (x: Option<String>)
        ensures
            text_cell(x) == Cell::Text(s.name@),
    {
        Some(s.name.clone())
    };
    let r = mapped(items, pick);
    assert(text_cells(r@) =~= values_of(items@).map_values(|s: DbSchema| Cell::Text(s.name@)));
    r
}

fn tables_of<'a>(items: &Vec<&'a DbSchema>) -> (r: Vec<&'a Vec<Table>>)
    ensures
        parts_of(r@) == values_of(items@).map_values(|s: DbSchema| s.tables@),
{
    let pick = |s: &'a DbSchema| -> (x: &'a Vec<Table>)
        ensures
            x@ == s.tables@,
    {
        &s.tables
    };
    let r = mapped(items, pick);
    assert(parts_of(r@) =~= values_of(items@).map_values(|s: DbSchema| s.tables@));
    r
}

/// References to the items of a vector.
fn refs_to<T>(items: &Vec<T>) -> (r: Vec<&T>)
    ensures
        values_of(r@) == items@,
{
    let mut r: Vec<&T> = Vec::new();
    let mut i: usize = 0;
    while i < items.len()
        invariant
            i <= items@.len(),
            r@.len() == i,
            forall|k: int| 0 <= k < i ==> *#[trigger] r@[k] == items@[k],
        decreases items@.len() - i,
    {
        r.push(&items[i]);
        i = i + 1;
    }
    assert(values_of(r@) =~= items@);
    r
}

/// `n` NULL lists whose items would be those of `child`, which has none.
fn null_lists(n: usize, child: ArrayData) -> (r: Result<ArrayData, Error>)
    requires
        array_cells(child).len() == 0,
        is_array(child),
    ensures
        r is Ok,
        r matches Ok(a) ==> {
            &&& array_cells(a) == Seq::new(n as nat, |i: int| Cell::Null)
            &&& array_type(a) == ArrowType::List(Box::new(array_type(child)))
            &&& is_array(a)
        },
{
    let mut lengths: Vec<usize> = Vec::new();
    let mut marks: Vec<bool> = Vec::new();
    let mut i: usize = 0;
    while i < n
        invariant
            i <= n,
            lengths@.len() == i,
            marks@.len() == i,
            forall|k: int| 0 <= k < i ==> #[trigger] lengths@[k] == 0,
            forall|k: int| 0 <= k < i ==> !#[trigger] marks@[k],
            total_of(lengths@, i as int) == 0,
        decreases n - i,
    {
        let ghost before = lengths@;
        lengths.push(0);
        marks.push(false);
        proof {
            lemma_total_of_push(before, 0);
        }
        i = i + 1;
    }
    let ghost validity = Some(marks);
    assert(grouped(lengths@, validity, array_cells(child)) =~= Seq::new(
        n as nat,
        |i: int| Cell::Null,
    ));
    list_of_nullable(&lengths, child, Some(marks))
}

pub open spec fn table_fields() -> Seq<ArrowField> {
    seq![
        arrow_field("table_name"@, false, ArrowType::Utf8),
        arrow_field("table_type"@, false, ArrowType::Utf8),
        arrow_field(
            "table_columns"@,
            true,
            ArrowType::List(Box::new(ArrowType::Struct(column_fields()))),
        ),
        arrow_field(
            "table_constraints"@,
            true,
            ArrowType::List(Box::new(ArrowType::Struct(constraint_fields()))),
        ),
    ]
}

/// The lists of columns, one per table; NULL if the result does not go down to the columns.
fn build_table_columns(tables: &Vec<&Table>, depth: ObjectDepth) -> (r: Result<ArrayData, Error>)
    ensures
        built_unless(
            r,
            down_to(depth.has_columns(), columns_complaint(all_columns(values_of(tables@)))),
        ),
        r matches Ok(a) ==> {
            &&& array_cells(a) == values_of(tables@).map_values(
                |t: Table|
                    list_or_null(
                        depth.has_columns(),
                        t.columns@.map_values(|c: Column| column_cell(c)),
                    ),
            )
            &&& array_type(a) == ArrowType::List(Box::new(ArrowType::Struct(column_fields())))
            &&& is_array(a)
        },
{
    let ghost ts = values_of(tables@);
    let ghost want = ts.map_values(
        |t: Table|
            list_or_null(depth.has_columns(), t.columns@.map_values(|c: Column| column_cell(c))),
    );
    if !depth.populates_columns() {
        let none: Vec<&Column> = Vec::new();
        proof {
            lemma_nothing_fits();
            assert(values_of(none@) =~= Seq::<Column>::empty());
        }
        let child = match build_column_struct(&none) {
            Ok(a) => a,
            Err(e) => {
                return Err(e);
            },
        };
        assert(Seq::new(tables@.len(), |i: int| Cell::Null) =~= want);
        return null_lists(tables.len(), child);
    }
    let parts = columns_of(tables);
    let items = flatten(&parts);
    let child = match build_column_struct(&items) {
        Ok(a) => a,
        Err(e) => {
            return Err(e);
        },
    };
    let ghost f = |c: Column| column_cell(c);
    proof {
        assert forall|i: int| 0 <= i < ts.len() implies parts@[i]@ == (#[trigger] ts[i]).columns@ by {
            assert(parts_of(parts@)[i] == ts[i].columns@);
        }
        assert(Seq::new(
            parts@.len(),
            |i: int| list_or_null(is_valid(None, i), parts@[i]@.map_values(f)),
        ) =~= want);
    }
    list_parts(&parts, child, None, Ghost(f))
}

/// The lists of constraints, one per table; NULL if the result does not go down to the columns.
fn build_table_constraints(tables: &Vec<&Table>, depth: ObjectDepth) -> (r: Result<
    ArrayData,
    Error,
>)
    ensures
        built_unless(
            r,
            down_to(
                depth.has_columns(),
                constraints_complaint(all_constraints(values_of(tables@))),
            ),
        ),
        r matches Ok(a) ==> {
            &&& array_cells(a) == values_of(tables@).map_values(
                |t: Table|
                    list_or_null(
                        depth.has_columns(),
                        t.constraints@.map_values(|c: Constraint| constraint_cell(c)),
                    ),
            )
            &&& array_type(a) == ArrowType::List(Box::new(ArrowType::Struct(constraint_fields())))
            &&& is_array(a)
        },
{
    let ghost ts = values_of(tables@);
    let ghost want = ts.map_values(
        |t: Table|
            list_or_null(
                depth.has_columns(),
                t.constraints@.map_values(|c: Constraint| constraint_cell(c)),
            ),
    );
    if !depth.populates_columns() {
        let none: Vec<&Constraint> = Vec::new();
        proof {
            lemma_nothing_fits();
            assert(values_of(none@) =~= Seq::<Constraint>::empty());
        }
        let child = match build_constraint_struct(&none) {
            Ok(a) => a,
            Err(e) => {
                return Err(e);
            },
        };
        assert(Seq::new(tables@.len(), |i: int| Cell::Null) =~= want);
        return null_lists(tables.len(), child);
    }
    let parts = constraints_of(tables);
    let items = flatten(&parts);
    let child = match build_constraint_struct(&items) {
        Ok(a) => a,
        Err(e) => {
            return Err(e);
        },
    };
    let ghost f = |c: Constraint| constraint_cell(c);
    proof {
        assert forall|i: int| 0 <= i < ts.len() implies parts@[i]@ == (
        #[trigger] ts[i]).constraints@ by {
            assert(parts_of(parts@)[i] == ts[i].constraints@);
        }
        assert(Seq::new(
            parts@.len(),
            |i: int| list_or_null(is_valid(None, i), parts@[i]@.map_values(f)),
        ) =~= want);
    }
    list_parts(&parts, child, None, Ghost(f))
}

/// The struct array of tables.
fn build_table_struct(tables: &Vec<&Table>, depth: ObjectDepth) -> (r: Result<ArrayData, Error>)
    ensures
        built_unless(r, tables_complaint(values_of(tables@), depth)),
        r matches Ok(a) ==> {
            &&& array_cells(a) == values_of(tables@).map_values(|t: Table| table_cell(t, depth))
            &&& array_type(a) == ArrowType::Struct(table_fields())
            &&& is_array(a)
        },
{
    let n: usize = tables.len();
    if n > 0x7fff_ffff {
        return Err(too_long());
    }
    let names = match text_column(table_names(tables)) {
        Ok(a) => a,
        Err(e) => {
            return Err(e);
        },
    };
    let types = match text_column(table_types(tables)) {
        Ok(a) => a,
        Err(e) => {
            return Err(e);
        },
    };
    let columns = match build_table_columns(tables, depth) {
        Ok(a) => a,
        Err(e) => {
            return Err(e);
        },
    };
    let constraints = match build_table_constraints(tables, depth) {
        Ok(a) => a,
        Err(e) => {
            return Err(e);
        },
    };
    let mut parts: Vec<StructColumn> = Vec::new();
    parts.push(("table_name".to_owned(), false, names));
    parts.push(("table_type".to_owned(), false, types));
    parts.push(("table_columns".to_owned(), true, columns));
    parts.push(("table_constraints".to_owned(), true, constraints));
    proof {
        let ts = values_of(tables@);
        assert(are_struct_columns(parts@));
        assert forall|i: int| 0 <= i < n implies #[trigger] struct_cell(parts@, i) == table_cell(
            ts[i],
            depth,
        ) by {
            assert(Seq::new(
                parts@.len(),
                |k: int| (parts@[k].0@, array_cells(parts@[k].2)[i]),
            ) =~= table_cell(ts[i], depth)->Struct_0);
        }
        assert(Seq::new(n as nat, |i: int| struct_cell(parts@, i)) =~= ts.map_values(
            |t: Table| table_cell(t, depth),
        ));
        assert(Seq::new(
            parts@.len(),
            |k: int|
                ArrowField {
                    name: parts@[k].0@,
                    nullable: parts@[k].1,
                    data_type: array_type(parts@[k].2),
                },
        ) =~= table_fields());
    }
    assemble(parts)
}

pub open spec fn db_schema_fields() -> Seq<ArrowField> {
    seq![
        arrow_field("db_schema_name"@, true, ArrowType::Utf8),
        arrow_field(
            "db_schema_tables"@,
            true,
            ArrowType::List(Box::new(ArrowType::Struct(table_fields()))),
        ),
    ]
}

/// The lists of tables, one per db schema; NULL if the result does not go down to the tables.
fn build_schema_tables(schemas: &Vec<&DbSchema>, depth: ObjectDepth) -> (r: Result<
    ArrayData,
    Error,
>)
    ensures
        built_unless(
            r,
            down_to(depth.has_tables(), tables_complaint(all_tables(values_of(schemas@)), depth)),
        ),
        r matches Ok(a) ==> {
            &&& array_cells(a) == values_of(schemas@).map_values(
                |s: DbSchema|
                    list_or_null(
                        depth.has_tables(),
                        s.tables@.map_values(|t: Table| table_cell(t, depth)),
                    ),
            )
            &&& array_type(a) == ArrowType::List(Box::new(ArrowType::Struct(table_fields())))
            &&& is_array(a)
        },
{
    let ghost ss = values_of(schemas@);
    let ghost want = ss.map_values(
        |s: DbSchema|
            list_or_null(
                depth.has_tables(),
                s.tables@.map_values(|t: Table| table_cell(t, depth)),
            ),
    );
    if !depth.populates_tables() {
        let none: Vec<&Table> = Vec::new();
        proof {
            lemma_nothing_fits();
            assert(values_of(none@) =~= Seq::<Table>::empty());
        }
        let child = match build_table_struct(&none, depth) {
            Ok(a) => a,
            Err(e) => {
                return Err(e);
            },
        };
        assert(Seq::new(schemas@.len(), |i: int| Cell::Null) =~= want);
        return null_lists(schemas.len(), child);
    }
    let parts = tables_of(schemas);
    let items = flatten(&parts);
    let child = match build_table_struct(&items, depth) {
        Ok(a) => a,
        Err(e) => {
            return Err(e);
        },
    };
    let ghost f = |t: Table| table_cell(t, depth);
    proof {
        assert forall|i: int| 0 <= i < ss.len() implies parts@[i]@ == (#[trigger] ss[i]).tables@ by {
            assert(parts_of(parts@)[i] == ss[i].tables@);
        }
        assert(Seq::new(
            parts@.len(),
            |i: int| list_or_null(is_valid(None, i), parts@[i]@.map_values(f)),
        ) =~= want);
    }
    list_parts(&parts, child, None, Ghost(f))
}

/// The struct array of db schemas.
fn build_schema_struct(schemas: &Vec<&DbSchema>, depth: ObjectDepth) -> (r: Result<
    ArrayData,
    Error,
>)
    requires
        depth.has_schemas() || schemas@.len() == 0,
    ensures
        built_unless(r, objects_complaint(values_of(schemas@), depth)),
        r matches Ok(a) ==> {
            &&& array_cells(a) == values_of(schemas@).map_values(
                |s: DbSchema| db_schema_cell(s, depth),
            )
            &&& array_type(a) == ArrowType::Struct(db_schema_fields())
            &&& is_array(a)
        },
{
    let n: usize = schemas.len();
    if n > 0x7fff_ffff {
        return Err(too_long());
    }
    proof {
        if n == 0 {
            assert(values_of(schemas@) =~= Seq::<DbSchema>::empty());
            lemma_nothing_fits();
        }
    }
    let names = match text_column(schema_names(schemas)) {
        Ok(a) => a,
        Err(e) => {
            return Err(e);
        },
    };
    let tables = match build_schema_tables(schemas, depth) {
        Ok(a) => a,
        Err(e) => {
            return Err(e);
        },
    };
    let mut parts: Vec<StructColumn> = Vec::new();
    parts.push(("db_schema_name".to_owned(), true, names));
    parts.push(("db_schema_tables".to_owned(), true, tables));
    proof {
        let ss = values_of(schemas@);
        assert(are_struct_columns(parts@));
        assert forall|i: int| 0 <= i < n implies #[trigger] struct_cell(parts@, i)
            == db_schema_cell(ss[i], depth) by {
            assert(Seq::new(
                parts@.len(),
                |k: int| (parts@[k].0@, array_cells(parts@[k].2)[i]),
            ) =~= db_schema_cell(ss[i], depth)->Struct_0);
        }
        assert(Seq::new(n as nat, |i: int| struct_cell(parts@, i)) =~= ss.map_values(
            |s: DbSchema| db_schema_cell(s, depth),
        ));
        assert(Seq::new(
            parts@.len(),
            |k: int|
                ArrowField {
                    name: parts@[k].0@,
                    nullable: parts@[k].1,
                    data_type: array_type(parts@[k].2),
                },
        ) =~= db_schema_fields());
    }
    assemble(parts)
}

/// Nothing at all fits 32-bit offsets.
proof fn lemma_nothing_fits()
    ensures
        columns_complaint(Seq::empty()) is None,
        usages_complaint(Seq::empty()) is None,
        constraints_complaint(Seq::empty()) is None,
        forall|depth: ObjectDepth| (#[trigger] tables_complaint(Seq::empty(), depth)) is None,
        forall|depth: ObjectDepth| (#[trigger] objects_complaint(Seq::empty(), depth)) is None,
        concat(Seq::<Seq<Table>>::empty()) == Seq::<Table>::empty(),
{
    let none = Seq::<Cell>::empty();
    assert(utf8_total(none) == 0);
    assert(Seq::<Column>::empty().map_values(|c: Column| Cell::Text(c.name@)) =~= none);
    assert(Seq::<Column>::empty().map_values(|c: Column| Cell::Text(c.spanner_type@)) =~= none);
    assert(Seq::<Column>::empty().map_values(|c: Column| Cell::Text(yes_or_no(c.nullable)))
        =~= none);
    assert(Seq::<Usage>::empty().map_values(|u: Usage| Cell::Text(u.db_schema@)) =~= none);
    assert(Seq::<Usage>::empty().map_values(|u: Usage| Cell::Text(u.table@)) =~= none);
    assert(Seq::<Usage>::empty().map_values(|u: Usage| Cell::Text(u.column@)) =~= none);
    assert(Seq::<Constraint>::empty().map_values(|c: Constraint| text_cell(c.name)) =~= none);
    assert(Seq::<Constraint>::empty().map_values(
        |c: Constraint| Cell::Text(c.constraint_type@),
    ) =~= none);
    assert(Seq::<Constraint>::empty().map_values(|c: Constraint| c.columns@) =~= Seq::<
        Seq<String>,
    >::empty());
    assert(Seq::<Constraint>::empty().map_values(|c: Constraint| c.usages@) =~= Seq::<
        Seq<Usage>,
    >::empty());
    assert(all_key_columns(Seq::empty()) =~= Seq::<String>::empty());
    assert(Seq::<String>::empty().map_values(|s: String| Cell::Text(s@)) =~= none);
    assert(all_usages(Seq::empty()) =~= Seq::<Usage>::empty());
    assert(Seq::<Table>::empty().map_values(|t: Table| Cell::Text(t.name@)) =~= none);
    assert(Seq::<Table>::empty().map_values(|t: Table| Cell::Text(t.table_type@)) =~= none);
    assert(Seq::<Table>::empty().map_values(|t: Table| t.columns@) =~= Seq::<
        Seq<Column>,
    >::empty());
    assert(Seq::<Table>::empty().map_values(|t: Table| t.constraints@) =~= Seq::<
        Seq<Constraint>,
    >::empty());
    assert(all_columns(Seq::empty()) =~= Seq::<Column>::empty());
    assert(all_constraints(Seq::empty()) =~= Seq::<Constraint>::empty());
    assert(Seq::<DbSchema>::empty().map_values(|s: DbSchema| Cell::Text(s.name@)) =~= none);
    assert(Seq::<DbSchema>::empty().map_values(|s: DbSchema| s.tables@) =~= Seq::<
        Seq<Table>,
    >::empty());
    assert(all_tables(Seq::empty()) =~= Seq::<Table>::empty());
}

/// The `get_objects` result: one row for the single, unnamed catalog, as a struct array under
/// ADBC's `get_objects` schema.
///
/// It is built whenever its lists and texts fit Arrow's 32-bit offsets.
pub fn build(depth: ObjectDepth, schemas: &Vec<DbSchema>) -> (r: Result<ArrayData, Error>)
    ensures
        built_unless(r, objects_complaint(schemas@, depth)),
        r matches Ok(a) ==> {
            &&& array_cells(a) == seq![catalog_cell(schemas@, depth)]
            &&& array_type(a) == objects_type()
            &&& is_array(a)
        },
{
    let mut catalog: Vec<Option<String>> = Vec::new();
    catalog.push(Some("".to_owned()));
    proof {
        assert(text_cells(catalog@) =~= seq![Cell::Text(""@)]);
        lemma_empty_texts_fit(text_cells(catalog@));
    }
    let names = match text_column(catalog) {
        Ok(a) => a,
        Err(e) => {
            return Err(e);
        },
    };
    let lists = if !depth.populates_schemas() {
        let none: Vec<&DbSchema> = Vec::new();
        assert(values_of(none@) =~= Seq::<DbSchema>::empty());
        let child = match build_schema_struct(&none, depth) {
            Ok(a) => a,
            Err(e) => {
                return Err(e);
            },
        };
        null_lists(1, child)
    } else {
        let items = refs_to(schemas);
        let child = match build_schema_struct(&items, depth) {
            Ok(a) => a,
            Err(e) => {
                return Err(e);
            },
        };
        let mut parts: Vec<&Vec<DbSchema>> = Vec::new();
        parts.push(schemas);
        let ghost f = |s: DbSchema| db_schema_cell(s, depth);
        proof {
            assert(parts_of(parts@) =~= seq![schemas@]);
            assert(seq![schemas@].drop_last() =~= Seq::<Seq<DbSchema>>::empty());
            assert(concat(seq![schemas@].drop_last()) =~= Seq::<DbSchema>::empty());
            assert(concat(parts_of(parts@)) =~= schemas@);
        }
        list_parts(&parts, child, None, Ghost(f))
    };
    let lists = match lists {
        Ok(a) => a,
        Err(e) => {
            return Err(e);
        },
    };
    proof {
        assert(usages_type() == ArrowType::List(Box::new(ArrowType::Struct(usage_fields()))));
        assert(constraints_type() == ArrowType::List(
            Box::new(ArrowType::Struct(constraint_fields())),
        ));
        assert(columns_type() == ArrowType::List(Box::new(ArrowType::Struct(column_fields()))));
        assert(tables_type() == ArrowType::List(Box::new(ArrowType::Struct(table_fields()))));
        assert(db_schemas_type() == ArrowType::List(
            Box::new(ArrowType::Struct(db_schema_fields())),
        ));
        assert(objects_rows(array_cells(names), array_cells(lists)) =~= seq![
            catalog_cell(schemas@, depth),
        ]);
    }
    match objects_batch(names, lists) {
        Ok(a) => Ok(a),
        Err(e) => Err(arrow_err(e)),
    }
}

// ---------------------------------------------------------------------------------------------
// Laws
// ---------------------------------------------------------------------------------------------

/// The depth rule: a list level is NULL exactly where it lies below the requested depth. Where it
/// does not, it lists every entry, and is empty rather than NULL if there are none.
pub proof fn lemma_lists_are_null_only_below_the_depth(ss: Seq<DbSchema>, depth: ObjectDepth)
    ensures
        catalog_cell(ss, depth)->Struct_0[1] == (
            "catalog_db_schemas"@,
            if depth == ObjectDepth::Catalogs {
                Cell::Null
            } else {
                Cell::List(ss.map_values(|s: DbSchema| db_schema_cell(s, depth)))
            },
        ),
        forall|s: DbSchema|
            (#[trigger] db_schema_cell(s, depth))->Struct_0[1] == (
                "db_schema_tables"@,
                if depth == ObjectDepth::Catalogs || depth == ObjectDepth::Schemas {
                    Cell::Null
                } else {
                    Cell::List(s.tables@.map_values(|t: Table| table_cell(t, depth)))
                },
            ),
        forall|t: Table|
            (#[trigger] table_cell(t, depth))->Struct_0[2] == (
                "table_columns"@,
                if depth == ObjectDepth::All || depth == ObjectDepth::Columns {
                    Cell::List(t.columns@.map_values(|c: Column| column_cell(c)))
                } else {
                    Cell::Null
                },
            ),
        forall|t: Table|
            (#[trigger] table_cell(t, depth))->Struct_0[3] == (
                "table_constraints"@,
                if depth == ObjectDepth::All || depth == ObjectDepth::Columns {
                    Cell::List(t.constraints@.map_values(|c: Constraint| constraint_cell(c)))
                } else {
                    Cell::Null
                },
            ),
{
}

/// At catalog depth the result does not depend on what was collected, so nothing needs collecting.
pub proof fn lemma_catalog_depth_ignores_schemas(a: Seq<DbSchema>, b: Seq<DbSchema>)
    ensures
        catalog_cell(a, ObjectDepth::Catalogs) == catalog_cell(b, ObjectDepth::Catalogs),
        objects_complaint(a, ObjectDepth::Catalogs) is None,
{
}

/// `Columns` asks for the same result as `All`.
pub proof fn lemma_columns_depth_is_all(ss: Seq<DbSchema>)
    ensures
        catalog_cell(ss, ObjectDepth::Columns) == catalog_cell(ss, ObjectDepth::All),
{
    let c = ObjectDepth::Columns;
    let a = ObjectDepth::All;
    assert forall|t: Table| #[trigger] table_cell(t, c) == table_cell(t, a) by {}
    assert forall|s: DbSchema| #[trigger] db_schema_cell(s, c) == db_schema_cell(s, a) by {
        assert(s.tables@.map_values(|t: Table| table_cell(t, c)) =~= s.tables@.map_values(
            |t: Table| table_cell(t, a),
        ));
    }
    assert(ss.map_values(|s: DbSchema| db_schema_cell(s, c)) =~= ss.map_values(
        |s: DbSchema| db_schema_cell(s, a),
    ));
}

} // verus!
