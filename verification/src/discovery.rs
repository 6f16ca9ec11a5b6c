//! Assembling the db schema → table → column hierarchy of `get_objects` from the results of the
//! `INFORMATION_SCHEMA` queries.
//!
//! Each result is grouped once by the names it is looked up by. Within a group the rows keep the
//! order in which the query returned them, so columns and key columns come out in ordinal order.

use vstd::prelude::*;

use crate::error::{internal, Error, Status};
use crate::grouping::{group_of, lemma_group_rows, Key, RowGroups};
use crate::metadata::{
    like, like_match, str_col, text_complaint, MetadataBatch, MetadataColumn,
};
use crate::number::{as_int, int_value, parse_i64};
use crate::objects::{
    Column, Constraint, DbSchema, ObjectDepth, Table, Usage,
};
use crate::text::{eq_ignoring_case, eq_str, same_ignoring_case, to_chars};

verus! {

// ---------------------------------------------------------------------------------------------
// What the objects stand for
// ---------------------------------------------------------------------------------------------

pub struct ColumnView {
    pub name: Seq<char>,
    pub ordinal: i32,
    pub nullable: bool,
    pub spanner_type: Seq<char>,
}

pub struct UsageView {
    pub db_schema: Seq<char>,
    pub table: Seq<char>,
    pub column: Seq<char>,
}

pub struct ConstraintView {
    pub name: Option<Seq<char>>,
    pub constraint_type: Seq<char>,
    pub columns: Seq<Seq<char>>,
    pub usages: Seq<UsageView>,
}

pub struct TableView {
    pub name: Seq<char>,
    pub table_type: Seq<char>,
    pub columns: Seq<ColumnView>,
    pub constraints: Seq<ConstraintView>,
}

pub struct DbSchemaView {
    pub name: Seq<char>,
    pub tables: Seq<TableView>,
}

impl View for Column {
    type V = ColumnView;

    open spec fn view(&self) -> ColumnView {
        ColumnView {
            name: self.name@,
            ordinal: self.ordinal,
            nullable: self.nullable,
            spanner_type: self.spanner_type@,
        }
    }
}

impl View for Usage {
    type V = UsageView;

    open spec fn view(&self) -> UsageView {
        UsageView { db_schema: self.db_schema@, table: self.table@, column: self.column@ }
    }
}

impl View for Constraint {
    type V = ConstraintView;

    open spec fn view(&self) -> ConstraintView {
        ConstraintView {
            name: match self.name {
                Some(n) => Some(n@),
                None => None,
            },
            constraint_type: self.constraint_type@,
            columns: self.columns@.map_values(|s: String| s@),
            usages: self.usages@.map_values(|u: Usage| u@),
        }
    }
}

impl View for Table {
    type V = TableView;

    open spec fn view(&self) -> TableView {
        TableView {
            name: self.name@,
            table_type: self.table_type@,
            columns: self.columns@.map_values(|c: Column| c@),
            constraints: self.constraints@.map_values(|c: Constraint| c@),
        }
    }
}

impl View for DbSchema {
    type V = DbSchemaView;

    open spec fn view(&self) -> DbSchemaView {
        DbSchemaView { name: self.name@, tables: self.tables@.map_values(|t: Table| t@) }
    }
}

// ---------------------------------------------------------------------------------------------
// The queries
// ---------------------------------------------------------------------------------------------

pub const SCHEMATA_SQL: &'static str = "SELECT SCHEMA_NAME FROM INFORMATION_SCHEMA.SCHEMATA";

pub const TABLES_SQL: &'static str =
    "SELECT TABLE_SCHEMA, TABLE_NAME, TABLE_TYPE FROM INFORMATION_SCHEMA.TABLES";

pub const COLUMNS_SQL: &'static str =
    "SELECT TABLE_SCHEMA, TABLE_NAME, COLUMN_NAME, ORDINAL_POSITION, IS_NULLABLE, SPANNER_TYPE FROM INFORMATION_SCHEMA.COLUMNS ORDER BY TABLE_SCHEMA, TABLE_NAME, ORDINAL_POSITION";

pub const CONSTRAINTS_SQL: &'static str =
    "SELECT TABLE_SCHEMA, TABLE_NAME, CONSTRAINT_NAME, CONSTRAINT_TYPE FROM INFORMATION_SCHEMA.TABLE_CONSTRAINTS";

pub const KEY_COLUMNS_SQL: &'static str =
    "SELECT CONSTRAINT_SCHEMA, CONSTRAINT_NAME, TABLE_SCHEMA, TABLE_NAME, COLUMN_NAME, CAST(ORDINAL_POSITION AS STRING), CAST(POSITION_IN_UNIQUE_CONSTRAINT AS STRING) FROM INFORMATION_SCHEMA.KEY_COLUMN_USAGE ORDER BY CONSTRAINT_SCHEMA, CONSTRAINT_NAME, ORDINAL_POSITION";

pub const REFERENTIAL_SQL: &'static str =
    "SELECT CONSTRAINT_SCHEMA, CONSTRAINT_NAME, UNIQUE_CONSTRAINT_SCHEMA, UNIQUE_CONSTRAINT_NAME FROM INFORMATION_SCHEMA.REFERENTIAL_CONSTRAINTS";

/// The queries that a depth needs, each absent where it does not.
pub struct ObjectQueries {
    pub schemas: Option<&'static str>,
    pub tables: Option<&'static str>,
    pub columns: Option<&'static str>,
    pub constraints: Option<&'static str>,
    pub key_columns: Option<&'static str>,
    pub referential: Option<&'static str>,
}

/// The query, if it is needed.
pub open spec fn when(needed: bool, sql: &'static str) -> Option<&'static str> {
    if needed {
        Some(sql)
    } else {
        None
    }
}

/// The queries to run before [`collect_objects`]. At catalog depth there are none.
pub fn object_queries(depth: ObjectDepth) -> (r: ObjectQueries)
    ensures
        r.schemas == when(depth.has_schemas(), SCHEMATA_SQL),
        r.tables == when(depth.has_tables(), TABLES_SQL),
        r.columns == when(depth.has_columns(), COLUMNS_SQL),
        r.constraints == when(depth.has_columns(), CONSTRAINTS_SQL),
        r.key_columns == when(depth.has_columns(), KEY_COLUMNS_SQL),
        r.referential == when(depth.has_columns(), REFERENTIAL_SQL),
{
    let schemas = depth.populates_schemas();
    let tables = depth.populates_tables();
    let columns = depth.populates_columns();
    ObjectQueries {
        schemas: if schemas {
            Some(SCHEMATA_SQL)
        } else {
            None
        },
        tables: if tables {
            Some(TABLES_SQL)
        } else {
            None
        },
        columns: if columns {
            Some(COLUMNS_SQL)
        } else {
            None
        },
        constraints: if columns {
            Some(CONSTRAINTS_SQL)
        } else {
            None
        },
        key_columns: if columns {
            Some(KEY_COLUMNS_SQL)
        } else {
            None
        },
        referential: if columns {
            Some(REFERENTIAL_SQL)
        } else {
            None
        },
    }
}

/// The results of the queries, each absent where it was not run.
pub struct ObjectBatches {
    pub schemas: MetadataBatch,
    pub tables: Option<MetadataBatch>,
    pub columns: Option<MetadataBatch>,
    pub constraints: Option<MetadataBatch>,
    pub key_columns: Option<MetadataBatch>,
    pub referential: Option<MetadataBatch>,
}

pub open spec fn well_formed_if_present(batch: Option<MetadataBatch>) -> bool {
    match batch {
        Some(b) => b.is_well_formed(),
        None => true,
    }
}

/// Whether the first `n` columns of a result, if it is there, hold text.
pub open spec fn texts_if_present(batch: Option<MetadataBatch>, n: int) -> bool {
    match batch {
        Some(b) => forall|i: int| 0 <= i < n ==> #[trigger] b.has_text(i),
        None => true,
    }
}

/// Whether the result of the column query, if it is there, holds text and an integral ordinal.
pub open spec fn columns_if_present(batch: Option<MetadataBatch>) -> bool {
    match batch {
        Some(b) => {
            &&& b.has_text(0)
            &&& b.has_text(1)
            &&& b.has_text(2)
            &&& b.has_ints(3)
            &&& b.has_text(4)
            &&& b.has_text(5)
        },
        None => true,
    }
}

impl ObjectBatches {
    /// Every column of every result has a value for every row.
    pub open spec fn is_well_formed(&self) -> bool {
        &&& self.schemas.is_well_formed()
        &&& well_formed_if_present(self.tables)
        &&& well_formed_if_present(self.columns)
        &&& well_formed_if_present(self.constraints)
        &&& well_formed_if_present(self.key_columns)
        &&& well_formed_if_present(self.referential)
    }

    /// The results have the columns that the queries ask for.
    pub open spec fn has_expected_shape(&self) -> bool {
        &&& self.schemas.has_text(0)
        &&& texts_if_present(self.tables, 3)
        &&& columns_if_present(self.columns)
        &&& texts_if_present(self.constraints, 4)
        &&& texts_if_present(self.key_columns, 7)
        &&& texts_if_present(self.referential, 4)
    }

    /// The results are those of the queries that a depth needs, and of no others; where it needs
    /// none at all, the result for the schemas is not looked at.
    pub open spec fn answer(&self, depth: ObjectDepth) -> bool {
        &&& self.tables is Some <==> depth.has_tables()
        &&& self.columns is Some <==> depth.has_columns()
        &&& self.constraints is Some <==> depth.has_columns()
        &&& self.key_columns is Some <==> depth.has_columns()
        &&& self.referential is Some <==> depth.has_columns()
    }
}

/// Whether a result fails exactly if there is a complaint, and then with it.
pub open spec fn complains<T>(r: Result<T, Error>, complaint: Option<Seq<char>>) -> bool {
    match complaint {
        Some(m) => r is Err && r->Err_0.says(Status::Internal, m),
        None => r is Ok,
    }
}

/// The first of two complaints.
pub open spec fn first_complaint(a: Option<Seq<char>>, b: Option<Seq<char>>) -> Option<Seq<char>> {
    if a is Some {
        a
    } else {
        b
    }
}

/// Why the columns of a result from `i` up to `n` do not all hold text.
pub open spec fn texts_complaint(batch: MetadataBatch, i: int, n: int) -> Option<Seq<char>>
    decreases n - i,
{
    if i >= n {
        None
    } else {
        first_complaint(text_complaint(batch, i), texts_complaint(batch, i + 1, n))
    }
}

/// Why the first `n` columns of a result, if it is there, do not all hold text.
pub open spec fn optional_complaint(batch: Option<MetadataBatch>, n: int) -> Option<Seq<char>> {
    match batch {
        Some(b) => texts_complaint(b, 0, n),
        None => None,
    }
}

/// Why the result of the column query does not have the columns that it asks for.
pub open spec fn columns_complaint(batch: MetadataBatch) -> Option<Seq<char>> {
    first_complaint(
        texts_complaint(batch, 0, 3),
        first_complaint(
            texts_complaint(batch, 4, 6),
            if batch.has_ints(3) {
                None
            } else {
                Some("ORDINAL_POSITION is not an integer"@)
            },
        ),
    )
}

/// Why the results do not have the columns that the queries ask for: the first mismatch.
pub open spec fn shape_complaint(batches: ObjectBatches) -> Option<Seq<char>> {
    first_complaint(
        text_complaint(batches.schemas, 0),
        first_complaint(
            optional_complaint(batches.tables, 3),
            first_complaint(
                match batches.columns {
                    Some(b) => columns_complaint(b),
                    None => None,
                },
                first_complaint(
                    optional_complaint(batches.constraints, 4),
                    first_complaint(
                        optional_complaint(batches.key_columns, 7),
                        optional_complaint(batches.referential, 4),
                    ),
                ),
            ),
        ),
    )
}

// ---------------------------------------------------------------------------------------------
// What is collected
// ---------------------------------------------------------------------------------------------

/// The pair of names in columns `a` and `b` of every row.
pub open spec fn pair_keys(batch: MetadataBatch, a: int, b: int) -> Seq<Key> {
    Seq::new(batch.rows as nat, |r: int| (batch.text_at(a, r), batch.text_at(b, r)))
}

/// The name in column `a` of every row, paired with nothing.
pub open spec fn single_keys(batch: MetadataBatch, a: int) -> Seq<Key> {
    Seq::new(batch.rows as nat, |r: int| (batch.text_at(a, r), Seq::<char>::empty()))
}

/// The rows of a result, if it is there, with these names in its first two columns.
pub open spec fn rows_for(
    batch: Option<MetadataBatch>,
    first: Seq<char>,
    second: Seq<char>,
) -> Seq<usize> {
    match batch {
        Some(b) => group_of(pair_keys(b, 0, 1), (first, second)),
        None => Seq::empty(),
    }
}

/// The rows of a result, if it is there, with this name in its first column.
pub open spec fn rows_named(batch: Option<MetadataBatch>, first: Seq<char>) -> Seq<usize> {
    match batch {
        Some(b) => group_of(single_keys(b, 0), (first, Seq::<char>::empty())),
        None => Seq::empty(),
    }
}

/// Whether a name passes a `LIKE` filter, if there is one.
pub open spec fn passes(filter: Option<&str>, name: Seq<char>) -> bool {
    match filter {
        Some(p) => like(p@, name),
        None => true,
    }
}

/// Whether a table type is among those asked for, if any are.
pub open spec fn type_passes(types: Option<&Vec<String>>, t: Seq<char>) -> bool {
    match types {
        Some(ts) => exists|i: int| 0 <= i < ts@.len() && (#[trigger] ts@[i])@ == t,
        None => true,
    }
}

/// The columns in the first `n` of `rows` that pass the filter.
pub open spec fn picked_columns(
    b: MetadataBatch,
    rows: Seq<usize>,
    filter: Option<&str>,
    n: int,
) -> Seq<ColumnView>
    decreases n,
{
    if n <= 0 {
        Seq::empty()
    } else {
        let before = picked_columns(b, rows, filter, n - 1);
        let r = rows[n - 1] as int;
        if passes(filter, b.text_at(2, r)) {
            before.push(
                ColumnView {
                    name: b.text_at(2, r),
                    ordinal: b.int_at(3, r) as i32,
                    nullable: same_ignoring_case(b.text_at(4, r), "YES"@),
                    spanner_type: b.text_at(5, r),
                },
            )
        } else {
            before
        }
    }
}

/// The columns of a table that pass the filter, in the order of the result.
pub open spec fn columns_in(
    batches: ObjectBatches,
    schema: Seq<char>,
    table: Seq<char>,
    filter: Option<&str>,
) -> Seq<ColumnView> {
    match batches.columns {
        Some(b) => {
            let rows = rows_for(batches.columns, schema, table);
            picked_columns(b, rows, filter, rows.len() as int)
        },
        None => Seq::empty(),
    }
}

/// The key columns of a constraint, in the order of the result.
pub open spec fn key_columns_in(
    batches: ObjectBatches,
    schema: Seq<char>,
    constraint: Seq<char>,
) -> Seq<Seq<char>> {
    let rows = rows_for(batches.key_columns, schema, constraint);
    Seq::new(rows.len(), |i: int| batches.key_columns->0.text_at(4, rows[i] as int))
}

/// The ordinals of a foreign key's columns with the positions they refer to, from the first `n` of
/// `rows`. A row without two numbers is left out.
pub open spec fn key_positions(b: MetadataBatch, rows: Seq<usize>, n: int) -> Seq<(int, int)>
    decreases n,
{
    if n <= 0 {
        Seq::empty()
    } else {
        let before = key_positions(b, rows, n - 1);
        let r = rows[n - 1] as int;
        match (int_value(b.text_at(5, r)), int_value(b.text_at(6, r))) {
            (Some(ordinal), Some(position)) if !b.null_at(6, r) => before.push(
                (ordinal, position),
            ),
            _ => before,
        }
    }
}

/// `s` with `x` behind everything of no greater ordinal and before everything of a greater one.
pub open spec fn insert_by_ordinal(s: Seq<(int, int)>, x: (int, int)) -> Seq<(int, int)>
    decreases s.len(),
{
    if s.len() == 0 || s.last().0 <= x.0 {
        s.push(x)
    } else {
        insert_by_ordinal(s.drop_last(), x).push(s.last())
    }
}

/// `s` ordered by ordinal, equal ordinals in the order they had.
pub open spec fn by_ordinal(s: Seq<(int, int)>) -> Seq<(int, int)>
    decreases s.len(),
{
    if s.len() == 0 {
        s
    } else {
        insert_by_ordinal(by_ordinal(s.drop_last()), s.last())
    }
}

/// The last of the first `n` of `rows` whose ordinal is `position`.
pub open spec fn row_at_ordinal(
    b: MetadataBatch,
    rows: Seq<usize>,
    position: int,
    n: int,
) -> Option<usize>
    decreases n,
{
    if n <= 0 {
        None
    } else if int_value(b.text_at(5, rows[n - 1] as int)) == Some(position) {
        Some(rows[n - 1])
    } else {
        row_at_ordinal(b, rows, position, n - 1)
    }
}

/// The columns that the first `n` of `pairs` refer to; a position that no column has is left out.
pub open spec fn referenced_columns(
    b: MetadataBatch,
    rows: Seq<usize>,
    pairs: Seq<(int, int)>,
    n: int,
) -> Seq<UsageView>
    decreases n,
{
    if n <= 0 {
        Seq::empty()
    } else {
        let before = referenced_columns(b, rows, pairs, n - 1);
        match row_at_ordinal(b, rows, pairs[n - 1].1, rows.len() as int) {
            Some(r) => before.push(
                UsageView {
                    db_schema: b.text_at(2, r as int),
                    table: b.text_at(3, r as int),
                    column: b.text_at(4, r as int),
                },
            ),
            None => before,
        }
    }
}

/// The columns that a foreign key refers to, in the order of its own columns.
pub open spec fn usages_in(
    batches: ObjectBatches,
    schema: Seq<char>,
    foreign_key: Seq<char>,
) -> Seq<UsageView> {
    let links = rows_for(batches.referential, schema, foreign_key);
    match (batches.referential, batches.key_columns) {
        (Some(refs), Some(keys)) if links.len() > 0 => {
            let unique_schema = refs.text_at(2, links[0] as int);
            let unique_name = refs.text_at(3, links[0] as int);
            let own = rows_for(batches.key_columns, schema, foreign_key);
            let pairs = by_ordinal(key_positions(keys, own, own.len() as int));
            referenced_columns(
                keys,
                rows_for(batches.key_columns, unique_schema, unique_name),
                pairs,
                pairs.len() as int,
            )
        },
        _ => Seq::empty(),
    }
}

/// The constraints in the first `n` of `rows`.
pub open spec fn picked_constraints(
    batches: ObjectBatches,
    schema: Seq<char>,
    rows: Seq<usize>,
    n: int,
) -> Seq<ConstraintView>
    decreases n,
{
    if n <= 0 {
        Seq::empty()
    } else {
        let b = batches.constraints->0;
        let r = rows[n - 1] as int;
        let name = b.text_at(2, r);
        picked_constraints(batches, schema, rows, n - 1).push(
            ConstraintView {
                name: Some(name),
                constraint_type: b.text_at(3, r),
                columns: key_columns_in(batches, schema, name),
                usages: if b.text_at(3, r) == "FOREIGN KEY"@ {
                    usages_in(batches, schema, name)
                } else {
                    Seq::empty()
                },
            },
        )
    }
}

/// The constraints of a table, in the order of the result.
pub open spec fn constraints_in(
    batches: ObjectBatches,
    schema: Seq<char>,
    table: Seq<char>,
) -> Seq<ConstraintView> {
    let rows = rows_for(batches.constraints, schema, table);
    picked_constraints(batches, schema, rows, rows.len() as int)
}

/// The tables in the first `n` of `rows` that pass the filters.
pub open spec fn picked_tables(
    batches: ObjectBatches,
    schema: Seq<char>,
    rows: Seq<usize>,
    table_name: Option<&str>,
    table_type: Option<&Vec<String>>,
    column_name: Option<&str>,
    n: int,
) -> Seq<TableView>
    decreases n,
{
    if n <= 0 {
        Seq::empty()
    } else {
        let before = picked_tables(
            batches,
            schema,
            rows,
            table_name,
            table_type,
            column_name,
            n - 1,
        );
        let b = batches.tables->0;
        let r = rows[n - 1] as int;
        let name = b.text_at(1, r);
        if passes(table_name, name) && type_passes(table_type, b.text_at(2, r)) {
            before.push(
                TableView {
                    name,
                    table_type: b.text_at(2, r),
                    columns: columns_in(batches, schema, name, column_name),
                    constraints: constraints_in(batches, schema, name),
                },
            )
        } else {
            before
        }
    }
}

/// The db schemas in the first `n` rows that pass the filter, with their tables.
pub open spec fn picked_schemas(
    batches: ObjectBatches,
    db_schema: Option<&str>,
    table_name: Option<&str>,
    table_type: Option<&Vec<String>>,
    column_name: Option<&str>,
    n: int,
) -> Seq<DbSchemaView>
    decreases n,
{
    if n <= 0 {
        Seq::empty()
    } else {
        let before = picked_schemas(
            batches,
            db_schema,
            table_name,
            table_type,
            column_name,
            n - 1,
        );
        let name = batches.schemas.text_at(0, n - 1);
        if passes(db_schema, name) {
            let rows = rows_named(batches.tables, name);
            before.push(
                DbSchemaView {
                    name,
                    tables: picked_tables(
                        batches,
                        name,
                        rows,
                        table_name,
                        table_type,
                        column_name,
                        rows.len() as int,
                    ),
                },
            )
        } else {
            before
        }
    }
}

// ---------------------------------------------------------------------------------------------
// Collecting
// ---------------------------------------------------------------------------------------------

/// Requires the columns of a result from `from` up to `n` to hold text.
fn require_texts(batch: &MetadataBatch, from: usize, n: usize) -> (r: Result<(), Error>)
    requires
        from <= n,
    ensures
        r is Ok <==> forall|i: int| from <= i < n ==> #[trigger] batch.has_text(i),
        complains(r, texts_complaint(*batch, from as int, n as int)),
{
    let mut i: usize = from;
    while i < n
        invariant
            from <= i <= n,
            forall|k: int| from <= k < i ==> #[trigger] batch.has_text(k),
            texts_complaint(*batch, from as int, n as int) == texts_complaint(
                *batch,
                i as int,
                n as int,
            ),
        decreases n - i,
    {
        match str_col(batch, i) {
            Ok(_) => {},
            Err(e) => {
                assert(!batch.has_text(i as int));
                return Err(e);
            },
        }
        i = i + 1;
    }
    Ok(())
}

/// Requires the columns of the column query.
fn require_columns(batch: &MetadataBatch) -> (r: Result<(), Error>)
    ensures
        r is Ok <==> columns_if_present(Some(*batch)),
        complains(r, columns_complaint(*batch)),
{
    match require_texts(batch, 0, 3) {
        Ok(()) => {},
        Err(e) => {
            assert(!(batch.has_text(0) && batch.has_text(1) && batch.has_text(2)));
            return Err(e);
        },
    }
    assert(batch.has_text(0) && batch.has_text(1) && batch.has_text(2));
    match require_texts(batch, 4, 6) {
        Ok(()) => {},
        Err(e) => {
            assert(!(batch.has_text(4) && batch.has_text(5)));
            return Err(e);
        },
    }
    assert(batch.has_text(4) && batch.has_text(5));
    match &batch.columns[3] {
        MetadataColumn::Ints(_) => Ok(()),
        _ => Err(internal("ORDINAL_POSITION is not an integer".to_owned())),
    }
}

fn require_texts_if_present(batch: &Option<MetadataBatch>, n: usize) -> (r: Result<(), Error>)
    ensures
        r is Ok <==> texts_if_present(*batch, n as int),
        complains(r, optional_complaint(*batch, n as int)),
{
    match batch {
        Some(b) => require_texts(b, 0, n),
        None => Ok(()),
    }
}

fn require_shape(batches: &ObjectBatches) -> (r: Result<(), Error>)
    ensures
        r is Ok <==> batches.has_expected_shape(),
        complains(r, shape_complaint(*batches)),
{
    match str_col(&batches.schemas, 0) {
        Ok(_) => {},
        Err(e) => {
            return Err(e);
        },
    }
    match require_texts_if_present(&batches.tables, 3) {
        Ok(()) => {},
        Err(e) => {
            return Err(e);
        },
    }
    match &batches.columns {
        Some(b) => match require_columns(b) {
            Ok(()) => {},
            Err(e) => {
                return Err(e);
            },
        },
        None => {},
    }
    match require_texts_if_present(&batches.constraints, 4) {
        Ok(()) => {},
        Err(e) => {
            return Err(e);
        },
    }
    match require_texts_if_present(&batches.key_columns, 7) {
        Ok(()) => {},
        Err(e) => {
            return Err(e);
        },
    }
    require_texts_if_present(&batches.referential, 4)
}

/// Groups the rows of a result, if it is there, by the names in its first two columns.
fn group_pairs(batch: &Option<MetadataBatch>) -> (r: RowGroups)
    requires
        well_formed_if_present(*batch),
        batch matches Some(b) ==> b.has_text(0) && b.has_text(1),
    ensures
        r.is_well_formed(),
        r.keys() == match *batch {
            Some(b) => pair_keys(b, 0, 1),
            None => Seq::empty(),
        },
{
    let mut groups = RowGroups::new();
    match batch {
        Some(b) => {
            let mut row: usize = 0;
            while row < b.rows
                invariant
                    row <= b.rows,
                    b.is_well_formed(),
                    b.has_text(0),
                    b.has_text(1),
                    groups.is_well_formed(),
                    groups.keys() == pair_keys(*b, 0, 1).take(row as int),
                decreases b.rows - row,
            {
                groups.add_row(b.text(0, row), b.text(1, row), row);
                row = row + 1;
                assert(pair_keys(*b, 0, 1).take(row as int) =~= pair_keys(*b, 0, 1).take(
                    row - 1,
                ).push(pair_keys(*b, 0, 1)[row - 1]));
            }
            assert(pair_keys(*b, 0, 1).take(row as int) =~= pair_keys(*b, 0, 1));
        },
        None => {},
    }
    groups
}

/// Groups the rows of a result, if it is there, by the name in its first column.
fn group_singles(batch: &Option<MetadataBatch>) -> (r: RowGroups)
    requires
        well_formed_if_present(*batch),
        batch matches Some(b) ==> b.has_text(0),
    ensures
        r.is_well_formed(),
        r.keys() == match *batch {
            Some(b) => single_keys(b, 0),
            None => Seq::empty(),
        },
{
    let mut groups = RowGroups::new();
    proof {
        reveal_strlit("");
        assert(""@ =~= Seq::<char>::empty());
    }
    match batch {
        Some(b) => {
            let mut row: usize = 0;
            while row < b.rows
                invariant
                    row <= b.rows,
                    b.is_well_formed(),
                    b.has_text(0),
                    ""@ == Seq::<char>::empty(),
                    groups.is_well_formed(),
                    groups.keys() == single_keys(*b, 0).take(row as int),
                decreases b.rows - row,
            {
                groups.add_row(b.text(0, row), "", row);
                row = row + 1;
                assert(single_keys(*b, 0).take(row as int) =~= single_keys(*b, 0).take(
                    row - 1,
                ).push(single_keys(*b, 0)[row - 1]));
            }
            assert(single_keys(*b, 0).take(row as int) =~= single_keys(*b, 0));
        },
        None => {},
    }
    groups
}

/// The rows of a group are rows of the result.
pub open spec fn are_rows(rows: Seq<usize>, batch: MetadataBatch) -> bool {
    forall|i: int| 0 <= i < rows.len() ==> #[trigger] rows[i] < batch.rows
}

proof fn lemma_rows_for(batch: MetadataBatch, first: Seq<char>, second: Seq<char>)
    ensures
        are_rows(rows_for(Some(batch), first, second), batch),
{
    let keys = pair_keys(batch, 0, 1);
    assert forall|i: int| 0 <= i < rows_for(Some(batch), first, second).len() implies #[trigger]
    rows_for(Some(batch), first, second)[i] < batch.rows by {
        lemma_group_rows(keys, (first, second), keys.len() as int, i);
    }
}

proof fn lemma_rows_named(batch: MetadataBatch, first: Seq<char>)
    ensures
        are_rows(rows_named(Some(batch), first), batch),
{
    let keys = single_keys(batch, 0);
    assert forall|i: int| 0 <= i < rows_named(Some(batch), first).len() implies #[trigger]
    rows_named(Some(batch), first)[i] < batch.rows by {
        lemma_group_rows(keys, (first, Seq::<char>::empty()), keys.len() as int, i);
    }
}

/// The results, grouped for lookup.
pub struct Grouped<'a> {
    pub batches: &'a ObjectBatches,
    pub tables: RowGroups,
    pub columns: RowGroups,
    pub constraints: RowGroups,
    pub key_columns: RowGroups,
    pub referential: RowGroups,
}

/// Whether the rows of a result, if it is there, are grouped by their first two columns.
pub open spec fn pair_groups(groups: RowGroups, batch: Option<MetadataBatch>) -> bool {
    &&& groups.is_well_formed()
    &&& groups.keys() == match batch {
        Some(b) => pair_keys(b, 0, 1),
        None => Seq::empty(),
    }
}

impl<'a> Grouped<'a> {
    /// The results have the columns that the queries ask for, and the groups are those of their
    /// rows.
    pub open spec fn is_well_formed(&self) -> bool {
        &&& self.batches.is_well_formed()
        &&& self.batches.has_expected_shape()
        &&& self.tables.is_well_formed()
        &&& self.tables.keys() == match self.batches.tables {
            Some(b) => single_keys(b, 0),
            None => Seq::empty(),
        }
        &&& pair_groups(self.columns, self.batches.columns)
        &&& pair_groups(self.constraints, self.batches.constraints)
        &&& pair_groups(self.key_columns, self.batches.key_columns)
        &&& pair_groups(self.referential, self.batches.referential)
    }
}

/// Groups the rows of the results: tables by their schema, everything else by schema and name.
pub fn group_all<'a>(batches: &'a ObjectBatches) -> (r: Grouped<'a>)
    requires
        batches.is_well_formed(),
        batches.has_expected_shape(),
    ensures
        r.is_well_formed(),
        r.batches == batches,
{
    proof {
        assert(batches.tables matches Some(b) ==> b.has_text(0));
        assert(batches.columns matches Some(b) ==> b.has_text(0) && b.has_text(1));
        assert(batches.constraints matches Some(b) ==> b.has_text(0) && b.has_text(1));
        assert(batches.key_columns matches Some(b) ==> b.has_text(0) && b.has_text(1));
        assert(batches.referential matches Some(b) ==> b.has_text(0) && b.has_text(1));
    }
    Grouped {
        batches,
        tables: group_singles(&batches.tables),
        columns: group_pairs(&batches.columns),
        constraints: group_pairs(&batches.constraints),
        key_columns: group_pairs(&batches.key_columns),
        referential: group_pairs(&batches.referential),
    }
}

/// Whether a name passes a `LIKE` filter, if there is one.
fn name_passes(filter: Option<&str>, name: &str) -> (r: bool)
    ensures
        r == passes(filter, name@),
{
    match filter {
        Some(p) => like_match(p, name),
        None => true,
    }
}

/// Whether a table type is among those asked for, if any are.
fn table_type_passes(types: Option<&Vec<String>>, t: &str) -> (r: bool)
    ensures
        r == type_passes(types, t@),
{
    match types {
        Some(ts) => {
            let mut i: usize = 0;
            while i < ts.len()
                invariant
                    i <= ts@.len(),
                    types == Some(ts),
                    forall|k: int| 0 <= k < i ==> (#[trigger] ts@[k])@ != t@,
                decreases ts@.len() - i,
            {
                if eq_str(ts[i].as_str(), t) {
                    assert(types->0@[i as int]@ == t@);
                    return true;
                }
                i = i + 1;
            }
            false
        },
        None => true,
    }
}

/// The number that a text writes in decimal.
fn number_in(text: &str) -> (r: Option<i64>)
    ensures
        as_int(r) == int_value(text@),
{
    let chars = to_chars(text);
    parse_i64(chars.as_slice())
}

impl<'a> Grouped<'a> {
    /// The columns of one table that pass the filter.
    pub fn collect_columns(&self, schema: &str, table: &str, filter: Option<&str>) -> (r: Vec<Column>)
        requires
            self.is_well_formed(),
        ensures
            r@.map_values(|c: Column| c@) == columns_in(*self.batches, schema@, table@, filter),
    {
        let mut out: Vec<Column> = Vec::new();
        match &self.batches.columns {
            Some(b) => {
                let rows = self.columns.rows_of(schema, table);
                proof {
                    lemma_rows_for(*b, schema@, table@);
                }
                let mut i: usize = 0;
                assert(out@.map_values(|c: Column| c@) =~= Seq::<ColumnView>::empty());
                while i < rows.len()
                    invariant
                        i <= rows@.len(),
                        b.is_well_formed(),
                        columns_if_present(Some(*b)),
                        are_rows(rows@, *b),
                        out@.map_values(|c: Column| c@) == picked_columns(
                            *b,
                            rows@,
                            filter,
                            i as int,
                        ),
                    decreases rows@.len() - i,
                {
                    let row: usize = rows[i];
                    let name = b.text(2, row);
                    if name_passes(filter, name) {
                        let ghost before = out@;
                        let column = Column {
                            name: name.to_owned(),
                            ordinal: b.integer(3, row) as i32,
                            nullable: eq_ignoring_case(b.text(4, row), "YES"),
                            spanner_type: b.text(5, row).to_owned(),
                        };
                        let ghost view = column@;
                        out.push(column);
                        assert(out@.map_values(|c: Column| c@) =~= before.map_values(
                            |c: Column| c@,
                        ).push(view));
                    }
                    i = i + 1;
                }
            },
            None => {
                assert(out@.map_values(|c: Column| c@) =~= Seq::<ColumnView>::empty());
            },
        }
        out
    }

    /// The key columns of one constraint.
    fn collect_key_columns(&self, schema: &str, constraint: &str) -> (r: Vec<String>)
        requires
            self.is_well_formed(),
        ensures
            r@.map_values(|s: String| s@) == key_columns_in(*self.batches, schema@, constraint@),
    {
        let mut out: Vec<String> = Vec::new();
        let ghost want = key_columns_in(*self.batches, schema@, constraint@);
        match &self.batches.key_columns {
            Some(b) => {
                let rows = self.key_columns.rows_of(schema, constraint);
                proof {
                    lemma_rows_for(*b, schema@, constraint@);
                    assert(b.has_text(4));
                }
                let mut i: usize = 0;
                while i < rows.len()
                    invariant
                        i <= rows@.len(),
                        b.is_well_formed(),
                        b.has_text(4),
                        are_rows(rows@, *b),
                        out@.len() == i,
                        forall|k: int|
                            0 <= k < i ==> (#[trigger] out@[k])@ == b.text_at(4, rows@[k] as int),
                    decreases rows@.len() - i,
                {
                    out.push(b.text(4, rows[i]).to_owned());
                    i = i + 1;
                }
                assert(out@.map_values(|s: String| s@) =~= want);
            },
            None => {
                assert(out@.map_values(|s: String| s@) =~= want);
            },
        }
        out
    }

    /// The columns that one foreign key refers to, in the order of its own columns.
    pub fn foreign_key_usages(&self, schema: &str, foreign_key: &str) -> (r: Vec<Usage>)
        requires
            self.is_well_formed(),
        ensures
            r@.map_values(|u: Usage| u@) == usages_in(*self.batches, schema@, foreign_key@),
    {
        let mut out: Vec<Usage> = Vec::new();
        assert(out@.map_values(|u: Usage| u@) =~= Seq::<UsageView>::empty());
        let (refs, keys) = match (&self.batches.referential, &self.batches.key_columns) {
            (Some(refs), Some(keys)) => (refs, keys),
            _ => {
                return out;
            },
        };
        proof {
            assert(refs.has_text(2) && refs.has_text(3));
            assert(keys.has_text(2) && keys.has_text(3) && keys.has_text(4) && keys.has_text(5)
                && keys.has_text(6));
        }
        let links = self.referential.rows_of(schema, foreign_key);
        proof {
            lemma_rows_for(*refs, schema@, foreign_key@);
        }
        if links.len() == 0 {
            return out;
        }
        let unique_schema = refs.text(2, links[0]);
        let unique_name = refs.text(3, links[0]);
        let targets = self.key_columns.rows_of(unique_schema, unique_name);
        let own = self.key_columns.rows_of(schema, foreign_key);
        proof {
            lemma_rows_for(*keys, unique_schema@, unique_name@);
            lemma_rows_for(*keys, schema@, foreign_key@);
        }
        let pairs = sorted_positions(keys, &own);
        let ghost spec_pairs = int_pairs(pairs@);
        let mut i: usize = 0;
        while i < pairs.len()
            invariant
                i <= pairs@.len(),
                keys.is_well_formed(),
                keys.has_text(2),
                keys.has_text(3),
                keys.has_text(4),
                keys.has_text(5),
                are_rows(targets@, *keys),
                spec_pairs == int_pairs(pairs@),
                out@.map_values(|u: Usage| u@) == referenced_columns(
                    *keys,
                    targets@,
                    spec_pairs,
                    i as int,
                ),
            decreases pairs@.len() - i,
        {
            assert(spec_pairs[i as int].1 == pairs@[i as int].1);
            match find_ordinal(keys, &targets, pairs[i].1) {
                Some(row) => {
                    let ghost before = out@;
                    let usage = Usage {
                        db_schema: keys.text(2, row).to_owned(),
                        table: keys.text(3, row).to_owned(),
                        column: keys.text(4, row).to_owned(),
                    };
                    let ghost view = usage@;
                    out.push(usage);
                    assert(out@.map_values(|u: Usage| u@) =~= before.map_values(
                        |u: Usage| u@,
                    ).push(view));
                },
                None => {},
            }
            i = i + 1;
        }
        out
    }

    /// The constraints of one table.
    pub fn collect_constraints(&self, schema: &str, table: &str) -> (r: Vec<Constraint>)
        requires
            self.is_well_formed(),
        ensures
            r@.map_values(|c: Constraint| c@) == constraints_in(*self.batches, schema@, table@),
    {
        let mut out: Vec<Constraint> = Vec::new();
        assert(out@.map_values(|c: Constraint| c@) =~= Seq::<ConstraintView>::empty());
        match &self.batches.constraints {
            Some(b) => {
                let rows = self.constraints.rows_of(schema, table);
                proof {
                    lemma_rows_for(*b, schema@, table@);
                    assert(b.has_text(2) && b.has_text(3));
                }
                let mut i: usize = 0;
                while i < rows.len()
                    invariant
                        i <= rows@.len(),
                        self.is_well_formed(),
                        self.batches.constraints == Some(*b),
                        b.is_well_formed(),
                        b.has_text(2),
                        b.has_text(3),
                        are_rows(rows@, *b),
                        out@.map_values(|c: Constraint| c@) == picked_constraints(
                            *self.batches,
                            schema@,
                            rows@,
                            i as int,
                        ),
                    decreases rows@.len() - i,
                {
                    let row: usize = rows[i];
                    let name = b.text(2, row);
                    let kind = b.text(3, row);
                    let columns = self.collect_key_columns(schema, name);
                    let usages = if eq_str(kind, "FOREIGN KEY") {
                        self.foreign_key_usages(schema, name)
                    } else {
                        Vec::new()
                    };
                    proof {
                        if kind@ != "FOREIGN KEY"@ {
                            assert(usages@.map_values(|u: Usage| u@) =~= Seq::<
                                UsageView,
                            >::empty());
                        }
                    }
                    let ghost before = out@;
                    let constraint = Constraint {
                        name: Some(name.to_owned()),
                        constraint_type: kind.to_owned(),
                        columns,
                        usages,
                    };
                    let ghost view = constraint@;
                    out.push(constraint);
                    assert(out@.map_values(|c: Constraint| c@) =~= before.map_values(
                        |c: Constraint| c@,
                    ).push(view));
                    i = i + 1;
                }
            },
            None => {},
        }
        out
    }

    /// The tables of one db schema that pass the filters.
    fn collect_tables(
        &self,
        schema: &str,
        table_name: Option<&str>,
        table_type: Option<&Vec<String>>,
        column_name: Option<&str>,
    ) -> (r: Vec<Table>)
        requires
            self.is_well_formed(),
        ensures
            r@.map_values(|t: Table| t@) == picked_tables(
                *self.batches,
                schema@,
                rows_named(self.batches.tables, schema@),
                table_name,
                table_type,
                column_name,
                rows_named(self.batches.tables, schema@).len() as int,
            ),
    {
        let mut out: Vec<Table> = Vec::new();
        assert(out@.map_values(|t: Table| t@) =~= Seq::<TableView>::empty());
        proof {
            reveal_strlit("");
            assert(""@ =~= Seq::<char>::empty());
        }
        match &self.batches.tables {
            Some(b) => {
                let rows = self.tables.rows_of(schema, "");
                proof {
                    lemma_rows_named(*b, schema@);
                    assert(b.has_text(1) && b.has_text(2));
                }
                let mut i: usize = 0;
                while i < rows.len()
                    invariant
                        i <= rows@.len(),
                        self.is_well_formed(),
                        self.batches.tables == Some(*b),
                        b.is_well_formed(),
                        b.has_text(1),
                        b.has_text(2),
                        are_rows(rows@, *b),
                        out@.map_values(|t: Table| t@) == picked_tables(
                            *self.batches,
                            schema@,
                            rows@,
                            table_name,
                            table_type,
                            column_name,
                            i as int,
                        ),
                    decreases rows@.len() - i,
                {
                    let row: usize = rows[i];
                    let name = b.text(1, row);
                    let kind = b.text(2, row);
                    if name_passes(table_name, name) && table_type_passes(table_type, kind) {
                        let ghost before = out@;
                        let table = Table {
                            name: name.to_owned(),
                            table_type: kind.to_owned(),
                            columns: self.collect_columns(schema, name, column_name),
                            constraints: self.collect_constraints(schema, name),
                        };
                        let ghost view = table@;
                        out.push(table);
                        assert(out@.map_values(|t: Table| t@) =~= before.map_values(
                            |t: Table| t@,
                        ).push(view));
                    }
                    i = i + 1;
                }
            },
            None => {},
        }
        out
    }
}

/// Pairs of exec integers stand for pairs of mathematical ones.
pub open spec fn int_pairs(pairs: Seq<(i64, i64)>) -> Seq<(int, int)> {
    pairs.map_values(|p: (i64, i64)| (p.0 as int, p.1 as int))
}

/// The last row whose ordinal is `position`.
fn find_ordinal(b: &MetadataBatch, rows: &Vec<usize>, position: i64) -> (r: Option<usize>)
    requires
        b.is_well_formed(),
        b.has_text(5),
        are_rows(rows@, *b),
    ensures
        r == row_at_ordinal(*b, rows@, position as int, rows@.len() as int),
        r matches Some(row) ==> row < b.rows,
{
    let mut n: usize = rows.len();
    while n > 0
        invariant
            n <= rows@.len(),
            b.is_well_formed(),
            b.has_text(5),
            are_rows(rows@, *b),
            row_at_ordinal(*b, rows@, position as int, n as int) == row_at_ordinal(
                *b,
                rows@,
                position as int,
                rows@.len() as int,
            ),
        decreases n,
    {
        match number_in(b.text(5, rows[n - 1])) {
            Some(ordinal) => {
                if ordinal == position {
                    return Some(rows[n - 1]);
                }
            },
            None => {},
        }
        n = n - 1;
    }
    None
}

proof fn lemma_insert_at(s: Seq<(int, int)>, x: (int, int), i: int)
    requires
        0 <= i <= s.len(),
        forall|k: int| i <= k < s.len() ==> (#[trigger] s[k]).0 > x.0,
        i > 0 ==> s[i - 1].0 <= x.0,
    ensures
        insert_by_ordinal(s, x) == s.take(i).push(x) + s.skip(i),
    decreases s.len(),
{
    if i == s.len() {
        assert(s.take(i).push(x) + s.skip(i) =~= s.push(x));
    } else {
        assert(s[s.len() - 1].0 > x.0);
        lemma_insert_at(s.drop_last(), x, i);
        assert(s.drop_last().take(i) =~= s.take(i));
        assert(s.take(i).push(x) + s.skip(i) =~= (s.take(i).push(x) + s.drop_last().skip(i)).push(
            s.last(),
        ));
    }
}

/// The ordinals and positions of a foreign key's columns, ordered by ordinal.
fn sorted_positions(b: &MetadataBatch, rows: &Vec<usize>) -> (r: Vec<(i64, i64)>)
    requires
        b.is_well_formed(),
        b.has_text(5),
        b.has_text(6),
        are_rows(rows@, *b),
    ensures
        int_pairs(r@) == by_ordinal(key_positions(*b, rows@, rows@.len() as int)),
{
    let mut out: Vec<(i64, i64)> = Vec::new();
    let mut i: usize = 0;
    assert(int_pairs(out@) =~= Seq::<(int, int)>::empty());
    while i < rows.len()
        invariant
            i <= rows@.len(),
            b.is_well_formed(),
            b.has_text(5),
            b.has_text(6),
            are_rows(rows@, *b),
            int_pairs(out@) == by_ordinal(key_positions(*b, rows@, i as int)),
        decreases rows@.len() - i,
    {
        let row: usize = rows[i];
        let ordinal = number_in(b.text(5, row));
        let position = number_in(b.text(6, row));
        let absent = b.is_null(6, row);
        match (ordinal, position) {
            (Some(o), Some(p)) if !absent => {
                let mut at: usize = out.len();
                while at > 0 && out[at - 1].0 > o
                    invariant
                        at <= out@.len(),
                        forall|k: int| at <= k < out@.len() ==> (#[trigger] out@[k]).0 > o,
                    decreases at,
                {
                    at = at - 1;
                }
                let ghost before = int_pairs(out@);
                let ghost x = (o as int, p as int);
                proof {
                    assert forall|k: int| at <= k < before.len() implies (#[trigger] before[k]).0
                        > x.0 by {
                        assert(out@[k].0 > o);
                    }
                    lemma_insert_at(before, x, at as int);
                    let all = key_positions(*b, rows@, i + 1);
                    assert(all.drop_last() =~= key_positions(*b, rows@, i as int));
                }
                let ghost old_out = out@;
                out.insert(at, (o, p));
                assert(int_pairs(out@) =~= before.take(at as int).push(x) + before.skip(at as int));
            },
            _ => {},
        }
        i = i + 1;
    }
    out
}

/// Assembles the db schemas that a depth asks for, under the ADBC `LIKE` and table-type filters,
/// from the results of [`object_queries`]. A result of an unexpected shape is an error.
pub fn collect_objects(
    depth: ObjectDepth,
    batches: &ObjectBatches,
    db_schema: Option<&str>,
    table_name: Option<&str>,
    table_type: Option<&Vec<String>>,
    column_name: Option<&str>,
) -> (r: Result<Vec<DbSchema>, Error>)
    requires
        batches.is_well_formed(),
        batches.answer(depth),
    ensures
        !depth.has_schemas() ==> r is Ok && r->Ok_0@.len() == 0,
        depth.has_schemas() ==> (r is Ok <==> batches.has_expected_shape()),
        depth.has_schemas() ==> complains(r, shape_complaint(*batches)),
        depth.has_schemas() && r is Ok ==> r->Ok_0@.map_values(|s: DbSchema| s@) == picked_schemas(
            *batches,
            db_schema,
            table_name,
            table_type,
            column_name,
            batches.schemas.rows as int,
        ),
{
    if !depth.populates_schemas() {
        return Ok(Vec::new());
    }
    match require_shape(batches) {
        Ok(()) => {},
        Err(e) => {
            return Err(e);
        },
    }
    let grouped = group_all(batches);
    let mut out: Vec<DbSchema> = Vec::new();
    let mut i: usize = 0;
    assert(out@.map_values(|s: DbSchema| s@) =~= Seq::<DbSchemaView>::empty());
    while i < batches.schemas.rows
        invariant
            i <= batches.schemas.rows,
            batches.is_well_formed(),
            batches.has_expected_shape(),
            grouped.is_well_formed(),
            grouped.batches == batches,
            out@.map_values(|s: DbSchema| s@) == picked_schemas(
                *batches,
                db_schema,
                table_name,
                table_type,
                column_name,
                i as int,
            ),
        decreases batches.schemas.rows - i,
    {
        let name = batches.schemas.text(0, i);
        if name_passes(db_schema, name) {
            let ghost before = out@;
            let schema = DbSchema {
                name: name.to_owned(),
                tables: grouped.collect_tables(name, table_name, table_type, column_name),
            };
            let ghost view = schema@;
            out.push(schema);
            assert(out@.map_values(|s: DbSchema| s@) =~= before.map_values(|s: DbSchema| s@).push(
                view,
            ));
        }
        i = i + 1;
    }
    Ok(out)
}

// ---------------------------------------------------------------------------------------------
// Laws
// ---------------------------------------------------------------------------------------------

proof fn lemma_insert_by_ordinal(s: Seq<(int, int)>, x: (int, int))
    requires
        forall|i: int, j: int|
            0 <= i <= j < s.len() ==> (#[trigger] s[i]).0 <= (#[trigger] s[j]).0,
    ensures
        insert_by_ordinal(s, x).to_multiset() == s.to_multiset().insert(x),
        forall|i: int, j: int|
            0 <= i <= j < insert_by_ordinal(s, x).len() ==> (#[trigger] insert_by_ordinal(
                s,
                x,
            )[i]).0 <= (#[trigger] insert_by_ordinal(s, x)[j]).0,
        insert_by_ordinal(s, x).len() > 0,
        s.len() > 0 ==> insert_by_ordinal(s, x).last().0 == (if s.last().0 <= x.0 {
            x.0
        } else {
            s.last().0
        }),
    decreases s.len(),
{
    broadcast use vstd::seq_lib::group_to_multiset_ensures;

    if !(s.len() == 0 || s.last().0 <= x.0) {
        let before = s.drop_last();
        lemma_insert_by_ordinal(before, x);
        let r = insert_by_ordinal(before, x);
        assert(s =~= before.push(s.last()));
        assert(r.push(s.last()).to_multiset() == r.to_multiset().insert(s.last()));
        assert(before.push(s.last()).to_multiset() == before.to_multiset().insert(s.last()));
        assert(insert_by_ordinal(s, x).to_multiset() =~= s.to_multiset().insert(x));
        assert(r.last().0 <= s.last().0) by {
            if before.len() > 0 {
                assert(s[before.len() - 1].0 <= s[before.len() as int].0);
            }
        }
        assert forall|i: int, j: int| 0 <= i <= j < r.len() + 1 implies (#[trigger] r.push(
            s.last(),
        )[i]).0 <= (#[trigger] r.push(s.last())[j]).0 by {
            if j == r.len() && i < r.len() {
                assert(r[i].0 <= r[r.len() - 1].0);
            }
        }
    } else {
        assert(s.push(x).to_multiset() =~= s.to_multiset().insert(x));
        assert forall|i: int, j: int| 0 <= i <= j < s.len() + 1 implies (#[trigger] s.push(
            x,
        )[i]).0 <= (#[trigger] s.push(x)[j]).0 by {
            if j == s.len() && i < s.len() {
                assert(s[i].0 <= s[s.len() - 1].0);
            }
        }
    }
}

/// Ordering by ordinal orders by ordinal, and neither loses nor adds anything.
pub proof fn lemma_by_ordinal_sorts(s: Seq<(int, int)>)
    ensures
        by_ordinal(s).to_multiset() == s.to_multiset(),
        forall|i: int, j: int|
            0 <= i <= j < by_ordinal(s).len() ==> (#[trigger] by_ordinal(s)[i]).0 <= (
            #[trigger] by_ordinal(s)[j]).0,
    decreases s.len(),
{
    broadcast use vstd::seq_lib::group_to_multiset_ensures;

    if s.len() > 0 {
        lemma_by_ordinal_sorts(s.drop_last());
        lemma_insert_by_ordinal(by_ordinal(s.drop_last()), s.last());
        assert(s =~= s.drop_last().push(s.last()));
    }
}

/// Nothing is reported below the depth asked for: no table at schema depth, and no column or
/// constraint at table depth.
pub proof fn lemma_objects_stop_at_the_depth(
    depth: ObjectDepth,
    batches: ObjectBatches,
    db_schema: Option<&str>,
    table_name: Option<&str>,
    table_type: Option<&Vec<String>>,
    column_name: Option<&str>,
    n: int,
    i: int,
)
    requires
        batches.answer(depth),
        0 <= i < picked_schemas(batches, db_schema, table_name, table_type, column_name, n).len(),
    ensures
        ({
            let schema = picked_schemas(
                batches,
                db_schema,
                table_name,
                table_type,
                column_name,
                n,
            )[i];
            &&& !depth.has_tables() ==> schema.tables.len() == 0
            &&& !depth.has_columns() ==> forall|k: int|
                0 <= k < schema.tables.len() ==> (#[trigger] schema.tables[k]).columns.len() == 0
                    && schema.tables[k].constraints.len() == 0
        }),
    decreases n,
{
    if n > 0 {
        let before = picked_schemas(
            batches,
            db_schema,
            table_name,
            table_type,
            column_name,
            n - 1,
        );
        if i < before.len() {
            lemma_objects_stop_at_the_depth(
                depth,
                batches,
                db_schema,
                table_name,
                table_type,
                column_name,
                n - 1,
                i,
            );
        } else if !depth.has_columns() {
            let name = batches.schemas.text_at(0, n - 1);
            let rows = rows_named(batches.tables, name);
            lemma_tables_without_columns(
                batches,
                name,
                rows,
                table_name,
                table_type,
                column_name,
                rows.len() as int,
            );
        }
    }
}

proof fn lemma_tables_without_columns(
    batches: ObjectBatches,
    schema: Seq<char>,
    rows: Seq<usize>,
    table_name: Option<&str>,
    table_type: Option<&Vec<String>>,
    column_name: Option<&str>,
    n: int,
)
    requires
        batches.columns is None,
        batches.constraints is None,
    ensures
        forall|k: int|
            0 <= k < picked_tables(
                batches,
                schema,
                rows,
                table_name,
                table_type,
                column_name,
                n,
            ).len() ==> {
                let table = #[trigger] picked_tables(
                    batches,
                    schema,
                    rows,
                    table_name,
                    table_type,
                    column_name,
                    n,
                )[k];
                table.columns.len() == 0 && table.constraints.len() == 0
            },
    decreases n,
{
    if n > 0 {
        lemma_tables_without_columns(
            batches,
            schema,
            rows,
            table_name,
            table_type,
            column_name,
            n - 1,
        );
        let before = picked_tables(
            batches,
            schema,
            rows,
            table_name,
            table_type,
            column_name,
            n - 1,
        );
        let after = picked_tables(batches, schema, rows, table_name, table_type, column_name, n);
        assert forall|k: int| 0 <= k < after.len() implies (#[trigger] after[k]).columns.len() == 0
            && after[k].constraints.len() == 0 by {
            if k < before.len() {
                assert(after[k] == before[k]);
            }
        }
    }
}

/// Filters only ever leave objects out: every db schema that is reported passes the schema filter,
/// and every table in it the table-name and table-type filters.
pub proof fn lemma_reported_objects_pass_the_filters(
    batches: ObjectBatches,
    db_schema: Option<&str>,
    table_name: Option<&str>,
    table_type: Option<&Vec<String>>,
    column_name: Option<&str>,
    n: int,
    i: int,
)
    requires
        0 <= i < picked_schemas(batches, db_schema, table_name, table_type, column_name, n).len(),
    ensures
        ({
            let schema = picked_schemas(
                batches,
                db_schema,
                table_name,
                table_type,
                column_name,
                n,
            )[i];
            &&& passes(db_schema, schema.name)
            &&& forall|k: int|
                0 <= k < schema.tables.len() ==> passes(
                    table_name,
                    (#[trigger] schema.tables[k]).name,
                ) && type_passes(table_type, schema.tables[k].table_type)
        }),
    decreases n,
{
    if n > 0 {
        let before = picked_schemas(
            batches,
            db_schema,
            table_name,
            table_type,
            column_name,
            n - 1,
        );
        if i < before.len() {
            lemma_reported_objects_pass_the_filters(
                batches,
                db_schema,
                table_name,
                table_type,
                column_name,
                n - 1,
                i,
            );
        } else {
            let name = batches.schemas.text_at(0, n - 1);
            let rows = rows_named(batches.tables, name);
            lemma_picked_tables_pass(
                batches,
                name,
                rows,
                table_name,
                table_type,
                column_name,
                rows.len() as int,
            );
        }
    }
}

proof fn lemma_picked_tables_pass(
    batches: ObjectBatches,
    schema: Seq<char>,
    rows: Seq<usize>,
    table_name: Option<&str>,
    table_type: Option<&Vec<String>>,
    column_name: Option<&str>,
    n: int,
)
    ensures
        forall|k: int|
            0 <= k < picked_tables(
                batches,
                schema,
                rows,
                table_name,
                table_type,
                column_name,
                n,
            ).len() ==> {
                let t = #[trigger] picked_tables(
                    batches,
                    schema,
                    rows,
                    table_name,
                    table_type,
                    column_name,
                    n,
                )[k];
                passes(table_name, t.name) && type_passes(table_type, t.table_type)
            },
    decreases n,
{
    if n > 0 {
        lemma_picked_tables_pass(
            batches,
            schema,
            rows,
            table_name,
            table_type,
            column_name,
            n - 1,
        );
        let before = picked_tables(
            batches,
            schema,
            rows,
            table_name,
            table_type,
            column_name,
            n - 1,
        );
        let all = picked_tables(batches, schema, rows, table_name, table_type, column_name, n);
        assert forall|k: int| 0 <= k < all.len() implies {
            let t = #[trigger] all[k];
            passes(table_name, t.name) && type_passes(table_type, t.table_type)
        } by {
            if k < before.len() {
                assert(all[k] == before[k]);
            }
        }
    }
}

} // verus!
