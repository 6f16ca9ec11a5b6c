//! The decisions of single entry points of the C interface.

use vstd::prelude::*;

use crate::error::{invalid_argument, invalid_state, Error, Status};
use crate::guard::{
    missing_message, optional_str, optional_str_list, optional_text, optional_texts,
    required_output, required_str, required_text, texts_of,
};
use crate::info::{number_of, InfoCode};
use crate::objects::ObjectDepth;
use crate::options::{coerces, text_of};
use crate::text::{push_signed, signed_decimal};

verus! {

// ---------------------------------------------------------------------------------------------
// Initialization
// ---------------------------------------------------------------------------------------------

pub const ADBC_VERSION_1_0_0: i32 = 1_000_000;

pub const ADBC_VERSION_1_1_0: i32 = 1_001_000;

/// How much of the driver's table a caller has room for.
#[derive(Debug, Clone, Copy, PartialEq, Eq, Structural)]
pub enum Revision {
    /// The entry points of ADBC 1.0.0.
    V100,
    /// Those and the ones that ADBC 1.1.0 added.
    V110,
}

pub open spec fn unsupported_message(version: i32) -> Seq<char> {
    "unsupported ADBC version "@ + signed_decimal(version as int)
        + "; this driver implements 1000000 and 1001000"@
}

/// The table that a caller gets. An unknown version is not implemented rather than a bad argument:
/// callers then try a lower one.
pub fn init(version: i32, driver_is_null: bool) -> (r: Result<Revision, Error>)
    ensures
        driver_is_null ==> r is Err && r->Err_0.says(
            Status::InvalidArguments,
            "driver must not be null"@,
        ),
        !driver_is_null && version == ADBC_VERSION_1_1_0 ==> r == Ok::<Revision, Error>(
            Revision::V110,
        ),
        !driver_is_null && version == ADBC_VERSION_1_0_0 ==> r == Ok::<Revision, Error>(
            Revision::V100,
        ),
        !driver_is_null && version != ADBC_VERSION_1_1_0 && version != ADBC_VERSION_1_0_0 ==> r
            is Err && r->Err_0.says(Status::NotImplemented, unsupported_message(version)),
{
    if driver_is_null {
        return Err(invalid_argument("driver must not be null".to_owned()));
    }
    if version == ADBC_VERSION_1_1_0 {
        Ok(Revision::V110)
    } else if version == ADBC_VERSION_1_0_0 {
        Ok(Revision::V100)
    } else {
        let mut message = "unsupported ADBC version ".to_owned();
        push_signed(&mut message, version as i128);
        message.append("; this driver implements 1000000 and 1001000");
        Err(Error::with_message_and_status(message, Status::NotImplemented))
    }
}

/// Releases the driver's table. A null table is fine, and one that was released before is refused.
pub fn release_driver(driver_is_null: bool, releasable: &mut bool) -> (r: Result<(), Error>)
    ensures
        driver_is_null ==> r is Ok && *final(releasable) == *old(releasable),
        !driver_is_null ==> !*final(releasable),
        !driver_is_null && *old(releasable) ==> r is Ok,
        !driver_is_null && !*old(releasable) ==> r is Err && r->Err_0.says(
            Status::InvalidState,
            "driver is already released"@,
        ),
{
    if driver_is_null {
        return Ok(());
    }
    if !*releasable {
        return Err(invalid_state("driver is already released".to_owned()));
    }
    *releasable = false;
    Ok(())
}

// ---------------------------------------------------------------------------------------------
// Metadata
// ---------------------------------------------------------------------------------------------

pub open spec fn bad_depth_message(depth: i32) -> Seq<char> {
    "AdbcConnectionGetObjects depth "@ + signed_decimal(depth as int)
        + " is not a valid ADBC object depth; use 0 (all, including columns), 1 (catalogs), 2 (db_schemas), or 3 (tables)"@
}

/// The depth that a number of the C interface stands for.
pub open spec fn depth_of(depth: i32) -> Result<ObjectDepth, Seq<char>> {
    if depth == 0 {
        Ok(ObjectDepth::All)
    } else if depth == 1 {
        Ok(ObjectDepth::Catalogs)
    } else if depth == 2 {
        Ok(ObjectDepth::Schemas)
    } else if depth == 3 {
        Ok(ObjectDepth::Tables)
    } else {
        Err(bad_depth_message(depth))
    }
}

/// The depth that a number of the C interface stands for.
pub fn object_depth(depth: i32) -> (r: Result<ObjectDepth, Error>)
    ensures
        coerces(r, depth_of(depth)),
{
    if depth == 0 {
        Ok(ObjectDepth::All)
    } else if depth == 1 {
        Ok(ObjectDepth::Catalogs)
    } else if depth == 2 {
        Ok(ObjectDepth::Schemas)
    } else if depth == 3 {
        Ok(ObjectDepth::Tables)
    } else {
        let mut message = "AdbcConnectionGetObjects depth ".to_owned();
        push_signed(&mut message, depth as i128);
        message.append(
            " is not a valid ADBC object depth; use 0 (all, including columns), 1 (catalogs), 2 (db_schemas), or 3 (tables)",
        );
        Err(invalid_argument(message))
    }
}

/// Whether `code` is what the number stands for: a code with a name of its own wherever there is
/// one.
pub open spec fn stands_for(code: InfoCode, number: u32) -> bool {
    &&& number_of(code) == number
    &&& code is Other <==> !(number <= 6 || 100 <= number <= 103)
}

/// The codes that a caller asks about: everything for a null array, and exactly what it lists,
/// which may be nothing, for one that is not null.
pub fn requested_info(codes: Option<&Vec<u32>>) -> (r: Option<Vec<InfoCode>>)
    ensures
        match codes {
            None => r is None,
            Some(codes) => {
                &&& r is Some
                &&& r->Some_0@.len() == codes@.len()
                &&& forall|i: int|
                    0 <= i < codes@.len() ==> stands_for(#[trigger] r->Some_0@[i], codes@[i])
            },
        },
{
    match codes {
        None => None,
        Some(codes) => {
            let mut out: Vec<InfoCode> = Vec::new();
            let mut i: usize = 0;
            while i < codes.len()
                invariant
                    i <= codes@.len(),
                    out@.len() == i,
                    forall|k: int| 0 <= k < i ==> stands_for(#[trigger] out@[k], codes@[k]),
                decreases codes@.len() - i,
            {
                out.push(InfoCode::from_number(codes[i]));
                i = i + 1;
            }
            Some(out)
        },
    }
}

/// Why a null output is refused.
pub open spec fn output(is_null: bool, name: Seq<char>) -> Result<(), Seq<char>> {
    if is_null {
        Err(missing_message(name))
    } else {
        Ok(())
    }
}

/// What two steps in a row come to: what the second does, if the first succeeds.
pub open spec fn in_turn<A, B>(first: Result<A, Seq<char>>, second: Result<B, Seq<char>>) -> Result<
    B,
    Seq<char>,
> {
    match first {
        Ok(_) => second,
        Err(m) => Err(m),
    }
}

/// Which objects are asked for.
#[derive(Debug)]
pub struct ObjectsRequest {
    pub depth: ObjectDepth,
    pub catalog: Option<String>,
    pub db_schema: Option<String>,
    pub table_name: Option<String>,
    pub table_type: Option<Vec<String>>,
    pub column_name: Option<String>,
}

pub struct ObjectsView {
    pub depth: ObjectDepth,
    pub catalog: Option<Seq<char>>,
    pub db_schema: Option<Seq<char>>,
    pub table_name: Option<Seq<char>>,
    pub table_type: Option<Seq<Seq<char>>>,
    pub column_name: Option<Seq<char>>,
}

impl View for ObjectsRequest {
    type V = ObjectsView;

    open spec fn view(&self) -> ObjectsView {
        ObjectsView {
            depth: self.depth,
            catalog: text_of(self.catalog),
            db_schema: text_of(self.db_schema),
            table_name: text_of(self.table_name),
            table_type: texts_of(self.table_type),
            column_name: text_of(self.column_name),
        }
    }
}

/// What `AdbcConnectionGetObjects` is asked for. The arguments are checked in the order of the call,
/// the output and the depth before the filters.
pub open spec fn objects_arguments(
    out_is_null: bool,
    depth: i32,
    catalog: Option<&[u8]>,
    db_schema: Option<&[u8]>,
    table_name: Option<&[u8]>,
    table_type: Option<&Vec<Vec<u8>>>,
    column_name: Option<&[u8]>,
) -> Result<ObjectsView, Seq<char>> {
    let catalog = optional_text(catalog, "catalog"@);
    let db_schema = optional_text(db_schema, "db_schema"@);
    let table_name = optional_text(table_name, "table_name"@);
    let table_type = optional_texts(table_type, "table_type"@);
    let column_name = optional_text(column_name, "column_name"@);
    in_turn(
        output(out_is_null, "out"@),
        in_turn(
            depth_of(depth),
            in_turn(
                catalog,
                in_turn(
                    db_schema,
                    in_turn(
                        table_name,
                        in_turn(
                            table_type,
                            in_turn(
                                column_name,
                                Ok(
                                    ObjectsView {
                                        depth: depth_of(depth)->Ok_0,
                                        catalog: catalog->Ok_0,
                                        db_schema: db_schema->Ok_0,
                                        table_name: table_name->Ok_0,
                                        table_type: table_type->Ok_0,
                                        column_name: column_name->Ok_0,
                                    },
                                ),
                            ),
                        ),
                    ),
                ),
            ),
        ),
    )
}

/// Reads the arguments of `AdbcConnectionGetObjects`.
pub fn objects_request(
    out_is_null: bool,
    depth: i32,
    catalog: Option<&[u8]>,
    db_schema: Option<&[u8]>,
    table_name: Option<&[u8]>,
    table_type: Option<&Vec<Vec<u8>>>,
    column_name: Option<&[u8]>,
) -> (r: Result<ObjectsRequest, Error>)
    ensures
        match objects_arguments(
            out_is_null,
            depth,
            catalog,
            db_schema,
            table_name,
            table_type,
            column_name,
        ) {
            Ok(request) => r is Ok && r->Ok_0@ == request,
            Err(m) => r is Err && r->Err_0.says(Status::InvalidArguments, m),
        },
{
    match required_output(out_is_null, "out") {
        Ok(()) => {},
        Err(e) => {
            return Err(e);
        },
    }
    let depth = match object_depth(depth) {
        Ok(d) => d,
        Err(e) => {
            return Err(e);
        },
    };
    let catalog = match optional_str(catalog, "catalog") {
        Ok(s) => s,
        Err(e) => {
            return Err(e);
        },
    };
    let db_schema = match optional_str(db_schema, "db_schema") {
        Ok(s) => s,
        Err(e) => {
            return Err(e);
        },
    };
    let table_name = match optional_str(table_name, "table_name") {
        Ok(s) => s,
        Err(e) => {
            return Err(e);
        },
    };
    let table_type = match optional_str_list(table_type, "table_type") {
        Ok(list) => list,
        Err(e) => {
            return Err(e);
        },
    };
    let column_name = match optional_str(column_name, "column_name") {
        Ok(s) => s,
        Err(e) => {
            return Err(e);
        },
    };
    Ok(ObjectsRequest { depth, catalog, db_schema, table_name, table_type, column_name })
}

/// Which table is looked up.
#[derive(Debug)]
pub struct TableLookup {
    pub catalog: Option<String>,
    pub db_schema: Option<String>,
    pub table_name: String,
}

pub struct TableLookupView {
    pub catalog: Option<Seq<char>>,
    pub db_schema: Option<Seq<char>>,
    pub table_name: Seq<char>,
}

impl View for TableLookup {
    type V = TableLookupView;

    open spec fn view(&self) -> TableLookupView {
        TableLookupView {
            catalog: text_of(self.catalog),
            db_schema: text_of(self.db_schema),
            table_name: self.table_name@,
        }
    }
}

/// What `AdbcConnectionGetTableSchema` is asked for. It looks up one table, so the name is no filter
/// and must be there.
pub open spec fn table_arguments(
    schema_is_null: bool,
    catalog: Option<&[u8]>,
    db_schema: Option<&[u8]>,
    table_name: Option<&[u8]>,
) -> Result<TableLookupView, Seq<char>> {
    let catalog = optional_text(catalog, "catalog"@);
    let db_schema = optional_text(db_schema, "db_schema"@);
    let table_name = required_text(table_name, "table_name"@);
    in_turn(
        output(schema_is_null, "schema"@),
        in_turn(
            catalog,
            in_turn(
                db_schema,
                in_turn(
                    table_name,
                    Ok(
                        TableLookupView {
                            catalog: catalog->Ok_0,
                            db_schema: db_schema->Ok_0,
                            table_name: table_name->Ok_0,
                        },
                    ),
                ),
            ),
        ),
    )
}

/// Reads the arguments of `AdbcConnectionGetTableSchema`.
pub fn table_lookup(
    schema_is_null: bool,
    catalog: Option<&[u8]>,
    db_schema: Option<&[u8]>,
    table_name: Option<&[u8]>,
) -> (r: Result<TableLookup, Error>)
    ensures
        match table_arguments(schema_is_null, catalog, db_schema, table_name) {
            Ok(lookup) => r is Ok && r->Ok_0@ == lookup,
            Err(m) => r is Err && r->Err_0.says(Status::InvalidArguments, m),
        },
{
    match required_output(schema_is_null, "schema") {
        Ok(()) => {},
        Err(e) => {
            return Err(e);
        },
    }
    let catalog = match optional_str(catalog, "catalog") {
        Ok(s) => s,
        Err(e) => {
            return Err(e);
        },
    };
    let db_schema = match optional_str(db_schema, "db_schema") {
        Ok(s) => s,
        Err(e) => {
            return Err(e);
        },
    };
    match required_str(table_name, "table_name") {
        Ok(table_name) => Ok(TableLookup { catalog, db_schema, table_name }),
        Err(e) => Err(e),
    }
}

/// Which statistics are asked for.
#[derive(Debug)]
pub struct StatisticsRequest {
    pub catalog: Option<String>,
    pub db_schema: Option<String>,
    pub table_name: Option<String>,
    pub approximate: bool,
}

pub struct StatisticsView {
    pub catalog: Option<Seq<char>>,
    pub db_schema: Option<Seq<char>>,
    pub table_name: Option<Seq<char>>,
    pub approximate: bool,
}

impl View for StatisticsRequest {
    type V = StatisticsView;

    open spec fn view(&self) -> StatisticsView {
        StatisticsView {
            catalog: text_of(self.catalog),
            db_schema: text_of(self.db_schema),
            table_name: text_of(self.table_name),
            approximate: self.approximate,
        }
    }
}

/// What `AdbcConnectionGetStatistics` is asked for. A truth value of the C interface is false only
/// for zero.
pub open spec fn statistics_arguments(
    out_is_null: bool,
    catalog: Option<&[u8]>,
    db_schema: Option<&[u8]>,
    table_name: Option<&[u8]>,
    approximate: u8,
) -> Result<StatisticsView, Seq<char>> {
    let catalog = optional_text(catalog, "catalog"@);
    let db_schema = optional_text(db_schema, "db_schema"@);
    let table_name = optional_text(table_name, "table_name"@);
    in_turn(
        output(out_is_null, "out"@),
        in_turn(
            catalog,
            in_turn(
                db_schema,
                in_turn(
                    table_name,
                    Ok(
                        StatisticsView {
                            catalog: catalog->Ok_0,
                            db_schema: db_schema->Ok_0,
                            table_name: table_name->Ok_0,
                            approximate: approximate != 0,
                        },
                    ),
                ),
            ),
        ),
    )
}

/// Reads the arguments of `AdbcConnectionGetStatistics`.
pub fn statistics_request(
    out_is_null: bool,
    catalog: Option<&[u8]>,
    db_schema: Option<&[u8]>,
    table_name: Option<&[u8]>,
    approximate: u8,
) -> (r: Result<StatisticsRequest, Error>)
    ensures
        match statistics_arguments(out_is_null, catalog, db_schema, table_name, approximate) {
            Ok(request) => r is Ok && r->Ok_0@ == request,
            Err(m) => r is Err && r->Err_0.says(Status::InvalidArguments, m),
        },
{
    match required_output(out_is_null, "out") {
        Ok(()) => {},
        Err(e) => {
            return Err(e);
        },
    }
    let catalog = match optional_str(catalog, "catalog") {
        Ok(s) => s,
        Err(e) => {
            return Err(e);
        },
    };
    let db_schema = match optional_str(db_schema, "db_schema") {
        Ok(s) => s,
        Err(e) => {
            return Err(e);
        },
    };
    match optional_str(table_name, "table_name") {
        Ok(table_name) => Ok(
            StatisticsRequest { catalog, db_schema, table_name, approximate: approximate != 0 },
        ),
        Err(e) => Err(e),
    }
}

// ---------------------------------------------------------------------------------------------
// Results
// ---------------------------------------------------------------------------------------------

/// The row count that an execution reports: that of an update, as far as it is known, and -1, which
/// stands for "unknown", for everything else.
pub fn rows_affected(wants_rows: bool, updated: Option<i64>) -> (r: i64)
    ensures
        r == if !wants_rows && updated is Some {
            updated->Some_0 as int
        } else {
            -1
        },
{
    if wants_rows {
        -1
    } else {
        match updated {
            Some(n) => n,
            None => -1,
        }
    }
}

/// Partitions as they are handed to a caller: the partitions themselves, which stay put until they
/// are released, and their lengths side by side.
#[derive(Debug)]
pub struct ExportedPartitions {
    pub payloads: Option<Vec<Vec<u8>>>,
    pub lengths: Vec<usize>,
}

/// Checks the outputs of `AdbcStatementExecutePartitions`, before a query is run whose result nobody
/// could collect.
pub fn partition_outputs(schema_is_null: bool, partitions_is_null: bool) -> (r: Result<(), Error>)
    ensures
        coerces(r, in_turn(output(schema_is_null, "schema"@), output(partitions_is_null, "partitions"@))),
{
    match required_output(schema_is_null, "schema") {
        Ok(()) => required_output(partitions_is_null, "partitions"),
        Err(e) => Err(e),
    }
}

/// Hands out partitions.
pub fn export_partitions(payloads: Vec<Vec<u8>>) -> (r: ExportedPartitions)
    ensures
        r.payloads == Some(payloads),
        r.lengths@.len() == payloads@.len(),
        forall|i: int|
            0 <= i < payloads@.len() ==> #[trigger] r.lengths@[i] == payloads@[i]@.len(),
{
    let mut lengths: Vec<usize> = Vec::new();
    let mut i: usize = 0;
    while i < payloads.len()
        invariant
            i <= payloads@.len(),
            lengths@.len() == i,
            forall|k: int| 0 <= k < i ==> #[trigger] lengths@[k] == payloads@[k]@.len(),
        decreases payloads@.len() - i,
    {
        lengths.push(payloads[i].len());
        i = i + 1;
    }
    ExportedPartitions { payloads: Some(payloads), lengths }
}

/// Releases partitions. There are none afterwards, and releasing them again changes nothing.
pub fn release_partitions(partitions: &mut ExportedPartitions)
    ensures
        final(partitions).payloads is None,
        final(partitions).lengths@.len() == 0,
{
    partitions.payloads = None;
    partitions.lengths = Vec::new();
}

} // verus!
