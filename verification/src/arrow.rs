//! Arrow arrays as the values they hold.
//!
//! An Arrow array is an opaque [`ArrayData`] here. Three names say what is known of one:
//! [`array_cells`], the values it holds, [`array_type`], its data type, and [`is_array`], that there
//! is an array behind it at all. The functions of this module make the calls into the Arrow crates;
//! each states what the array that comes back holds, and when there is one.

use std::sync::Arc;

use adbc_core::schemas::{GET_INFO_SCHEMA, GET_OBJECTS_SCHEMA};
use arrow_array::{
    make_array, new_empty_array, new_null_array, Array, ArrayRef, BooleanArray, Int32Array,
    Int64Array, ListArray, RecordBatch, StringArray, StructArray, UInt32Array, UnionArray,
};
use arrow_buffer::{NullBuffer, OffsetBuffer, ScalarBuffer};
use arrow_data::ArrayData;
use arrow_schema::{ArrowError, DataType, Field, Fields};
use vstd::prelude::*;
use vstd::utf8::encode_utf8;

verus! {

/// An Arrow array of any type.
#[verifier::external_type_specification]
#[verifier::external_body]
pub struct ExArrayData(arrow_data::ArrayData);

/// Why Arrow refused to assemble an array.
#[verifier::external_type_specification]
#[verifier::external_body]
pub struct ExArrowError(arrow_schema::ArrowError);

/// One value of an Arrow array.
pub enum Cell {
    Null,
    Text(Seq<char>),
    Int(int),
    Bool(bool),
    List(Seq<Cell>),
    /// The fields of a struct, each with its name.
    Struct(Seq<(Seq<char>, Cell)>),
}

/// The Arrow data types that metadata results are made of. The item of a list is nullable and
/// bears Arrow's default name.
pub enum ArrowType {
    Utf8,
    Boolean,
    Int16,
    Int32,
    Int64,
    UInt32,
    List(Box<ArrowType>),
    Struct(Seq<ArrowField>),
    /// The map in the last branch of ADBC's `info_value` column.
    InfoMap,
    /// The dense union of ADBC's `info_value` column.
    InfoValue,
    /// Any type that no metadata result holds.
    Other,
}

/// A named field of a struct.
pub struct ArrowField {
    pub name: Seq<char>,
    pub nullable: bool,
    pub data_type: ArrowType,
}

/// The values that an Arrow array holds.
pub uninterp spec fn array_cells(array: ArrayData) -> Seq<Cell>;

/// The data type of an Arrow array.
pub uninterp spec fn array_type(array: ArrayData) -> ArrowType;

/// Whether `make_array` turns the data into an array: its type is one that Arrow has arrays of, and
/// its buffers and children are those of its type, all the way down. `make_array` panics on anything
/// else, such as a 32-bit time in nanoseconds or data from elsewhere that was never validated. The
/// data of every array that Arrow built is of this kind.
pub uninterp spec fn is_array(array: ArrayData) -> bool;

/// The number of UTF-8 bytes in all texts among `cells` together.
pub open spec fn utf8_total(cells: Seq<Cell>) -> nat
    decreases cells.len(),
{
    if cells.len() == 0 {
        0
    } else {
        utf8_total(cells.drop_last()) + match cells.last() {
            Cell::Text(s) => encode_utf8(s).len(),
            _ => 0,
        }
    }
}

pub open spec fn text_cell(value: Option<String>) -> Cell {
    match value {
        Some(s) => Cell::Text(s@),
        None => Cell::Null,
    }
}

pub open spec fn text_cells(values: Seq<Option<String>>) -> Seq<Cell> {
    values.map_values(|v: Option<String>| text_cell(v))
}

pub open spec fn int32_cell(value: Option<i32>) -> Cell {
    match value {
        Some(i) => Cell::Int(i as int),
        None => Cell::Null,
    }
}

pub open spec fn int64_cell(value: Option<i64>) -> Cell {
    match value {
        Some(i) => Cell::Int(i as int),
        None => Cell::Null,
    }
}

pub open spec fn bool_cell(value: Option<bool>) -> Cell {
    match value {
        Some(b) => Cell::Bool(b),
        None => Cell::Null,
    }
}

/// `StringArray::from` a vector of optional strings: one text per entry, NULL where it is absent.
/// Its offsets are 32 bits wide and it panics when the texts outgrow them, hence the bound.
#[verifier::external_body]
pub(crate) fn utf8_array(values: Vec<Option<String>>) -> (r: ArrayData)
    requires
        utf8_total(text_cells(values@)) <= i32::MAX,
    ensures
        array_cells(r) == text_cells(values@),
        array_type(r) == ArrowType::Utf8,
        is_array(r),
{
    StringArray::from(values).into_data()
}

/// `Int32Array::from` a vector of optional integers: one integer per entry, NULL where it is absent.
#[verifier::external_body]
pub(crate) fn int32_array(values: Vec<Option<i32>>) -> (r: ArrayData)
    ensures
        array_cells(r) == values@.map_values(|v: Option<i32>| int32_cell(v)),
        array_type(r) == ArrowType::Int32,
        is_array(r),
{
    Int32Array::from(values).into_data()
}

/// `Int64Array::from` a vector of optional integers: one integer per entry, NULL where it is absent.
#[verifier::external_body]
pub(crate) fn int64_array(values: Vec<Option<i64>>) -> (r: ArrayData)
    ensures
        array_cells(r) == values@.map_values(|v: Option<i64>| int64_cell(v)),
        array_type(r) == ArrowType::Int64,
        is_array(r),
{
    Int64Array::from(values).into_data()
}

/// `UInt32Array::from` a vector of integers: one integer per entry.
#[verifier::external_body]
pub(crate) fn uint32_array(values: Vec<u32>) -> (r: ArrayData)
    ensures
        array_cells(r) == values@.map_values(|v: u32| Cell::Int(v as int)),
        array_type(r) == ArrowType::UInt32,
        is_array(r),
{
    UInt32Array::from(values).into_data()
}

/// `BooleanArray::from` a vector of optional truth values: one per entry, NULL where it is absent.
#[verifier::external_body]
pub(crate) fn bool_array(values: Vec<Option<bool>>) -> (r: ArrayData)
    ensures
        array_cells(r) == values@.map_values(|v: Option<bool>| bool_cell(v)),
        array_type(r) == ArrowType::Boolean,
        is_array(r),
{
    BooleanArray::from(values).into_data()
}

/// The types of columns that are NULL throughout.
#[derive(Debug, Clone, Copy, PartialEq, Eq, Structural)]
pub enum NullType {
    Utf8,
    Boolean,
    Int16,
    Int32,
}

pub open spec fn null_arrow_type(data_type: NullType) -> ArrowType {
    match data_type {
        NullType::Utf8 => ArrowType::Utf8,
        NullType::Boolean => ArrowType::Boolean,
        NullType::Int16 => ArrowType::Int16,
        NullType::Int32 => ArrowType::Int32,
    }
}

/// `new_null_array`: an array of `len` NULLs of the given type. The bound keeps its buffer sizes
/// within range.
#[verifier::external_body]
pub(crate) fn null_array(data_type: NullType, len: usize) -> (r: ArrayData)
    requires
        len <= i32::MAX,
    ensures
        array_cells(r) == Seq::new(len as nat, |i: int| Cell::Null),
        array_type(r) == null_arrow_type(data_type),
        is_array(r),
{
    let data_type = match data_type {
        NullType::Utf8 => DataType::Utf8,
        NullType::Boolean => DataType::Boolean,
        NullType::Int16 => DataType::Int16,
        NullType::Int32 => DataType::Int32,
    };
    new_null_array(&data_type, len).to_data()
}

/// Offsets that delimit consecutive runs: not empty, not negative and never decreasing.
pub open spec fn are_offsets(offsets: Seq<i32>) -> bool {
    &&& offsets.len() > 0
    &&& offsets[0] >= 0
    &&& forall|i: int, j: int|
        0 <= i <= j < offsets.len() ==> #[trigger] offsets[i] <= #[trigger] offsets[j]
}

/// Whether entry `i` is not NULL.
pub open spec fn is_valid(validity: Option<Vec<bool>>, i: int) -> bool {
    match validity {
        Some(v) => v@[i],
        None => true,
    }
}

/// The lists that `offsets` cut out of `items`, NULL where `validity` says so.
pub open spec fn list_cells(
    offsets: Seq<i32>,
    validity: Option<Vec<bool>>,
    items: Seq<Cell>,
) -> Seq<Cell> {
    Seq::new(
        (offsets.len() - 1) as nat,
        |i: int|
            if is_valid(validity, i) {
                Cell::List(items.subrange(offsets[i] as int, offsets[i + 1] as int))
            } else {
                Cell::Null
            },
    )
}

/// Whether the offsets stay within the items, and the validity has one entry per list.
pub open spec fn list_fits(
    offsets: Seq<i32>,
    validity: Option<Vec<bool>>,
    items: Seq<Cell>,
) -> bool {
    &&& offsets.last() <= items.len()
    &&& match validity {
        Some(v) => v@.len() == offsets.len() - 1,
        None => true,
    }
}

/// `ListArray::try_new` over the items of `child`. It refuses offsets that reach beyond the items
/// and a validity of another length; `OffsetBuffer::new` panics on offsets that are none, and
/// `make_array` on a child that is no array.
#[verifier::external_body]
pub(crate) fn list_array(
    offsets: Vec<i32>,
    validity: Option<Vec<bool>>,
    child: ArrayData,
) -> (r: Result<ArrayData, ArrowError>)
    requires
        are_offsets(offsets@),
        is_array(child),
    ensures
        r is Ok <==> list_fits(offsets@, validity, array_cells(child)),
        r matches Ok(a) ==> {
            &&& array_cells(a) == list_cells(offsets@, validity, array_cells(child))
            &&& array_type(a) == ArrowType::List(Box::new(array_type(child)))
            &&& is_array(a)
        },
{
    let item = Arc::new(Field::new_list_field(child.data_type().clone(), true));
    let offsets = OffsetBuffer::new(ScalarBuffer::from(offsets));
    let nulls = validity.map(NullBuffer::from);
    Ok(ListArray::try_new(item, offsets, make_array(child), nulls)?.into_data())
}

/// A column of a struct: its name, whether NULLs are allowed in it, and its values.
pub type StructColumn = (String, bool, ArrayData);

/// The struct in row `i` of `columns`.
pub open spec fn struct_cell(columns: Seq<StructColumn>, i: int) -> Cell {
    Cell::Struct(
        Seq::new(columns.len(), |k: int| (columns[k].0@, array_cells(columns[k].2)[i])),
    )
}

/// The fields that `columns` stand for.
pub open spec fn struct_type(columns: Seq<StructColumn>) -> ArrowType {
    ArrowType::Struct(
        Seq::new(
            columns.len(),
            |k: int|
                ArrowField {
                    name: columns[k].0@,
                    nullable: columns[k].1,
                    data_type: array_type(columns[k].2),
                },
        ),
    )
}

/// Whether the columns make up a struct array: there is at least one, all are of one length, and
/// those that allow no NULLs hold none.
pub open spec fn are_struct_columns(columns: Seq<StructColumn>) -> bool {
    &&& columns.len() > 0
    &&& forall|k: int|
        0 <= k < columns.len() ==> {
            &&& array_cells((#[trigger] columns[k]).2).len() == array_cells(columns[0].2).len()
            &&& !columns[k].1 ==> forall|i: int|
                0 <= i < array_cells(columns[k].2).len() ==> #[trigger] array_cells(
                    columns[k].2,
                )[i] != Cell::Null
        }
}

/// Whether every column holds an array.
pub open spec fn are_arrays(columns: Seq<StructColumn>) -> bool {
    forall|k: int| 0 <= k < columns.len() ==> is_array((#[trigger] columns[k]).2)
}

/// `StructArray::try_new` without NULL rows. It refuses columns that do not make up a struct array;
/// `make_array` panics on a column that is no array.
#[verifier::external_body]
pub(crate) fn struct_array(columns: Vec<StructColumn>) -> (r: Result<ArrayData, ArrowError>)
    requires
        are_arrays(columns@),
    ensures
        r is Ok <==> are_struct_columns(columns@),
        r matches Ok(a) ==> {
            &&& array_cells(a) == Seq::new(
                array_cells(columns@[0].2).len(),
                |i: int| struct_cell(columns@, i),
            )
            &&& array_type(a) == struct_type(columns@)
            &&& is_array(a)
        },
{
    let (fields, arrays): (Vec<Field>, Vec<ArrayRef>) = columns
        .into_iter()
        .map(|(name, nullable, data)| {
            (Field::new(name, data.data_type().clone(), nullable), make_array(data))
        })
        .unzip();
    Ok(StructArray::try_new(Fields::from(fields), arrays, None)?.into_data())
}

/// The type of `catalog_db_schemas` in a `get_objects` result.
pub open spec fn db_schemas_type() -> ArrowType {
    list_of_structs(
        seq![
            arrow_field("db_schema_name"@, true, ArrowType::Utf8),
            arrow_field("db_schema_tables"@, true, tables_type()),
        ],
    )
}

pub open spec fn tables_type() -> ArrowType {
    list_of_structs(
        seq![
            arrow_field("table_name"@, false, ArrowType::Utf8),
            arrow_field("table_type"@, false, ArrowType::Utf8),
            arrow_field("table_columns"@, true, columns_type()),
            arrow_field("table_constraints"@, true, constraints_type()),
        ],
    )
}

pub open spec fn columns_type() -> ArrowType {
    list_of_structs(
        seq![
            arrow_field("column_name"@, false, ArrowType::Utf8),
            arrow_field("ordinal_position"@, true, ArrowType::Int32),
            arrow_field("remarks"@, true, ArrowType::Utf8),
            arrow_field("xdbc_data_type"@, true, ArrowType::Int16),
            arrow_field("xdbc_type_name"@, true, ArrowType::Utf8),
            arrow_field("xdbc_column_size"@, true, ArrowType::Int32),
            arrow_field("xdbc_decimal_digits"@, true, ArrowType::Int16),
            arrow_field("xdbc_num_prec_radix"@, true, ArrowType::Int16),
            arrow_field("xdbc_nullable"@, true, ArrowType::Int16),
            arrow_field("xdbc_column_def"@, true, ArrowType::Utf8),
            arrow_field("xdbc_sql_data_type"@, true, ArrowType::Int16),
            arrow_field("xdbc_datetime_sub"@, true, ArrowType::Int16),
            arrow_field("xdbc_char_octet_length"@, true, ArrowType::Int32),
            arrow_field("xdbc_is_nullable"@, true, ArrowType::Utf8),
            arrow_field("xdbc_scope_catalog"@, true, ArrowType::Utf8),
            arrow_field("xdbc_scope_schema"@, true, ArrowType::Utf8),
            arrow_field("xdbc_scope_table"@, true, ArrowType::Utf8),
            arrow_field("xdbc_is_autoincrement"@, true, ArrowType::Boolean),
            arrow_field("xdbc_is_generatedcolumn"@, true, ArrowType::Boolean),
        ],
    )
}

pub open spec fn constraints_type() -> ArrowType {
    list_of_structs(
        seq![
            arrow_field("constraint_name"@, true, ArrowType::Utf8),
            arrow_field("constraint_type"@, false, ArrowType::Utf8),
            arrow_field(
                "constraint_column_names"@,
                false,
                ArrowType::List(Box::new(ArrowType::Utf8)),
            ),
            arrow_field("constraint_column_usage"@, true, usages_type()),
        ],
    )
}

pub open spec fn usages_type() -> ArrowType {
    list_of_structs(
        seq![
            arrow_field("fk_catalog"@, true, ArrowType::Utf8),
            arrow_field("fk_db_schema"@, true, ArrowType::Utf8),
            arrow_field("fk_table"@, false, ArrowType::Utf8),
            arrow_field("fk_column_name"@, false, ArrowType::Utf8),
        ],
    )
}

pub open spec fn list_of_structs(fields: Seq<ArrowField>) -> ArrowType {
    ArrowType::List(Box::new(ArrowType::Struct(fields)))
}

pub open spec fn arrow_field(name: Seq<char>, nullable: bool, data_type: ArrowType) -> ArrowField {
    ArrowField { name, nullable, data_type }
}

/// The type of a `get_objects` result.
pub open spec fn objects_type() -> ArrowType {
    ArrowType::Struct(
        seq![
            arrow_field("catalog_name"@, true, ArrowType::Utf8),
            arrow_field("catalog_db_schemas"@, true, db_schemas_type()),
        ],
    )
}

/// The rows of a `get_objects` result.
pub open spec fn objects_rows(catalog_names: Seq<Cell>, db_schemas: Seq<Cell>) -> Seq<Cell> {
    Seq::new(
        catalog_names.len(),
        |i: int|
            Cell::Struct(
                seq![
                    ("catalog_name"@, catalog_names[i]),
                    ("catalog_db_schemas"@, db_schemas[i]),
                ],
            ),
    )
}

/// `RecordBatch::try_new` under `adbc_core`'s `GET_OBJECTS_SCHEMA`, whose two columns are a text and
/// a list of db schemas, both nullable; the batch is returned as the struct array of its rows. It
/// refuses columns of other types or of unequal length; `make_array` panics on a column that is no
/// array.
#[verifier::external_body]
pub(crate) fn objects_batch(catalog_name: ArrayData, db_schemas: ArrayData) -> (r: Result<
    ArrayData,
    ArrowError,
>)
    requires
        is_array(catalog_name),
        is_array(db_schemas),
    ensures
        r is Ok <==> {
            &&& array_type(catalog_name) == ArrowType::Utf8
            &&& array_type(db_schemas) == db_schemas_type()
            &&& array_cells(catalog_name).len() == array_cells(db_schemas).len()
        },
        r matches Ok(a) ==> {
            &&& array_cells(a) == objects_rows(array_cells(catalog_name), array_cells(db_schemas))
            &&& array_type(a) == objects_type()
            &&& is_array(a)
        },
{
    let columns = vec![make_array(catalog_name), make_array(db_schemas)];
    let batch = RecordBatch::try_new(GET_OBJECTS_SCHEMA.clone(), columns)?;
    Ok(StructArray::from(batch).into_data())
}

/// `new_empty_array` of the type of the map in the last branch of ADBC's `info_value` union: the
/// `DataType::Map` from 32-bit integers to lists of them.
#[verifier::external_body]
pub(crate) fn empty_info_map() -> (r: ArrayData)
    ensures
        array_cells(r) == Seq::<Cell>::empty(),
        array_type(r) == ArrowType::InfoMap,
        is_array(r),
{
    let key = Field::new("key", DataType::Int32, false);
    let item = Field::new_list_field(DataType::Int32, true);
    let value = Field::new_list("value", item, true);
    let map = Field::new_map("int32_to_int32_list_map", "entries", key, value, false, true);
    new_empty_array(map.data_type()).to_data()
}

/// The types of the branches of ADBC's `info_value` union, by their type ids.
pub open spec fn info_branch_types() -> Seq<ArrowType> {
    seq![
        ArrowType::Utf8,
        ArrowType::Boolean,
        ArrowType::Int64,
        ArrowType::Int32,
        ArrowType::List(Box::new(ArrowType::Utf8)),
        ArrowType::InfoMap,
    ]
}

/// Whether the arrays are the branches of ADBC's `info_value` union.
pub open spec fn are_info_branches(branches: Seq<ArrayData>) -> bool {
    &&& branches.len() == info_branch_types().len()
    &&& forall|i: int|
        0 <= i < branches.len() ==> array_type(#[trigger] branches[i]) == info_branch_types()[i]
            && is_array(branches[i])
}

/// The values of each branch.
pub open spec fn branch_cells(branches: Seq<ArrayData>) -> Seq<Seq<Cell>> {
    branches.map_values(|b: ArrayData| array_cells(b))
}

/// Whether every row of the union points into a branch.
pub open spec fn union_fits(
    type_ids: Seq<i8>,
    offsets: Seq<i32>,
    branches: Seq<Seq<Cell>>,
) -> bool {
    &&& type_ids.len() == offsets.len()
    &&& forall|i: int|
        0 <= i < type_ids.len() ==> {
            &&& 0 <= #[trigger] type_ids[i] < branches.len()
            &&& 0 <= offsets[i] < branches[type_ids[i] as int].len()
        }
}

/// The values of the union: each row holds the value at its offset in its branch.
pub open spec fn union_cells(
    type_ids: Seq<i8>,
    offsets: Seq<i32>,
    branches: Seq<Seq<Cell>>,
) -> Seq<Cell> {
    Seq::new(type_ids.len(), |i: int| branches[type_ids[i] as int][offsets[i] as int])
}

/// `UnionArray::try_new` over the branches of the `info_value` column of `adbc_core`'s
/// `GET_INFO_SCHEMA`. It refuses rows that point outside their branch; `make_array` panics on a
/// branch that is no array.
#[verifier::external_body]
pub(crate) fn info_union(type_ids: Vec<i8>, offsets: Vec<i32>, branches: Vec<ArrayData>) -> (r:
    Result<ArrayData, ArrowError>)
    requires
        are_info_branches(branches@),
    ensures
        r is Ok <==> union_fits(type_ids@, offsets@, branch_cells(branches@)),
        r matches Ok(a) ==> {
            &&& array_cells(a) == union_cells(type_ids@, offsets@, branch_cells(branches@))
            &&& array_type(a) == ArrowType::InfoValue
            &&& is_array(a)
        },
{
    let fields = match GET_INFO_SCHEMA.field(1).data_type() {
        DataType::Union(fields, _) => fields.clone(),
        other => return Err(ArrowError::SchemaError(format!("info_value is not a union: {other}"))),
    };
    let children = branches.into_iter().map(make_array).collect();
    let (type_ids, offsets) = (ScalarBuffer::from(type_ids), ScalarBuffer::from(offsets));
    Ok(UnionArray::try_new(fields, type_ids, Some(offsets), children)?.into_data())
}

/// The type of a `get_info` result.
pub open spec fn info_type() -> ArrowType {
    ArrowType::Struct(
        seq![
            arrow_field("info_name"@, false, ArrowType::UInt32),
            arrow_field("info_value"@, true, ArrowType::InfoValue),
        ],
    )
}

/// The rows of a `get_info` result.
pub open spec fn info_rows(names: Seq<Cell>, values: Seq<Cell>) -> Seq<Cell> {
    Seq::new(
        names.len(),
        |i: int| Cell::Struct(seq![("info_name"@, names[i]), ("info_value"@, values[i])]),
    )
}

/// `RecordBatch::try_new` under `adbc_core`'s `GET_INFO_SCHEMA`, whose columns are a code without
/// NULLs and the value union; the batch is returned as the struct array of its rows. It refuses
/// columns of other types or of unequal length, and codes that are NULL; `make_array` panics on a
/// column that is no array.
#[verifier::external_body]
pub(crate) fn info_batch(names: ArrayData, values: ArrayData) -> (r: Result<ArrayData, ArrowError>)
    requires
        is_array(names),
        is_array(values),
    ensures
        r is Ok <==> {
            &&& array_type(names) == ArrowType::UInt32
            &&& array_type(values) == ArrowType::InfoValue
            &&& array_cells(names).len() == array_cells(values).len()
            &&& !array_cells(names).contains(Cell::Null)
        },
        r matches Ok(a) ==> {
            &&& array_cells(a) == info_rows(array_cells(names), array_cells(values))
            &&& array_type(a) == info_type()
            &&& is_array(a)
        },
{
    let columns = vec![make_array(names), make_array(values)];
    let batch = RecordBatch::try_new(GET_INFO_SCHEMA.clone(), columns)?;
    Ok(StructArray::from(batch).into_data())
}

/// The text behind an Arrow error. Nothing is said of it: it is Arrow's own wording.
#[verifier::external_body]
pub(crate) fn arrow_error_text(error: &ArrowError) -> (r: String) {
    format!("{error}")
}

} // verus!
