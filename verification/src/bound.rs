//! Bound values: record batches and streams of them that a caller hands over through the Arrow C
//! interfaces.
//!
//! What arrives that way is only the producer's word until it has been looked at, so every array is
//! validated here, before anything reads it. Arrow does that; the few claims that its validation
//! itself cannot cope with are looked for first. The calls through the producer's function pointers
//! are made elsewhere; their results come in as plain values.

use arrow_data::ArrayData;
use arrow_schema::{DataType, UnionMode};
use vstd::prelude::*;

use crate::error::{invalid_argument, Error, Status};
use crate::text::{
    debug_quoted, debug_text, decimal, push_decimal, push_signed, signed_decimal, texts,
};

verus! {

// ---------------------------------------------------------------------------------------------
// What Arrow says of an array
// ---------------------------------------------------------------------------------------------

/// The names of the fields of an array of structs; none for an array of any other type.
pub uninterp spec fn struct_fields(array: ArrayData) -> Option<Seq<Seq<char>>>;

/// The name of an array's data type.
pub uninterp spec fn data_type_text(array: ArrayData) -> Seq<char>;

/// The arrays that an array is nested over: the columns of an array of structs.
pub uninterp spec fn array_children(array: ArrayData) -> Seq<ArrayData>;

/// The number of NULLs that an array declares among its own entries.
pub uninterp spec fn null_count(array: ArrayData) -> usize;

/// The number of entries of an array.
pub uninterp spec fn array_len(array: ArrayData) -> usize;

/// The number of entries that an array skips in its buffers and children.
pub uninterp spec fn array_offset(array: ArrayData) -> usize;

/// The lengths in bytes of an array's own buffers, its NULL mask aside.
pub uninterp spec fn buffer_lengths(array: ArrayData) -> Seq<usize>;

/// The types whose entries take up as much room as they need.
#[derive(Debug, Clone, Copy)]
pub enum VariableType {
    Utf8,
    LargeUtf8,
    Utf8View,
    Binary,
    LargeBinary,
    BinaryView,
    List,
    LargeList,
    ListView,
    LargeListView,
    /// Lists of keys and values.
    Entries,
    /// Any other type.
    Other,
}

/// The types whose entries come by a size, or by an offset of their own.
#[derive(Debug, Clone, Copy)]
pub enum SizedType {
    /// Byte strings of so many bytes each.
    FixedSizeBinary(i32),
    /// Lists of so many items each.
    FixedSizeList(i32),
    /// The dense union of several children, with a 32-bit offset for each entry.
    DenseUnion,
    /// Any other type.
    Other,
}

/// How the entries of an array are spread over those of a child.
#[derive(Debug, Clone, Copy)]
pub enum Indexing {
    /// By keys into a dictionary, each of so many bytes; of no fixed width for none.
    Keys(Option<usize>),
    /// By keys into a dictionary that claim to be byte strings of so many bytes.
    BinaryKeys(i32),
    /// By keys into a dictionary that claim to come out of a dictionary themselves.
    NestedKeys,
    /// By the ends of runs, each of so many bytes; of no fixed width for none.
    Runs(Option<usize>),
    /// Not by an index.
    Direct,
}

/// The data type of an array, as far as it is one of variable size.
pub uninterp spec fn variable_type(array: ArrayData) -> VariableType;

/// The data type of an array, as far as it has a size or an offset for each entry.
pub uninterp spec fn sized_type(array: ArrayData) -> SizedType;

/// The indexing of an array, as its data type has it.
pub uninterp spec fn array_indexing(array: ArrayData) -> Indexing;

/// What is wrong with an array's own layout, NULLs and values.
pub uninterp spec fn layout_complaint(array: ArrayData) -> Option<Seq<char>>;

/// What is wrong with an array or anything nested inside it.
pub uninterp spec fn full_complaint(array: ArrayData) -> Option<Seq<char>>;

pub open spec fn is_names(names: Option<Vec<String>>, named: Option<Seq<Seq<char>>>) -> bool {
    match names {
        Some(v) => named == Some(texts(v@)),
        None => named is None,
    }
}

pub open spec fn is_complaint(result: Result<(), String>, named: Option<Seq<char>>) -> bool {
    match result {
        Ok(_) => named is None,
        Err(e) => named == Some(e@),
    }
}

/// Reads `ArrayData::data_type`: the names of the fields, where it is `DataType::Struct`. The result
/// is a function of the array alone and goes by the name [`struct_fields`].
#[verifier::external_body]
fn read_struct_fields(data: &ArrayData) -> (r: Option<Vec<String>>)
    ensures
        is_names(r, struct_fields(*data)),
{
    match data.data_type() {
        DataType::Struct(fields) => Some(fields.iter().map(|f| f.name().clone()).collect()),
        _ => None,
    }
}

/// Renders `ArrayData::data_type` with its `Display`. The text is a function of the array alone and
/// goes by the name [`data_type_text`].
#[verifier::external_body]
fn render_data_type(data: &ArrayData) -> (r: String)
    ensures
        r@ == data_type_text(*data),
{
    data.data_type().to_string()
}

/// `ArrayData::child_data`: the arrays that the array is nested over, by the name
/// [`array_children`]. An array owns them, so each is a smaller value than the array itself.
#[verifier::external_body]
fn children(data: &ArrayData) -> (r: &[ArrayData])
    ensures
        r@ == array_children(*data),
        forall|i: int| 0 <= i < r@.len() ==> decreases_to!(*data => #[trigger] r@[i]),
{
    data.child_data()
}

/// `ArrayData::null_count`: the number of NULLs that the array declares, by the name
/// [`null_count`].
#[verifier::external_body]
fn count_nulls(data: &ArrayData) -> (r: usize)
    ensures
        r == null_count(*data),
{
    data.null_count()
}

/// `ArrayData::len`, by the name [`array_len`].
#[verifier::external_body]
fn read_len(data: &ArrayData) -> (r: usize)
    ensures
        r == array_len(*data),
{
    data.len()
}

/// `ArrayData::offset`, by the name [`array_offset`].
#[verifier::external_body]
fn read_offset(data: &ArrayData) -> (r: usize)
    ensures
        r == array_offset(*data),
{
    data.offset()
}

/// The `Buffer::len` of each of `ArrayData::buffers`, by the name [`buffer_lengths`].
#[verifier::external_body]
fn read_buffer_lengths(data: &ArrayData) -> (r: Vec<usize>)
    ensures
        r@ == buffer_lengths(*data),
{
    data.buffers().iter().map(|b| b.len()).collect()
}

/// Reads `ArrayData::data_type`: which type of variable size it is. The result is a function of the
/// array alone and goes by the name [`variable_type`].
#[verifier::external_body]
fn read_variable_type(data: &ArrayData) -> (r: VariableType)
    ensures
        r == variable_type(*data),
{
    match data.data_type() {
        DataType::Utf8 => VariableType::Utf8,
        DataType::LargeUtf8 => VariableType::LargeUtf8,
        DataType::Utf8View => VariableType::Utf8View,
        DataType::Binary => VariableType::Binary,
        DataType::LargeBinary => VariableType::LargeBinary,
        DataType::BinaryView => VariableType::BinaryView,
        DataType::List(_) => VariableType::List,
        DataType::LargeList(_) => VariableType::LargeList,
        DataType::ListView(_) => VariableType::ListView,
        DataType::LargeListView(_) => VariableType::LargeListView,
        DataType::Map(_, _) => VariableType::Entries,
        _ => VariableType::Other,
    }
}

/// Reads `ArrayData::data_type`: which type of fixed-size entries, with their size, or whether the
/// dense union. The result is a function of the array alone and goes by the name [`sized_type`].
#[verifier::external_body]
fn read_sized_type(data: &ArrayData) -> (r: SizedType)
    ensures
        r == sized_type(*data),
{
    match data.data_type() {
        DataType::FixedSizeBinary(n) => SizedType::FixedSizeBinary(*n),
        DataType::FixedSizeList(_, n) => SizedType::FixedSizeList(*n),
        DataType::Union(_, UnionMode::Dense) => SizedType::DenseUnion,
        _ => SizedType::Other,
    }
}

/// Reads `ArrayData::data_type`: the `DataType::primitive_width` of the keys of a dictionary or of
/// the ends of runs, where it is a type with either. The result is a function of the array alone and
/// goes by the name [`array_indexing`].
#[verifier::external_body]
fn read_indexing(data: &ArrayData) -> (r: Indexing)
    ensures
        r == array_indexing(*data),
{
    match data.data_type() {
        DataType::Dictionary(key, _) => match key.as_ref() {
            DataType::FixedSizeBinary(n) => Indexing::BinaryKeys(*n),
            DataType::Dictionary(_, _) => Indexing::NestedKeys,
            key => Indexing::Keys(key.primitive_width()),
        },
        DataType::RunEndEncoded(ends, _) => Indexing::Runs(ends.data_type().primitive_width()),
        _ => Indexing::Direct,
    }
}

/// `ArrayData::validate_data`: checks the array itself, its NULLs and its values, and the layout of
/// what is nested inside it. What it complains of is a function of the array alone and goes by the
/// name [`layout_complaint`]. It panics on claims about sizes that it computes with unchecked; what
/// it requires leaves those out, for the array and everything inside it.
#[verifier::external_body]
fn validate_data(data: &ArrayData) -> (r: Result<(), String>)
    requires
        is_checkable(*data),
    ensures
        is_complaint(r, layout_complaint(*data)),
{
    data.validate_data().map_err(|e| e.to_string())
}

/// `ArrayData::validate_full`: checks the array and everything nested inside it. What it complains
/// of is a function of the array alone and goes by the name [`full_complaint`]. It panics where
/// `validate_data` does.
#[verifier::external_body]
fn validate_full(data: &ArrayData) -> (r: Result<(), String>)
    requires
        is_checkable(*data),
    ensures
        is_complaint(r, full_complaint(*data)),
{
    data.validate_full().map_err(|e| e.to_string())
}

// ---------------------------------------------------------------------------------------------
// Checkable arrays
// ---------------------------------------------------------------------------------------------

/// Whether buffer `i`, if there is one, holds whole values of `width` bytes only.
pub open spec fn holds_whole(lengths: Seq<usize>, i: int, width: usize) -> bool {
    i < lengths.len() ==> width > 0 && lengths[i] % width == 0
}

/// Whether the size of an address is more than 32 bits, so that the sum of two 32-bit sizes, or of
/// two non-negative 64-bit ones, is a size.
pub open spec fn is_wide() -> bool {
    usize::MAX > u32::MAX
}

/// Whether validation can read the offsets, ranges or views of an array of a type of variable size:
/// the buffers that hold them hold whole ones, and a sum of two of them is a size.
pub open spec fn is_readable_variable(of_type: VariableType, lengths: Seq<usize>) -> bool {
    match of_type {
        VariableType::Utf8 | VariableType::Binary | VariableType::List | VariableType::Entries =>
            holds_whole(lengths, 0, 4),
        VariableType::LargeUtf8 | VariableType::LargeBinary | VariableType::LargeList =>
            holds_whole(lengths, 0, 8),
        VariableType::ListView => holds_whole(lengths, 0, 4) && holds_whole(lengths, 1, 4),
        VariableType::LargeListView => holds_whole(lengths, 0, 8) && holds_whole(lengths, 1, 8)
            && is_wide(),
        VariableType::Utf8View | VariableType::BinaryView => holds_whole(lengths, 0, 16)
            && is_wide(),
        VariableType::Other => true,
    }
}

/// Whether validation can compute with the sizes that an array claims: the width of an entry is not
/// negative, the number of all items is one that a size can hold, and a buffer of offsets holds
/// whole ones.
pub open spec fn is_readable_sized(
    of_type: SizedType,
    len: usize,
    offset: usize,
    lengths: Seq<usize>,
) -> bool {
    match of_type {
        SizedType::FixedSizeBinary(n) => n >= 0,
        SizedType::FixedSizeList(n) => n < 0 || len + offset > usize::MAX || (len + offset) * n
            <= usize::MAX,
        SizedType::DenseUnion => holds_whole(lengths, 1, 4),
        SizedType::Other => true,
    }
}

/// Whether validation can read the index of an array: keys in the array's own buffer, the ends of
/// runs in that of its first child, `ends`.
pub open spec fn is_readable_indexing(
    indexing: Indexing,
    lengths: Seq<usize>,
    ends: Option<Seq<usize>>,
) -> bool {
    match indexing {
        Indexing::Keys(Some(width)) => holds_whole(lengths, 0, width),
        Indexing::Keys(None) => true,
        Indexing::BinaryKeys(n) => n >= 0,
        Indexing::NestedKeys => false,
        Indexing::Runs(Some(width)) => match ends {
            Some(ends) => holds_whole(ends, 0, width),
            None => true,
        },
        Indexing::Runs(None) => true,
        Indexing::Direct => true,
    }
}

/// The lengths of the buffers of an array's first child.
pub open spec fn first_child_lengths(array: ArrayData) -> Option<Seq<usize>> {
    if array_children(array).len() > 0 {
        Some(buffer_lengths(array_children(array)[0]))
    } else {
        None
    }
}

/// Whether validation can cope with what an array itself claims.
pub open spec fn is_readable(array: ArrayData) -> bool {
    &&& is_readable_variable(variable_type(array), buffer_lengths(array))
    &&& is_readable_sized(
        sized_type(array),
        array_len(array),
        array_offset(array),
        buffer_lengths(array),
    )
    &&& is_readable_indexing(
        array_indexing(array),
        buffer_lengths(array),
        first_child_lengths(array),
    )
}

/// Whether validation can cope with an array and everything nested inside it.
pub open spec fn is_checkable(array: ArrayData) -> bool
    decreases array,
{
    &&& is_readable(array)
    &&& forall|i: int|
        0 <= i < array_children(array).len() ==> decreases_to!(array => array_children(array)[i])
            && is_checkable(#[trigger] array_children(array)[i])
}

fn whole(lengths: &Vec<usize>, i: usize, width: usize) -> (r: bool)
    ensures
        r == holds_whole(lengths@, i as int, width),
{
    i >= lengths.len() || (width > 0 && lengths[i] % width == 0)
}

fn wide() -> (r: bool)
    ensures
        r == is_wide(),
{
    usize::MAX as u64 > u32::MAX as u64
}

/// Whether validation can read the offsets, ranges or views of an array of a type of variable size.
pub fn readable_variable(of_type: VariableType, lengths: &Vec<usize>) -> (r: bool)
    ensures
        r == is_readable_variable(of_type, lengths@),
{
    match of_type {
        VariableType::Utf8 | VariableType::Binary | VariableType::List | VariableType::Entries => whole(
            lengths,
            0,
            4,
        ),
        VariableType::LargeUtf8 | VariableType::LargeBinary | VariableType::LargeList => whole(
            lengths,
            0,
            8,
        ),
        VariableType::ListView => whole(lengths, 0, 4) && whole(lengths, 1, 4),
        VariableType::LargeListView => whole(lengths, 0, 8) && whole(lengths, 1, 8) && wide(),
        VariableType::Utf8View | VariableType::BinaryView => whole(lengths, 0, 16) && wide(),
        VariableType::Other => true,
    }
}

/// Whether validation can compute with the sizes that an array claims.
pub fn readable_sized(
    of_type: SizedType,
    len: usize,
    offset: usize,
    lengths: &Vec<usize>,
) -> (r: bool)
    ensures
        r == is_readable_sized(of_type, len, offset, lengths@),
{
    match of_type {
        SizedType::FixedSizeBinary(n) => n >= 0,
        SizedType::FixedSizeList(n) => {
            if n < 0 {
                return true;
            }
            match len.checked_add(offset) {
                Some(entries) => entries.checked_mul(n as usize).is_some(),
                None => true,
            }
        },
        SizedType::DenseUnion => whole(lengths, 1, 4),
        SizedType::Other => true,
    }
}

/// The lengths of optional buffers.
pub open spec fn lengths_of(ends: Option<Vec<usize>>) -> Option<Seq<usize>> {
    match ends {
        Some(v) => Some(v@),
        None => None,
    }
}

/// Whether validation can read the index of an array, whose first child has buffers of the lengths
/// `ends`.
pub fn readable_indexing(
    indexing: Indexing,
    lengths: &Vec<usize>,
    ends: &Option<Vec<usize>>,
) -> (r: bool)
    ensures
        r == is_readable_indexing(indexing, lengths@, lengths_of(*ends)),
{
    match indexing {
        Indexing::Keys(Some(width)) => whole(lengths, 0, width),
        Indexing::Keys(None) => true,
        Indexing::BinaryKeys(n) => n >= 0,
        Indexing::NestedKeys => false,
        Indexing::Runs(Some(width)) => match ends {
            Some(ends) => whole(ends, 0, width),
            None => true,
        },
        Indexing::Runs(None) => true,
        Indexing::Direct => true,
    }
}

/// Whether validation can cope with an array and everything nested inside it.
fn checkable(data: &ArrayData) -> (r: bool)
    ensures
        r == is_checkable(*data),
    decreases *data,
{
    let nested = children(data);
    let lengths = read_buffer_lengths(data);
    let ends = if nested.len() > 0 {
        Some(read_buffer_lengths(&nested[0]))
    } else {
        None
    };
    if !readable_variable(read_variable_type(data), &lengths) {
        return false;
    }
    if !readable_sized(read_sized_type(data), read_len(data), read_offset(data), &lengths) {
        return false;
    }
    if !readable_indexing(read_indexing(data), &lengths, &ends) {
        return false;
    }
    let mut i: usize = 0;
    while i < nested.len()
        invariant
            i <= nested@.len(),
            nested@ == array_children(*data),
            forall|k: int| 0 <= k < nested@.len() ==> decreases_to!(*data => #[trigger] nested@[k]),
            forall|k: int| 0 <= k < i ==> is_checkable(#[trigger] array_children(*data)[k]),
        decreases nested@.len() - i,
    {
        if !checkable(&nested[i]) {
            assert(!is_checkable(array_children(*data)[i as int]));
            return false;
        }
        i = i + 1;
    }
    true
}

// ---------------------------------------------------------------------------------------------
// Validation
// ---------------------------------------------------------------------------------------------

pub open spec fn bad_column_message(name: Seq<char>, complaint: Seq<char>) -> Seq<char> {
    "column "@ + debug_text(name) + " is invalid: "@ + complaint
}

/// What is wrong with the first bad column among those from `i` on.
pub open spec fn columns_complaint(
    names: Seq<Seq<char>>,
    columns: Seq<Option<Seq<char>>>,
    i: int,
) -> Option<Seq<char>>
    decreases columns.len() - i,
{
    if i < 0 || i >= columns.len() || i >= names.len() {
        None
    } else if columns[i] is Some {
        Some(bad_column_message(names[i], columns[i]->Some_0))
    } else {
        columns_complaint(names, columns, i + 1)
    }
}

/// What is wrong with an imported array, given what is wrong with its own layout and with each of
/// its columns.
pub open spec fn imported_complaint(
    names: Seq<Seq<char>>,
    layout: Option<Seq<char>>,
    columns: Seq<Option<Seq<char>>>,
) -> Option<Seq<char>> {
    match layout {
        Some(complaint) => Some("the top-level struct is invalid: "@ + complaint),
        None => columns_complaint(names, columns, 0),
    }
}

/// What is wrong with each of an array's columns.
pub open spec fn column_complaints(array: ArrayData) -> Seq<Option<Seq<char>>> {
    array_children(array).map_values(|c: ArrayData| full_complaint(c))
}

pub open spec fn unreadable_message() -> Seq<char> {
    "it claims a size that cannot be computed with"@
}

/// What is wrong with an array itself. One that validation cannot cope with is not validated.
pub open spec fn own_complaint(array: ArrayData) -> Option<Seq<char>> {
    if is_checkable(array) {
        layout_complaint(array)
    } else {
        Some(unreadable_message())
    }
}

/// What is wrong with an array that was imported under these field names.
pub open spec fn complaint(array: ArrayData, names: Seq<Seq<char>>) -> Option<Seq<char>> {
    imported_complaint(names, own_complaint(array), column_complaints(array))
}

/// Checks an array that arrived over the C data interface, column by column, and names the first
/// column that is not what it claims to be.
pub fn validate_imported(data: &ArrayData, names: &Vec<String>) -> (r: Result<(), String>)
    ensures
        is_complaint(r, complaint(*data, texts(names@))),
{
    if !checkable(data) {
        let mut message = "the top-level struct is invalid: ".to_owned();
        message.append("it claims a size that cannot be computed with");
        return Err(message);
    }
    match validate_data(data) {
        Err(e) => {
            let mut message = "the top-level struct is invalid: ".to_owned();
            message.append(e.as_str());
            return Err(message);
        },
        Ok(()) => {},
    }
    let columns = children(data);
    let ghost found = column_complaints(*data);
    let mut i: usize = 0;
    while i < columns.len() && i < names.len()
        invariant
            i <= columns@.len(),
            i <= names@.len(),
            columns@ == array_children(*data),
            found == column_complaints(*data),
            own_complaint(*data) is None,
            is_checkable(*data),
            columns_complaint(texts(names@), found, 0) == columns_complaint(
                texts(names@),
                found,
                i as int,
            ),
        decreases columns@.len() - i,
    {
        assert(found[i as int] == full_complaint(columns@[i as int]));
        assert(is_checkable(array_children(*data)[i as int]));
        match validate_full(&columns[i]) {
            Err(e) => {
                let mut message = "column ".to_owned();
                message.append(debug_quoted(names[i].as_str()).as_str());
                message.append(" is invalid: ");
                message.append(e.as_str());
                assert(texts(names@)[i as int] == names@[i as int]@);
                return Err(message);
            },
            Ok(()) => {},
        }
        i = i + 1;
    }
    Ok(())
}

/// An imported array is sound exactly if its own layout is and every column that has a name is.
pub proof fn lemma_complaint(
    names: Seq<Seq<char>>,
    layout: Option<Seq<char>>,
    columns: Seq<Option<Seq<char>>>,
)
    ensures
        imported_complaint(names, layout, columns) is None <==> layout is None && forall|i: int|
            0 <= i < columns.len() && i < names.len() ==> (#[trigger] columns[i]) is None,
{
    if layout is None {
        lemma_columns_complaint(names, columns, 0);
    }
}

proof fn lemma_columns_complaint(
    names: Seq<Seq<char>>,
    columns: Seq<Option<Seq<char>>>,
    from: int,
)
    requires
        0 <= from,
    ensures
        columns_complaint(names, columns, from) is None <==> forall|i: int|
            from <= i < columns.len() && i < names.len() ==> (#[trigger] columns[i]) is None,
    decreases columns.len() - from,
{
    if from < columns.len() && from < names.len() && columns[from] is None {
        lemma_columns_complaint(names, columns, from + 1);
    }
}

// ---------------------------------------------------------------------------------------------
// Binding one batch
// ---------------------------------------------------------------------------------------------

/// What a pointer to a C structure with a release callback leads to.
#[derive(Debug, Clone, Copy, PartialEq, Eq, Structural)]
pub enum Handed {
    Null,
    Released,
    Live,
}

/// Why a structure cannot be taken over.
pub open spec fn handed_complaint(name: Seq<char>, handed: Handed) -> Option<Seq<char>> {
    match handed {
        Handed::Null => Some(name + " must not be null"@),
        Handed::Released => Some(name + " has already been released"@),
        Handed::Live => None,
    }
}

fn check_handed(name: &str, handed: Handed) -> (r: Result<(), Error>)
    ensures
        match handed_complaint(name@, handed) {
            Some(m) => r is Err && r->Err_0.says(Status::InvalidArguments, m),
            None => r is Ok,
        },
{
    match handed {
        Handed::Null => {
            let mut message = name.to_owned();
            message.append(" must not be null");
            Err(invalid_argument(message))
        },
        Handed::Released => {
            let mut message = name.to_owned();
            message.append(" has already been released");
            Err(invalid_argument(message))
        },
        Handed::Live => Ok(()),
    }
}

/// Checks the array and the schema of a bind before either is taken over, so that a mistake in the
/// one leaves the other with the caller.
pub fn check_bind(values: Handed, schema: Handed) -> (r: Result<(), Error>)
    ensures
        match handed_complaint("values"@, values) {
            Some(m) => r is Err && r->Err_0.says(Status::InvalidArguments, m),
            None => match handed_complaint("schema"@, schema) {
                Some(m) => r is Err && r->Err_0.says(Status::InvalidArguments, m),
                None => r is Ok,
            },
        },
{
    match check_handed("values", values) {
        Ok(()) => check_handed("schema", schema),
        Err(e) => Err(e),
    }
}

pub open spec fn not_an_array_message(failure: Seq<char>) -> Seq<char> {
    "bind values are not a valid Arrow array: "@ + failure
}

/// The rejection of values that Arrow cannot import.
pub fn not_an_array(failure: &str) -> (e: Error)
    ensures
        e.says(Status::InvalidArguments, not_an_array_message(failure@)),
{
    let mut message = "bind values are not a valid Arrow array: ".to_owned();
    message.append(failure);
    invalid_argument(message)
}

/// Why values cannot be bound, given what Arrow says of them.
pub open spec fn bind_complaint(
    fields: Option<Seq<Seq<char>>>,
    type_text: Seq<char>,
    complaint: Option<Seq<char>>,
    nulls: usize,
) -> Option<Seq<char>> {
    if fields is None {
        Some("bind values must be a struct array, not "@ + type_text)
    } else if complaint is Some {
        Some(not_an_array_message(complaint->Some_0))
    } else if nulls != 0 {
        Some(
            "bind values must not contain top-level null rows; put null values in the individual columns instead"@,
        )
    } else {
        None
    }
}

/// The rejection of values that cannot be bound: those that are no rows of columns, that hold what
/// their type does not allow, or that have rows which are NULL as a whole.
pub fn bind_verdict(
    is_struct: bool,
    type_text: &str,
    complaint: Result<(), String>,
    nulls: usize,
) -> (r: Result<(), Error>)
    ensures
        match bind_complaint(
            if is_struct {
                Some(Seq::empty())
            } else {
                None
            },
            type_text@,
            match complaint {
                Ok(_) => None,
                Err(e) => Some(e@),
            },
            nulls,
        ) {
            Some(m) => r is Err && r->Err_0.says(Status::InvalidArguments, m),
            None => r is Ok,
        },
{
    if !is_struct {
        let mut message = "bind values must be a struct array, not ".to_owned();
        message.append(type_text);
        return Err(invalid_argument(message));
    }
    match complaint {
        Err(e) => {
            return Err(not_an_array(e.as_str()));
        },
        Ok(()) => {},
    }
    if nulls != 0 {
        return Err(
            invalid_argument(
                "bind values must not contain top-level null rows; put null values in the individual columns instead".to_owned(),
            ),
        );
    }
    Ok(())
}

/// Checks values that were imported to be bound.
pub fn check_bound(data: &ArrayData) -> (r: Result<(), Error>)
    ensures
        match bind_complaint(
            struct_fields(*data),
            data_type_text(*data),
            complaint(*data, struct_fields(*data)->Some_0),
            null_count(*data),
        ) {
            Some(m) => r is Err && r->Err_0.says(Status::InvalidArguments, m),
            None => r is Ok,
        },
{
    let type_text = render_data_type(data);
    match read_struct_fields(data) {
        None => bind_verdict(false, type_text.as_str(), Ok(()), 0),
        Some(names) => {
            let verdict = validate_imported(data, &names);
            bind_verdict(true, type_text.as_str(), verdict, count_nulls(data))
        },
    }
}

// ---------------------------------------------------------------------------------------------
// Bound streams
// ---------------------------------------------------------------------------------------------

/// Which callbacks a stream has.
#[derive(Debug, Clone, Copy, PartialEq, Eq, Structural)]
pub struct StreamTable {
    pub release: bool,
    pub get_schema: bool,
    pub get_next: bool,
    pub get_last_error: bool,
}

/// Why a stream cannot be taken over.
pub open spec fn table_complaint(table: Option<StreamTable>) -> Option<Seq<char>> {
    match table {
        None => Some("stream must not be null"@),
        Some(t) => if !t.release {
            Some("stream has already been released"@)
        } else if !t.get_schema {
            Some("stream is missing its get_schema callback"@)
        } else if !t.get_next {
            Some("stream is missing its get_next callback"@)
        } else if !t.get_last_error {
            Some("stream is missing its get_last_error callback"@)
        } else {
            None
        },
    }
}

/// Checks a stream before it is taken over. One that is refused stays the caller's.
pub fn check_stream(table: Option<StreamTable>) -> (r: Result<(), Error>)
    ensures
        match table_complaint(table) {
            Some(m) => r is Err && r->Err_0.says(Status::InvalidArguments, m),
            None => r is Ok,
        },
{
    match table {
        None => Err(invalid_argument("stream must not be null".to_owned())),
        Some(t) => if !t.release {
            Err(invalid_argument("stream has already been released".to_owned()))
        } else if !t.get_schema {
            Err(invalid_argument("stream is missing its get_schema callback".to_owned()))
        } else if !t.get_next {
            Err(invalid_argument("stream is missing its get_next callback".to_owned()))
        } else if !t.get_last_error {
            Err(invalid_argument("stream is missing its get_last_error callback".to_owned()))
        } else {
            Ok(())
        },
    }
}

/// What a failed callback of a stream is reported as. A producer need not describe its failure.
pub open spec fn stream_failure(callback: Seq<char>, code: i32, detail: Option<Seq<char>>) -> Seq<
    char,
> {
    "bound Arrow C stream "@ + callback + " failed with error code "@ + signed_decimal(code as int)
        + ": "@ + match detail {
        Some(d) => d,
        None => "producer supplied no error description"@,
    }
}

/// The text of an optional borrowed string.
pub open spec fn detail_text(detail: Option<&str>) -> Option<Seq<char>> {
    match detail {
        Some(d) => Some(d@),
        None => None,
    }
}

/// What a failed callback of a stream is reported as.
pub fn stream_error(callback: &str, code: i32, detail: Option<&str>) -> (r: String)
    ensures
        r@ == stream_failure(callback@, code, detail_text(detail)),
{
    let mut message = "bound Arrow C stream ".to_owned();
    message.append(callback);
    message.append(" failed with error code ");
    push_signed(&mut message, code as i128);
    message.append(": ");
    match detail {
        Some(d) => message.append(d),
        None => message.append("producer supplied no error description"),
    }
    message
}

/// What the schema callback of a stream came to.
#[derive(Debug)]
pub struct SchemaReply<'a> {
    /// What the callback returned; not zero is a failure.
    pub code: i32,
    /// How the producer describes a failure.
    pub detail: Option<&'a str>,
    /// Whether the schema it left has been released.
    pub released: bool,
    /// The names of the schema's fields, or why it cannot be read.
    pub fields: Result<Vec<String>, String>,
}

/// Why a stream's schema is not accepted.
pub open spec fn schema_complaint(reply: SchemaReply) -> Option<Seq<char>> {
    if reply.code != 0 {
        Some(stream_failure("get_schema"@, reply.code, detail_text(reply.detail)))
    } else if reply.released {
        Some("bound stream get_schema returned a released schema"@)
    } else {
        match reply.fields {
            Ok(_) => None,
            Err(e) => Some("bound stream returned an invalid schema: "@ + e@),
        }
    }
}

/// A stream of bound batches, with the names of its columns. It ends with its first failure.
#[derive(Debug)]
pub struct BoundStreamReader {
    pub fields: Vec<String>,
    pub finished: bool,
}

/// What reading the next batch of a stream came to.
#[derive(Debug, Clone, Copy)]
pub struct NextReply<'a> {
    /// What the callback returned; not zero is a failure.
    pub code: i32,
    /// How the producer describes a failure.
    pub detail: Option<&'a str>,
    /// Whether the array it left has been released, which is how a stream ends.
    pub released: bool,
    /// The number of columns of the array.
    pub columns: usize,
}

/// What follows from a reply.
#[derive(Debug, PartialEq, Eq)]
pub enum Pulled {
    /// The stream is at its end.
    End,
    /// The stream has failed.
    Failed(String),
    /// The array is to be imported.
    Import,
}

pub enum PulledView {
    End,
    Failed(Seq<char>),
    Import,
}

impl View for Pulled {
    type V = PulledView;

    open spec fn view(&self) -> PulledView {
        match self {
            Pulled::End => PulledView::End,
            Pulled::Failed(m) => PulledView::Failed(m@),
            Pulled::Import => PulledView::Import,
        }
    }
}

pub open spec fn column_count_message(columns: nat, declared: nat) -> Seq<char> {
    "bound stream returned "@ + decimal(columns) + " columns, but its schema declares "@ + decimal(
        declared,
    )
}

/// Why an imported batch of a stream is not accepted.
pub open spec fn batch_complaint(complaint: Option<Seq<char>>, nulls: usize) -> Option<Seq<char>> {
    match complaint {
        Some(c) => Some("bound stream returned an invalid Arrow array: "@ + c),
        None => if nulls != 0 {
            Some(
                "bound stream must not contain top-level null rows; put null values in the individual columns instead"@,
            )
        } else {
            None
        },
    }
}

/// What follows from a reply, for a stream whose schema declares so many columns. A finished stream
/// is at its end whatever its producer replies.
pub open spec fn pulled_as(finished: bool, declared: nat, reply: NextReply) -> PulledView {
    if finished {
        PulledView::End
    } else if reply.code != 0 {
        PulledView::Failed(stream_failure("get_next"@, reply.code, detail_text(reply.detail)))
    } else if reply.released {
        PulledView::End
    } else if reply.columns != declared {
        PulledView::Failed(column_count_message(reply.columns as nat, declared))
    } else {
        PulledView::Import
    }
}

/// What happens to a stream.
pub enum StreamStep<'a> {
    /// Its producer replied.
    Pulled(NextReply<'a>),
    /// A batch was imported, with this wrong with it and so many of its rows NULL as a whole.
    Judged { complaint: Option<Seq<char>>, nulls: usize },
    /// Importing a batch failed.
    Failed,
}

/// Whether a stream is finished after a step.
pub open spec fn finished_after(finished: bool, declared: nat, step: StreamStep) -> bool {
    match step {
        StreamStep::Pulled(reply) => !(pulled_as(finished, declared, reply) is Import),
        StreamStep::Judged { complaint, nulls } => finished || batch_complaint(complaint, nulls)
            is Some,
        StreamStep::Failed => true,
    }
}

/// Whether a stream is finished after a sequence of steps.
pub open spec fn finished_after_all(
    finished: bool,
    declared: nat,
    steps: Seq<StreamStep>,
) -> bool
    decreases steps.len(),
{
    if steps.len() == 0 {
        finished
    } else {
        finished_after(
            finished_after_all(finished, declared, steps.drop_last()),
            declared,
            steps.last(),
        )
    }
}

/// A stream ends for good with its first end or failure: whatever happens afterwards, it stays
/// finished, and every further read is at the end, whatever its producer replies.
pub proof fn lemma_stream_ends_for_good(
    finished: bool,
    declared: nat,
    step: StreamStep,
    later: Seq<StreamStep>,
    reply: NextReply,
)
    requires
        finished_after(finished, declared, step),
    ensures
        finished_after_all(finished_after(finished, declared, step), declared, later),
        pulled_as(
            finished_after_all(finished_after(finished, declared, step), declared, later),
            declared,
            reply,
        ) is End,
    decreases later.len(),
{
    if later.len() > 0 {
        lemma_stream_ends_for_good(finished, declared, step, later.drop_last(), reply);
    }
}

impl BoundStreamReader {
    /// Takes over a stream whose schema callback has replied.
    pub fn from_schema(reply: SchemaReply) -> (r: Result<BoundStreamReader, Error>)
        ensures
            match schema_complaint(reply) {
                Some(m) => r is Err && r->Err_0.says(Status::InvalidArguments, m),
                None => r is Ok && r->Ok_0.fields == reply.fields->Ok_0 && !r->Ok_0.finished,
            },
    {
        if reply.code != 0 {
            return Err(invalid_argument(stream_error("get_schema", reply.code, reply.detail)));
        }
        if reply.released {
            return Err(
                invalid_argument("bound stream get_schema returned a released schema".to_owned()),
            );
        }
        match reply.fields {
            Ok(fields) => Ok(BoundStreamReader { fields, finished: false }),
            Err(e) => {
                let mut message = "bound stream returned an invalid schema: ".to_owned();
                message.append(e.as_str());
                Err(invalid_argument(message))
            },
        }
    }

    /// Decides what follows from reading the next batch. A finished stream is at its end whatever
    /// its producer replies.
    pub fn next(&mut self, reply: NextReply) -> (r: Pulled)
        ensures
            final(self).fields == old(self).fields,
            r@ == pulled_as(old(self).finished, old(self).fields@.len(), reply),
            final(self).finished == finished_after(
                old(self).finished,
                old(self).fields@.len(),
                StreamStep::Pulled(reply),
            ),
    {
        if self.finished {
            return Pulled::End;
        }
        if reply.code != 0 {
            self.finished = true;
            return Pulled::Failed(stream_error("get_next", reply.code, reply.detail));
        }
        if reply.released {
            self.finished = true;
            return Pulled::End;
        }
        if reply.columns != self.fields.len() {
            self.finished = true;
            let mut message = "bound stream returned ".to_owned();
            push_decimal(&mut message, reply.columns as u128);
            message.append(" columns, but its schema declares ");
            push_decimal(&mut message, self.fields.len() as u128);
            assert(message@ =~= column_count_message(
                reply.columns as nat,
                self.fields@.len(),
            ));
            return Pulled::Failed(message);
        }
        Pulled::Import
    }

    /// The verdict on a batch that was imported, given what is wrong with it and how many of its
    /// rows are NULL as a whole. A batch that is not accepted ends the stream.
    pub fn verdict(&mut self, complaint: Result<(), String>, nulls: usize) -> (r: Result<
        (),
        String,
    >)
        ensures
            final(self).fields == old(self).fields,
            match batch_complaint(
                match complaint {
                    Ok(_) => None,
                    Err(e) => Some(e@),
                },
                nulls,
            ) {
                Some(m) => r is Err && r->Err_0@ == m,
                None => r is Ok,
            },
            final(self).finished == finished_after(
                old(self).finished,
                old(self).fields@.len(),
                StreamStep::Judged {
                    complaint: match complaint {
                        Ok(_) => None,
                        Err(e) => Some(e@),
                    },
                    nulls,
                },
            ),
    {
        match complaint {
            Err(e) => {
                self.finished = true;
                let mut message = "bound stream returned an invalid Arrow array: ".to_owned();
                message.append(e.as_str());
                Err(message)
            },
            Ok(()) => {
                if nulls != 0 {
                    self.finished = true;
                    Err(
                        "bound stream must not contain top-level null rows; put null values in the individual columns instead".to_owned(),
                    )
                } else {
                    Ok(())
                }
            },
        }
    }

    /// Checks a batch that was imported.
    pub fn accept(&mut self, data: &ArrayData) -> (r: Result<(), String>)
        ensures
            final(self).fields == old(self).fields,
            match batch_complaint(
                complaint(*data, texts(old(self).fields@)),
                null_count(*data),
            ) {
                Some(m) => r is Err && r->Err_0@ == m,
                None => r is Ok,
            },
            final(self).finished == finished_after(
                old(self).finished,
                old(self).fields@.len(),
                StreamStep::Judged {
                    complaint: complaint(*data, texts(old(self).fields@)),
                    nulls: null_count(*data),
                },
            ),
    {
        let found = validate_imported(data, &self.fields);
        self.verdict(found, count_nulls(data))
    }

    /// Ends the stream: importing its batch failed.
    pub fn fail(&mut self)
        ensures
            final(self).finished == finished_after(
                old(self).finished,
                old(self).fields@.len(),
                StreamStep::Failed,
            ),
            final(self).fields == old(self).fields,
    {
        self.finished = true;
    }
}

} // verus!
