//! Assembling the nested list and struct arrays of the metadata results.

use arrow_data::ArrayData;
use arrow_schema::ArrowError;
use vstd::prelude::*;
use vstd::string::*;
use vstd::utf8::encode_utf8;

use crate::arrow::{
    are_offsets, array_cells, array_type, arrow_error_text, is_array, is_valid, list_array, list_cells,
    text_cell, text_cells, utf8_array, utf8_total, ArrowType, Cell,
};
use crate::error::{fails, internal, Error, Status};

verus! {

/// Whether a result failed inside Arrow: the status is `Internal`, and the message ends in Arrow's
/// own words.
pub open spec fn fails_in_arrow<T>(r: Result<T, Error>) -> bool {
    match r {
        Ok(_) => false,
        Err(e) => exists|words: Seq<char>|
            #![trigger "failed to build metadata result batch: "@ + words]
            e.says(Status::Internal, "failed to build metadata result batch: "@ + words),
    }
}

/// The error for a metadata result that Arrow refused to assemble.
pub fn arrow_err(error: ArrowError) -> (r: Error)
    ensures
        fails_in_arrow(Err::<(), Error>(r)),
{
    let words = arrow_error_text(&error);
    let mut message = "failed to build metadata result batch: ".to_owned();
    message.append(words.as_str());
    internal(message)
}

// ---------------------------------------------------------------------------------------------
// Texts
// ---------------------------------------------------------------------------------------------

/// Whether the texts among `cells` fit one Arrow text array.
pub open spec fn texts_fit(cells: Seq<Cell>) -> bool {
    utf8_total(cells) <= i32::MAX
}

pub open spec fn text_range_message() -> Seq<char> {
    "metadata result text exceeds the i32 offset range"@
}

proof fn lemma_utf8_total_monotone(cells: Seq<Cell>, n: int)
    requires
        0 <= n <= cells.len(),
    ensures
        utf8_total(cells.take(n)) <= utf8_total(cells),
    decreases cells.len() - n,
{
    if n == cells.len() {
        assert(cells.take(n) =~= cells);
    } else {
        lemma_utf8_total_monotone(cells.drop_last(), n);
        assert(cells.drop_last().take(n) =~= cells.take(n));
    }
}

/// The text array of `values`, NULL where one is absent.
pub fn text_column(values: Vec<Option<String>>) -> (r: Result<ArrayData, Error>)
    ensures
        texts_fit(text_cells(values@)) ==> r is Ok,
        r matches Ok(a) ==> {
            &&& array_cells(a) == text_cells(values@)
            &&& array_type(a) == ArrowType::Utf8
            &&& is_array(a)
        },
        !texts_fit(text_cells(values@)) ==> fails(r, Status::Internal, text_range_message()),
{
    let ghost cells = text_cells(values@);
    let mut total: usize = 0;
    let mut i: usize = 0;
    while i < values.len()
        invariant
            i <= values@.len(),
            cells == text_cells(values@),
            total == utf8_total(cells.take(i as int)),
            total <= 0x7fff_ffff,
        decreases values@.len() - i,
    {
        proof {
            assert(cells.take(i + 1).drop_last() =~= cells.take(i as int));
            assert(cells[i as int] == text_cell(values@[i as int]));
            lemma_utf8_total_monotone(cells, i + 1);
        }
        match &values[i] {
            Some(s) => {
                let bytes: usize = s.as_str().as_bytes().len();
                if bytes > 0x7fff_ffff - total {
                    return Err(internal("metadata result text exceeds the i32 offset range".to_owned()));
                }
                total = total + bytes;
            },
            None => {},
        }
        i = i + 1;
    }
    assert(cells.take(i as int) =~= cells);
    Ok(utf8_array(values))
}

// ---------------------------------------------------------------------------------------------
// Lists
// ---------------------------------------------------------------------------------------------

/// The sum of the first `n` lengths.
pub open spec fn total_of(lengths: Seq<usize>, n: int) -> nat
    decreases n,
{
    if n <= 0 {
        0
    } else {
        total_of(lengths, n - 1) + lengths[n - 1] as nat
    }
}

/// Whether lists of these lengths fit one Arrow list array.
pub open spec fn lengths_fit(lengths: Seq<usize>) -> bool {
    total_of(lengths, lengths.len() as int) <= i32::MAX
}

/// `items` cut into lists of the given lengths, NULL where `validity` says so.
pub open spec fn grouped(
    lengths: Seq<usize>,
    validity: Option<Vec<bool>>,
    items: Seq<Cell>,
) -> Seq<Cell> {
    Seq::new(
        lengths.len(),
        |i: int|
            if is_valid(validity, i) {
                Cell::List(
                    items.subrange(total_of(lengths, i) as int, total_of(lengths, i + 1) as int),
                )
            } else {
                Cell::Null
            },
    )
}

pub open spec fn list_range_message() -> Seq<char> {
    "metadata result list exceeds the i32 offset range"@
}

proof fn lemma_total_of_monotone(lengths: Seq<usize>, i: int, j: int)
    requires
        0 <= i <= j <= lengths.len(),
    ensures
        total_of(lengths, i) <= total_of(lengths, j),
    decreases j - i,
{
    if i < j {
        lemma_total_of_monotone(lengths, i, j - 1);
    }
}

/// The offsets of consecutive lists of the given lengths.
fn offsets_of(lengths: &Vec<usize>) -> (r: Result<Vec<i32>, Error>)
    ensures
        lengths_fit(lengths@) ==> r is Ok,
        r matches Ok(offsets) ==> {
            &&& lengths_fit(lengths@)
            &&& offsets@.len() == lengths@.len() + 1
            &&& are_offsets(offsets@)
            &&& forall|i: int|
                0 <= i <= lengths@.len() ==> #[trigger] offsets@[i] == total_of(lengths@, i)
        },
        !lengths_fit(lengths@) ==> fails(r, Status::Internal, list_range_message()),
{
    let mut offsets: Vec<i32> = Vec::new();
    offsets.push(0);
    let mut total: i32 = 0;
    let mut i: usize = 0;
    while i < lengths.len()
        invariant
            i <= lengths@.len(),
            total == total_of(lengths@, i as int),
            offsets@.len() == i + 1,
            forall|k: int| 0 <= k <= i ==> #[trigger] offsets@[k] == total_of(lengths@, k),
        decreases lengths@.len() - i,
    {
        proof {
            lemma_total_of_monotone(lengths@, i + 1, lengths@.len() as int);
        }
        let length: usize = lengths[i];
        if length > (0x7fff_ffff - total) as usize {
            return Err(internal("metadata result list exceeds the i32 offset range".to_owned()));
        }
        total = total + length as i32;
        offsets.push(total);
        i = i + 1;
    }
    assert forall|a: int, b: int| 0 <= a <= b < offsets@.len() implies #[trigger] offsets@[a]
        <= #[trigger] offsets@[b] by {
        lemma_total_of_monotone(lengths@, a, b);
    }
    Ok(offsets)
}

/// The list array that groups the items of `child` by `lengths`, with the lists that `validity`
/// leaves out NULL.
pub fn list_of_nullable(
    lengths: &Vec<usize>,
    child: ArrayData,
    validity: Option<Vec<bool>>,
) -> (r: Result<ArrayData, Error>)
    requires
        is_array(child),
    ensures
        !lengths_fit(lengths@) ==> fails(r, Status::Internal, list_range_message()),
        lengths_fit(lengths@) ==> (r is Ok <==> {
            &&& total_of(lengths@, lengths@.len() as int) <= array_cells(child).len()
            &&& match validity {
                Some(v) => v@.len() == lengths@.len(),
                None => true,
            }
        }),
        lengths_fit(lengths@) && r is Err ==> fails_in_arrow(r),
        r matches Ok(a) ==> {
            &&& array_cells(a) == grouped(lengths@, validity, array_cells(child))
            &&& array_type(a) == ArrowType::List(Box::new(array_type(child)))
            &&& is_array(a)
        },
{
    let offsets = match offsets_of(lengths) {
        Ok(offsets) => offsets,
        Err(e) => {
            return Err(e);
        },
    };
    let ghost items = array_cells(child);
    let ghost marks = validity;
    assert(offsets@.last() == offsets@[lengths@.len() as int]);
    assert(list_cells(offsets@, marks, items) =~= grouped(lengths@, marks, items));
    match list_array(offsets, validity, child) {
        Ok(a) => Ok(a),
        Err(e) => Err(arrow_err(e)),
    }
}

/// The list array that groups the items of `child` by `lengths`, without NULLs.
pub fn list_of(lengths: &Vec<usize>, child: ArrayData) -> (r: Result<ArrayData, Error>)
    requires
        is_array(child),
    ensures
        !lengths_fit(lengths@) ==> fails(r, Status::Internal, list_range_message()),
        lengths_fit(lengths@) ==> (r is Ok <==> total_of(lengths@, lengths@.len() as int)
            <= array_cells(child).len()),
        lengths_fit(lengths@) && r is Err ==> fails_in_arrow(r),
        r matches Ok(a) ==> {
            &&& array_cells(a) == grouped(lengths@, None, array_cells(child))
            &&& array_type(a) == ArrowType::List(Box::new(array_type(child)))
            &&& is_array(a)
        },
{
    list_of_nullable(lengths, child, None)
}

// ---------------------------------------------------------------------------------------------
// Flattening
// ---------------------------------------------------------------------------------------------

/// The parts, one after the other.
pub open spec fn concat<T>(parts: Seq<Seq<T>>) -> Seq<T>
    decreases parts.len(),
{
    if parts.len() == 0 {
        Seq::empty()
    } else {
        concat(parts.drop_last()) + parts.last()
    }
}

/// Whether `lengths` are the lengths of `parts`.
pub open spec fn lengths_are<T>(lengths: Seq<usize>, parts: Seq<Seq<T>>) -> bool {
    &&& lengths.len() == parts.len()
    &&& forall|i: int| 0 <= i < parts.len() ==> #[trigger] lengths[i] == parts[i].len()
}

/// The parts lie in their concatenation where the sums of their lengths say.
pub proof fn lemma_concat_slices<T>(parts: Seq<Seq<T>>, lengths: Seq<usize>, i: int)
    requires
        lengths_are(lengths, parts),
        0 <= i < parts.len(),
    ensures
        total_of(lengths, i + 1) <= concat(parts).len(),
        concat(parts).subrange(total_of(lengths, i) as int, total_of(lengths, i + 1) as int)
            == parts[i],
    decreases parts.len(),
{
    let before = parts.drop_last();
    let n = parts.len() - 1;
    lemma_concat_len(before, lengths.take(n));
    lemma_total_of_take(lengths, n, n);
    lemma_total_of_take(lengths, n, i);
    if i < n {
        lemma_concat_slices(before, lengths.take(n), i);
        lemma_total_of_take(lengths, n, i + 1);
        assert(concat(parts).subrange(
            total_of(lengths, i) as int,
            total_of(lengths, i + 1) as int,
        ) =~= concat(before).subrange(
            total_of(lengths, i) as int,
            total_of(lengths, i + 1) as int,
        ));
    } else {
        assert(lengths[n] == parts[n].len());
        assert(concat(parts).subrange(
            total_of(lengths, i) as int,
            total_of(lengths, i + 1) as int,
        ) =~= parts[i]);
    }
}

proof fn lemma_total_of_take(lengths: Seq<usize>, n: int, i: int)
    requires
        0 <= i <= n <= lengths.len(),
    ensures
        total_of(lengths.take(n), i) == total_of(lengths, i),
    decreases i,
{
    if i > 0 {
        lemma_total_of_take(lengths, n, i - 1);
    }
}

/// Adding a length adds to the sum.
pub proof fn lemma_total_of_push(lengths: Seq<usize>, length: usize)
    ensures
        total_of(lengths.push(length), lengths.len() as int + 1) == total_of(
            lengths,
            lengths.len() as int,
        ) + length,
{
    let longer = lengths.push(length);
    lemma_total_of_take(longer, lengths.len() as int, lengths.len() as int);
    assert(longer.take(lengths.len() as int) =~= lengths);
}

/// The length of a concatenation is the sum of the lengths.
pub proof fn lemma_concat_len<T>(parts: Seq<Seq<T>>, lengths: Seq<usize>)
    requires
        lengths_are(lengths, parts),
    ensures
        concat(parts).len() == total_of(lengths, lengths.len() as int),
    decreases parts.len(),
{
    if parts.len() > 0 {
        let n = parts.len() - 1;
        lemma_concat_len(parts.drop_last(), lengths.take(n));
        lemma_total_of_take(lengths, n, n);
        assert(lengths[n] == parts[n].len());
    }
}

/// Mapping a concatenation maps its parts.
pub proof fn lemma_concat_map<T>(parts: Seq<Seq<T>>, f: spec_fn(T) -> Cell)
    ensures
        concat(parts).map_values(f) == concat(parts.map_values(|p: Seq<T>| p.map_values(f))),
    decreases parts.len(),
{
    let mapped = parts.map_values(|p: Seq<T>| p.map_values(f));
    if parts.len() > 0 {
        lemma_concat_map(parts.drop_last(), f);
        assert(mapped.drop_last() =~= parts.drop_last().map_values(
            |p: Seq<T>| p.map_values(f),
        ));
        assert(concat(parts).map_values(f) =~= concat(mapped));
    } else {
        assert(concat(parts).map_values(f) =~= concat(mapped));
    }
}

/// Grouping the concatenation of the parts by their lengths gives each part as a list.
pub proof fn lemma_grouped_concat(
    parts: Seq<Seq<Cell>>,
    lengths: Seq<usize>,
    validity: Option<Vec<bool>>,
)
    requires
        lengths_are(lengths, parts),
    ensures
        grouped(lengths, validity, concat(parts)) == Seq::new(
            parts.len(),
            |i: int|
                if is_valid(validity, i) {
                    Cell::List(parts[i])
                } else {
                    Cell::Null
                },
        ),
{
    assert forall|i: int| 0 <= i < parts.len() implies concat(parts).subrange(
        #[trigger] total_of(lengths, i) as int,
        total_of(lengths, i + 1) as int,
    ) == parts[i] by {
        lemma_concat_slices(parts, lengths, i);
    }
    assert(grouped(lengths, validity, concat(parts)) =~= Seq::new(
        parts.len(),
        |i: int|
            if is_valid(validity, i) {
                Cell::List(parts[i])
            } else {
                Cell::Null
            },
    ));
}

} // verus!
