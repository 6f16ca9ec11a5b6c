//! The result of `get_info`: driver and vendor metadata, one row per info code.
//!
//! Every value is static, so no query is needed. Codes that the driver does not recognise are left
//! out of the result.

use arrow_data::ArrayData;
use arrow_schema::ArrowError;
use vstd::prelude::*;
use vstd::utf8::{encode_utf8, is_ascii_chars, is_ascii_chars_encode_utf8};

use crate::arrow::{
    are_info_branches, array_cells, array_type, bool_array, bool_cell, branch_cells, empty_info_map,
    info_batch, info_rows, info_type, info_union, int32_array, int64_array, int64_cell, is_array,
    list_array, text_cell, text_cells, uint32_array, union_cells, union_fits, utf8_array,
    utf8_total, ArrowType, Cell,
};
use crate::error::Error;
use crate::nested::{arrow_err, text_column, texts_fit};

verus! {

/// The vendor name that `get_info` reports.
pub const VENDOR_NAME: &'static str = "Google Cloud Spanner";

/// The driver name that `get_info` reports.
pub const DRIVER_NAME: &'static str = "adbc-spanner";

/// The version of this driver.
pub const DRIVER_VERSION: &'static str = "0.1.0";

/// The version of the Arrow crates that this driver is built against.
pub const ARROW_VERSION: &'static str = "v60.1.0";

/// The ADBC API revision that this driver targets.
pub const ADBC_VERSION_1_1_0: i64 = 1_001_000;

/// A piece of driver or vendor metadata.
#[derive(Debug, Clone, Copy, PartialEq, Eq, Structural)]
pub enum InfoCode {
    VendorName,
    VendorVersion,
    VendorArrowVersion,
    VendorSql,
    VendorSubstrait,
    VendorSubstraitMinVersion,
    VendorSubstraitMaxVersion,
    DriverName,
    DriverVersion,
    DriverArrowVersion,
    DriverAdbcVersion,
    /// Any code without a name of its own.
    Other(u32),
}

/// The number that stands for a code.
pub open spec fn number_of(code: InfoCode) -> u32 {
    match code {
        InfoCode::VendorName => 0,
        InfoCode::VendorVersion => 1,
        InfoCode::VendorArrowVersion => 2,
        InfoCode::VendorSql => 3,
        InfoCode::VendorSubstrait => 4,
        InfoCode::VendorSubstraitMinVersion => 5,
        InfoCode::VendorSubstraitMaxVersion => 6,
        InfoCode::DriverName => 100,
        InfoCode::DriverVersion => 101,
        InfoCode::DriverArrowVersion => 102,
        InfoCode::DriverAdbcVersion => 103,
        InfoCode::Other(n) => n,
    }
}

impl InfoCode {
    /// The number that stands for the code.
    pub fn number(self) -> (r: u32)
        ensures
            r == number_of(self),
    {
        match self {
            InfoCode::VendorName => 0,
            InfoCode::VendorVersion => 1,
            InfoCode::VendorArrowVersion => 2,
            InfoCode::VendorSql => 3,
            InfoCode::VendorSubstrait => 4,
            InfoCode::VendorSubstraitMinVersion => 5,
            InfoCode::VendorSubstraitMaxVersion => 6,
            InfoCode::DriverName => 100,
            InfoCode::DriverVersion => 101,
            InfoCode::DriverArrowVersion => 102,
            InfoCode::DriverAdbcVersion => 103,
            InfoCode::Other(n) => n,
        }
    }

    /// The code that a number stands for.
    pub fn from_number(number: u32) -> (r: InfoCode)
        ensures
            number_of(r) == number,
            r is Other <==> !(number <= 6 || 100 <= number <= 103),
    {
        match number {
            0 => InfoCode::VendorName,
            1 => InfoCode::VendorVersion,
            2 => InfoCode::VendorArrowVersion,
            3 => InfoCode::VendorSql,
            4 => InfoCode::VendorSubstrait,
            5 => InfoCode::VendorSubstraitMinVersion,
            6 => InfoCode::VendorSubstraitMaxVersion,
            100 => InfoCode::DriverName,
            101 => InfoCode::DriverVersion,
            102 => InfoCode::DriverArrowVersion,
            103 => InfoCode::DriverAdbcVersion,
            n => InfoCode::Other(n),
        }
    }
}

/// The codes that the driver recognises, in the order of their numbers.
pub open spec fn recognised() -> Seq<InfoCode> {
    seq![
        InfoCode::VendorName,
        InfoCode::VendorVersion,
        InfoCode::VendorArrowVersion,
        InfoCode::VendorSql,
        InfoCode::VendorSubstrait,
        InfoCode::VendorSubstraitMinVersion,
        InfoCode::VendorSubstraitMaxVersion,
        InfoCode::DriverName,
        InfoCode::DriverVersion,
        InfoCode::DriverArrowVersion,
        InfoCode::DriverAdbcVersion,
    ]
}

/// The codes that are reported when none are asked for: those with a meaningful value.
pub open spec fn reported() -> Seq<InfoCode> {
    seq![
        InfoCode::VendorName,
        InfoCode::VendorSql,
        InfoCode::VendorSubstrait,
        InfoCode::DriverName,
        InfoCode::DriverVersion,
        InfoCode::DriverArrowVersion,
        InfoCode::DriverAdbcVersion,
    ]
}

/// Those of the first `n` recognised codes that are among `codes`.
pub open spec fn asked_for(codes: Seq<InfoCode>, n: int) -> Seq<InfoCode>
    decreases n,
{
    if n <= 0 {
        Seq::empty()
    } else if codes.contains(recognised()[n - 1]) {
        asked_for(codes, n - 1).push(recognised()[n - 1])
    } else {
        asked_for(codes, n - 1)
    }
}

/// The codes that a request is answered with, in the order of the rows.
pub open spec fn answered(codes: Option<&Vec<InfoCode>>) -> Seq<InfoCode> {
    match codes {
        Some(cs) => asked_for(cs@, recognised().len() as int),
        None => reported(),
    }
}

/// The value reported for a code. Spanner has no user-visible server version, runs no Arrow library
/// and speaks no Substrait: these are NULL.
pub open spec fn info_cell(code: InfoCode) -> Cell {
    match code {
        InfoCode::VendorName => Cell::Text(VENDOR_NAME@),
        InfoCode::VendorSql => Cell::Bool(true),
        InfoCode::VendorSubstrait => Cell::Bool(false),
        InfoCode::DriverName => Cell::Text(DRIVER_NAME@),
        InfoCode::DriverVersion => Cell::Text(DRIVER_VERSION@),
        InfoCode::DriverArrowVersion => Cell::Text(ARROW_VERSION@),
        InfoCode::DriverAdbcVersion => Cell::Int(1_001_000),
        _ => Cell::Null,
    }
}

/// The row of a code.
pub open spec fn info_row(code: InfoCode) -> Cell {
    Cell::Struct(
        seq![
            ("info_name"@, Cell::Int(number_of(code) as int)),
            ("info_value"@, info_cell(code)),
        ],
    )
}

/// A value, by the branch of the union that it belongs to.
pub enum InfoValue {
    Str(String),
    Bool(bool),
    Int(i64),
    /// No value, which the text branch holds.
    Null,
}

pub open spec fn value_cell(value: InfoValue) -> Cell {
    match value {
        InfoValue::Str(s) => Cell::Text(s@),
        InfoValue::Bool(b) => Cell::Bool(b),
        InfoValue::Int(i) => Cell::Int(i as int),
        InfoValue::Null => Cell::Null,
    }
}

/// The value that the driver reports for `code`.
pub fn value_for(code: InfoCode) -> (r: InfoValue)
    ensures
        value_cell(r) == info_cell(code),
{
    match code {
        InfoCode::VendorName => InfoValue::Str(VENDOR_NAME.to_owned()),
        InfoCode::VendorSql => InfoValue::Bool(true),
        InfoCode::VendorSubstrait => InfoValue::Bool(false),
        InfoCode::DriverName => InfoValue::Str(DRIVER_NAME.to_owned()),
        InfoCode::DriverVersion => InfoValue::Str(DRIVER_VERSION.to_owned()),
        InfoCode::DriverArrowVersion => InfoValue::Str(ARROW_VERSION.to_owned()),
        InfoCode::DriverAdbcVersion => InfoValue::Int(ADBC_VERSION_1_1_0),
        _ => InfoValue::Null,
    }
}

/// The codes that are reported when none are asked for.
pub fn reported_codes() -> (r: Vec<InfoCode>)
    ensures
        r@ == reported(),
{
    let mut r: Vec<InfoCode> = Vec::new();
    r.push(InfoCode::VendorName);
    r.push(InfoCode::VendorSql);
    r.push(InfoCode::VendorSubstrait);
    r.push(InfoCode::DriverName);
    r.push(InfoCode::DriverVersion);
    r.push(InfoCode::DriverArrowVersion);
    r.push(InfoCode::DriverAdbcVersion);
    assert(r@ =~= reported());
    r
}

fn recognised_codes() -> (r: Vec<InfoCode>)
    ensures
        r@ == recognised(),
{
    let mut r: Vec<InfoCode> = Vec::new();
    r.push(InfoCode::VendorName);
    r.push(InfoCode::VendorVersion);
    r.push(InfoCode::VendorArrowVersion);
    r.push(InfoCode::VendorSql);
    r.push(InfoCode::VendorSubstrait);
    r.push(InfoCode::VendorSubstraitMinVersion);
    r.push(InfoCode::VendorSubstraitMaxVersion);
    r.push(InfoCode::DriverName);
    r.push(InfoCode::DriverVersion);
    r.push(InfoCode::DriverArrowVersion);
    r.push(InfoCode::DriverAdbcVersion);
    assert(r@ =~= recognised());
    r
}

fn contains_code(codes: &Vec<InfoCode>, code: InfoCode) -> (r: bool)
    ensures
        r == codes@.contains(code),
{
    let mut i: usize = 0;
    while i < codes.len()
        invariant
            i <= codes@.len(),
            forall|k: int| 0 <= k < i ==> #[trigger] codes@[k] != code,
        decreases codes@.len() - i,
    {
        if codes[i] == code {
            return true;
        }
        i = i + 1;
    }
    false
}

/// The codes that a request is answered with: those recognised among the ones asked for, each once
/// and in the order of their numbers, or the reported ones if none are asked for.
fn answered_codes(codes: Option<&Vec<InfoCode>>) -> (r: Vec<InfoCode>)
    ensures
        r@ == answered(codes),
        r@.len() <= 11,
{
    match codes {
        None => reported_codes(),
        Some(cs) => {
            let all = recognised_codes();
            let mut r: Vec<InfoCode> = Vec::new();
            let mut i: usize = 0;
            while i < all.len()
                invariant
                    i <= all@.len() == 11,
                    all@ == recognised(),
                    r@ == asked_for(cs@, i as int),
                    r@.len() <= i,
                decreases all@.len() - i,
            {
                if contains_code(cs, all[i]) {
                    r.push(all[i]);
                }
                i = i + 1;
            }
            r
        },
    }
}

proof fn lemma_short_text(cells: Seq<Cell>)
    requires
        forall|k: int|
            0 <= k < cells.len() ==> match #[trigger] cells[k] {
                Cell::Text(s) => encode_utf8(s).len() <= 64,
                _ => true,
            },
    ensures
        utf8_total(cells) <= 64 * cells.len(),
    decreases cells.len(),
{
    if cells.len() > 0 {
        lemma_short_text(cells.drop_last());
        assert(cells[cells.len() - 1] == cells.last());
    }
}

proof fn lemma_info_texts_are_short(code: InfoCode)
    ensures
        match info_cell(code) {
            Cell::Text(s) => encode_utf8(s).len() <= 64,
            _ => true,
        },
{
    reveal_strlit("Google Cloud Spanner");
    reveal_strlit("adbc-spanner");
    reveal_strlit("0.1.0");
    reveal_strlit("v60.1.0");
    assert(is_ascii_chars(VENDOR_NAME@));
    assert(is_ascii_chars(DRIVER_NAME@));
    assert(is_ascii_chars(DRIVER_VERSION@));
    assert(is_ascii_chars(ARROW_VERSION@));
    is_ascii_chars_encode_utf8(VENDOR_NAME@);
    is_ascii_chars_encode_utf8(DRIVER_NAME@);
    is_ascii_chars_encode_utf8(DRIVER_VERSION@);
    is_ascii_chars_encode_utf8(ARROW_VERSION@);
}

/// No lists of texts.
fn empty_text_lists() -> (r: Result<ArrayData, ArrowError>)
    ensures
        r is Ok,
        r matches Ok(a) ==> {
            &&& array_cells(a) == Seq::<Cell>::empty()
            &&& array_type(a) == ArrowType::List(Box::new(ArrowType::Utf8))
            &&& is_array(a)
        },
{
    let mut offsets: Vec<i32> = Vec::new();
    offsets.push(0);
    let no_texts: Vec<Option<String>> = Vec::new();
    assert(text_cells(no_texts@).len() == 0);
    list_array(offsets, None, utf8_array(no_texts))
}

/// The `get_info` result for the codes asked for, or for all reported ones, as a struct array under
/// ADBC's `get_info` schema: one row per answered code, with its number and its value.
pub fn build(codes: Option<&Vec<InfoCode>>) -> (r: Result<ArrayData, Error>)
    ensures
        r is Ok,
        r matches Ok(a) ==> {
            &&& array_cells(a) == answered(codes).map_values(|c: InfoCode| info_row(c))
            &&& array_type(a) == info_type()
            &&& is_array(a)
        },
{
    let answers = answered_codes(codes);
    let mut names: Vec<u32> = Vec::new();
    let mut type_ids: Vec<i8> = Vec::new();
    let mut offsets: Vec<i32> = Vec::new();
    let mut strings: Vec<Option<String>> = Vec::new();
    let mut bools: Vec<Option<bool>> = Vec::new();
    let mut ints: Vec<Option<i64>> = Vec::new();
    let mut i: usize = 0;
    while i < answers.len()
        invariant
            i <= answers@.len() <= 11,
            names@.len() == i,
            type_ids@.len() == i,
            offsets@.len() == i,
            strings@.len() + bools@.len() + ints@.len() == i,
            forall|k: int| 0 <= k < i ==> #[trigger] names@[k] == number_of(answers@[k]),
            forall|k: int|
                0 <= k < i ==> {
                    let filled = seq![
                        text_cells(strings@),
                        bools@.map_values(|v: Option<bool>| bool_cell(v)),
                        ints@.map_values(|v: Option<i64>| int64_cell(v)),
                    ];
                    let branch = filled[type_ids@[k] as int];
                    &&& 0 <= type_ids@[k] < filled.len()
                    &&& 0 <= #[trigger] offsets@[k] < branch.len()
                    &&& branch[offsets@[k] as int] == info_cell(answers@[k])
                },
            forall|k: int|
                0 <= k < strings@.len() ==> match text_cell(#[trigger] strings@[k]) {
                    Cell::Text(s) => encode_utf8(s).len() <= 64,
                    _ => true,
                },
        decreases answers@.len() - i,
    {
        let code = answers[i];
        names.push(code.number());
        let value = value_for(code);
        proof {
            lemma_info_texts_are_short(code);
        }
        match value {
            InfoValue::Str(s) => {
                offsets.push(strings.len() as i32);
                type_ids.push(0);
                strings.push(Some(s));
            },
            InfoValue::Null => {
                offsets.push(strings.len() as i32);
                type_ids.push(0);
                strings.push(None);
            },
            InfoValue::Bool(b) => {
                offsets.push(bools.len() as i32);
                type_ids.push(1);
                bools.push(Some(b));
            },
            InfoValue::Int(n) => {
                offsets.push(ints.len() as i32);
                type_ids.push(2);
                ints.push(Some(n));
            },
        }
        i = i + 1;
    }
    let ghost string_cells = text_cells(strings@);
    let ghost bool_cells = bools@.map_values(|v: Option<bool>| bool_cell(v));
    let ghost int_cells = ints@.map_values(|v: Option<i64>| int64_cell(v));
    proof {
        assert forall|k: int| 0 <= k < string_cells.len() implies match #[trigger] string_cells[k] {
            Cell::Text(s) => encode_utf8(s).len() <= 64,
            _ => true,
        } by {
            assert(string_cells[k] == text_cell(strings@[k]));
        }
        lemma_short_text(string_cells);
        assert(texts_fit(string_cells));
    }
    let text_branch = match text_column(strings) {
        Ok(a) => a,
        Err(e) => {
            return Err(e);
        },
    };
    let mut branches: Vec<ArrayData> = Vec::new();
    branches.push(text_branch);
    branches.push(bool_array(bools));
    branches.push(int64_array(ints));
    branches.push(int32_array(Vec::new()));
    branches.push(
        match empty_text_lists() {
            Ok(a) => a,
            Err(e) => {
                return Err(arrow_err(e));
            },
        },
    );
    branches.push(empty_info_map());
    proof {
        let cells = branch_cells(branches@);
        assert(cells[0] == string_cells);
        assert(cells[1] == bool_cells);
        assert(cells[2] == int_cells);
        assert(are_info_branches(branches@));
        assert forall|k: int| 0 <= k < type_ids@.len() implies {
            &&& 0 <= #[trigger] type_ids@[k] < cells.len()
            &&& 0 <= offsets@[k] < cells[type_ids@[k] as int].len()
            &&& cells[type_ids@[k] as int][offsets@[k] as int] == info_cell(answers@[k])
        } by {
            let filled = seq![string_cells, bool_cells, int_cells];
            let t = type_ids@[k] as int;
            assert(0 <= offsets@[k]);
            assert(0 <= t < filled.len());
            assert(cells[t] == filled[t]);
        }
        assert(union_fits(type_ids@, offsets@, cells));
        let values = union_cells(type_ids@, offsets@, cells);
        let codes_cells = names@.map_values(|v: u32| Cell::Int(v as int));
        assert forall|k: int| 0 <= k < answers@.len() implies #[trigger] values[k] == info_cell(
            answers@[k],
        ) by {
            assert(0 <= offsets@[k]);
        }
        assert(info_rows(codes_cells, values) =~= answered(codes).map_values(
            |c: InfoCode| info_row(c),
        ));
        assert(!codes_cells.contains(Cell::Null));
    }
    let values = match info_union(type_ids, offsets, branches) {
        Ok(a) => a,
        Err(e) => {
            return Err(arrow_err(e));
        },
    };
    match info_batch(uint32_array(names), values) {
        Ok(a) => Ok(a),
        Err(e) => Err(arrow_err(e)),
    }
}

// ---------------------------------------------------------------------------------------------
// Laws
// ---------------------------------------------------------------------------------------------

/// Every code with a value is reported also when none are asked for.
pub proof fn lemma_every_value_is_reported(code: InfoCode)
    requires
        info_cell(code) != Cell::Null,
    ensures
        reported().contains(code),
{
    let r = reported();
    assert(r[0] == InfoCode::VendorName);
    assert(r[1] == InfoCode::VendorSql);
    assert(r[2] == InfoCode::VendorSubstrait);
    assert(r[3] == InfoCode::DriverName);
    assert(r[4] == InfoCode::DriverVersion);
    assert(r[5] == InfoCode::DriverArrowVersion);
    assert(r[6] == InfoCode::DriverAdbcVersion);
}

/// The rows come in the strict order of their codes, whatever was asked for and in whatever order;
/// exactly the recognised codes among those asked for are answered.
pub proof fn lemma_answers_are_in_code_order(codes: Option<&Vec<InfoCode>>)
    ensures
        forall|i: int, j: int|
            0 <= i < j < answered(codes).len() ==> number_of(#[trigger] answered(codes)[i])
                < number_of(#[trigger] answered(codes)[j]),
        codes matches Some(cs) ==> forall|code: InfoCode| #[trigger]
            answered(codes).contains(code) <==> cs@.contains(code) && !(code is Other),
{
    match codes {
        None => {},
        Some(cs) => {
            lemma_asked_for(cs@, 11);
            assert(recognised().len() == 11);
            let asked = asked_for(cs@, 11);
            assert(recognised().take(11) =~= recognised());
            assert(forall|k: int| 0 <= k < 11 ==> !(#[trigger] recognised()[k] is Other));
            assert forall|code: InfoCode| #[trigger]
                asked.contains(code) <==> cs@.contains(code) && !(code is Other) by {
                if !(code is Other) {
                    lemma_recognised(code);
                }
            }
        },
    }
}

proof fn lemma_recognised(code: InfoCode)
    requires
        !(code is Other),
    ensures
        recognised().contains(code),
{
    let r = recognised();
    assert(r[0] == InfoCode::VendorName);
    assert(r[1] == InfoCode::VendorVersion);
    assert(r[2] == InfoCode::VendorArrowVersion);
    assert(r[3] == InfoCode::VendorSql);
    assert(r[4] == InfoCode::VendorSubstrait);
    assert(r[5] == InfoCode::VendorSubstraitMinVersion);
    assert(r[6] == InfoCode::VendorSubstraitMaxVersion);
    assert(r[7] == InfoCode::DriverName);
    assert(r[8] == InfoCode::DriverVersion);
    assert(r[9] == InfoCode::DriverArrowVersion);
    assert(r[10] == InfoCode::DriverAdbcVersion);
}

proof fn lemma_asked_for(codes: Seq<InfoCode>, n: int)
    requires
        0 <= n <= 11,
    ensures
        forall|code: InfoCode| #[trigger]
            asked_for(codes, n).contains(code) <==> codes.contains(code) && recognised().take(
                n,
            ).contains(code),
        forall|i: int, j: int|
            0 <= i < j < asked_for(codes, n).len() ==> number_of(#[trigger] asked_for(codes, n)[i])
                < number_of(#[trigger] asked_for(codes, n)[j]),
        forall|i: int|
            0 <= i < asked_for(codes, n).len() ==> n > 0 && number_of(
                #[trigger] asked_for(codes, n)[i],
            ) <= number_of(recognised()[n - 1]),
    decreases n,
{
    if n > 0 {
        lemma_asked_for(codes, n - 1);
        let before = asked_for(codes, n - 1);
        let now = asked_for(codes, n);
        let last = recognised()[n - 1];
        assert(n > 1 ==> number_of(recognised()[n - 2]) < number_of(last));
        let taken = recognised().take(n);
        let earlier = recognised().take(n - 1);
        assert(taken =~= earlier.push(last));
        assert forall|code: InfoCode| #[trigger]
            now.contains(code) <==> codes.contains(code) && taken.contains(code) by {
            if now.contains(code) {
                let k = choose|k: int| 0 <= k < now.len() && now[k] == code;
                if k < before.len() {
                    assert(before[k] == code);
                    assert(before.contains(code));
                    let m = choose|m: int| 0 <= m < earlier.len() && earlier[m] == code;
                    assert(taken[m] == code);
                } else {
                    assert(taken[n - 1] == code);
                }
            }
            if codes.contains(code) && taken.contains(code) {
                let m = choose|m: int| 0 <= m < n && taken[m] == code;
                if m < n - 1 {
                    assert(earlier[m] == code);
                    assert(before.contains(code));
                    let k = choose|k: int| 0 <= k < before.len() && before[k] == code;
                    assert(now[k] == code);
                } else {
                    assert(now[now.len() - 1] == code);
                }
            }
        }
    } else {
        assert(recognised().take(0) =~= Seq::<InfoCode>::empty());
    }
}

} // verus!
