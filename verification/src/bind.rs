//! Which parameter of a query each bound column goes to.

use vstd::prelude::*;

use crate::error::{invalid_argument, Error, Status};
use crate::sql::{named_parameters, occurs_in, parameters};
use crate::text::{
    debug_quoted, debug_text, decimal, eq_ignoring_case, push_decimal, same_ignoring_case, texts,
};

verus! {

pub open spec fn count_message(parameters: nat, columns: nat) -> Seq<char> {
    "parameter-count mismatch: the query has "@ + decimal(parameters)
        + " distinct parameters, but "@ + decimal(columns) + " columns are bound"@
}

pub open spec fn unknown_column_message(column: Seq<char>) -> Seq<char> {
    "bound column "@ + debug_text(column) + " names no parameter of the query"@
}

/// The first column that names no parameter, from the column at `i` on.
pub open spec fn first_unknown(
    columns: Seq<Seq<char>>,
    parameters: Seq<Seq<char>>,
    i: int,
) -> Option<Seq<char>>
    decreases columns.len() - i,
{
    if i < 0 || i >= columns.len() {
        None
    } else if occurs_in(columns[i], parameters) {
        first_unknown(columns, parameters, i + 1)
    } else {
        Some(columns[i])
    }
}

/// The parameter that each column goes to: by position the distinct parameters in the order of the
/// query, by name the parameter that the column names.
pub open spec fn pairing(
    parameters: Seq<Seq<char>>,
    columns: Seq<Seq<char>>,
    by_name: bool,
) -> Result<Seq<Seq<char>>, Seq<char>> {
    if by_name {
        match first_unknown(columns, parameters, 0) {
            Some(column) => Err(unknown_column_message(column)),
            None => Ok(columns),
        }
    } else if parameters.len() != columns.len() {
        Err(count_message(parameters.len(), columns.len()))
    } else {
        Ok(parameters)
    }
}

fn names_one_of(column: &str, names: &Vec<String>) -> (r: bool)
    ensures
        r == occurs_in(column@, texts(names@)),
{
    let mut i: usize = 0;
    while i < names.len()
        invariant
            i <= names@.len(),
            forall|k: int|
                0 <= k < i ==> !same_ignoring_case(#[trigger] texts(names@)[k], column@),
        decreases names@.len() - i,
    {
        assert(texts(names@)[i as int] == names@[i as int]@);
        if eq_ignoring_case(names[i].as_str(), column) {
            return true;
        }
        i = i + 1;
    }
    false
}

/// The parameter of `sql` that each bound column goes to. By position, the i-th column goes to the
/// i-th distinct parameter, whatever the columns are named, and there must be as many of the one as
/// of the other. By name, a column goes to the parameter of its own name, whatever the case of its
/// letters, and a column that names none is rejected.
pub fn resolve_parameter_names(
    sql: &str,
    column_names: &Vec<String>,
    bind_by_name: bool,
) -> (r: Result<Vec<String>, Error>)
    ensures
        match pairing(parameters(sql@), texts(column_names@), bind_by_name) {
            Ok(names) => r is Ok && texts(r->Ok_0@) == names,
            Err(m) => r is Err && r->Err_0.says(Status::InvalidArguments, m),
        },
{
    let names = named_parameters(sql);
    assert(texts(names@).len() == names@.len());
    assert(texts(column_names@).len() == column_names@.len());
    if !bind_by_name {
        if names.len() != column_names.len() {
            let mut message = "parameter-count mismatch: the query has ".to_owned();
            push_decimal(&mut message, names.len() as u128);
            message.append(" distinct parameters, but ");
            push_decimal(&mut message, column_names.len() as u128);
            message.append(" columns are bound");
            return Err(invalid_argument(message));
        }
        return Ok(names);
    }
    let ghost columns = texts(column_names@);
    let mut out: Vec<String> = Vec::new();
    let mut i: usize = 0;
    assert(texts(out@) =~= columns.take(0));
    while i < column_names.len()
        invariant
            i <= column_names@.len(),
            columns == texts(column_names@),
            texts(names@) == parameters(sql@),
            first_unknown(columns, parameters(sql@), 0) == first_unknown(
                columns,
                parameters(sql@),
                i as int,
            ),
            texts(out@) == columns.take(i as int),
            bind_by_name,
        decreases column_names@.len() - i,
    {
        assert(columns[i as int] == column_names@[i as int]@);
        let column = column_names[i].as_str();
        if !names_one_of(column, &names) {
            let mut message = "bound column ".to_owned();
            message.append(debug_quoted(column).as_str());
            message.append(" names no parameter of the query");
            return Err(invalid_argument(message));
        }
        let name = column.to_owned();
        assert(texts(out@.push(name)) =~= texts(out@).push(name@));
        out.push(name);
        i = i + 1;
        assert(columns.take(i as int) =~= columns.take(i - 1).push(columns[i - 1]));
    }
    assert(columns.take(columns.len() as int) =~= columns);
    Ok(out)
}

/// By position the names of the columns do not matter, only how many there are. By name their order
/// does not matter: a column goes to the same parameter wherever it stands.
pub proof fn lemma_pairing(
    parameters: Seq<Seq<char>>,
    columns: Seq<Seq<char>>,
    others: Seq<Seq<char>>,
)
    requires
        columns.len() == others.len(),
    ensures
        pairing(parameters, columns, false) == pairing(parameters, others, false),
        pairing(parameters, columns, true) is Ok ==> pairing(parameters, columns, true)
            == Ok::<Seq<Seq<char>>, Seq<char>>(columns),
        pairing(parameters, columns, true) is Ok <==> forall|i: int|
            0 <= i < columns.len() ==> occurs_in(#[trigger] columns[i], parameters),
{
    lemma_first_unknown(columns, parameters, 0);
}

proof fn lemma_first_unknown(columns: Seq<Seq<char>>, parameters: Seq<Seq<char>>, from: int)
    requires
        0 <= from,
    ensures
        first_unknown(columns, parameters, from) is None <==> forall|i: int|
            from <= i < columns.len() ==> occurs_in(#[trigger] columns[i], parameters),
    decreases columns.len() - from,
{
    if from < columns.len() && occurs_in(columns[from], parameters) {
        lemma_first_unknown(columns, parameters, from + 1);
    }
}

} // verus!
