//! Turso (libSQL) over the Hrana v2 `/v2/pipeline` protocol: the requests that are
//! sent, and what the replies mean.

use crate::number::{self, read_i64};
use crate::text::{self, same};
use vstd::prelude::*;

verus! {

broadcast use vstd::seq::group_seq_axioms;

// ── JSON values ──────────────────────────────────────────────────────────────

/// A JSON value.
pub enum Json {
    Null,
    Bool(bool),
    /// A number that fits 64 bits with a sign.
    Integer(i64),
    /// Any other number, as it is written.
    Number(String),
    Text(String),
    Array(Vec<Json>),
    /// The entries of an object; no key occurs twice.
    Object(Vec<(String, Json)>),
}

/// The first entry, `from` or later, with the given key.
pub open spec fn entry(fields: Seq<(String, Json)>, key: Seq<char>, from: int) -> Option<int>
    decreases fields.len() - from,
{
    if from < 0 || from >= fields.len() {
        None
    } else if fields[from].0@ == key {
        Some(from)
    } else {
        entry(fields, key, from + 1)
    }
}

/// The value under a key.
pub open spec fn field(fields: Seq<(String, Json)>, key: Seq<char>) -> Option<Json> {
    match entry(fields, key, 0) {
        Some(i) => Some(fields[i].1),
        None => None,
    }
}

/// The text that a value is.
pub open spec fn text_value(value: Json) -> Option<Seq<char>> {
    match value {
        Json::Text(s) => Some(s@),
        _ => None,
    }
}

/// The text under a key.
pub open spec fn text_field(fields: Seq<(String, Json)>, key: Seq<char>) -> Option<Seq<char>> {
    match field(fields, key) {
        Some(v) => text_value(v),
        None => None,
    }
}

/// What a cell that says its type holds.
pub open spec fn typed_value(ty: Seq<char>, value: Option<Json>) -> Json {
    if ty == "null"@ {
        Json::Null
    } else {
        match value {
            Some(v) => match v {
                Json::Text(s) => if ty == "integer"@ && number::i64_of(s@) is Some {
                    Json::Integer(number::i64_of(s@)->0 as i64)
                } else {
                    v
                },
                _ => v,
            },
            None => Json::Null,
        }
    }
}

/// The plain value of a result cell.
pub open spec fn decoded(cell: Json) -> Json {
    match cell {
        Json::Object(fields) => match text_field(fields@, "type"@) {
            Some(ty) => typed_value(ty, field(fields@, "value"@)),
            None => cell,
        },
        _ => cell,
    }
}

fn find_entry(fields: &Vec<(String, Json)>, key: &str) -> (r: Option<usize>)
    ensures
        match r {
            Some(i) => entry(fields@, key@, 0) == Some(i as int) && i < fields@.len(),
            None => entry(fields@, key@, 0) is None,
        },
{
    let mut i: usize = 0;
    while i < fields.len()
        invariant
            i <= fields@.len(),
            entry(fields@, key@, 0) == entry(fields@, key@, i as int),
        decreases fields.len() - i,
    {
        if same(fields[i].0.as_str(), key) {
            return Some(i);
        }
        i += 1;
    }
    None
}

impl Json {
    /// The text that the value is, if it is one.
    pub fn as_str(&self) -> (r: Option<&str>)
        ensures
            match r {
                Some(s) => text_value(*self) == Some(s@),
                None => text_value(*self) is None,
            },
    {
        match self {
            Json::Text(s) => Some(s.as_str()),
            _ => None,
        }
    }
}

/// The type that a cell says it is of.
fn cell_type(fields: &Vec<(String, Json)>) -> (r: Option<String>)
    ensures
        text::opt_view(r) == text_field(fields@, "type"@),
{
    match find_entry(fields, "type") {
        Some(i) => match fields[i].1.as_str() {
            Some(s) => Some(s.to_owned()),
            None => None,
        },
        None => None,
    }
}

/// Hrana returns each result cell as `{"type": "text"|"integer"|"float"|"null"|
/// "blob", "value": ...}`. Flatten it to a plain JSON value so callers can use
/// it directly. Cells already in plain form are returned unchanged.
pub fn decode_cell(cell: Json) -> (r: Json)
    ensures
        r == decoded(cell),
{
    let mut fields = match cell {
        Json::Object(fields) => fields,
        other => return other,
    };
    let ty = match cell_type(&fields) {
        Some(ty) => ty,
        None => return Json::Object(fields),
    };
    if same(ty.as_str(), "null") {
        return Json::Null;
    }
    let value = match find_entry(&fields, "value") {
        Some(i) => fields.swap_remove(i).1,
        None => return Json::Null,
    };
    // Hrana encodes integers as strings to preserve 64-bit precision.
    if same(ty.as_str(), "integer") {
        if let Json::Text(s) = &value {
            if let Some(n) = read_i64(s.as_str()) {
                return Json::Integer(n);
            }
        }
    }
    value
}

// ── requests ─────────────────────────────────────────────────────────────────

/// A statement argument, `{"type": "text", "value": "foo"}` on the wire.
pub enum TursoArg {
    Text(String),
    Integer(String),
    Null,
}

impl Clone for TursoArg {
    fn clone(&self) -> (r: Self)
        ensures
            r == *self,
    {
        match self {
            TursoArg::Text(s) => TursoArg::Text(s.clone()),
            TursoArg::Integer(s) => TursoArg::Integer(s.clone()),
            TursoArg::Null => TursoArg::Null,
        }
    }
}

/// An argument as a value.
pub enum ArgModel {
    Text(Seq<char>),
    Integer(Seq<char>),
    Null,
}

impl TursoArg {
    /// The argument as a value.
    pub open spec fn model(self) -> ArgModel {
        match self {
            TursoArg::Text(s) => ArgModel::Text(s@),
            TursoArg::Integer(s) => ArgModel::Integer(s@),
            TursoArg::Null => ArgModel::Null,
        }
    }
}

/// Each argument as a value.
pub open spec fn arg_models(args: Seq<TursoArg>) -> Seq<ArgModel> {
    Seq::new(args.len(), |i: int| args[i].model())
}

/// An SQL statement with its arguments.
pub struct TursoStmtInner {
    pub sql: String,
    pub args: Vec<TursoArg>,
}

/// One step of a pipeline.
pub struct TursoStatement {
    pub stmt_type: String,
    pub stmt: Option<TursoStmtInner>,
}

/// Where the pipeline of a database is found.
pub fn pipeline_url(url: &str) -> (r: String)
    ensures
        r@ == url@ + "/v2/pipeline"@,
{
    let mut out = url.to_owned();
    out.append("/v2/pipeline");
    out
}

/// The pipeline that runs one statement: execute it, then close the stream.
pub fn pipeline(sql: &str, args: Vec<TursoArg>) -> (r: Vec<TursoStatement>)
    ensures
        r@.len() == 2,
        r@[0].stmt_type@ == "execute"@,
        r@[0].stmt matches Some(s) && s.sql@ == sql@ && s.args == args,
        r@[1].stmt_type@ == "close"@,
        r@[1].stmt is None,
{
    let mut out: Vec<TursoStatement> = Vec::new();
    out.push(
        TursoStatement {
            stmt_type: "execute".to_owned(),
            stmt: Some(TursoStmtInner { sql: sql.to_owned(), args }),
        },
    );
    out.push(TursoStatement { stmt_type: "close".to_owned(), stmt: None });
    out
}

// ── replies ──────────────────────────────────────────────────────────────────

/// The rows of a reply, cell by cell, under the names of their columns.
pub struct TursoRows {
    pub cols: Vec<String>,
    pub rows: Vec<Vec<Json>>,
}

/// What one step of a pipeline came to.
pub struct TursoResult {
    pub result_type: String,
    /// The response, if any, with its rows, if any.
    pub response: Option<Option<TursoRows>>,
    /// The message of the error, if any.
    pub error: Option<String>,
}

/// A row: the value of each column.
pub struct Row {
    pub cells: Vec<(String, Json)>,
}

/// The last entry, before `to`, with the given column.
pub open spec fn last_entry(cells: Seq<(String, Json)>, col: Seq<char>, to: int) -> Option<int>
    decreases to,
{
    if to <= 0 || to > cells.len() {
        None
    } else if cells[to - 1].0@ == col {
        Some(to - 1)
    } else {
        last_entry(cells, col, to - 1)
    }
}

impl Row {
    /// The value of a column; where a column occurs twice, the later one counts.
    pub open spec fn value(self, col: Seq<char>) -> Option<Json> {
        match last_entry(self.cells@, col, self.cells@.len() as int) {
            Some(i) => Some(self.cells@[i].1),
            None => None,
        }
    }

    /// The text in a column.
    pub open spec fn text(self, col: Seq<char>) -> Option<Seq<char>> {
        match self.value(col) {
            Some(v) => text_value(v),
            None => None,
        }
    }

    /// The text in a column, if the column is there and holds text.
    pub fn get_str(&self, col: &str) -> (r: Option<&str>)
        ensures
            match r {
                Some(s) => self.text(col@) == Some(s@),
                None => self.text(col@) is None,
            },
    {
        let mut to: usize = self.cells.len();
        while to > 0
            invariant
                to <= self.cells@.len(),
                last_entry(self.cells@, col@, self.cells@.len() as int) == last_entry(
                    self.cells@,
                    col@,
                    to as int,
                ),
            decreases to,
        {
            if same(self.cells[to - 1].0.as_str(), col) {
                return self.cells[to - 1].1.as_str();
            }
            to -= 1;
        }
        None
    }
}

/// The message that a failed statement is reported with.
pub open spec fn sql_error(message: Seq<char>) -> Seq<char> {
    "Turso SQL error: "@ + message
}

fn sql_error_message(message: &str) -> (r: String)
    ensures
        r@ == sql_error(message@),
{
    let mut out = "Turso SQL error: ".to_owned();
    out.append(message);
    out
}

/// The first error among the results.
pub open spec fn first_error(results: Seq<TursoResult>) -> Option<Seq<char>>
    decreases results.len(),
{
    if results.len() == 0 {
        None
    } else {
        match results[0].error {
            Some(m) => Some(sql_error(m@)),
            None => first_error(results.skip(1)),
        }
    }
}

/// Checks the reply to a statement that returns nothing: it succeeded unless one of
/// the results is an error.
pub fn execute_outcome(results: &Vec<TursoResult>) -> (r: Result<(), String>)
    ensures
        match r {
            Ok(_) => first_error(results@) is None,
            Err(e) => first_error(results@) == Some(e@),
        },
{
    let mut i: usize = 0;
    proof {
        assert(results@.skip(0) =~= results@);
    }
    while i < results.len()
        invariant
            i <= results@.len(),
            first_error(results@.skip(i as int)) == first_error(results@),
        decreases results.len() - i,
    {
        proof {
            assert(results@.skip(i as int)[0] == results@[i as int]);
            assert(results@.skip(i as int).skip(1) =~= results@.skip(i + 1));
        }
        if let Some(m) = &results[i].error {
            return Err(sql_error_message(m.as_str()));
        }
        i += 1;
    }
    Ok(())
}

/// A result with rows.
pub open spec fn has_rows(r: TursoResult) -> bool {
    r.result_type@ == "ok"@ && r.response matches Some(Some(_))
}

/// The first result that settles the query: an error, or rows.
pub open spec fn settling(results: Seq<TursoResult>, from: int) -> Option<int>
    decreases results.len() - from,
{
    if from < 0 || from >= results.len() {
        None
    } else if results[from].error is Some || has_rows(results[from]) {
        Some(from)
    } else {
        settling(results, from + 1)
    }
}

/// [`settling`] gives a result that settles the query.
pub proof fn lemma_settling(results: Seq<TursoResult>, from: int)
    requires
        0 <= from,
    ensures
        settling(results, from) matches Some(i) ==> from <= i < results.len() && (
        results[i].error is Some || has_rows(results[i])),
    decreases results.len() - from,
{
    if from < results.len() && !(results[from].error is Some || has_rows(results[from])) {
        lemma_settling(results, from + 1);
    }
}

/// How many columns of a row have a name and a value.
pub open spec fn paired(cols: Seq<String>, cells: Seq<Json>) -> nat {
    if cols.len() <= cells.len() {
        cols.len()
    } else {
        cells.len()
    }
}

/// A row of a reply: the columns that have a name and a value, each decoded.
pub open spec fn is_row(row: Row, cols: Seq<String>, cells: Seq<Json>) -> bool {
    row.cells@.len() == paired(cols, cells) && forall|k: int|
        0 <= k < row.cells@.len() ==> (#[trigger] row.cells@[k]).0@ == cols[k]@ && row.cells@[k].1
            == decoded(cells[k])
}

/// The rows of a reply.
pub open spec fn are_rows(rows: Seq<Row>, data: TursoRows) -> bool {
    rows.len() == data.rows@.len() && forall|i: int|
        0 <= i < rows.len() ==> is_row(#[trigger] rows[i], data.cols@, data.rows@[i]@)
}

/// Pairs the cells of one row with their columns.
fn make_row(cols: &Vec<String>, cells: Vec<Json>) -> (r: Row)
    ensures
        is_row(r, cols@, cells@),
{
    let ghost all = cells@;
    let mut rest = cells;
    let mut out: Vec<(String, Json)> = Vec::new();
    let mut k: usize = 0;
    proof {
        assert(all.skip(0) =~= all);
    }
    while k < cols.len() && rest.len() > 0
        invariant
            k <= cols@.len(),
            k <= all.len(),
            rest@ == all.skip(k as int),
            out@.len() == k,
            forall|j: int|
                0 <= j < out@.len() ==> (#[trigger] out@[j]).0@ == cols@[j]@ && out@[j].1
                    == decoded(all[j]),
        decreases rest.len(),
    {
        let cell = rest.remove(0);
        proof {
            assert(all.skip(k as int).remove(0) =~= all.skip(k + 1));
        }
        out.push((cols[k].clone(), decode_cell(cell)));
        k += 1;
    }
    Row { cells: out }
}

/// Pairs the cells of each row with their columns.
fn make_rows(data: TursoRows) -> (r: Vec<Row>)
    ensures
        are_rows(r@, data),
{
    let ghost all = data.rows@;
    let cols = data.cols;
    let mut rest = data.rows;
    let mut out: Vec<Row> = Vec::new();
    let ghost mut i: int = 0;
    proof {
        assert(all.skip(0) =~= all);
    }
    while rest.len() > 0
        invariant
            0 <= i <= all.len(),
            rest@ == all.skip(i),
            out@.len() == i,
            cols == data.cols,
            forall|k: int| 0 <= k < out@.len() ==> is_row(#[trigger] out@[k], cols@, all[k]@),
        decreases rest.len(),
    {
        let cells = rest.remove(0);
        proof {
            assert(all.skip(i).remove(0) =~= all.skip(i + 1));
        }
        out.push(make_row(&cols, cells));
        proof {
            i = i + 1;
        }
    }
    out
}

/// What the reply to a query means: the rows of the first result that has any, or the
/// error that comes first.
pub open spec fn is_outcome(results: Seq<TursoResult>, r: Result<Vec<Row>, String>) -> bool {
    match settling(results, 0) {
        Some(i) => match results[i].error {
            Some(m) => r matches Err(e) && e@ == sql_error(m@),
            None => r matches Ok(rows) && results[i].response matches Some(Some(data)) && are_rows(
                rows@,
                data,
            ),
        },
        None => r matches Ok(rows) && rows@.len() == 0,
    }
}

/// Reads the reply to a query: the rows of the first result that has any. An error
/// that comes first is reported; a reply without rows is empty.
pub fn query_outcome(results: Vec<TursoResult>) -> (r: Result<Vec<Row>, String>)
    ensures
        is_outcome(results@, r),
{
    let ghost all = results@;
    let mut rest = results;
    let ghost mut i: int = 0;
    proof {
        assert(all.skip(0) =~= all);
    }
    while rest.len() > 0
        invariant
            0 <= i <= all.len(),
            all == results@,
            rest@ == all.skip(i),
            settling(all, 0) == settling(all, i),
        decreases rest.len(),
    {
        let result = rest.remove(0);
        proof {
            assert(all.skip(i)[0] == all[i]);
            assert(all.skip(i).remove(0) =~= all.skip(i + 1));
        }
        if let Some(m) = &result.error {
            return Err(sql_error_message(m.as_str()));
        }
        if same(result.result_type.as_str(), "ok") {
            if let Some(Some(data)) = result.response {
                return Ok(make_rows(data));
            }
        }
        proof {
            i = i + 1;
        }
    }
    Ok(Vec::new())
}

// ── laws ─────────────────────────────────────────────────────────────────────

/// A cell already in plain form, one that does not say its type, is left alone.
pub proof fn law_plain_cells_are_kept(cell: Json)
    requires
        !(cell matches Json::Object(fields) && text_field(fields@, "type"@) is Some),
    ensures
        decoded(cell) == cell,
{
}

/// A cell holds a text argument, as the wire writes one.
pub open spec fn holds_text(cell: Json, arg: ArgModel) -> bool {
    match (cell, arg) {
        (Json::Object(fields), ArgModel::Text(t)) => text_field(fields@, "type"@) == Some("text"@)
            && text_field(fields@, "value"@) == Some(t),
        _ => false,
    }
}

/// A text survives the wire: the cell that holds it is decoded to it.
pub proof fn law_texts_keep_their_value(cell: Json, t: Seq<char>)
    requires
        holds_text(cell, ArgModel::Text(t)),
    ensures
        text_value(decoded(cell)) == Some(t),
{
    reveal_strlit("null");
    reveal_strlit("integer");
    reveal_strlit("text");
    assert("text"@[0] == 't');
    assert("null"@[0] == 'n');
    assert("text"@.len() != "integer"@.len());
}

/// A 64-bit integer survives the wire: sent as text, it comes back as the number.
pub proof fn law_integers_keep_their_value(value: Json, n: int)
    requires
        value matches Json::Text(s) && s@ == number::signed_decimal(n),
        i64::MIN <= n <= i64::MAX,
    ensures
        typed_value("integer"@, Some(value)) == Json::Integer(n as i64),
{
    number::law_decimal_reads_back(n);
    reveal_strlit("null");
    reveal_strlit("integer");
    assert("null"@.len() != "integer"@.len());
}

/// A statement succeeds exactly where no result is an error, and the first error is what
/// is reported.
pub proof fn law_the_first_error_is_reported(results: Seq<TursoResult>, k: int)
    ensures
        first_error(results) is None <==> forall|i: int|
            0 <= i < results.len() ==> (#[trigger] results[i]).error is None,
        0 <= k < results.len() && results[k].error is Some && (forall|i: int|
            0 <= i < k ==> (#[trigger] results[i]).error is None) ==> first_error(results) == Some(
            "Turso SQL error: "@ + results[k].error->0@,
        ),
    decreases results.len(),
{
    if results.len() > 0 {
        let rest = results.skip(1);
        law_the_first_error_is_reported(rest, k - 1);
        assert(forall|i: int| 0 <= i < rest.len() ==> rest[i] == results[i + 1]);
        if results[0].error is None {
            if first_error(rest) is None {
                assert forall|i: int| 0 <= i < results.len() implies (
                #[trigger] results[i]).error is None by {
                    if i > 0 {
                        assert(rest[i - 1].error is None);
                    }
                }
            }
            if forall|i: int| 0 <= i < results.len() ==> (#[trigger] results[i]).error is None {
                assert forall|i: int| 0 <= i < rest.len() implies (#[trigger] rest[i]).error is None by {
                    assert(results[i + 1].error is None);
                }
            }
            if 0 < k < results.len() {
                assert(rest[k - 1] == results[k]);
                if forall|i: int| 0 <= i < k ==> (#[trigger] results[i]).error is None {
                    assert forall|i: int| 0 <= i < k - 1 implies (#[trigger] rest[i]).error is None by {
                        assert(results[i + 1].error is None);
                    }
                }
            }
        }
    }
}

proof fn lemma_settles_at(results: Seq<TursoResult>, from: int, k: int)
    requires
        0 <= from <= k < results.len(),
        results[k].error is Some || has_rows(results[k]),
        forall|i: int|
            from <= i < k ==> (#[trigger] results[i]).error is None && !has_rows(results[i]),
    ensures
        settling(results, from) == Some(k),
    decreases k - from,
{
    if from < k {
        assert(results[from].error is None && !has_rows(results[from]));
        lemma_settles_at(results, from + 1, k);
    }
}

/// A query gives the rows of the first result that has any, cell by cell under their
/// columns, decoded; an error before them is the query's.
pub proof fn law_queries_give_their_rows(
    results: Seq<TursoResult>,
    r: Result<Vec<Row>, String>,
    k: int,
    data: TursoRows,
)
    requires
        is_outcome(results, r),
        0 <= k < results.len(),
        forall|i: int|
            0 <= i < k ==> (#[trigger] results[i]).error is None && results[i].response is None,
    ensures
        results[k].error is None && results[k].result_type@ == "ok"@ && results[k].response
            == Some(Some(data)) ==> (r matches Ok(rows) && rows@.len() == data.rows@.len()
            && forall|i: int, c: int|
            0 <= i < rows@.len() && 0 <= c < data.cols@.len() && c < data.rows@[i]@.len() ==> (
            #[trigger] rows@[i].cells@[c]).0@ == data.cols@[c]@ && rows@[i].cells@[c].1 == decoded(
                data.rows@[i]@[c],
            )),
        results[k].error matches Some(m) ==> (r matches Err(e) && e@ == "Turso SQL error: "@ + m@),
{
    if results[k].error is Some || has_rows(results[k]) {
        lemma_settles_at(results, 0, k);
    }
    if results[k].error is None && results[k].result_type@ == "ok"@ && results[k].response == Some(
        Some(data),
    ) {
        let rows = r->Ok_0@;
        assert(are_rows(rows, data));
        assert forall|i: int, c: int|
            0 <= i < rows.len() && 0 <= c < data.cols@.len() && c < data.rows@[i]@.len() implies (
        #[trigger] rows[i].cells@[c]).0@ == data.cols@[c]@ && rows[i].cells@[c].1 == decoded(
            data.rows@[i]@[c],
        ) by {
            assert(is_row(rows[i], data.cols@, data.rows@[i]@));
        }
    }
}

/// A column's value is that of its last entry, and a column that is not there has none.
pub proof fn law_the_last_entry_of_a_column_counts(row: Row, k: int)
    requires
        0 <= k < row.cells@.len(),
        forall|i: int|
            k < i < row.cells@.len() ==> (#[trigger] row.cells@[i]).0@ != row.cells@[k].0@,
    ensures
        row.value(row.cells@[k].0@) == Some(row.cells@[k].1),
{
    lemma_last_entry_at(row.cells@, row.cells@[k].0@, k, row.cells@.len() as int);
}

proof fn lemma_last_entry_at(cells: Seq<(String, Json)>, col: Seq<char>, k: int, to: int)
    requires
        0 <= k < to <= cells.len(),
        cells[k].0@ == col,
        forall|i: int| k < i < to ==> (#[trigger] cells[i]).0@ != col,
    ensures
        last_entry(cells, col, to) == Some(k),
    decreases to,
{
    if to - 1 > k {
        assert(cells[to - 1].0@ != col);
        lemma_last_entry_at(cells, col, k, to - 1);
    }
}

} // verus!
