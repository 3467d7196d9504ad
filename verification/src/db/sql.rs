//! The statements that the registry runs on SQLite: the values it binds and
//! reads, the outcome of a write, the placeholder lists of `IN (...)`
//! queries, and the JSON text of string lists kept in a column.
use vstd::prelude::*;
use vstd::string::StringExecFns;

use crate::db::statement::{rows_answer, sql_execute, sql_query, Db, SqlCall};
use crate::error::AppError;
use crate::models::strs;

verus! {

/// A connection to an SQLite database, carried through unchanged.
#[verifier::external_type_specification]
#[verifier::external_body]
pub struct ExConnection(rusqlite::Connection);

/// A value bound to a parameter of a statement.
#[derive(Debug, Clone, PartialEq)]
pub enum SqlParam {
    Null,
    Integer(i64),
    Text(String),
    Blob(Vec<u8>),
}

/// A value read from a column of a result row. Of a floating-point value
/// only its kind is kept: no column of the registry holds one.
#[derive(Debug, Clone, PartialEq)]
pub enum SqlCell {
    Null,
    Integer(i64),
    Real,
    Text(String),
    Blob(Vec<u8>),
}

/// The value of a parameter or of a cell.
pub enum SqlValue {
    Null,
    Integer(i64),
    Real,
    Text(Seq<char>),
    Blob(Seq<u8>),
}

impl View for SqlParam {
    type V = SqlValue;

    open spec fn view(&self) -> SqlValue {
        match self {
            SqlParam::Null => SqlValue::Null,
            SqlParam::Integer(i) => SqlValue::Integer(*i),
            SqlParam::Text(s) => SqlValue::Text(s@),
            SqlParam::Blob(b) => SqlValue::Blob(b@),
        }
    }
}

impl View for SqlCell {
    type V = SqlValue;

    open spec fn view(&self) -> SqlValue {
        match self {
            SqlCell::Null => SqlValue::Null,
            SqlCell::Integer(i) => SqlValue::Integer(*i),
            SqlCell::Real => SqlValue::Real,
            SqlCell::Text(s) => SqlValue::Text(s@),
            SqlCell::Blob(b) => SqlValue::Blob(b@),
        }
    }
}

pub open spec fn param_values(ps: Seq<SqlParam>) -> Seq<SqlValue> {
    ps.map_values(|p: SqlParam| p@)
}

pub open spec fn cell_values(cs: Seq<SqlCell>) -> Seq<SqlValue> {
    cs.map_values(|c: SqlCell| c@)
}

pub open spec fn row_values(rows: Seq<Vec<SqlCell>>) -> Seq<Seq<SqlValue>> {
    rows.map_values(|r: Vec<SqlCell>| cell_values(r@))
}

/// What the database answered a statement.
pub enum SqlAnswer {
    /// The number of rows that a write changed, or its error.
    Changed(Result<usize, rusqlite::Error>),
    /// The rows that a query gave, or its error.
    Rows(Result<Seq<Seq<SqlValue>>, rusqlite::Error>),
    /// The outcome of a batch of statements.
    Done(Result<(), rusqlite::Error>),
}

/// Whether `c` ran the statement `sql` with the values `params`.
pub open spec fn ran(c: SqlCall, sql: Seq<char>, params: Seq<SqlValue>) -> bool {
    c.sql() == sql && c.params() == params
}

/// Whether `t` is the one statement `sql` run with `params`.
pub open spec fn one_call(t: Seq<SqlCall>, sql: Seq<char>, params: Seq<SqlValue>) -> bool {
    t.len() == 1 && ran(t[0], sql, params)
}

/// The changed-row count of an answer (a query answer counts as no change).
pub open spec fn changed_of(a: SqlAnswer) -> Result<usize, rusqlite::Error> {
    match a {
        SqlAnswer::Changed(r) => r,
        SqlAnswer::Rows(Ok(_)) => Ok(0),
        SqlAnswer::Rows(Err(e)) => Err(e),
        SqlAnswer::Done(Ok(_)) => Ok(0),
        SqlAnswer::Done(Err(e)) => Err(e),
    }
}

/// The rows of an answer (a write answer gives none).
pub open spec fn rows_of(a: SqlAnswer) -> Result<Seq<Seq<SqlValue>>, rusqlite::Error> {
    match a {
        SqlAnswer::Rows(r) => r,
        SqlAnswer::Changed(Ok(_)) => Ok(Seq::empty()),
        SqlAnswer::Changed(Err(e)) => Err(e),
        SqlAnswer::Done(Ok(_)) => Ok(Seq::empty()),
        SqlAnswer::Done(Err(e)) => Err(e),
    }
}

/// Whether the log of `after` continues the log of `before`.
pub open spec fn extends(before: Db, after: Db) -> bool {
    before.log().len() <= after.log().len() && after.log().take(before.log().len() as int)
        == before.log()
}

/// The statements run on the handle from `before` to `after`, in order.
pub open spec fn since(before: Db, after: Db) -> Seq<SqlCall> {
    after.log().skip(before.log().len() as int)
}

/// Nothing runs between a state and itself.
pub proof fn lemma_since_none(d: Db)
    ensures
        extends(d, d),
        since(d, d) == Seq::<SqlCall>::empty(),
{
    assert(d.log().take(d.log().len() as int) =~= d.log());
    assert(d.log().skip(d.log().len() as int) =~= Seq::<SqlCall>::empty());
}

/// Appending one record runs exactly that statement.
pub proof fn lemma_since_push(a: Db, b: Db, c: SqlCall)
    requires
        b.log() == a.log().push(c),
    ensures
        extends(a, b),
        since(a, b) == seq![c],
{
    assert(b.log().take(a.log().len() as int) =~= a.log());
    assert(b.log().skip(a.log().len() as int) =~= seq![c]);
}

/// What runs from `a` to `c` is what runs from `a` to `b`, then from `b`
/// to `c`.
pub proof fn lemma_since_join(a: Db, b: Db, c: Db)
    requires
        extends(a, b),
        extends(b, c),
    ensures
        extends(a, c),
        since(a, c) == since(a, b) + since(b, c),
{
    assert(c.log().take(a.log().len() as int) =~= b.log().take(a.log().len() as int));
    assert(c.log().skip(a.log().len() as int) =~= b.log().skip(a.log().len() as int) + c.log().skip(
        b.log().len() as int,
    ));
}

/// Runs `sql` with `params` bound in order on the handle, giving the
/// number of rows it changed; it is the one statement run, with that answer.
pub fn execute(db: &mut Db, sql: &str, params: &Vec<SqlParam>) -> (res: Result<usize, rusqlite::Error>)
    ensures
        extends(*old(db), *final(db)),
        one_call(since(*old(db), *final(db)), sql@, param_values(params@)),
        since(*old(db), *final(db))[0].answer() == SqlAnswer::Changed(res),
{
    let run = sql_execute(db, sql, params);
    proof {
        lemma_since_push(*old(db), *db, run.call());
    }
    run.into_result()
}

/// Runs the query `sql` with `params` bound in order on the handle, giving
/// the first `ncols` values of every row; it is the one statement run, with
/// those rows as its answer.
pub fn query(db: &mut Db, sql: &str, params: &Vec<SqlParam>, ncols: usize) -> (res: Result<
    Vec<Vec<SqlCell>>,
    rusqlite::Error,
>)
    ensures
        res matches Ok(rows) ==> forall|i: int|
            0 <= i < rows@.len() ==> #[trigger] rows@[i]@.len() == ncols,
        extends(*old(db), *final(db)),
        one_call(since(*old(db), *final(db)), sql@, param_values(params@)),
        since(*old(db), *final(db))[0].answer() == rows_answer(res),
{
    let run = sql_query(db, sql, params, ncols);
    proof {
        lemma_since_push(*old(db), *db, run.call());
    }
    run.into_result()
}

/// The JSON text that serde_json writes for a list of strings.
pub uninterp spec fn json_of_strings(items: Seq<Seq<char>>) -> Seq<char>;

/// The list of strings that serde_json reads from a JSON text, if it is one.
pub uninterp spec fn strings_of_json(text: Seq<char>) -> Option<Seq<Seq<char>>>;

/// Calls `serde_json::to_string` on a list of strings. Claimed: the result
/// is the JSON text of the list, a function of the strings alone (writing a
/// list of strings cannot fail), and reading it back with
/// `serde_json::from_str` gives the same strings.
#[verifier::external_body]
pub(crate) fn encode_string_list(items: &Vec<String>) -> (res: String)
    ensures
        json_of_strings(strs(items@)) == res@,
        strings_of_json(res@) == Some(strs(items@)),
{
    serde_json::to_string(items).unwrap_or_default()
}

/// Calls `serde_json::from_str` for a list of strings. Claimed: the result
/// is the list that the text holds, if it holds one, a function of the text
/// alone.
#[verifier::external_body]
pub(crate) fn decode_string_list(text: &str) -> (res: Option<Vec<String>>)
    ensures
        match res {
            Some(v) => strings_of_json(text@) == Some(strs(v@)),
            None => strings_of_json(text@) is None,
        },
{
    serde_json::from_str::<Vec<String>>(text).ok()
}

/// The strings that a column holding a JSON list stands for: the list, or
/// no strings when the text is not one.
pub open spec fn list_or_empty(text: Seq<char>) -> Seq<Seq<char>> {
    match strings_of_json(text) {
        Some(v) => v,
        None => Seq::empty(),
    }
}

/// The strings of the JSON list in `text`, or none when it is not a list of
/// strings.
pub fn string_list_or_empty(text: &String) -> (res: Vec<String>)
    ensures
        strs(res@) == list_or_empty(text@),
{
    match decode_string_list(text.as_str()) {
        Some(v) => v,
        None => {
            let v: Vec<String> = Vec::new();
            assert(strs(v@) =~= Seq::<Seq<char>>::empty());
            v
        },
    }
}

/// The text in a cell, when it holds text.
pub open spec fn text_of(c: SqlValue) -> Option<Seq<char>> {
    match c {
        SqlValue::Text(s) => Some(s),
        _ => None,
    }
}

/// The optional text in a cell: none for NULL, the text for text, and
/// nothing readable otherwise.
pub open spec fn opt_text_of(c: SqlValue) -> Option<Option<Seq<char>>> {
    match c {
        SqlValue::Null => Some(None),
        SqlValue::Text(s) => Some(Some(s)),
        _ => None,
    }
}

/// The 64-bit integer in a cell, when it holds an integer.
pub open spec fn int_of(c: SqlValue) -> Option<i64> {
    match c {
        SqlValue::Integer(i) => Some(i),
        _ => None,
    }
}

/// The 32-bit integer in a cell, when it holds an integer in that range.
pub open spec fn i32_of(c: SqlValue) -> Option<i32> {
    match c {
        SqlValue::Integer(i) => if i32::MIN <= i <= i32::MAX {
            Some(i as i32)
        } else {
            None
        },
        _ => None,
    }
}

/// The bytes in a cell, when it holds a blob.
pub open spec fn blob_of(c: SqlValue) -> Option<Seq<u8>> {
    match c {
        SqlValue::Blob(b) => Some(b),
        _ => None,
    }
}

/// The text in column `col` of `row`, or the column's error.
pub fn cell_text(row: &Vec<SqlCell>, col: usize) -> (res: Result<String, AppError>)
    requires
        col < row@.len(),
    ensures
        match text_of(row@[col as int]@) {
            Some(s) => res matches Ok(v) && v@ == s,
            None => res matches Err(AppError::Column(c)) && c == col,
        },
{
    match &row[col] {
        SqlCell::Text(s) => Ok(s.clone()),
        _ => Err(AppError::Column(col)),
    }
}

/// The optional text in column `col` of `row`, or the column's error.
pub fn cell_opt_text(row: &Vec<SqlCell>, col: usize) -> (res: Result<Option<String>, AppError>)
    requires
        col < row@.len(),
    ensures
        match opt_text_of(row@[col as int]@) {
            Some(None) => res matches Ok(None),
            Some(Some(s)) => res matches Ok(Some(v)) && v@ == s,
            None => res matches Err(AppError::Column(c)) && c == col,
        },
{
    match &row[col] {
        SqlCell::Null => Ok(None),
        SqlCell::Text(s) => Ok(Some(s.clone())),
        _ => Err(AppError::Column(col)),
    }
}

/// The 64-bit integer in column `col` of `row`, or the column's error.
pub fn cell_i64(row: &Vec<SqlCell>, col: usize) -> (res: Result<i64, AppError>)
    requires
        col < row@.len(),
    ensures
        match int_of(row@[col as int]@) {
            Some(i) => res == Ok::<i64, AppError>(i),
            None => res matches Err(AppError::Column(c)) && c == col,
        },
{
    match &row[col] {
        SqlCell::Integer(i) => Ok(*i),
        _ => Err(AppError::Column(col)),
    }
}

/// The 32-bit integer in column `col` of `row`, or the column's error.
pub fn cell_i32(row: &Vec<SqlCell>, col: usize) -> (res: Result<i32, AppError>)
    requires
        col < row@.len(),
    ensures
        match i32_of(row@[col as int]@) {
            Some(i) => res == Ok::<i32, AppError>(i),
            None => res matches Err(AppError::Column(c)) && c == col,
        },
{
    match &row[col] {
        SqlCell::Integer(i) => {
            if i32::MIN as i64 <= *i && *i <= i32::MAX as i64 {
                Ok(*i as i32)
            } else {
                Err(AppError::Column(col))
            }
        },
        _ => Err(AppError::Column(col)),
    }
}

/// The bytes in column `col` of `row`, or the column's error.
pub fn cell_blob(row: &Vec<SqlCell>, col: usize) -> (res: Result<Vec<u8>, AppError>)
    requires
        col < row@.len(),
    ensures
        match blob_of(row@[col as int]@) {
            Some(b) => res matches Ok(v) && v@ == b,
            None => res matches Err(AppError::Column(c)) && c == col,
        },
{
    match &row[col] {
        SqlCell::Blob(b) => Ok(b.clone()),
        _ => Err(AppError::Column(col)),
    }
}

/// What a write that must touch an existing row gives: `NotFound` when it
/// changed no row, the database error when it failed, else success.
pub open spec fn changed_outcome(r: Result<usize, rusqlite::Error>) -> Result<(), AppError> {
    match r {
        Ok(n) => if n == 0 {
            Err(AppError::NotFound)
        } else {
            Ok(())
        },
        Err(e) => Err(AppError::Db(e)),
    }
}

/// The outcome of a write that must touch an existing row.
pub fn require_changed(r: Result<usize, rusqlite::Error>) -> (res: Result<(), AppError>)
    ensures
        res == changed_outcome(r),
{
    match r {
        Ok(n) => if n == 0 {
            Err(AppError::NotFound)
        } else {
            Ok(())
        },
        Err(e) => Err(AppError::Db(e)),
    }
}

/// What a write that may touch any number of rows gives: success, or the
/// database error.
pub open spec fn written_outcome(r: Result<usize, rusqlite::Error>) -> Result<(), AppError> {
    match r {
        Ok(_) => Ok(()),
        Err(e) => Err(AppError::Db(e)),
    }
}

/// The outcome of a write that may touch any number of rows: success, or the
/// database error.
pub fn written(r: Result<usize, rusqlite::Error>) -> (res: Result<(), AppError>)
    ensures
        res == written_outcome(r),
{
    match r {
        Ok(_) => Ok(()),
        Err(e) => Err(AppError::Db(e)),
    }
}

/// The decimal digits of `n`, without leading zeros.
pub open spec fn decimal(n: nat) -> Seq<char>
    decreases n,
{
    if n < 10 {
        seq![digit(n)]
    } else {
        decimal(n / 10) + seq![digit(n % 10)]
    }
}

pub open spec fn digit(n: nat) -> char {
    seq!['0', '1', '2', '3', '4', '5', '6', '7', '8', '9'][n as int]
}

/// The one-character string of the decimal digit `n`.
fn digit_str(n: usize) -> (s: &'static str)
    requires
        n < 10,
    ensures
        s@ == seq![digit(n as nat)],
{
    if n == 0 {
        proof { reveal_strlit("0"); }
        "0"
    } else if n == 1 {
        proof { reveal_strlit("1"); }
        "1"
    } else if n == 2 {
        proof { reveal_strlit("2"); }
        "2"
    } else if n == 3 {
        proof { reveal_strlit("3"); }
        "3"
    } else if n == 4 {
        proof { reveal_strlit("4"); }
        "4"
    } else if n == 5 {
        proof { reveal_strlit("5"); }
        "5"
    } else if n == 6 {
        proof { reveal_strlit("6"); }
        "6"
    } else if n == 7 {
        proof { reveal_strlit("7"); }
        "7"
    } else if n == 8 {
        proof { reveal_strlit("8"); }
        "8"
    } else {
        proof { reveal_strlit("9"); }
        "9"
    }
}

/// `n` in decimal.
pub fn to_decimal(n: usize) -> (res: String)
    ensures
        res@ == decimal(n as nat),
    decreases n,
{
    if n < 10 {
        let mut r = String::new();
        r.append(digit_str(n));
        r
    } else {
        let mut r = to_decimal(n / 10);
        r.append(digit_str(n % 10));
        r
    }
}

/// `?1,?2,...,?n`: the numbered placeholders of `n` parameters.
pub open spec fn placeholders(n: nat) -> Seq<char>
    decreases n,
{
    if n == 0 {
        Seq::empty()
    } else if n == 1 {
        "?"@ + decimal(1)
    } else {
        placeholders((n - 1) as nat) + ","@ + "?"@ + decimal(n)
    }
}

/// The numbered placeholders of `n` parameters, separated by commas.
pub fn placeholder_list(n: usize) -> (res: String)
    ensures
        res@ == placeholders(n as nat),
{
    let mut r = String::new();
    let mut i: usize = 0;
    while i < n
        invariant
            i <= n,
            r@ == placeholders(i as nat),
        decreases n - i,
    {
        if i > 0 {
            r.append(",");
        }
        r.append("?");
        let d = to_decimal(i + 1);
        r.append(d.as_str());
        i += 1;
    }
    r
}

/// The parameters that bind each of `names` as text, in order.
pub open spec fn text_params(names: Seq<Seq<char>>) -> Seq<SqlValue> {
    names.map_values(|s: Seq<char>| SqlValue::Text(s))
}

} // verus!

verus! {

/// The texts of the first `n` values of a row, or the first of those
/// columns that does not hold text.
pub open spec fn row_texts(row: Seq<SqlValue>, n: nat) -> Result<Seq<Seq<char>>, usize>
    decreases n,
{
    if n == 0 {
        Ok(Seq::empty())
    } else {
        match row_texts(row, (n - 1) as nat) {
            Err(c) => Err(c),
            Ok(ts) => match text_of(row[n - 1]) {
                Some(t) => Ok(ts.push(t)),
                None => Err((n - 1) as usize),
            },
        }
    }
}

/// The texts of the first `n` values of every row, in order, or the column
/// error of the first row that has one.
pub open spec fn rows_texts(rows: Seq<Seq<SqlValue>>, n: nat) -> Result<Seq<Seq<Seq<char>>>, usize>
    decreases rows.len(),
{
    if rows.len() == 0 {
        Ok(Seq::empty())
    } else {
        match rows_texts(rows.drop_last(), n) {
            Err(c) => Err(c),
            Ok(tss) => match row_texts(rows.last(), n) {
                Ok(ts) => Ok(tss.push(ts)),
                Err(c) => Err(c),
            },
        }
    }
}

/// The texts of the first row, if any, or its column error.
pub open spec fn first_texts(rows: Seq<Seq<SqlValue>>, n: nat) -> Result<Option<Seq<Seq<char>>>, usize> {
    if rows.len() == 0 {
        Ok(None)
    } else {
        match row_texts(rows[0], n) {
            Ok(ts) => Ok(Some(ts)),
            Err(c) => Err(c),
        }
    }
}

/// A record stored as a row of text columns.
pub trait TextRecord: Sized {
    /// The number of columns.
    spec fn arity() -> nat;

    /// The texts of the record's fields, in column order.
    spec fn texts(&self) -> Seq<Seq<char>>;

    /// The record whose fields are `ts`, in column order.
    fn from_texts(ts: &Vec<String>) -> (res: Self)
        requires
            ts@.len() == Self::arity(),
        ensures
            res.texts() == strs(ts@),
    ;
}

/// The texts of the first `n` columns of `row`, or the column error.
pub fn row_strings(row: &Vec<SqlCell>, n: usize) -> (res: Result<Vec<String>, AppError>)
    requires
        n <= row@.len(),
    ensures
        match row_texts(cell_values(row@), n as nat) {
            Ok(ts) => res matches Ok(v) && strs(v@) == ts,
            Err(c) => res matches Err(AppError::Column(k)) && k == c,
        },
        res matches Ok(v) ==> v@.len() == n,
{
    let ghost vs = cell_values(row@);
    let mut out: Vec<String> = Vec::new();
    assert(strs(out@) =~= Seq::<Seq<char>>::empty());
    let mut i: usize = 0;
    while i < n
        invariant
            i <= n,
            n <= row@.len(),
            vs == cell_values(row@),
            row_texts(vs, i as nat) == Ok::<Seq<Seq<char>>, usize>(strs(out@)),
            out@.len() == i,
        decreases n - i,
    {
        let t = cell_text(row, i);
        match t {
            Ok(s) => {
                let ghost before = strs(out@);
                out.push(s);
                assert(strs(out@) =~= before.push(vs[i as int]->Text_0));
                i += 1;
            },
            Err(e) => {
                proof {
                    lemma_row_texts_err(vs, i as nat, n as nat);
                }
                return Err(e);
            },
        }
    }
    Ok(out)
}

/// A column error at `i` is the error of every longer prefix.
proof fn lemma_row_texts_err(row: Seq<SqlValue>, i: nat, n: nat)
    requires
        i < n,
        row_texts(row, i) is Ok,
        text_of(row[i as int]) is None,
    ensures
        row_texts(row, n) == Err::<Seq<Seq<char>>, usize>(i as usize),
    decreases n,
{
    if n > i + 1 {
        lemma_row_texts_err(row, i, (n - 1) as nat);
    }
}

/// The records of all rows, in order, or the column error of the first row
/// that has one.
pub fn decode_all<T: TextRecord>(rows: &Vec<Vec<SqlCell>>, n: usize) -> (res: Result<Vec<T>, AppError>)
    requires
        n == T::arity(),
        forall|i: int| 0 <= i < rows@.len() ==> #[trigger] rows@[i]@.len() == n,
    ensures
        match rows_texts(row_values(rows@), n as nat) {
            Ok(tss) => res matches Ok(v) && v@.len() == tss.len() && forall|i: int|
                0 <= i < v@.len() ==> #[trigger] v@[i].texts() == tss[i],
            Err(c) => res matches Err(AppError::Column(k)) && k == c,
        },
{
    let ghost rs = row_values(rows@);
    let mut out: Vec<T> = Vec::new();
    let mut i: usize = 0;
    while i < rows.len()
        invariant
            i <= rows.len(),
            n == T::arity(),
            rs == row_values(rows@),
            forall|j: int| 0 <= j < rows@.len() ==> #[trigger] rows@[j]@.len() == n,
            rows_texts(rs.take(i as int), n as nat) matches Ok(tss) && out@.len() == tss.len()
                && forall|j: int| 0 <= j < out@.len() ==> #[trigger] out@[j].texts() == tss[j],
        decreases rows.len() - i,
    {
        assert(rs.take(i + 1).drop_last() =~= rs.take(i as int));
        assert(rs.take(i + 1).last() == cell_values(rows@[i as int]@));
        match row_strings(&rows[i], n) {
            Ok(ts) => {
                let r = T::from_texts(&ts);
                out.push(r);
                i += 1;
            },
            Err(e) => {
                proof {
                    lemma_rows_texts_err(rs, (i + 1) as nat, n as nat);
                }
                return Err(e);
            },
        }
    }
    assert(rs.take(rows.len() as int) =~= rs);
    Ok(out)
}

/// A column error in the prefix of `k` rows is the error of all the rows.
proof fn lemma_rows_texts_err(rows: Seq<Seq<SqlValue>>, k: nat, n: nat)
    requires
        k <= rows.len(),
        rows_texts(rows.take(k as int), n) is Err,
    ensures
        rows_texts(rows, n) == rows_texts(rows.take(k as int), n),
    decreases rows.len() - k,
{
    if k < rows.len() {
        assert(rows.take(k as int + 1).drop_last() =~= rows.take(k as int));
        lemma_rows_texts_err(rows, k + 1, n);
    } else {
        assert(rows.take(k as int) =~= rows);
    }
}

/// The record of the first row, if any, or its column error.
pub fn decode_first<T: TextRecord>(rows: &Vec<Vec<SqlCell>>, n: usize) -> (res: Result<
    Option<T>,
    AppError,
>)
    requires
        n == T::arity(),
        forall|i: int| 0 <= i < rows@.len() ==> #[trigger] rows@[i]@.len() == n,
    ensures
        match first_texts(row_values(rows@), n as nat) {
            Ok(None) => res matches Ok(None),
            Ok(Some(ts)) => res matches Ok(Some(r)) && r.texts() == ts,
            Err(c) => res matches Err(AppError::Column(k)) && k == c,
        },
{
    if rows.len() == 0 {
        Ok(None)
    } else {
        assert(row_values(rows@)[0] == cell_values(rows@[0]@));
        match row_strings(&rows[0], n) {
            Ok(ts) => Ok(Some(T::from_texts(&ts))),
            Err(e) => Err(e),
        }
    }
}

/// The records (as the texts of their `n` columns) that a query's answer
/// holds: the database error, the first column error, or the texts of every
/// row in order.
pub open spec fn records_of(a: SqlAnswer, n: nat) -> Result<Seq<Seq<Seq<char>>>, AppError> {
    match rows_of(a) {
        Err(e) => Err(AppError::Db(e)),
        Ok(rows) => match rows_texts(rows, n) {
            Ok(tss) => Ok(tss),
            Err(c) => Err(AppError::Column(c)),
        },
    }
}

/// The record (as the texts of its `n` columns) in the first row of a
/// query's answer, if any: the database error, its column error, or its
/// texts.
pub open spec fn first_record_of(a: SqlAnswer, n: nat) -> Result<Option<Seq<Seq<char>>>, AppError> {
    match rows_of(a) {
        Err(e) => Err(AppError::Db(e)),
        Ok(rows) => match first_texts(rows, n) {
            Ok(o) => Ok(o),
            Err(c) => Err(AppError::Column(c)),
        },
    }
}

/// The texts of each record, in order.
pub open spec fn record_texts<T: TextRecord>(v: Seq<T>) -> Seq<Seq<Seq<char>>> {
    v.map_values(|r: T| r.texts())
}

/// Whether `res` gives the records `r`.
pub open spec fn records_match<T: TextRecord>(
    r: Result<Seq<Seq<Seq<char>>>, AppError>,
    res: Result<Vec<T>, AppError>,
) -> bool {
    match r {
        Ok(tss) => res matches Ok(v) && record_texts(v@) == tss,
        Err(e) => res == Err::<Vec<T>, AppError>(e),
    }
}

/// Whether `res` gives the record `r`, if any.
pub open spec fn first_match<T: TextRecord>(
    r: Result<Option<Seq<Seq<char>>>, AppError>,
    res: Result<Option<T>, AppError>,
) -> bool {
    match r {
        Ok(None) => res matches Ok(None),
        Ok(Some(ts)) => res matches Ok(Some(x)) && x.texts() == ts,
        Err(e) => res == Err::<Option<T>, AppError>(e),
    }
}

/// Runs a query for the records of `T` and decodes every row; it is the
/// one statement run.
pub fn query_all<T: TextRecord>(db: &mut Db, sql: &str, params: &Vec<SqlParam>, n: usize) -> (res:
    Result<Vec<T>, AppError>)
    requires
        n == T::arity(),
    ensures
        extends(*old(db), *final(db)),
        one_call(since(*old(db), *final(db)), sql@, param_values(params@)),
        records_match(records_of(since(*old(db), *final(db))[0].answer(), n as nat), res),
{
    match query(db, sql, params, n) {
        Err(e) => Err(AppError::Db(e)),
        Ok(rows) => {
            let d = decode_all::<T>(&rows, n);
            proof {
                if d is Ok {
                    assert(record_texts(d->Ok_0@) =~= rows_texts(row_values(rows@), n as nat)->Ok_0);
                }
            }
            d
        },
    }
}

/// Runs a query for a record of `T` and decodes the first row, if any; it
/// is the one statement run.
pub fn query_first<T: TextRecord>(db: &mut Db, sql: &str, params: &Vec<SqlParam>, n: usize) -> (res:
    Result<Option<T>, AppError>)
    requires
        n == T::arity(),
    ensures
        extends(*old(db), *final(db)),
        one_call(since(*old(db), *final(db)), sql@, param_values(params@)),
        first_match(first_record_of(since(*old(db), *final(db))[0].answer(), n as nat), res),
{
    match query(db, sql, params, n) {
        Err(e) => Err(AppError::Db(e)),
        Ok(rows) => decode_first::<T>(&rows, n),
    }
}

} // verus!
