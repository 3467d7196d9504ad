//! The registry's database handle, the statements run on it, and the log of
//! what was run. The handle owns the SQLite connection and, as ghost state,
//! the log of every statement run through it; both are private, so a
//! statement can be run only by the wrappers here, and each of them appends
//! its record (the statement, the values given and what rusqlite answered)
//! to the log. No other code can make a record, run a statement unlogged, or
//! change the log.
use rusqlite::types::Value;
use vstd::prelude::*;

use crate::db::sql::{param_values, row_values, SqlAnswer, SqlCell, SqlParam, SqlValue};

verus! {

/// A value bound to a statement by rusqlite, carried through unchanged.
#[verifier::external_type_specification]
#[verifier::external_body]
pub struct ExValue(rusqlite::types::Value);

/// The registry's database: an SQLite connection and the log of every
/// statement run on it, in order.
pub struct Db {
    conn: rusqlite::Connection,
    log: Ghost<Seq<SqlCall>>,
}

impl Db {
    /// The statements run on this handle so far, in order.
    pub closed spec fn log(self) -> Seq<SqlCall> {
        self.log@
    }

    /// The handle of an open connection, with nothing run on it yet.
    pub fn new(conn: rusqlite::Connection) -> (res: Db)
        ensures
            res.log() == Seq::<SqlCall>::empty(),
    {
        Db { conn, log: Ghost(Seq::empty()) }
    }
}

/// A statement as it was run: its text, the values bound to it in order,
/// and what the database answered.
pub struct SqlCall {
    sql: Seq<char>,
    params: Seq<SqlValue>,
    answer: SqlAnswer,
}

impl SqlCall {
    /// The text of the statement.
    pub closed spec fn sql(self) -> Seq<char> {
        self.sql
    }

    /// The values bound to the statement, in order.
    pub closed spec fn params(self) -> Seq<SqlValue> {
        self.params
    }

    /// What the database answered.
    pub closed spec fn answer(self) -> SqlAnswer {
        self.answer
    }
}

/// The values of a query's rows as the database answered them.
pub open spec fn rows_answer(r: Result<Vec<Vec<SqlCell>>, rusqlite::Error>) -> SqlAnswer {
    match r {
        Ok(rows) => SqlAnswer::Rows(Ok(row_values(rows@))),
        Err(e) => SqlAnswer::Rows(Err(e)),
    }
}

/// A write as rusqlite ran it: the statement, its values and the outcome.
pub struct ExecRun {
    sql: String,
    params: Vec<SqlParam>,
    result: Result<usize, rusqlite::Error>,
}

impl ExecRun {
    /// The record of this write.
    pub closed spec fn call(self) -> SqlCall {
        SqlCall {
            sql: self.sql@,
            params: param_values(self.params@),
            answer: SqlAnswer::Changed(self.result),
        }
    }

    /// The outcome of the write.
    pub fn into_result(self) -> (res: Result<usize, rusqlite::Error>)
        ensures
            self.call().answer() == SqlAnswer::Changed(res),
    {
        self.result
    }
}

/// A query as rusqlite ran it: the statement, its values, the number of
/// columns read and the rows (or the error).
pub struct QueryRun {
    sql: String,
    params: Vec<SqlParam>,
    ncols: usize,
    result: Result<Vec<Vec<SqlCell>>, rusqlite::Error>,
}

impl QueryRun {
    /// The record of this query.
    pub closed spec fn call(self) -> SqlCall {
        SqlCall { sql: self.sql@, params: param_values(self.params@), answer: rows_answer(self.result) }
    }

    /// The number of columns read of each row.
    pub closed spec fn width(self) -> usize {
        self.ncols
    }

    /// Whether every row read has `width()` values.
    pub closed spec fn rows_fit(self) -> bool {
        match self.result {
            Ok(rows) => forall|i: int| 0 <= i < rows@.len() ==> #[trigger] rows@[i]@.len() == self.ncols,
            Err(_) => true,
        }
    }

    /// The rows of the query, or its error.
    pub fn into_result(self) -> (res: Result<Vec<Vec<SqlCell>>, rusqlite::Error>)
        requires
            self.rows_fit(),
        ensures
            self.call().answer() == rows_answer(res),
            res matches Ok(rows) ==> forall|i: int|
                0 <= i < rows@.len() ==> #[trigger] rows@[i]@.len() == self.width(),
    {
        self.result
    }
}

/// A batch of statements as rusqlite ran it: its text and the outcome.
pub struct BatchRun {
    sql: String,
    result: Result<(), rusqlite::Error>,
}

impl BatchRun {
    /// The record of this batch (it binds no values).
    pub closed spec fn call(self) -> SqlCall {
        SqlCall { sql: self.sql@, params: Seq::empty(), answer: SqlAnswer::Done(self.result) }
    }

    /// The outcome of the batch.
    pub fn into_result(self) -> (res: Result<(), rusqlite::Error>)
        ensures
            self.call().answer() == SqlAnswer::Done(res),
    {
        self.result
    }
}

/// Converts each parameter to the rusqlite value of the same kind and
/// content, in order. Nothing is claimed: the values are opaque here.
#[verifier::external_body]
fn sql_values(params: &Vec<SqlParam>) -> Vec<Value> {
    params.iter().map(|p| match p {
        SqlParam::Null => Value::Null,
        SqlParam::Integer(i) => Value::Integer(*i),
        SqlParam::Text(s) => Value::Text(s.clone()),
        SqlParam::Blob(b) => Value::Blob(b.clone()),
    }).collect()
}

/// Converts a rusqlite value read from a column to the cell of the same
/// kind and content (a floating-point value keeps only its kind). Nothing is
/// claimed: the value is opaque here.
#[verifier::external_body]
fn sql_cell(v: Value) -> SqlCell {
    match v {
        Value::Null => SqlCell::Null,
        Value::Integer(n) => SqlCell::Integer(n),
        Value::Real(_) => SqlCell::Real,
        Value::Text(s) => SqlCell::Text(s),
        Value::Blob(b) => SqlCell::Blob(b),
    }
}

/// Calls `Connection::execute` of rusqlite on the handle's connection with
/// `sql` and `params` bound in order, and keeps the statement, the values and
/// the outcome. Claimed: the record holds the statement and values given,
/// and it is appended to the handle's log. Nothing is claimed of the
/// outcome: it depends on what the database holds.
#[verifier::external_body]
pub(crate) fn sql_execute(db: &mut Db, sql: &str, params: &Vec<SqlParam>) -> (res: ExecRun)
    ensures
        res.call().sql() == sql@,
        res.call().params() == param_values(params@),
        final(db).log() == old(db).log().push(res.call()),
{
    let result = db.conn.execute(sql, rusqlite::params_from_iter(sql_values(params)));
    ExecRun { sql: sql.to_string(), params: params.clone(), result }
}

/// Calls `Connection::prepare` and `Statement::query_map` of rusqlite on the
/// handle's connection with `sql` and `params` bound in order, reads the
/// first `ncols` columns of every row, and keeps the statement, the values
/// and the rows. Claimed: the record holds the statement and values given,
/// it is appended to the handle's log, and when the query succeeds every
/// row has `ncols` values (rusqlite fails on a column index out of range).
/// Nothing else is claimed: the rows depend on what the database holds.
#[verifier::external_body]
pub(crate) fn sql_query(db: &mut Db, sql: &str, params: &Vec<SqlParam>, ncols: usize) -> (res:
    QueryRun)
    ensures
        final(db).log() == old(db).log().push(res.call()),
        res.call().sql() == sql@,
        res.call().params() == param_values(params@),
        res.width() == ncols,
        res.rows_fit(),
{
    let result = (|| {
        let mut stmt = db.conn.prepare(sql)?;
        let rows = stmt.query_map(rusqlite::params_from_iter(sql_values(params)), |row| {
            (0..ncols).map(|i| row.get::<usize, Value>(i).map(sql_cell)).collect::<Result<Vec<SqlCell>, _>>()
        })?;
        rows.collect::<Result<Vec<Vec<SqlCell>>, rusqlite::Error>>()
    })();
    QueryRun { sql: sql.to_string(), params: params.clone(), ncols, result }
}

/// Calls `Connection::execute_batch` of rusqlite on the handle's connection
/// with `sql`, and keeps the batch and the outcome. Claimed: the record holds
/// the batch given and no values, and it is appended to the handle's log.
/// Nothing is claimed of the outcome.
#[verifier::external_body]
pub(crate) fn sql_execute_batch(db: &mut Db, sql: &str) -> (res: BatchRun)
    ensures
        res.call().sql() == sql@,
        res.call().params() == Seq::<SqlValue>::empty(),
        final(db).log() == old(db).log().push(res.call()),
{
    let result = db.conn.execute_batch(sql);
    BatchRun { sql: sql.to_string(), result }
}

} // verus!
