//! The registry's reads and writes on SQLite. Each entity lives in a table
//! keyed by its name: inserting a name that exists fails in the database,
//! updating or deleting a name that does not exist gives `NotFound`, and
//! deleting an entity also deletes its stored embedding. What the database
//! holds is not known here. Each function returns, beside its result, the
//! trace of the statements it ran (their text, the values bound to them and
//! the database's answers), and states which statements those are and how
//! its result follows from the answers.
use vstd::prelude::*;
use vstd::string::StringExecFns;

use crate::db::sql::{
    changed_of, changed_outcome, first_match, first_record_of, one_call, query_all, query_first,
    ran, record_texts, records_match, records_of, rows_of, written_outcome, SqlAnswer, extends,
    since, lemma_since_none, lemma_since_join,
    cell_values, json_of_strings, list_or_empty, param_values,
    placeholder_list, placeholders, require_changed, row_texts, row_values, execute,
    query, string_list_or_empty, text_params, written, SqlCell, SqlParam, SqlValue,
    TextRecord, cell_blob, cell_i32, cell_i64, cell_opt_text, cell_text, encode_string_list,
    blob_of, i32_of, int_of, opt_text_of, text_of,
};
use crate::db::statement::{Db, SqlCall};
use crate::error::AppError;
use crate::models::{
    strs, HttpContract, HttpContractSummary, ProtoContract, ProtoSummary, QueueContract,
    QueueField, QueueSchema, QueueSummary, Service, ServiceSummary, ServiceView, Table,
    TableSummary,
};

verus! {

/// A queue contract as stored: its schema is kept as JSON text.
#[derive(Debug, Clone, PartialEq)]
pub struct QueueRow {
    pub name: String,
    pub description: String,
    pub schema_json: String,
}

/// A stored embedding vector, as raw bytes.
#[derive(Debug, Clone, PartialEq)]
pub struct EmbeddingRow {
    pub entity_type: String,
    pub entity_key: String,
    pub embedding: Vec<u8>,
}

/// The number of entities of each kind.
#[derive(Debug, Clone, Copy, PartialEq)]
pub struct EntityCounts {
    pub services: i64,
    pub tables: i64,
    pub queues: i64,
    pub protos: i64,
    pub http_contracts: i64,
}

/// How many embeddings are stored, in all and per entity type.
#[derive(Debug, Clone, PartialEq)]
pub struct EmbeddingCounts {
    pub total: i64,
    pub coverage: Vec<(String, i64)>,
}

// ── The statements ──

pub const INSERT_TABLE_SQL: &'static str = "INSERT INTO tables (name, database, owner, description, ddl) VALUES (?1, ?2, ?3, ?4, ?5)";
pub const UPDATE_TABLE_SQL: &'static str = "UPDATE tables SET database=?1, owner=?2, description=?3, ddl=?4 WHERE name=?5";
pub const DELETE_TABLE_SQL: &'static str = "DELETE FROM tables WHERE name=?1";
pub const DELETE_TABLE_EMBEDDING_SQL: &'static str = "DELETE FROM embeddings WHERE entity_type='table' AND entity_key=?1";
pub const GET_TABLE_SQL: &'static str = "SELECT name, database, owner, description, ddl FROM tables WHERE name=?1";
pub const LIST_TABLES_SQL: &'static str = "SELECT name, description FROM tables ORDER BY name";
pub const TABLES_BY_NAMES_SQL: &'static str = "SELECT name, database, owner, description, ddl FROM tables WHERE name IN (";
pub const INSERT_QUEUE_SQL: &'static str = "INSERT INTO queue_contracts (name, description, schema_json) VALUES (?1, ?2, ?3)";
pub const UPDATE_QUEUE_SQL: &'static str = "UPDATE queue_contracts SET description=?1, schema_json=?2 WHERE name=?3";
pub const DELETE_QUEUE_SQL: &'static str = "DELETE FROM queue_contracts WHERE name=?1";
pub const DELETE_QUEUE_EMBEDDING_SQL: &'static str = "DELETE FROM embeddings WHERE entity_type='queue' AND entity_key=?1";
pub const GET_QUEUE_SQL: &'static str = "SELECT name, description, schema_json FROM queue_contracts WHERE name=?1";
pub const LIST_QUEUES_SQL: &'static str = "SELECT name, description FROM queue_contracts ORDER BY name";
pub const QUEUES_BY_NAMES_SQL: &'static str = "SELECT name, description, schema_json FROM queue_contracts WHERE name IN (";
pub const INSERT_PROTO_SQL: &'static str = "INSERT INTO proto_contracts (server, description, proto_raw) VALUES (?1, ?2, ?3)";
pub const UPDATE_PROTO_SQL: &'static str = "UPDATE proto_contracts SET description=?1, proto_raw=?2 WHERE server=?3";
pub const DELETE_PROTO_SQL: &'static str = "DELETE FROM proto_contracts WHERE server=?1";
pub const DELETE_PROTO_EMBEDDING_SQL: &'static str = "DELETE FROM embeddings WHERE entity_type='proto' AND entity_key=?1";
pub const GET_PROTO_SQL: &'static str = "SELECT server, description, proto_raw FROM proto_contracts WHERE server=?1";
pub const LIST_PROTOS_SQL: &'static str = "SELECT server, description FROM proto_contracts ORDER BY server";
pub const PROTOS_BY_SERVERS_SQL: &'static str = "SELECT server, description, proto_raw FROM proto_contracts WHERE server IN (";
pub const INSERT_HTTP_SQL: &'static str = "INSERT INTO http_contracts (service, description, spec_raw) VALUES (?1, ?2, ?3)";
pub const UPDATE_HTTP_SQL: &'static str = "UPDATE http_contracts SET description=?1, spec_raw=?2 WHERE service=?3";
pub const DELETE_HTTP_SQL: &'static str = "DELETE FROM http_contracts WHERE service=?1";
pub const DELETE_HTTP_EMBEDDING_SQL: &'static str = "DELETE FROM embeddings WHERE entity_type='http' AND entity_key=?1";
pub const GET_HTTP_SQL: &'static str = "SELECT service, description, spec_raw FROM http_contracts WHERE service=?1";
pub const LIST_HTTP_SQL: &'static str = "SELECT service, description FROM http_contracts ORDER BY service";
pub const INSERT_SERVICE_SQL: &'static str = "INSERT INTO services (name, description, github_repo, grpc_servers, grpc_clients, http_server, http_clients, queue_publishers, queue_subscribers, owned_tables)\n         VALUES (?1, ?2, ?3, ?4, ?5, ?6, ?7, ?8, ?9, ?10)";
pub const UPDATE_SERVICE_SQL: &'static str = "UPDATE services SET description=?1, github_repo=?2, grpc_servers=?3, grpc_clients=?4, http_server=?5, http_clients=?6, queue_publishers=?7, queue_subscribers=?8, owned_tables=?9\n         WHERE name=?10";
pub const DELETE_SERVICE_SQL: &'static str = "DELETE FROM services WHERE name=?1";
pub const DELETE_SERVICE_EMBEDDING_SQL: &'static str = "DELETE FROM embeddings WHERE entity_type='service' AND entity_key=?1";
pub const GET_SERVICE_SQL: &'static str = "SELECT name, description, github_repo, grpc_servers, grpc_clients, http_server, http_clients, queue_publishers, queue_subscribers, owned_tables\n         FROM services WHERE name=?1";
pub const LIST_SERVICES_SQL: &'static str = "SELECT name, description FROM services ORDER BY name";
pub const LIST_SERVICES_FULL_SQL: &'static str = "SELECT name, description, github_repo, grpc_servers, grpc_clients, http_server, http_clients, queue_publishers, queue_subscribers, owned_tables\n         FROM services ORDER BY name";
pub const COUNT_SERVICES_SQL: &'static str = "SELECT COUNT(*) FROM services";
pub const COUNT_TABLES_SQL: &'static str = "SELECT COUNT(*) FROM tables";
pub const COUNT_QUEUES_SQL: &'static str = "SELECT COUNT(*) FROM queue_contracts";
pub const COUNT_PROTOS_SQL: &'static str = "SELECT COUNT(*) FROM proto_contracts";
pub const COUNT_HTTP_SQL: &'static str = "SELECT COUNT(*) FROM http_contracts";
pub const EMBEDDING_COUNTS_SQL: &'static str = "SELECT entity_type, COUNT(*) FROM embeddings GROUP BY entity_type";
pub const UPSERT_EMBEDDING_SQL: &'static str = "INSERT INTO embeddings (entity_type, entity_key, text_hash, embedding)\n         VALUES (?1, ?2, ?3, ?4)\n         ON CONFLICT(entity_type, entity_key) DO UPDATE SET text_hash=?3, embedding=?4";
pub const GET_EMBEDDING_HASH_SQL: &'static str = "SELECT text_hash FROM embeddings WHERE entity_type=?1 AND entity_key=?2";
pub const LOAD_EMBEDDINGS_SQL: &'static str = "SELECT entity_type, entity_key, embedding FROM embeddings";

/// The trace of a write that must touch an existing row.
pub open spec fn updated(t: Seq<SqlCall>, sql: Seq<char>, params: Seq<SqlValue>, res: Result<(), AppError>) -> bool {
    &&& one_call(t, sql, params)
    &&& res == changed_outcome(changed_of(t[0].answer()))
}

/// The trace of a write that may touch any number of rows.
pub open spec fn inserted(t: Seq<SqlCall>, sql: Seq<char>, params: Seq<SqlValue>, res: Result<(), AppError>) -> bool {
    &&& one_call(t, sql, params)
    &&& res == written_outcome(changed_of(t[0].answer()))
}

/// The trace of deleting the row keyed `key`: the delete; then, only when it
/// changed a row, the delete of the entity's embedding, whose outcome is the
/// result. When the first delete changes no row the result is `NotFound`.
pub open spec fn deleted(
    t: Seq<SqlCall>,
    delete_sql: Seq<char>,
    embedding_sql: Seq<char>,
    key: Seq<char>,
    res: Result<(), AppError>,
) -> bool {
    &&& t.len() >= 1
    &&& ran(t[0], delete_sql, seq![SqlValue::Text(key)])
    &&& match changed_outcome(changed_of(t[0].answer())) {
        Err(e) => t.len() == 1 && res == Err::<(), AppError>(e),
        Ok(_) => t.len() == 2 && ran(t[1], embedding_sql, seq![SqlValue::Text(key)]) && res
            == written_outcome(changed_of(t[1].answer())),
    }
}

/// The lookup of the rows keyed by `names` (records of `n` columns): no
/// statement and no records when there are no names, else one `IN` query
/// binding the names in order. Gives the rest of the trace and the records.
pub open spec fn names_lookup(
    t: Seq<SqlCall>,
    prefix: Seq<char>,
    names: Seq<Seq<char>>,
    n: nat,
) -> Option<(Seq<SqlCall>, Result<Seq<Seq<Seq<char>>>, AppError>)> {
    if names.len() == 0 {
        Some((t, Ok(Seq::empty())))
    } else if t.len() > 0 && ran(t[0], in_list_sql(prefix, names.len()), text_params(names)) {
        Some((t.drop_first(), records_of(t[0].answer(), n)))
    } else {
        None
    }
}

/// Whether `t` is exactly the lookup of `names`, and `res` its records.
pub open spec fn looked_up<T: TextRecord>(
    t: Seq<SqlCall>,
    prefix: Seq<char>,
    names: Seq<Seq<char>>,
    res: Result<Vec<T>, AppError>,
) -> bool {
    names_lookup(t, prefix, names, T::arity()) matches Some((rest, r)) && rest.len() == 0
        && records_match(r, res)
}

/// Whether `t` is the one query `sql` with `params`, and `res` the record of
/// its first row, if any.
pub open spec fn fetched<T: TextRecord>(
    t: Seq<SqlCall>,
    sql: Seq<char>,
    params: Seq<SqlValue>,
    res: Result<Option<T>, AppError>,
) -> bool {
    one_call(t, sql, params) && first_match(first_record_of(t[0].answer(), T::arity()), res)
}

/// Whether `t` is the one query `sql` without parameters, and `res` the
/// records of all its rows.
pub open spec fn listed<T: TextRecord>(t: Seq<SqlCall>, sql: Seq<char>, res: Result<Vec<T>, AppError>) -> bool {
    one_call(t, sql, Seq::empty()) && records_match(records_of(t[0].answer(), T::arity()), res)
}

impl TextRecord for Table {
    open spec fn arity() -> nat {
        5
    }

    open spec fn texts(&self) -> Seq<Seq<char>> {
        seq![self.name@, self.database@, self.owner@, self.description@, self.ddl@]
    }

    fn from_texts(ts: &Vec<String>) -> (res: Self) {
        let res = Table {
            name: ts[0].clone(),
            database: ts[1].clone(),
            owner: ts[2].clone(),
            description: ts[3].clone(),
            ddl: ts[4].clone(),
        };
        assert(res.texts() =~= strs(ts@));
        res
    }
}

impl TextRecord for TableSummary {
    open spec fn arity() -> nat {
        2
    }

    open spec fn texts(&self) -> Seq<Seq<char>> {
        seq![self.name@, self.description@]
    }

    fn from_texts(ts: &Vec<String>) -> (res: Self) {
        let res = TableSummary { name: ts[0].clone(), description: ts[1].clone() };
        assert(res.texts() =~= strs(ts@));
        res
    }
}

impl TextRecord for ServiceSummary {
    open spec fn arity() -> nat {
        2
    }

    open spec fn texts(&self) -> Seq<Seq<char>> {
        seq![self.name@, self.description@]
    }

    fn from_texts(ts: &Vec<String>) -> (res: Self) {
        let res = ServiceSummary { name: ts[0].clone(), description: ts[1].clone() };
        assert(res.texts() =~= strs(ts@));
        res
    }
}

impl TextRecord for QueueSummary {
    open spec fn arity() -> nat {
        2
    }

    open spec fn texts(&self) -> Seq<Seq<char>> {
        seq![self.name@, self.description@]
    }

    fn from_texts(ts: &Vec<String>) -> (res: Self) {
        let res = QueueSummary { name: ts[0].clone(), description: ts[1].clone() };
        assert(res.texts() =~= strs(ts@));
        res
    }
}

impl TextRecord for ProtoSummary {
    open spec fn arity() -> nat {
        2
    }

    open spec fn texts(&self) -> Seq<Seq<char>> {
        seq![self.server@, self.description@]
    }

    fn from_texts(ts: &Vec<String>) -> (res: Self) {
        let res = ProtoSummary { server: ts[0].clone(), description: ts[1].clone() };
        assert(res.texts() =~= strs(ts@));
        res
    }
}

impl TextRecord for HttpContractSummary {
    open spec fn arity() -> nat {
        2
    }

    open spec fn texts(&self) -> Seq<Seq<char>> {
        seq![self.service@, self.description@]
    }

    fn from_texts(ts: &Vec<String>) -> (res: Self) {
        let res = HttpContractSummary { service: ts[0].clone(), description: ts[1].clone() };
        assert(res.texts() =~= strs(ts@));
        res
    }
}

impl TextRecord for QueueRow {
    open spec fn arity() -> nat {
        3
    }

    open spec fn texts(&self) -> Seq<Seq<char>> {
        seq![self.name@, self.description@, self.schema_json@]
    }

    fn from_texts(ts: &Vec<String>) -> (res: Self) {
        let res = QueueRow {
            name: ts[0].clone(),
            description: ts[1].clone(),
            schema_json: ts[2].clone(),
        };
        assert(res.texts() =~= strs(ts@));
        res
    }
}

impl TextRecord for ProtoContract {
    open spec fn arity() -> nat {
        3
    }

    open spec fn texts(&self) -> Seq<Seq<char>> {
        seq![self.server@, self.description@, self.proto_raw@]
    }

    fn from_texts(ts: &Vec<String>) -> (res: Self) {
        let res = ProtoContract {
            server: ts[0].clone(),
            description: ts[1].clone(),
            proto_raw: ts[2].clone(),
        };
        assert(res.texts() =~= strs(ts@));
        res
    }
}

impl TextRecord for HttpContract {
    open spec fn arity() -> nat {
        3
    }

    open spec fn texts(&self) -> Seq<Seq<char>> {
        seq![self.service@, self.description@, self.spec_raw@]
    }

    fn from_texts(ts: &Vec<String>) -> (res: Self) {
        let res = HttpContract {
            service: ts[0].clone(),
            description: ts[1].clone(),
            spec_raw: ts[2].clone(),
        };
        assert(res.texts() =~= strs(ts@));
        res
    }
}

impl TextRecord for String {
    open spec fn arity() -> nat {
        1
    }

    open spec fn texts(&self) -> Seq<Seq<char>> {
        seq![self@]
    }

    fn from_texts(ts: &Vec<String>) -> (res: Self) {
        let res = ts[0].clone();
        assert(res.texts() =~= strs(ts@));
        res
    }
}

/// Each record's texts are its fields in the column order of the statements
/// that write and read it: a table is `name, database, owner, description,
/// ddl`; a summary is its key and description; a queue row is `name,
/// description, schema_json`; a proto contract `server, description,
/// proto_raw`; an HTTP contract `service, description, spec_raw`; a text
/// read alone is itself.
pub proof fn law_record_columns(
    t: Table,
    ts: TableSummary,
    ss: ServiceSummary,
    qs: QueueSummary,
    ps: ProtoSummary,
    hs: HttpContractSummary,
    q: QueueRow,
    p: ProtoContract,
    h: HttpContract,
    text: String,
)
    ensures
        t.texts() == seq![t.name@, t.database@, t.owner@, t.description@, t.ddl@],
        ts.texts() == seq![ts.name@, ts.description@],
        ss.texts() == seq![ss.name@, ss.description@],
        qs.texts() == seq![qs.name@, qs.description@],
        ps.texts() == seq![ps.server@, ps.description@],
        hs.texts() == seq![hs.service@, hs.description@],
        q.texts() == seq![q.name@, q.description@, q.schema_json@],
        p.texts() == seq![p.server@, p.description@, p.proto_raw@],
        h.texts() == seq![h.service@, h.description@, h.spec_raw@],
        text.texts() == seq![text@],
        Table::arity() == 5 && TableSummary::arity() == 2 && ServiceSummary::arity() == 2
            && QueueSummary::arity() == 2 && ProtoSummary::arity() == 2
            && HttpContractSummary::arity() == 2 && QueueRow::arity() == 3
            && ProtoContract::arity() == 3 && HttpContract::arity() == 3 && String::arity() == 1,
{
}

/// Decoding a row of text values gives back the texts it was written from.
pub proof fn law_text_row_roundtrip(ts: Seq<Seq<char>>)
    ensures
        row_texts(text_params(ts), ts.len()) == Ok::<Seq<Seq<char>>, usize>(ts),
    decreases ts.len(),
{
    if ts.len() > 0 {
        let init = ts.drop_last();
        law_text_row_roundtrip(init);
        lemma_row_texts_prefix(text_params(ts), text_params(init), init.len());
        assert(text_params(ts)[ts.len() - 1] == SqlValue::Text(ts.last()));
        assert(ts =~= init.push(ts.last()));
        assert(row_texts(text_params(ts), (ts.len() - 1) as nat) == Ok::<Seq<Seq<char>>, usize>(
            init,
        ));
        assert(text_of(text_params(ts)[ts.len() - 1]) == Some(ts.last()));
    } else {
        assert(ts =~= Seq::<Seq<char>>::empty());
    }
}

/// `row_texts` of a prefix only reads that prefix.
proof fn lemma_row_texts_prefix(a: Seq<SqlValue>, b: Seq<SqlValue>, n: nat)
    requires
        n <= a.len(),
        n <= b.len(),
        forall|i: int| 0 <= i < n ==> #[trigger] a[i] == b[i],
    ensures
        row_texts(a, n) == row_texts(b, n),
    decreases n,
{
    if n > 0 {
        lemma_row_texts_prefix(a, b, (n - 1) as nat);
    }
}

/// Binds each of `texts` as a text parameter, in order; decoding the row
/// that the binding writes gives `texts` back.
fn bind_texts(texts: Vec<String>) -> (res: Vec<SqlParam>)
    ensures
        param_values(res@) == text_params(strs(texts@)),
        row_texts(param_values(res@), texts@.len()) == Ok::<Seq<Seq<char>>, usize>(strs(texts@)),
{
    let mut res: Vec<SqlParam> = Vec::new();
    let mut i: usize = 0;
    while i < texts.len()
        invariant
            i <= texts.len(),
            param_values(res@) == text_params(strs(texts@).take(i as int)),
        decreases texts.len() - i,
    {
        let ghost before = param_values(res@);
        res.push(SqlParam::Text(texts[i].clone()));
        assert(param_values(res@) =~= before.push(SqlValue::Text(texts@[i as int]@)));
        assert(strs(texts@).take(i + 1) =~= strs(texts@).take(i as int).push(texts@[i as int]@));
        assert(param_values(res@) =~= text_params(strs(texts@).take(i + 1)));
        i += 1;
    }
    assert(strs(texts@).take(texts.len() as int) =~= strs(texts@));
    proof {
        law_text_row_roundtrip(strs(texts@));
    }
    res
}

/// The parameter binding a single name.
fn name_param(name: &str) -> (res: Vec<SqlParam>)
    ensures
        param_values(res@) == seq![SqlValue::Text(name@)],
{
    let res = vec![SqlParam::Text(name.to_owned())];
    assert(param_values(res@) =~= seq![SqlValue::Text(name@)]);
    res
}

// ── Tables ──

/// The parameters of a table insert: its fields in column order.
pub fn table_params(t: &Table) -> (res: Vec<SqlParam>)
    ensures
        param_values(res@) == text_params(t.texts()),
        row_texts(param_values(res@), 5) == Ok::<Seq<Seq<char>>, usize>(t.texts()),
{
    let texts = vec![
        t.name.clone(),
        t.database.clone(),
        t.owner.clone(),
        t.description.clone(),
        t.ddl.clone(),
    ];
    assert(strs(texts@) =~= t.texts());
    bind_texts(texts)
}

/// Inserts a table; the database refuses a name that exists.
pub fn insert_table(db: &mut Db, t: &Table) -> (res: Result<(), AppError>)
    ensures
        extends(*old(db), *final(db)),
        inserted(since(*old(db), *final(db)), INSERT_TABLE_SQL@, text_params(t.texts()), res),
{
    let params = table_params(t);
    let r = execute(db, INSERT_TABLE_SQL, &params);
    written(r)
}

/// Replaces the fields of the table `name` but its name; `NotFound` when
/// there is no such table.
pub fn update_table(db: &mut Db, name: &str, t: &Table) -> (res: Result<
    (),
    AppError,
>)
    ensures
        extends(*old(db), *final(db)),
        updated(
            since(*old(db), *final(db)),
            UPDATE_TABLE_SQL@,
            text_params(seq![t.database@, t.owner@, t.description@, t.ddl@, name@]),
            res,
        ),
{
    let texts = vec![
        t.database.clone(),
        t.owner.clone(),
        t.description.clone(),
        t.ddl.clone(),
        name.to_owned(),
    ];
    assert(strs(texts@) =~= seq![t.database@, t.owner@, t.description@, t.ddl@, name@]);
    let params = bind_texts(texts);
    let r = execute(db, UPDATE_TABLE_SQL, &params);
    require_changed(r)
}

/// Deletes the row keyed `name` of an entity table, then the embedding of
/// that entity; `NotFound` when there is no such row, and then nothing else
/// is run.
fn delete_entity(
    db: &mut Db,
    delete_sql: &str,
    embedding_sql: &str,
    name: &str,
) -> (res: Result<(), AppError>)
    ensures
        extends(*old(db), *final(db)),
        deleted(since(*old(db), *final(db)), delete_sql@, embedding_sql@, name@, res),
{
    let params = name_param(name);
    let ghost d0 = *db;
    let r = execute(db, delete_sql, &params);
    let ghost d1 = *db;
    match require_changed(r) {
        Err(e) => Err(e),
        Ok(()) => {
            let r2 = execute(db, embedding_sql, &params);
            proof {
                lemma_since_join(d0, d1, *db);
                assert(since(d0, *db)[0] == since(d0, d1)[0]);
                assert(since(d0, *db)[1] == since(d1, *db)[0]);
            }
            written(r2)
        },
    }
}

/// Deletes the table `name` and its embedding; `NotFound` when there is no
/// such table, and then the embedding is left alone.
pub fn delete_table(db: &mut Db, name: &str) -> (res: Result<(), AppError>)
    ensures
        extends(*old(db), *final(db)),
        deleted(since(*old(db), *final(db)), DELETE_TABLE_SQL@, DELETE_TABLE_EMBEDDING_SQL@, name@, res),
{
    delete_entity(db, DELETE_TABLE_SQL, DELETE_TABLE_EMBEDDING_SQL, name)
}

/// The table `name`, if there is one.
pub fn get_table(db: &mut Db, name: &str) -> (res: Result<Option<Table>, AppError>)
    ensures
        extends(*old(db), *final(db)),
        fetched(since(*old(db), *final(db)), GET_TABLE_SQL@, seq![SqlValue::Text(name@)], res),
{
    let params = name_param(name);
    let r = query_first::<Table>(db, GET_TABLE_SQL, &params, 5);
    r
}

/// The name and description of every table, ordered by name.
pub fn list_tables(db: &mut Db) -> (res: Result<Vec<TableSummary>, AppError>)
    ensures
        extends(*old(db), *final(db)),
        listed(since(*old(db), *final(db)), LIST_TABLES_SQL@, res),
{
    let params: Vec<SqlParam> = Vec::new();
    assert(param_values(params@) =~= Seq::<SqlValue>::empty());
    let r = query_all::<TableSummary>(db, LIST_TABLES_SQL, &params, 2);
    r
}

/// `prefix`, the numbered placeholders of `n` parameters, and `)`.
pub open spec fn in_list_sql(prefix: Seq<char>, n: nat) -> Seq<char> {
    prefix + placeholders(n) + ")"@
}

/// The SQL that selects the rows whose key is one of `n` parameters.
pub fn in_list_query(prefix: &str, n: usize) -> (res: String)
    ensures
        res@ == in_list_sql(prefix@, n as nat),
{
    let list = placeholder_list(n);
    let mut sql = prefix.to_owned();
    sql.append(list.as_str());
    sql.append(")");
    sql
}

/// The tables named in `names`; none, and no statement, when `names` is
/// empty.
pub fn get_tables_by_names(db: &mut Db, names: &[String]) -> (res: Result<
    Vec<Table>,
    AppError,
>)
    ensures
        extends(*old(db), *final(db)),
        names@.len() == 0 ==> (res matches Ok(v) && v@.len() == 0),
        looked_up(since(*old(db), *final(db)), TABLES_BY_NAMES_SQL@, strs(names@), res),
{
    if names.len() == 0 {
        let v: Vec<Table> = Vec::new();
        assert(record_texts(v@) =~= Seq::<Seq<Seq<char>>>::empty());
        proof {
            lemma_since_none(*db);
        }
        return Ok(v);
    }
    let sql = in_list_query(TABLES_BY_NAMES_SQL, names.len());
    let params = names_param_list(names);
    let r = query_all::<Table>(db, sql.as_str(), &params, 5);
    assert(since(*old(db), *db).drop_first() =~= Seq::<SqlCall>::empty());
    r
}

/// Binds each of `names` as a text parameter, in order.
pub fn names_param_list(names: &[String]) -> (res: Vec<SqlParam>)
    ensures
        param_values(res@) == text_params(strs(names@)),
{
    let mut res: Vec<SqlParam> = Vec::new();
    let mut i: usize = 0;
    while i < names.len()
        invariant
            i <= names.len(),
            param_values(res@) == text_params(strs(names@).take(i as int)),
        decreases names.len() - i,
    {
        let ghost before = param_values(res@);
        res.push(SqlParam::Text(names[i].clone()));
        assert(param_values(res@) =~= before.push(SqlValue::Text(names@[i as int]@)));
        assert(strs(names@).take(i + 1) =~= strs(names@).take(i as int).push(names@[i as int]@));
        assert(param_values(res@) =~= text_params(strs(names@).take(i + 1)));
        i += 1;
    }
    assert(strs(names@).take(names.len() as int) =~= strs(names@));
    res
}

} // verus!

verus! {

// ── Queue contracts ──

/// Inserts a queue contract row; the database refuses a name that exists.
pub fn insert_queue(db: &mut Db, q: &QueueRow) -> (res: Result<(), AppError>)
    ensures
        extends(*old(db), *final(db)),
        inserted(since(*old(db), *final(db)), INSERT_QUEUE_SQL@, text_params(q.texts()), res),
{
    let texts = vec![q.name.clone(), q.description.clone(), q.schema_json.clone()];
    assert(strs(texts@) =~= q.texts());
    let params = bind_texts(texts);
    let r = execute(db, INSERT_QUEUE_SQL, &params);
    written(r)
}

/// Replaces the description and schema of the queue `name`; `NotFound`
/// when there is no such queue.
pub fn update_queue(db: &mut Db, name: &str, q: &QueueRow) -> (res: Result<
    (),
    AppError,
>)
    ensures
        extends(*old(db), *final(db)),
        updated(since(*old(db), *final(db)), UPDATE_QUEUE_SQL@, text_params(seq![q.description@, q.schema_json@, name@]), res),
{
    let texts = vec![q.description.clone(), q.schema_json.clone(), name.to_owned()];
    assert(strs(texts@) =~= seq![q.description@, q.schema_json@, name@]);
    let params = bind_texts(texts);
    let r = execute(db, UPDATE_QUEUE_SQL, &params);
    require_changed(r)
}

/// Deletes the queue `name` and its embedding; `NotFound` when there is no
/// such queue, and then the embedding is left alone.
pub fn delete_queue(db: &mut Db, name: &str) -> (res: Result<(), AppError>)
    ensures
        extends(*old(db), *final(db)),
        deleted(since(*old(db), *final(db)), DELETE_QUEUE_SQL@, DELETE_QUEUE_EMBEDDING_SQL@, name@, res),
{
    delete_entity(db, DELETE_QUEUE_SQL, DELETE_QUEUE_EMBEDDING_SQL, name)
}

/// The queue `name`, if there is one.
pub fn get_queue(db: &mut Db, name: &str) -> (res: Result<Option<QueueRow>, AppError>)
    ensures
        extends(*old(db), *final(db)),
        fetched(since(*old(db), *final(db)), GET_QUEUE_SQL@, seq![SqlValue::Text(name@)], res),
{
    let params = name_param(name);
    let r = query_first::<QueueRow>(db, GET_QUEUE_SQL, &params, 3);
    r
}

/// The name and description of every queue, ordered by name.
pub fn list_queues(db: &mut Db) -> (res: Result<Vec<QueueSummary>, AppError>)
    ensures
        extends(*old(db), *final(db)),
        listed(since(*old(db), *final(db)), LIST_QUEUES_SQL@, res),
{
    let params: Vec<SqlParam> = Vec::new();
    assert(param_values(params@) =~= Seq::<SqlValue>::empty());
    let r = query_all::<QueueSummary>(db, LIST_QUEUES_SQL, &params, 2);
    r
}

/// The queues named in `names`; none, and no statement, when `names` is
/// empty.
pub fn get_queues_by_names(db: &mut Db, names: &[String]) -> (res: Result<
    Vec<QueueRow>,
    AppError,
>)
    ensures
        extends(*old(db), *final(db)),
        names@.len() == 0 ==> (res matches Ok(v) && v@.len() == 0),
        looked_up(since(*old(db), *final(db)), QUEUES_BY_NAMES_SQL@, strs(names@), res),
{
    if names.len() == 0 {
        let v: Vec<QueueRow> = Vec::new();
        assert(record_texts(v@) =~= Seq::<Seq<Seq<char>>>::empty());
        proof {
            lemma_since_none(*db);
        }
        return Ok(v);
    }
    let sql = in_list_query(QUEUES_BY_NAMES_SQL, names.len());
    let params = names_param_list(names);
    let r = query_all::<QueueRow>(db, sql.as_str(), &params, 3);
    assert(since(*old(db), *db).drop_first() =~= Seq::<SqlCall>::empty());
    r
}

/// The schema that a stored queue stands for when its JSON text is not a
/// schema: no name, no fields, no notes.
pub fn empty_schema() -> (res: QueueSchema)
    ensures
        res.name@.len() == 0,
        res.fields@.len() == 0,
        res.notes@.len() == 0,
{
    QueueSchema { name: String::new(), fields: Vec::new(), notes: String::new() }
}

/// The queue contract of a stored row, given the schema read from its JSON
/// text (`None` when the text is not a schema, which stands for the empty
/// schema).
pub fn queue_from_row(row: QueueRow, schema: Option<QueueSchema>) -> (res: QueueContract)
    ensures
        res.name@ == row.name@,
        res.description@ == row.description@,
        match schema {
            Some(s) => res.schema == s,
            None => res.schema.name@.len() == 0 && res.schema.fields@.len() == 0
                && res.schema.notes@.len() == 0,
        },
{
    let schema = match schema {
        Some(s) => s,
        None => empty_schema(),
    };
    QueueContract { name: row.name, description: row.description, schema }
}

// ── Proto contracts ──

/// Inserts a proto contract; the database refuses a server that exists.
pub fn insert_proto(db: &mut Db, p: &ProtoContract) -> (res: Result<(), AppError>)
    ensures
        extends(*old(db), *final(db)),
        inserted(since(*old(db), *final(db)), INSERT_PROTO_SQL@, text_params(p.texts()), res),
{
    let texts = vec![p.server.clone(), p.description.clone(), p.proto_raw.clone()];
    assert(strs(texts@) =~= p.texts());
    let params = bind_texts(texts);
    let r = execute(db, INSERT_PROTO_SQL, &params);
    written(r)
}

/// Replaces the description and proto of the server `server`; `NotFound`
/// when there is no such contract.
pub fn update_proto(db: &mut Db, server: &str, p: &ProtoContract) -> (res: Result<
    (),
    AppError,
>)
    ensures
        extends(*old(db), *final(db)),
        updated(since(*old(db), *final(db)), UPDATE_PROTO_SQL@, text_params(seq![p.description@, p.proto_raw@, server@]), res),
{
    let texts = vec![p.description.clone(), p.proto_raw.clone(), server.to_owned()];
    assert(strs(texts@) =~= seq![p.description@, p.proto_raw@, server@]);
    let params = bind_texts(texts);
    let r = execute(db, UPDATE_PROTO_SQL, &params);
    require_changed(r)
}

/// Deletes the proto contract of `server` and its embedding; `NotFound`
/// when there is no such contract, and then the embedding is left alone.
pub fn delete_proto(db: &mut Db, server: &str) -> (res: Result<(), AppError>)
    ensures
        extends(*old(db), *final(db)),
        deleted(since(*old(db), *final(db)), DELETE_PROTO_SQL@, DELETE_PROTO_EMBEDDING_SQL@, server@, res),
{
    delete_entity(db, DELETE_PROTO_SQL, DELETE_PROTO_EMBEDDING_SQL, server)
}

/// The proto contract of `server`, if there is one.
pub fn get_proto(db: &mut Db, server: &str) -> (res: Result<Option<ProtoContract>, AppError>)
    ensures
        extends(*old(db), *final(db)),
        fetched(since(*old(db), *final(db)), GET_PROTO_SQL@, seq![SqlValue::Text(server@)], res),
{
    let params = name_param(server);
    let r = query_first::<ProtoContract>(db, GET_PROTO_SQL, &params, 3);
    r
}

/// The server and description of every proto contract, ordered by server.
pub fn list_protos(db: &mut Db) -> (res: Result<Vec<ProtoSummary>, AppError>)
    ensures
        extends(*old(db), *final(db)),
        listed(since(*old(db), *final(db)), LIST_PROTOS_SQL@, res),
{
    let params: Vec<SqlParam> = Vec::new();
    assert(param_values(params@) =~= Seq::<SqlValue>::empty());
    let r = query_all::<ProtoSummary>(db, LIST_PROTOS_SQL, &params, 2);
    r
}

/// The proto contracts of the servers in `servers`; none, and no statement,
/// when `servers` is empty.
pub fn get_protos_by_servers(db: &mut Db, servers: &[String]) -> (res: Result<
    Vec<ProtoContract>,
    AppError,
>)
    ensures
        extends(*old(db), *final(db)),
        servers@.len() == 0 ==> (res matches Ok(v) && v@.len() == 0),
        looked_up(since(*old(db), *final(db)), PROTOS_BY_SERVERS_SQL@, strs(servers@), res),
{
    if servers.len() == 0 {
        let v: Vec<ProtoContract> = Vec::new();
        assert(record_texts(v@) =~= Seq::<Seq<Seq<char>>>::empty());
        proof {
            lemma_since_none(*db);
        }
        return Ok(v);
    }
    let sql = in_list_query(PROTOS_BY_SERVERS_SQL, servers.len());
    let params = names_param_list(servers);
    let r = query_all::<ProtoContract>(db, sql.as_str(), &params, 3);
    assert(since(*old(db), *db).drop_first() =~= Seq::<SqlCall>::empty());
    r
}

// ── HTTP contracts ──

/// Inserts an HTTP contract; the database refuses a service that has one.
pub fn insert_http_contract(db: &mut Db, h: &HttpContract) -> (res: Result<(), AppError>)
    ensures
        extends(*old(db), *final(db)),
        inserted(since(*old(db), *final(db)), INSERT_HTTP_SQL@, text_params(h.texts()), res),
{
    let texts = vec![h.service.clone(), h.description.clone(), h.spec_raw.clone()];
    assert(strs(texts@) =~= h.texts());
    let params = bind_texts(texts);
    let r = execute(db, INSERT_HTTP_SQL, &params);
    written(r)
}

/// Replaces the description and specification of the HTTP contract of
/// `service`; `NotFound` when there is no such contract.
pub fn update_http_contract(db: &mut Db, service: &str, h: &HttpContract) -> (res: Result<
    (),
    AppError,
>)
    ensures
        extends(*old(db), *final(db)),
        updated(since(*old(db), *final(db)), UPDATE_HTTP_SQL@, text_params(seq![h.description@, h.spec_raw@, service@]), res),
{
    let texts = vec![h.description.clone(), h.spec_raw.clone(), service.to_owned()];
    assert(strs(texts@) =~= seq![h.description@, h.spec_raw@, service@]);
    let params = bind_texts(texts);
    let r = execute(db, UPDATE_HTTP_SQL, &params);
    require_changed(r)
}

/// Deletes the HTTP contract of `service` and its embedding; `NotFound`
/// when there is no such contract, and then the embedding is left alone.
pub fn delete_http_contract(db: &mut Db, service: &str) -> (res: Result<(), AppError>)
    ensures
        extends(*old(db), *final(db)),
        deleted(since(*old(db), *final(db)), DELETE_HTTP_SQL@, DELETE_HTTP_EMBEDDING_SQL@, service@, res),
{
    delete_entity(db, DELETE_HTTP_SQL, DELETE_HTTP_EMBEDDING_SQL, service)
}

/// The HTTP contract of `service`, if there is one.
pub fn get_http_contract(db: &mut Db, service: &str) -> (res: Result<Option<HttpContract>, AppError>)
    ensures
        extends(*old(db), *final(db)),
        fetched(since(*old(db), *final(db)), GET_HTTP_SQL@, seq![SqlValue::Text(service@)], res),
{
    let params = name_param(service);
    let r = query_first::<HttpContract>(db, GET_HTTP_SQL, &params, 3);
    r
}

/// The service and description of every HTTP contract, ordered by service.
pub fn list_http_contracts(db: &mut Db) -> (res: Result<Vec<HttpContractSummary>, AppError>)
    ensures
        extends(*old(db), *final(db)),
        listed(since(*old(db), *final(db)), LIST_HTTP_SQL@, res),
{
    let params: Vec<SqlParam> = Vec::new();
    assert(param_values(params@) =~= Seq::<SqlValue>::empty());
    let r = query_all::<HttpContractSummary>(db, LIST_HTTP_SQL, &params, 2);
    r
}

} // verus!

verus! {

// ── Services ──

/// The value that binds an optional text: NULL for none.
pub open spec fn opt_text_value(o: Option<Seq<char>>) -> SqlValue {
    match o {
        Some(s) => SqlValue::Text(s),
        None => SqlValue::Null,
    }
}

/// The columns of a service row: name, description, GitHub repository,
/// gRPC servers, gRPC clients (JSON lists), HTTP server (1 or 0), HTTP
/// clients, queue publishers, queue subscribers and owned tables (JSON
/// lists).
pub open spec fn service_values(s: ServiceView) -> Seq<SqlValue> {
    seq![
        SqlValue::Text(s.name),
        SqlValue::Text(s.description),
        opt_text_value(s.github_repo),
        SqlValue::Text(json_of_strings(s.grpc_servers)),
        SqlValue::Text(json_of_strings(s.grpc_clients)),
        SqlValue::Integer(if s.http_server { 1 } else { 0 }),
        SqlValue::Text(json_of_strings(s.http_clients)),
        SqlValue::Text(json_of_strings(s.queue_publishers)),
        SqlValue::Text(json_of_strings(s.queue_subscribers)),
        SqlValue::Text(json_of_strings(s.tables)),
    ]
}

/// The service that a row of ten values stands for. The list columns are
/// read first (3 to 9), then name, description and repository; the first
/// of them that does not hold the right kind of value is the error. A list
/// column whose text is not a JSON list of strings stands for no strings;
/// the HTTP server column is true when it is not 0.
pub open spec fn service_of_row(row: Seq<SqlValue>) -> Result<ServiceView, usize> {
    if text_of(row[3]) is None {
        Err(3)
    } else if text_of(row[4]) is None {
        Err(4)
    } else if i32_of(row[5]) is None {
        Err(5)
    } else if text_of(row[6]) is None {
        Err(6)
    } else if text_of(row[7]) is None {
        Err(7)
    } else if text_of(row[8]) is None {
        Err(8)
    } else if text_of(row[9]) is None {
        Err(9)
    } else if text_of(row[0]) is None {
        Err(0)
    } else if text_of(row[1]) is None {
        Err(1)
    } else if opt_text_of(row[2]) is None {
        Err(2)
    } else {
        Ok(
            ServiceView {
                name: text_of(row[0])->0,
                description: text_of(row[1])->0,
                github_repo: opt_text_of(row[2])->0,
                grpc_servers: list_or_empty(text_of(row[3])->0),
                grpc_clients: list_or_empty(text_of(row[4])->0),
                http_server: i32_of(row[5])->0 != 0,
                http_clients: list_or_empty(text_of(row[6])->0),
                queue_publishers: list_or_empty(text_of(row[7])->0),
                queue_subscribers: list_or_empty(text_of(row[8])->0),
                tables: list_or_empty(text_of(row[9])->0),
            },
        )
    }
}

/// The parameters of a service insert, in column order. Decoding the row
/// that they write gives the service back.
pub fn service_params(s: &Service) -> (res: Vec<SqlParam>)
    ensures
        param_values(res@) == service_values(s@),
        service_of_row(param_values(res@)) == Ok::<ServiceView, usize>(s@),
{
    let repo = match &s.github_repo {
        Some(r) => SqlParam::Text(r.clone()),
        None => SqlParam::Null,
    };
    let http: i64 = if s.http_server {
        1
    } else {
        0
    };
    let res = vec![
        SqlParam::Text(s.name.clone()),
        SqlParam::Text(s.description.clone()),
        repo,
        SqlParam::Text(encode_string_list(&s.grpc_servers)),
        SqlParam::Text(encode_string_list(&s.grpc_clients)),
        SqlParam::Integer(http),
        SqlParam::Text(encode_string_list(&s.http_clients)),
        SqlParam::Text(encode_string_list(&s.queue_publishers)),
        SqlParam::Text(encode_string_list(&s.queue_subscribers)),
        SqlParam::Text(encode_string_list(&s.tables)),
    ];
    assert(param_values(res@) =~= service_values(s@));
    assert(service_of_row(param_values(res@)) =~= Ok::<ServiceView, usize>(s@));
    res
}

/// The service that a row of ten cells stands for, or the column error (see
/// `service_of_row`).
pub fn row_to_service(row: &Vec<SqlCell>) -> (res: Result<Service, AppError>)
    requires
        row@.len() == 10,
    ensures
        match service_of_row(cell_values(row@)) {
            Ok(v) => res matches Ok(s) && s@ == v,
            Err(c) => res matches Err(AppError::Column(k)) && k == c,
        },
{
    let ghost vs = cell_values(row@);
    let grpc_servers = cell_text(row, 3)?;
    let grpc_clients = cell_text(row, 4)?;
    let http_server = cell_i32(row, 5)?;
    let http_clients = cell_text(row, 6)?;
    let queue_publishers = cell_text(row, 7)?;
    let queue_subscribers = cell_text(row, 8)?;
    let owned_tables = cell_text(row, 9)?;
    let name = cell_text(row, 0)?;
    let description = cell_text(row, 1)?;
    let github_repo = cell_opt_text(row, 2)?;
    let s = Service {
        name,
        description,
        github_repo,
        grpc_servers: string_list_or_empty(&grpc_servers),
        grpc_clients: string_list_or_empty(&grpc_clients),
        http_server: http_server != 0,
        http_clients: string_list_or_empty(&http_clients),
        queue_publishers: string_list_or_empty(&queue_publishers),
        queue_subscribers: string_list_or_empty(&queue_subscribers),
        tables: string_list_or_empty(&owned_tables),
    };
    assert(s@ =~= service_of_row(vs)->Ok_0);
    Ok(s)
}

/// The services of all rows, in order, or the column error of the first row
/// that has one.
pub open spec fn services_of_rows(rows: Seq<Seq<SqlValue>>) -> Result<Seq<ServiceView>, usize>
    decreases rows.len(),
{
    if rows.len() == 0 {
        Ok(Seq::empty())
    } else {
        match services_of_rows(rows.drop_last()) {
            Err(c) => Err(c),
            Ok(vs) => match service_of_row(rows.last()) {
                Ok(v) => Ok(vs.push(v)),
                Err(c) => Err(c),
            },
        }
    }
}

/// The services of all rows of ten cells, in order, or the column error of
/// the first row that has one.
pub fn rows_to_services(rows: &Vec<Vec<SqlCell>>) -> (res: Result<Vec<Service>, AppError>)
    requires
        forall|i: int| 0 <= i < rows@.len() ==> #[trigger] rows@[i]@.len() == 10,
    ensures
        match services_of_rows(row_values(rows@)) {
            Ok(vs) => res matches Ok(v) && v@.len() == vs.len() && forall|i: int|
                0 <= i < v@.len() ==> #[trigger] v@[i]@ == vs[i],
            Err(c) => res matches Err(AppError::Column(k)) && k == c,
        },
{
    let ghost rs = row_values(rows@);
    let mut out: Vec<Service> = Vec::new();
    let mut i: usize = 0;
    while i < rows.len()
        invariant
            i <= rows.len(),
            rs == row_values(rows@),
            forall|j: int| 0 <= j < rows@.len() ==> #[trigger] rows@[j]@.len() == 10,
            services_of_rows(rs.take(i as int)) matches Ok(vs) && out@.len() == vs.len()
                && forall|j: int| 0 <= j < out@.len() ==> #[trigger] out@[j]@ == vs[j],
        decreases rows.len() - i,
    {
        assert(rs.take(i + 1).drop_last() =~= rs.take(i as int));
        assert(rs.take(i + 1).last() == cell_values(rows@[i as int]@));
        match row_to_service(&rows[i]) {
            Ok(s) => {
                out.push(s);
                i += 1;
            },
            Err(e) => {
                proof {
                    lemma_services_err(rs, (i + 1) as nat);
                }
                return Err(e);
            },
        }
    }
    assert(rs.take(rows.len() as int) =~= rs);
    Ok(out)
}

/// A column error in the prefix of `k` rows is the error of all the rows.
proof fn lemma_services_err(rows: Seq<Seq<SqlValue>>, k: nat)
    requires
        k <= rows.len(),
        services_of_rows(rows.take(k as int)) is Err,
    ensures
        services_of_rows(rows) == services_of_rows(rows.take(k as int)),
    decreases rows.len() - k,
{
    if k < rows.len() {
        assert(rows.take(k as int + 1).drop_last() =~= rows.take(k as int));
        lemma_services_err(rows, k + 1);
    } else {
        assert(rows.take(k as int) =~= rows);
    }
}

/// What the lookup of a service by name gives: the database error, the
/// service of the first row (or its column error), or none without rows.
pub open spec fn service_lookup(a: SqlAnswer) -> Result<Option<ServiceView>, AppError> {
    match rows_of(a) {
        Err(e) => Err(AppError::Db(e)),
        Ok(rows) => if rows.len() == 0 {
            Ok(None)
        } else {
            match service_of_row(rows[0]) {
                Ok(v) => Ok(Some(v)),
                Err(c) => Err(AppError::Column(c)),
            }
        },
    }
}

/// Whether `res` gives the service lookup `r`.
pub open spec fn service_match(r: Result<Option<ServiceView>, AppError>, res: Result<Option<Service>, AppError>) -> bool {
    match r {
        Ok(None) => res matches Ok(None),
        Ok(Some(v)) => res matches Ok(Some(s)) && s@ == v,
        Err(e) => res == Err::<Option<Service>, AppError>(e),
    }
}

/// What the listing of services gives: the database error, or the services
/// of all rows (or the first column error).
pub open spec fn services_lookup(a: SqlAnswer) -> Result<Seq<ServiceView>, AppError> {
    match rows_of(a) {
        Err(e) => Err(AppError::Db(e)),
        Ok(rows) => match services_of_rows(rows) {
            Ok(vs) => Ok(vs),
            Err(c) => Err(AppError::Column(c)),
        },
    }
}

pub open spec fn service_views(v: Seq<Service>) -> Seq<ServiceView> {
    v.map_values(|s: Service| s@)
}

/// Inserts a service; the database refuses a name that exists.
pub fn insert_service(db: &mut Db, s: &Service) -> (res: Result<(), AppError>)
    ensures
        extends(*old(db), *final(db)),
        inserted(since(*old(db), *final(db)), INSERT_SERVICE_SQL@, service_values(s@), res),
{
    let params = service_params(s);
    let r = execute(db, INSERT_SERVICE_SQL, &params);
    written(r)
}

/// The parameters of a service update: every column but the name, then the
/// name that selects the row.
pub fn service_update_params(name: &str, s: &Service) -> (res: Vec<SqlParam>)
    ensures
        param_values(res@) == service_values(s@).drop_first().push(SqlValue::Text(name@)),
{
    let mut params = service_params(s);
    let ghost all = param_values(params@);
    assert(all.len() == 10 && all.len() == params@.len());
    params.remove(0);
    params.push(SqlParam::Text(name.to_owned()));
    assert(param_values(params@) =~= all.drop_first().push(SqlValue::Text(name@)));
    params
}

/// Replaces every field of the service `name` but its name; `NotFound` when
/// there is no such service.
pub fn update_service(db: &mut Db, name: &str, s: &Service) -> (res: Result<
    (),
    AppError,
>)
    ensures
        extends(*old(db), *final(db)),
        updated(
            since(*old(db), *final(db)),
            UPDATE_SERVICE_SQL@,
            service_values(s@).drop_first().push(SqlValue::Text(name@)),
            res,
        ),
{
    let params = service_update_params(name, s);
    let r = execute(db, UPDATE_SERVICE_SQL, &params);
    require_changed(r)
}

/// Deletes the service `name` and its embedding; `NotFound` when there is
/// no such service, and then the embedding is left alone.
pub fn delete_service(db: &mut Db, name: &str) -> (res: Result<(), AppError>)
    ensures
        extends(*old(db), *final(db)),
        deleted(since(*old(db), *final(db)), DELETE_SERVICE_SQL@, DELETE_SERVICE_EMBEDDING_SQL@, name@, res),
{
    delete_entity(db, DELETE_SERVICE_SQL, DELETE_SERVICE_EMBEDDING_SQL, name)
}

/// The service `name`, if there is one.
pub fn get_service(db: &mut Db, name: &str) -> (res: Result<
    Option<Service>,
    AppError,
>)
    ensures
        extends(*old(db), *final(db)),
        one_call(since(*old(db), *final(db)), GET_SERVICE_SQL@, seq![SqlValue::Text(name@)]),
        service_match(service_lookup(since(*old(db), *final(db))[0].answer()), res),
{
    let params = name_param(name);
    let r = query(db, GET_SERVICE_SQL, &params, 10);
    let out = match r {
        Err(e) => Err(AppError::Db(e)),
        Ok(rows) => {
            if rows.len() == 0 {
                Ok(None)
            } else {
                assert(row_values(rows@)[0] == cell_values(rows@[0]@));
                match row_to_service(&rows[0]) {
                    Ok(s) => Ok(Some(s)),
                    Err(e) => Err(e),
                }
            }
        },
    };
    out
}

/// The name and description of every service, ordered by name.
pub fn list_services(db: &mut Db) -> (res: Result<Vec<ServiceSummary>, AppError>)
    ensures
        extends(*old(db), *final(db)),
        listed(since(*old(db), *final(db)), LIST_SERVICES_SQL@, res),
{
    let params: Vec<SqlParam> = Vec::new();
    assert(param_values(params@) =~= Seq::<SqlValue>::empty());
    let r = query_all::<ServiceSummary>(db, LIST_SERVICES_SQL, &params, 2);
    r
}

/// Every service in full, ordered by name.
pub fn list_services_full(db: &mut Db) -> (res: Result<Vec<Service>, AppError>)
    ensures
        extends(*old(db), *final(db)),
        one_call(since(*old(db), *final(db)), LIST_SERVICES_FULL_SQL@, Seq::empty()),
        match services_lookup(since(*old(db), *final(db))[0].answer()) {
            Ok(vs) => res matches Ok(v) && service_views(v@) == vs,
            Err(e) => res == Err::<Vec<Service>, AppError>(e),
        },
{
    let params: Vec<SqlParam> = Vec::new();
    assert(param_values(params@) =~= Seq::<SqlValue>::empty());
    let r = query(db, LIST_SERVICES_FULL_SQL, &params, 10);
    let out = match r {
        Err(e) => Err(AppError::Db(e)),
        Ok(rows) => {
            let d = rows_to_services(&rows);
            proof {
                if d is Ok {
                    assert(service_views(d->Ok_0@) =~= services_of_rows(row_values(rows@))->Ok_0);
                }
            }
            d
        },
    };
    out
}

} // verus!

verus! {

// ── Entity counts ──

/// The count in the first row of a `COUNT(*)` query: its first column, an
/// integer, or the column error; `NoRows` when there is no row.
pub open spec fn count_of_rows(rows: Seq<Seq<SqlValue>>) -> Result<i64, AppError> {
    if rows.len() == 0 {
        Err(AppError::NoRows)
    } else {
        match int_of(rows[0][0]) {
            Some(n) => Ok(n),
            None => Err(AppError::Column(0)),
        }
    }
}

/// The count of a `COUNT(*)` query's rows (see `count_of_rows`).
pub fn first_count(rows: &Vec<Vec<SqlCell>>) -> (res: Result<i64, AppError>)
    requires
        forall|i: int| 0 <= i < rows@.len() ==> #[trigger] rows@[i]@.len() == 1,
    ensures
        res == count_of_rows(row_values(rows@)),
{
    if rows.len() == 0 {
        Err(AppError::NoRows)
    } else {
        assert(row_values(rows@)[0] == cell_values(rows@[0]@));
        cell_i64(&rows[0], 0)
    }
}

/// What a `COUNT(*)` query's answer gives (see `count_of_rows`).
pub open spec fn count_of(a: SqlAnswer) -> Result<i64, AppError> {
    match rows_of(a) {
        Err(e) => Err(AppError::Db(e)),
        Ok(rows) => count_of_rows(rows),
    }
}

/// The counting statements, in order: services, tables, queues, proto
/// contracts, HTTP contracts.
pub open spec fn count_sqls() -> Seq<Seq<char>> {
    seq![
        COUNT_SERVICES_SQL@,
        COUNT_TABLES_SQL@,
        COUNT_QUEUES_SQL@,
        COUNT_PROTOS_SQL@,
        COUNT_HTTP_SQL@,
    ]
}

/// Whether `t` runs the counting statements in order, stopping at the first
/// failure, and `res` is that failure or the five counts.
pub open spec fn counted(t: Seq<SqlCall>, res: Result<EntityCounts, AppError>) -> bool {
    &&& 1 <= t.len() <= 5
    &&& forall|i: int| 0 <= i < t.len() ==> ran(#[trigger] t[i], count_sqls()[i], Seq::empty())
    &&& forall|i: int| 0 <= i < t.len() - 1 ==> #[trigger] count_of(t[i].answer()) is Ok
    &&& match count_of(t.last().answer()) {
        Err(e) => res == Err::<EntityCounts, AppError>(e),
        Ok(_) => t.len() == 5 && res == Ok::<EntityCounts, AppError>(
            EntityCounts {
                services: count_of(t[0].answer())->Ok_0,
                tables: count_of(t[1].answer())->Ok_0,
                queues: count_of(t[2].answer())->Ok_0,
                protos: count_of(t[3].answer())->Ok_0,
                http_contracts: count_of(t[4].answer())->Ok_0,
            },
        ),
    }
}

/// The counting statements are five different statements.
proof fn lemma_count_sqls_differ()
    ensures
        forall|i: int, j: int| 0 <= i < j < 5 ==> #[trigger] count_sqls()[i] != #[trigger] count_sqls()[j],
{
    reveal_strlit("SELECT COUNT(*) FROM services");
    reveal_strlit("SELECT COUNT(*) FROM tables");
    reveal_strlit("SELECT COUNT(*) FROM queue_contracts");
    reveal_strlit("SELECT COUNT(*) FROM proto_contracts");
    reveal_strlit("SELECT COUNT(*) FROM http_contracts");
    let q = COUNT_QUEUES_SQL@;
    let p = COUNT_PROTOS_SQL@;
    assert(q[21] == 'q' && p[21] == 'p');
    assert(COUNT_SERVICES_SQL@.len() == 29);
    assert(COUNT_TABLES_SQL@.len() == 27);
    assert(q.len() == 36 && p.len() == 36);
    assert(COUNT_HTTP_SQL@.len() == 35);
}

/// Each count is the answer to the statement that counts that kind of
/// entity: `services` to `COUNT_SERVICES_SQL`, `tables` to
/// `COUNT_TABLES_SQL`, `queues` to `COUNT_QUEUES_SQL`, `protos` to
/// `COUNT_PROTOS_SQL` and `http_contracts` to `COUNT_HTTP_SQL`, wherever that
/// statement stands among those run; and each of them was run.
pub proof fn law_counts_follow_statements(t: Seq<SqlCall>, res: Result<EntityCounts, AppError>)
    requires
        counted(t, res),
        res is Ok,
    ensures
        forall|i: int|
            #![trigger t[i]]
            0 <= i < t.len() ==> {
                &&& t[i].sql() == COUNT_SERVICES_SQL@ ==> count_of(t[i].answer()) == Ok::<
                    i64,
                    AppError,
                >(res->Ok_0.services)
                &&& t[i].sql() == COUNT_TABLES_SQL@ ==> count_of(t[i].answer()) == Ok::<
                    i64,
                    AppError,
                >(res->Ok_0.tables)
                &&& t[i].sql() == COUNT_QUEUES_SQL@ ==> count_of(t[i].answer()) == Ok::<
                    i64,
                    AppError,
                >(res->Ok_0.queues)
                &&& t[i].sql() == COUNT_PROTOS_SQL@ ==> count_of(t[i].answer()) == Ok::<
                    i64,
                    AppError,
                >(res->Ok_0.protos)
                &&& t[i].sql() == COUNT_HTTP_SQL@ ==> count_of(t[i].answer()) == Ok::<
                    i64,
                    AppError,
                >(res->Ok_0.http_contracts)
            },
        forall|q: Seq<char>|
            #![trigger count_sqls().contains(q)]
            count_sqls().contains(q) ==> exists|i: int| 0 <= i < t.len() && #[trigger] t[i].sql() == q,
{
    lemma_count_sqls_differ();
    let c = res->Ok_0;
    assert(t.len() == 5);
    assert forall|i: int| 0 <= i < t.len() implies count_of(#[trigger] t[i].answer()) is Ok by {
        if i < 4 {
            assert(count_of(t[i].answer()) is Ok);
        }
    }
    assert(t[0].sql() == COUNT_SERVICES_SQL@);
    assert(t[1].sql() == COUNT_TABLES_SQL@);
    assert(t[2].sql() == COUNT_QUEUES_SQL@);
    assert(t[3].sql() == COUNT_PROTOS_SQL@);
    assert(t[4].sql() == COUNT_HTTP_SQL@);
    assert forall|q: Seq<char>| #[trigger] count_sqls().contains(q) implies exists|i: int|
        0 <= i < t.len() && #[trigger] t[i].sql() == q by {
        let k = choose|k: int| 0 <= k < 5 && count_sqls()[k] == q;
        assert(t[k].sql() == q);
    }
}

/// The number of rows of the table that `sql` counts.
fn count_rows(db: &mut Db, sql: &str) -> (res: Result<i64, AppError>)
    ensures
        extends(*old(db), *final(db)),
        one_call(since(*old(db), *final(db)), sql@, Seq::empty()),
        res == count_of(since(*old(db), *final(db))[0].answer()),
{
    let params: Vec<SqlParam> = Vec::new();
    assert(param_values(params@) =~= Seq::<SqlValue>::empty());
    match query(db, sql, &params, 1) {
        Err(e) => Err(AppError::Db(e)),
        Ok(rows) => first_count(&rows),
    }
}

/// The number of services, tables, queues, proto contracts and HTTP
/// contracts, counted in that order; the first failure stops the count.
pub fn entity_counts(db: &mut Db) -> (res: Result<EntityCounts, AppError>)
    ensures
        extends(*old(db), *final(db)),
        counted(since(*old(db), *final(db)), res),
{
    let ghost d0 = *db;
    proof {
        lemma_since_none(d0);
    }
    let r0 = count_rows(db, COUNT_SERVICES_SQL);
    let ghost d1 = *db;
    let ghost c0 = since(d0, d1)[0];
    proof {
        assert(since(d0, d1) =~= seq![c0]);
    }
    let services = match r0 {
        Ok(n) => n,
        Err(e) => return Err(e),
    };
    let r1 = count_rows(db, COUNT_TABLES_SQL);
    let ghost d2 = *db;
    let ghost c1 = since(d1, d2)[0];
    proof {
        lemma_since_join(d0, d1, d2);
        assert(since(d1, d2) =~= seq![c1]);
        assert(since(d0, d2) =~= seq![c0, c1]);
    }
    let tables = match r1 {
        Ok(n) => n,
        Err(e) => return Err(e),
    };
    let r2 = count_rows(db, COUNT_QUEUES_SQL);
    let ghost d3 = *db;
    let ghost c2 = since(d2, d3)[0];
    proof {
        lemma_since_join(d0, d2, d3);
        assert(since(d2, d3) =~= seq![c2]);
        assert(since(d0, d3) =~= seq![c0, c1, c2]);
    }
    let queues = match r2 {
        Ok(n) => n,
        Err(e) => return Err(e),
    };
    let r3 = count_rows(db, COUNT_PROTOS_SQL);
    let ghost d4 = *db;
    let ghost c3 = since(d3, d4)[0];
    proof {
        lemma_since_join(d0, d3, d4);
        assert(since(d3, d4) =~= seq![c3]);
        assert(since(d0, d4) =~= seq![c0, c1, c2, c3]);
    }
    let protos = match r3 {
        Ok(n) => n,
        Err(e) => return Err(e),
    };
    let r4 = count_rows(db, COUNT_HTTP_SQL);
    let ghost d5 = *db;
    let ghost c4 = since(d4, d5)[0];
    proof {
        lemma_since_join(d0, d4, d5);
        assert(since(d4, d5) =~= seq![c4]);
        assert(since(d0, d5) =~= seq![c0, c1, c2, c3, c4]);
    }
    let http_contracts = match r4 {
        Ok(n) => n,
        Err(e) => return Err(e),
    };
    Ok(EntityCounts { services, tables, queues, protos, http_contracts })
}

// ── Embeddings ──

/// The sum of the counts, saturated to the range of `i64`.
pub open spec fn saturating_total(counts: Seq<(String, i64)>) -> int
    decreases counts.len(),
{
    if counts.len() == 0 {
        0
    } else {
        let t = saturating_total(counts.drop_last()) + counts.last().1;
        if t > i64::MAX {
            i64::MAX as int
        } else if t < i64::MIN {
            i64::MIN as int
        } else {
            t
        }
    }
}

/// The sum of the counts, in full.
pub open spec fn count_sum(counts: Seq<(String, i64)>) -> int
    decreases counts.len(),
{
    if counts.len() == 0 {
        0
    } else {
        counts[0].1 + count_sum(counts.drop_first())
    }
}

/// The sum of a list with one more count at the end.
proof fn lemma_count_sum_push(counts: Seq<(String, i64)>)
    requires
        counts.len() > 0,
    ensures
        count_sum(counts) == count_sum(counts.drop_last()) + counts.last().1,
    decreases counts.len(),
{
    if counts.len() > 1 {
        lemma_count_sum_push(counts.drop_first());
        assert(counts.drop_first().drop_last() =~= counts.drop_last().drop_first());
    } else {
        assert(counts.drop_first() =~= Seq::<(String, i64)>::empty());
        assert(counts.drop_last() =~= Seq::<(String, i64)>::empty());
    }
}

/// The total of counts that are not negative (as counted rows are) is
/// their sum, or `i64::MAX` when the sum is beyond it.
pub proof fn law_total_is_sum_of_counts(counts: Seq<(String, i64)>)
    requires
        forall|i: int| 0 <= i < counts.len() ==> (#[trigger] counts[i]).1 >= 0,
    ensures
        saturating_total(counts) == if count_sum(counts) > i64::MAX {
            i64::MAX as int
        } else {
            count_sum(counts)
        },
    decreases counts.len(),
{
    if counts.len() > 0 {
        let init = counts.drop_last();
        assert forall|i: int| 0 <= i < init.len() implies (#[trigger] init[i]).1 >= 0 by {
            assert(init[i] == counts[i]);
        }
        law_total_is_sum_of_counts(init);
        lemma_count_sum_push(counts);
        assert(counts.last().1 >= 0);
    }
}

/// The coverage pairs of a `GROUP BY` count: entity type and count per row,
/// in order, or the column error of the first row that has one.
pub open spec fn coverage_of_rows(rows: Seq<Seq<SqlValue>>) -> Result<Seq<(Seq<char>, i64)>, usize>
    decreases rows.len(),
{
    if rows.len() == 0 {
        Ok(Seq::empty())
    } else {
        match coverage_of_rows(rows.drop_last()) {
            Err(c) => Err(c),
            Ok(ps) => match text_of(rows.last()[0]) {
                None => Err(0),
                Some(t) => match int_of(rows.last()[1]) {
                    None => Err(1),
                    Some(n) => Ok(ps.push((t, n))),
                },
            },
        }
    }
}

pub open spec fn pair_views(ps: Seq<(String, i64)>) -> Seq<(Seq<char>, i64)> {
    ps.map_values(|p: (String, i64)| (p.0@, p.1))
}

/// The embedding counts of the rows of a `GROUP BY` count: the pairs in
/// order and their total, saturated to the range of `i64`.
pub fn embedding_counts_of_rows(rows: &Vec<Vec<SqlCell>>) -> (res: Result<EmbeddingCounts, AppError>)
    requires
        forall|i: int| 0 <= i < rows@.len() ==> #[trigger] rows@[i]@.len() == 2,
    ensures
        match coverage_of_rows(row_values(rows@)) {
            Ok(ps) => res matches Ok(c) && pair_views(c.coverage@) == ps && c.total
                == saturating_total(c.coverage@),
            Err(k) => res matches Err(AppError::Column(j)) && j == k,
        },
{
    let ghost rs = row_values(rows@);
    let mut coverage: Vec<(String, i64)> = Vec::new();
    let mut total: i64 = 0;
    let mut i: usize = 0;
    assert(pair_views(coverage@) =~= Seq::<(Seq<char>, i64)>::empty());
    assert(rs.take(0) =~= Seq::<Seq<SqlValue>>::empty());
    while i < rows.len()
        invariant
            i <= rows.len(),
            rs == row_values(rows@),
            forall|j: int| 0 <= j < rows@.len() ==> #[trigger] rows@[j]@.len() == 2,
            coverage_of_rows(rs.take(i as int)) == Ok::<Seq<(Seq<char>, i64)>, usize>(
                pair_views(coverage@),
            ),
            total == saturating_total(coverage@),
        decreases rows.len() - i,
    {
        assert(rs.take(i + 1).drop_last() =~= rs.take(i as int));
        assert(rs.take(i + 1).last() == cell_values(rows@[i as int]@));
        let etype = match cell_text(&rows[i], 0) {
            Ok(t) => t,
            Err(e) => {
                proof {
                    lemma_coverage_err(rs, (i + 1) as nat);
                }
                return Err(e);
            },
        };
        let cnt = match cell_i64(&rows[i], 1) {
            Ok(n) => n,
            Err(e) => {
                proof {
                    lemma_coverage_err(rs, (i + 1) as nat);
                }
                return Err(e);
            },
        };
        let ghost before = coverage@;
        total = match total.checked_add(cnt) {
            Some(t) => t,
            None => if cnt > 0 {
                i64::MAX
            } else {
                i64::MIN
            },
        };
        coverage.push((etype, cnt));
        assert(coverage@.drop_last() =~= before);
        assert(pair_views(coverage@) =~= pair_views(before).push((etype@, cnt)));
        i += 1;
    }
    assert(rs.take(rows.len() as int) =~= rs);
    Ok(EmbeddingCounts { total, coverage })
}

/// A column error in the prefix of `k` rows is the error of all the rows.
proof fn lemma_coverage_err(rows: Seq<Seq<SqlValue>>, k: nat)
    requires
        k <= rows.len(),
        coverage_of_rows(rows.take(k as int)) is Err,
    ensures
        coverage_of_rows(rows) == coverage_of_rows(rows.take(k as int)),
    decreases rows.len() - k,
{
    if k < rows.len() {
        assert(rows.take(k as int + 1).drop_last() =~= rows.take(k as int));
        lemma_coverage_err(rows, k + 1);
    } else {
        assert(rows.take(k as int) =~= rows);
    }
}

/// How many embeddings are stored per entity type, and in all.
pub fn embedding_counts(db: &mut Db) -> (res: Result<EmbeddingCounts, AppError>)
    ensures
        extends(*old(db), *final(db)),
        one_call(since(*old(db), *final(db)), EMBEDDING_COUNTS_SQL@, Seq::empty()),
        match rows_of(since(*old(db), *final(db))[0].answer()) {
            Err(e) => res == Err::<EmbeddingCounts, AppError>(AppError::Db(e)),
            Ok(rows) => match coverage_of_rows(rows) {
                Ok(ps) => res matches Ok(c) && pair_views(c.coverage@) == ps && c.total
                    == saturating_total(c.coverage@),
                Err(k) => res == Err::<EmbeddingCounts, AppError>(AppError::Column(k)),
            },
        },
{
    let params: Vec<SqlParam> = Vec::new();
    assert(param_values(params@) =~= Seq::<SqlValue>::empty());
    let r = query(db, EMBEDDING_COUNTS_SQL, &params, 2);
    let out = match r {
        Err(e) => Err(AppError::Db(e)),
        Ok(rows) => embedding_counts_of_rows(&rows),
    };
    out
}

/// Stores the embedding of an entity with the hash of its text, replacing
/// the one it had.
pub fn upsert_embedding(
    db: &mut Db,
    entity_type: &str,
    entity_key: &str,
    text_hash: &str,
    embedding: &[u8],
) -> (res: Result<(), AppError>)
    ensures
        extends(*old(db), *final(db)),
        inserted(
            since(*old(db), *final(db)),
            UPSERT_EMBEDDING_SQL@,
            seq![
                SqlValue::Text(entity_type@),
                SqlValue::Text(entity_key@),
                SqlValue::Text(text_hash@),
                SqlValue::Blob(embedding@),
            ],
            res,
        ),
{
    let params = vec![
        SqlParam::Text(entity_type.to_owned()),
        SqlParam::Text(entity_key.to_owned()),
        SqlParam::Text(text_hash.to_owned()),
        SqlParam::Blob(vstd::slice::slice_to_vec(embedding)),
    ];
    assert(param_values(params@) =~= seq![
        SqlValue::Text(entity_type@),
        SqlValue::Text(entity_key@),
        SqlValue::Text(text_hash@),
        SqlValue::Blob(embedding@),
    ]);
    let r = execute(db, UPSERT_EMBEDDING_SQL, &params);
    written(r)
}

/// The text hash stored with the embedding of an entity, if any.
pub fn get_embedding_hash(
    db: &mut Db,
    entity_type: &str,
    entity_key: &str,
) -> (res: Result<Option<String>, AppError>)
    ensures
        extends(*old(db), *final(db)),
        fetched(since(*old(db), *final(db)), GET_EMBEDDING_HASH_SQL@, text_params(seq![entity_type@, entity_key@]), res),
{
    let texts = vec![entity_type.to_owned(), entity_key.to_owned()];
    assert(strs(texts@) =~= seq![entity_type@, entity_key@]);
    let params = bind_texts(texts);
    let r = query_first::<String>(db, GET_EMBEDDING_HASH_SQL, &params, 1);
    r
}

/// The embedding row that a row of three values stands for: type and key
/// (text) and the vector's bytes (blob), or the first column that does not
/// hold that.
pub open spec fn embedding_of_row(row: Seq<SqlValue>) -> Result<
    (Seq<char>, Seq<char>, Seq<u8>),
    usize,
> {
    match text_of(row[0]) {
        None => Err(0),
        Some(t) => match text_of(row[1]) {
            None => Err(1),
            Some(k) => match blob_of(row[2]) {
                None => Err(2),
                Some(b) => Ok((t, k, b)),
            },
        },
    }
}

/// The embedding rows of all rows, in order, or the column error of the
/// first row that has one.
pub open spec fn embeddings_of_rows(rows: Seq<Seq<SqlValue>>) -> Result<
    Seq<(Seq<char>, Seq<char>, Seq<u8>)>,
    usize,
>
    decreases rows.len(),
{
    if rows.len() == 0 {
        Ok(Seq::empty())
    } else {
        match embeddings_of_rows(rows.drop_last()) {
            Err(c) => Err(c),
            Ok(es) => match embedding_of_row(rows.last()) {
                Ok(e) => Ok(es.push(e)),
                Err(c) => Err(c),
            },
        }
    }
}

pub open spec fn embedding_row_view(r: EmbeddingRow) -> (Seq<char>, Seq<char>, Seq<u8>) {
    (r.entity_type@, r.entity_key@, r.embedding@)
}

/// The embedding rows of all rows of three cells (see `embeddings_of_rows`).
pub fn rows_to_embeddings(rows: &Vec<Vec<SqlCell>>) -> (res: Result<Vec<EmbeddingRow>, AppError>)
    requires
        forall|i: int| 0 <= i < rows@.len() ==> #[trigger] rows@[i]@.len() == 3,
    ensures
        match embeddings_of_rows(row_values(rows@)) {
            Ok(es) => res matches Ok(v) && v@.len() == es.len() && forall|i: int|
                0 <= i < v@.len() ==> #[trigger] embedding_row_view(v@[i]) == es[i],
            Err(c) => res matches Err(AppError::Column(k)) && k == c,
        },
{
    let ghost rs = row_values(rows@);
    let mut out: Vec<EmbeddingRow> = Vec::new();
    let mut i: usize = 0;
    while i < rows.len()
        invariant
            i <= rows.len(),
            rs == row_values(rows@),
            forall|j: int| 0 <= j < rows@.len() ==> #[trigger] rows@[j]@.len() == 3,
            embeddings_of_rows(rs.take(i as int)) matches Ok(es) && out@.len() == es.len()
                && forall|j: int| 0 <= j < out@.len() ==> #[trigger] embedding_row_view(out@[j]) == es[j],
        decreases rows.len() - i,
    {
        assert(rs.take(i + 1).drop_last() =~= rs.take(i as int));
        assert(rs.take(i + 1).last() == cell_values(rows@[i as int]@));
        let row = &rows[i];
        let decoded = match cell_text(row, 0) {
            Err(e) => Err(e),
            Ok(t) => match cell_text(row, 1) {
                Err(e) => Err(e),
                Ok(k) => match cell_blob(row, 2) {
                    Err(e) => Err(e),
                    Ok(b) => Ok(EmbeddingRow { entity_type: t, entity_key: k, embedding: b }),
                },
            },
        };
        match decoded {
            Ok(r) => {
                out.push(r);
                i += 1;
            },
            Err(e) => {
                proof {
                    lemma_embeddings_err(rs, (i + 1) as nat);
                }
                return Err(e);
            },
        }
    }
    assert(rs.take(rows.len() as int) =~= rs);
    Ok(out)
}

/// A column error in the prefix of `k` rows is the error of all the rows.
proof fn lemma_embeddings_err(rows: Seq<Seq<SqlValue>>, k: nat)
    requires
        k <= rows.len(),
        embeddings_of_rows(rows.take(k as int)) is Err,
    ensures
        embeddings_of_rows(rows) == embeddings_of_rows(rows.take(k as int)),
    decreases rows.len() - k,
{
    if k < rows.len() {
        assert(rows.take(k as int + 1).drop_last() =~= rows.take(k as int));
        lemma_embeddings_err(rows, k + 1);
    } else {
        assert(rows.take(k as int) =~= rows);
    }
}

/// Every stored embedding.
pub fn load_all_embeddings(db: &mut Db) -> (res: Result<Vec<EmbeddingRow>, AppError>)
    ensures
        extends(*old(db), *final(db)),
        one_call(since(*old(db), *final(db)), LOAD_EMBEDDINGS_SQL@, Seq::empty()),
        match rows_of(since(*old(db), *final(db))[0].answer()) {
            Err(e) => res == Err::<Vec<EmbeddingRow>, AppError>(AppError::Db(e)),
            Ok(rows) => match embeddings_of_rows(rows) {
                Ok(es) => res matches Ok(v) && v@.map_values(|r: EmbeddingRow| embedding_row_view(r)) == es,
                Err(c) => res == Err::<Vec<EmbeddingRow>, AppError>(AppError::Column(c)),
            },
        },
{
    let params: Vec<SqlParam> = Vec::new();
    assert(param_values(params@) =~= Seq::<SqlValue>::empty());
    let r = query(db, LOAD_EMBEDDINGS_SQL, &params, 3);
    let out = match r {
        Err(e) => Err(AppError::Db(e)),
        Ok(rows) => {
            let d = rows_to_embeddings(&rows);
            proof {
                if d is Ok {
                    assert(d->Ok_0@.map_values(|r: EmbeddingRow| embedding_row_view(r))
                        =~= embeddings_of_rows(row_values(rows@))->Ok_0);
                }
            }
            d
        },
    };
    out
}

} // verus!
