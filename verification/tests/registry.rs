use rusqlite::Connection;
use spine::db::statement::Db;
use spine::context::{context_grpc_names, context_queue_names, less_than, service_context, sorted_union};
use spine::db::queries::{
    delete_service, delete_table, embedding_counts, entity_counts, first_count,
    get_embedding_hash, get_queues_by_names, get_service, get_tables_by_names, in_list_query,
    insert_proto, insert_queue, insert_service, insert_table, insert_http_contract,
    list_services_full, load_all_embeddings, queue_from_row, row_to_service, service_params,
    service_update_params, update_service, update_table, upsert_embedding, QueueRow,
};
use spine::db::schema;
use spine::db::sql::{placeholder_list, require_changed, to_decimal, SqlCell, SqlParam};
use spine::error::AppError;
use spine::models::{HttpContract, ProtoContract, QueueField, QueueSchema, Service, Table};

fn setup_db() -> Db {
    let mut db = Db::new(Connection::open_in_memory().unwrap());
    schema::migrate(&mut db).unwrap();
    db
}

fn service(name: &str) -> Service {
    Service {
        name: name.to_string(),
        description: format!("{name} service"),
        github_repo: None,
        grpc_servers: vec![],
        grpc_clients: vec![],
        http_server: false,
        http_clients: vec![],
        queue_publishers: vec![],
        queue_subscribers: vec![],
        tables: vec![],
    }
}

fn table(name: &str) -> Table {
    Table {
        name: name.to_string(),
        database: "db".to_string(),
        owner: "owner".to_string(),
        description: format!("{name} table"),
        ddl: format!("CREATE TABLE {name} ();"),
    }
}

fn cells(params: Vec<SqlParam>) -> Vec<SqlCell> {
    params
        .into_iter()
        .map(|p| match p {
            SqlParam::Null => SqlCell::Null,
            SqlParam::Integer(i) => SqlCell::Integer(i),
            SqlParam::Text(s) => SqlCell::Text(s),
            SqlParam::Blob(b) => SqlCell::Blob(b),
        })
        .collect()
}

#[test]
fn service_row_roundtrip() {
    let mut s = service("svc");
    s.github_repo = Some("https://example.org/svc".to_string());
    s.grpc_servers = vec!["A".to_string(), "quote \" and \\ slash".to_string()];
    s.http_server = true;
    s.tables = vec!["é".to_string()];
    let row = cells(service_params(&s));
    assert_eq!(row.len(), 10);
    assert_eq!(row[5], SqlCell::Integer(1));
    assert_eq!(row[3], SqlCell::Text(r#"["A","quote \" and \\ slash"]"#.to_string()));
    assert_eq!(row_to_service(&row).unwrap(), s);
}

#[test]
fn service_update_params_move_name_last() {
    let s = service("svc");
    let params = service_update_params("old-name", &s);
    assert_eq!(params.len(), 10);
    assert_eq!(params[0], SqlParam::Text("svc service".to_string()));
    assert_eq!(params[9], SqlParam::Text("old-name".to_string()));
}

#[test]
fn service_row_column_errors_follow_read_order() {
    let mut row = cells(service_params(&service("svc")));
    row[0] = SqlCell::Integer(3);
    row[4] = SqlCell::Null;
    assert!(matches!(row_to_service(&row), Err(AppError::Column(4))));
    row[4] = SqlCell::Text("[]".to_string());
    assert!(matches!(row_to_service(&row), Err(AppError::Column(0))));
    row[0] = SqlCell::Text("svc".to_string());
    row[5] = SqlCell::Integer(1 << 40);
    assert!(matches!(row_to_service(&row), Err(AppError::Column(5))));
}

#[test]
fn service_row_bad_list_reads_as_empty() {
    let mut row = cells(service_params(&service("svc")));
    row[3] = SqlCell::Text("not json".to_string());
    row[5] = SqlCell::Integer(7);
    let s = row_to_service(&row).unwrap();
    assert!(s.grpc_servers.is_empty());
    assert!(s.http_server);
}

#[test]
fn writes_that_miss_give_not_found() {
    assert!(matches!(require_changed(Ok(0)), Err(AppError::NotFound)));
    assert!(require_changed(Ok(2)).is_ok());
    let mut conn = setup_db();
    assert!(matches!(update_service(&mut conn, "ghost", &service("ghost")), Err(AppError::NotFound)));
    assert!(matches!(update_table(&mut conn, "ghost", &table("ghost")), Err(AppError::NotFound)));
    assert!(matches!(delete_service(&mut conn, "ghost"), Err(AppError::NotFound)));
    assert!(matches!(delete_table(&mut conn, "ghost"), Err(AppError::NotFound)));
}

#[test]
fn duplicate_insert_is_a_database_error() {
    let mut conn = setup_db();
    insert_table(&mut conn, &table("t")).unwrap();
    assert!(matches!(insert_table(&mut conn, &table("t")), Err(AppError::Db(_))));
}

#[test]
fn update_replaces_every_field_but_the_name() {
    let mut conn = setup_db();
    insert_service(&mut conn, &service("svc")).unwrap();
    let mut s = service("ignored");
    s.description = "new".to_string();
    s.queue_subscribers = vec!["q".to_string()];
    update_service(&mut conn, "svc", &s).unwrap();
    let got = get_service(&mut conn, "svc").unwrap().unwrap();
    assert_eq!(got.name, "svc");
    assert_eq!(got.description, "new");
    assert_eq!(got.queue_subscribers, vec!["q".to_string()]);
}

#[test]
fn delete_removes_the_stored_embedding() {
    let mut conn = setup_db();
    insert_service(&mut conn, &service("svc")).unwrap();
    upsert_embedding(&mut conn, "service", "svc", "h1", &[1, 2, 3]).unwrap();
    upsert_embedding(&mut conn, "table", "svc", "h2", &[4]).unwrap();
    assert_eq!(get_embedding_hash(&mut conn, "service", "svc").unwrap(), Some("h1".to_string()));
    delete_service(&mut conn, "svc").unwrap();
    assert_eq!(get_embedding_hash(&mut conn, "service", "svc").unwrap(), None);
    assert_eq!(get_embedding_hash(&mut conn, "table", "svc").unwrap(), Some("h2".to_string()));
}

#[test]
fn embeddings_upsert_replace_and_load() {
    let mut conn = setup_db();
    upsert_embedding(&mut conn, "service", "a", "h1", &[1, 2]).unwrap();
    upsert_embedding(&mut conn, "service", "a", "h2", &[3]).unwrap();
    upsert_embedding(&mut conn, "table", "t", "h3", &[9]).unwrap();
    assert_eq!(get_embedding_hash(&mut conn, "service", "a").unwrap(), Some("h2".to_string()));
    let rows = load_all_embeddings(&mut conn).unwrap();
    assert_eq!(rows.len(), 2);
    let a = rows.iter().find(|r| r.entity_key == "a").unwrap();
    assert_eq!(a.entity_type, "service");
    assert_eq!(a.embedding, vec![3]);
    let counts = embedding_counts(&mut conn).unwrap();
    assert_eq!(counts.total, 2);
    assert_eq!(counts.coverage, vec![("service".to_string(), 1), ("table".to_string(), 1)]);
}

#[test]
fn entity_counts_count_each_kind() {
    let mut conn = setup_db();
    insert_service(&mut conn, &service("a")).unwrap();
    insert_service(&mut conn, &service("b")).unwrap();
    insert_table(&mut conn, &table("t")).unwrap();
    let c = entity_counts(&mut conn).unwrap();
    assert_eq!((c.services, c.tables, c.queues, c.protos, c.http_contracts), (2, 1, 0, 0, 0));
}

#[test]
fn count_of_no_rows_is_an_error() {
    assert!(matches!(first_count(&vec![]), Err(AppError::NoRows)));
    assert_eq!(first_count(&vec![vec![SqlCell::Integer(4)]]).unwrap(), 4);
    assert!(matches!(first_count(&vec![vec![SqlCell::Text("4".to_string())]]), Err(AppError::Column(0))));
}

#[test]
fn decimal_and_placeholders() {
    assert_eq!(to_decimal(0), "0");
    assert_eq!(to_decimal(10), "10");
    assert_eq!(to_decimal(305), "305");
    assert_eq!(placeholder_list(0), "");
    assert_eq!(placeholder_list(1), "?1");
    assert_eq!(placeholder_list(12), "?1,?2,?3,?4,?5,?6,?7,?8,?9,?10,?11,?12");
    assert_eq!(in_list_query("SELECT x FROM t WHERE name IN (", 2), "SELECT x FROM t WHERE name IN (?1,?2)");
}

#[test]
fn lookups_by_names() {
    let mut conn = setup_db();
    for n in ["a", "b", "c"] {
        insert_table(&mut conn, &table(n)).unwrap();
    }
    assert!(get_tables_by_names(&mut conn, &[]).unwrap().is_empty());
    let mut got: Vec<String> = get_tables_by_names(&mut conn, &["c".to_string(), "a".to_string(), "zz".to_string()])
        .unwrap()
        .into_iter()
        .map(|t| t.name)
        .collect();
    got.sort();
    assert_eq!(got, vec!["a".to_string(), "c".to_string()]);
    assert!(get_queues_by_names(&mut conn, &[]).unwrap().is_empty());
}

#[test]
fn list_full_services_in_name_order() {
    let mut conn = setup_db();
    insert_service(&mut conn, &service("b")).unwrap();
    insert_service(&mut conn, &service("a")).unwrap();
    let names: Vec<String> = list_services_full(&mut conn).unwrap().into_iter().map(|s| s.name).collect();
    assert_eq!(names, vec!["a".to_string(), "b".to_string()]);
}

#[test]
fn queue_row_with_unreadable_schema_gets_empty_schema() {
    let row = QueueRow {
        name: "q".to_string(),
        description: "d".to_string(),
        schema_json: "{".to_string(),
    };
    let q = queue_from_row(row.clone(), None);
    assert_eq!(q.name, "q");
    assert_eq!(q.schema, QueueSchema { name: String::new(), fields: vec![], notes: String::new() });
    let schema = QueueSchema {
        name: "E".to_string(),
        fields: vec![QueueField { name: "f".to_string(), field_type: "t".to_string(), description: String::new() }],
        notes: "n".to_string(),
    };
    assert_eq!(queue_from_row(row, Some(schema.clone())).schema, schema);
}

fn strings(v: &[&str]) -> Vec<String> {
    v.iter().map(|s| s.to_string()).collect()
}

#[test]
fn sorted_union_sorts_and_dedups_like_sort_dedup() {
    let a = strings(&["queue-b", "queue-a", "queue-b"]);
    let b = strings(&["queue-c", "queue-a", "Z", "é", "z"]);
    let mut expected: Vec<String> = a.iter().chain(b.iter()).cloned().collect();
    expected.sort();
    expected.dedup();
    assert_eq!(sorted_union(&a, &b), expected);
    assert_eq!(sorted_union(&vec![], &vec![]), Vec::<String>::new());
}

#[test]
fn string_order_is_byte_order() {
    for (x, y) in [("a", "b"), ("a", "ab"), ("", "a"), ("Z", "a"), ("z", "é"), ("ab", "ab")] {
        assert_eq!(less_than(&x.to_string(), &y.to_string()), x < y, "{x} {y}");
        assert_eq!(less_than(&y.to_string(), &x.to_string()), y < x, "{y} {x}");
    }
}

#[test]
fn context_names_are_sorted_unions() {
    let mut s = service("svc");
    s.queue_publishers = strings(&["out", "both"]);
    s.queue_subscribers = strings(&["both", "in"]);
    s.grpc_servers = strings(&["S"]);
    s.grpc_clients = strings(&["C", "S"]);
    assert_eq!(context_queue_names(&s), strings(&["both", "in", "out"]));
    assert_eq!(context_grpc_names(&s), strings(&["C", "S"]));
}

#[test]
fn service_context_bundles_related_entities() {
    let mut conn = setup_db();
    let mut s = service("svc");
    s.tables = strings(&["t1", "missing"]);
    s.queue_publishers = strings(&["q1"]);
    s.queue_subscribers = strings(&["q1"]);
    s.grpc_servers = strings(&["S"]);
    s.grpc_clients = strings(&["C"]);
    s.http_server = true;
    insert_service(&mut conn, &s).unwrap();
    insert_table(&mut conn, &table("t1")).unwrap();
    insert_table(&mut conn, &table("t2")).unwrap();
    insert_queue(&mut conn, &QueueRow { name: "q1".to_string(), description: "d".to_string(), schema_json: "{}".to_string() }).unwrap();
    for server in ["S", "C"] {
        insert_proto(&mut conn, &ProtoContract { server: server.to_string(), description: "p".to_string(), proto_raw: "x".to_string() }).unwrap();
    }
    insert_http_contract(&mut conn, &HttpContract { service: "svc".to_string(), description: "h".to_string(), spec_raw: "o".to_string() }).unwrap();

    let ctx = service_context(&mut conn, "svc", true).unwrap();
    assert_eq!(ctx.service, s);
    assert_eq!(ctx.tables.len(), 1);
    assert_eq!(ctx.tables[0].name, "t1");
    assert_eq!(ctx.queue_contracts.len(), 1);
    assert_eq!(ctx.proto_contracts.len(), 2);
    assert_eq!(ctx.http_contracts.len(), 1);

    let served_only = service_context(&mut conn, "svc", false).unwrap();
    assert_eq!(served_only.proto_contracts.len(), 1);
    assert_eq!(served_only.proto_contracts[0].server, "S");

    assert!(matches!(service_context(&mut conn, "ghost", true), Err(AppError::NotFound)));
}

#[test]
fn context_without_http_server_has_no_http_contract() {
    let mut conn = setup_db();
    insert_service(&mut conn, &service("svc")).unwrap();
    insert_http_contract(&mut conn, &HttpContract { service: "svc".to_string(), description: "h".to_string(), spec_raw: "o".to_string() }).unwrap();
    let ctx = service_context(&mut conn, "svc", true).unwrap();
    assert!(ctx.http_contracts.is_empty());
}
