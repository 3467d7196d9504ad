use rusqlite::Connection;
use spine::db::statement::Db;
use spine::db::queries::{
    delete_http_contract, delete_proto, delete_queue, delete_service, delete_table,
    get_http_contract, get_proto, get_queue, get_service, get_table, insert_http_contract,
    insert_proto, insert_queue, insert_service, insert_table, list_http_contracts, list_protos,
    list_queues, list_services, list_tables, update_http_contract, update_proto, update_queue,
    update_service, update_table, QueueRow,
};
use spine::db::schema;
use spine::models::{HttpContract, ProtoContract, Service, Table};

fn setup_db() -> Db {
    let mut db = Db::new(Connection::open_in_memory().unwrap());
    schema::migrate(&mut db).unwrap();
    db
}

fn sample_service() -> Service {
    Service {
        name: "test-svc".to_string(),
        description: "A test service".to_string(),
        github_repo: Some("https://github.com/org/test-svc".to_string()),
        grpc_servers: vec!["TestGrpcServer".to_string()],
        grpc_clients: vec!["OtherGrpcServer".to_string()],
        http_server: false,
        http_clients: vec![],
        queue_publishers: vec!["test-event".to_string()],
        queue_subscribers: vec![],
        tables: vec!["test_table".to_string()],
    }
}

// ── Service tests ──

#[test]
fn test_insert_and_get_service() {
    let mut conn = setup_db();
    let svc = sample_service();
    insert_service(&mut conn, &svc).unwrap();
    let got = get_service(&mut conn, "test-svc").unwrap().unwrap();
    assert_eq!(got, svc);
}

#[test]
fn test_list_services_returns_summaries() {
    let mut conn = setup_db();
    for i in 0..3 {
        let mut svc = sample_service();
        svc.name = format!("svc-{i}");
        svc.description = format!("Service {i}");
        insert_service(&mut conn, &svc).unwrap();
    }
    let list = list_services(&mut conn).unwrap();
    assert_eq!(list.len(), 3);
    assert_eq!(list[0].name, "svc-0");
    assert_eq!(list[0].description, "Service 0");
}

#[test]
fn test_update_service() {
    let mut conn = setup_db();
    let mut svc = sample_service();
    insert_service(&mut conn, &svc).unwrap();
    svc.description = "Updated description".to_string();
    update_service(&mut conn, "test-svc", &svc).unwrap();
    let got = get_service(&mut conn, "test-svc").unwrap().unwrap();
    assert_eq!(got.description, "Updated description");
}

#[test]
fn test_delete_service() {
    let mut conn = setup_db();
    insert_service(&mut conn, &sample_service()).unwrap();
    delete_service(&mut conn, "test-svc").unwrap();
    assert!(get_service(&mut conn, "test-svc").unwrap().is_none());
}

#[test]
fn test_insert_duplicate_service_fails() {
    let mut conn = setup_db();
    insert_service(&mut conn, &sample_service()).unwrap();
    let result = insert_service(&mut conn, &sample_service());
    assert!(result.is_err());
}

// ── Table tests ──

fn sample_table() -> Table {
    Table {
        name: "users".to_string(),
        database: "users-db".to_string(),
        owner: "users-svc".to_string(),
        description: "User accounts".to_string(),
        ddl: "CREATE TABLE users (id UUID PRIMARY KEY);".to_string(),
    }
}

#[test]
fn test_insert_and_get_table() {
    let mut conn = setup_db();
    let t = sample_table();
    insert_table(&mut conn, &t).unwrap();
    let got = get_table(&mut conn, "users").unwrap().unwrap();
    assert_eq!(got, t);
}

#[test]
fn test_list_tables_returns_summaries() {
    let mut conn = setup_db();
    insert_table(&mut conn, &sample_table()).unwrap();
    let list = list_tables(&mut conn).unwrap();
    assert_eq!(list.len(), 1);
    assert_eq!(list[0].name, "users");
}

#[test]
fn test_update_table() {
    let mut conn = setup_db();
    let mut t = sample_table();
    insert_table(&mut conn, &t).unwrap();
    t.description = "Updated".to_string();
    update_table(&mut conn, "users", &t).unwrap();
    let got = get_table(&mut conn, "users").unwrap().unwrap();
    assert_eq!(got.description, "Updated");
}

#[test]
fn test_delete_table() {
    let mut conn = setup_db();
    insert_table(&mut conn, &sample_table()).unwrap();
    delete_table(&mut conn, "users").unwrap();
    assert!(get_table(&mut conn, "users").unwrap().is_none());
}

#[test]
fn test_insert_duplicate_table_fails() {
    let mut conn = setup_db();
    insert_table(&mut conn, &sample_table()).unwrap();
    assert!(insert_table(&mut conn, &sample_table()).is_err());
}

// ── Queue tests ──

/// The sample queue contract "user-registered" as stored: its schema
/// (`UserRegisteredEvent` with the field `user_id` of type `uuid`, and the
/// notes "First event") in the JSON text that serde_json writes for it.
fn sample_queue() -> QueueRow {
    QueueRow {
        name: "user-registered".to_string(),
        description: "User registration event".to_string(),
        schema_json: r#"{"name":"UserRegisteredEvent","fields":[{"name":"user_id","type":"uuid","description":"Unique user ID"}],"notes":"First event"}"#.to_string(),
    }
}

#[test]
fn test_insert_and_get_queue() {
    let mut conn = setup_db();
    let q = sample_queue();
    insert_queue(&mut conn, &q).unwrap();
    let got = get_queue(&mut conn, "user-registered").unwrap().unwrap();
    assert_eq!(got, q);
}

#[test]
fn test_list_queues_returns_summaries() {
    let mut conn = setup_db();
    insert_queue(&mut conn, &sample_queue()).unwrap();
    let list = list_queues(&mut conn).unwrap();
    assert_eq!(list.len(), 1);
    assert_eq!(list[0].name, "user-registered");
}

#[test]
fn test_update_queue() {
    let mut conn = setup_db();
    let mut q = sample_queue();
    insert_queue(&mut conn, &q).unwrap();
    q.description = "Updated".to_string();
    update_queue(&mut conn, "user-registered", &q).unwrap();
    let got = get_queue(&mut conn, "user-registered").unwrap().unwrap();
    assert_eq!(got.description, "Updated");
}

#[test]
fn test_delete_queue() {
    let mut conn = setup_db();
    insert_queue(&mut conn, &sample_queue()).unwrap();
    delete_queue(&mut conn, "user-registered").unwrap();
    assert!(get_queue(&mut conn, "user-registered").unwrap().is_none());
}

#[test]
fn test_insert_duplicate_queue_fails() {
    let mut conn = setup_db();
    insert_queue(&mut conn, &sample_queue()).unwrap();
    assert!(insert_queue(&mut conn, &sample_queue()).is_err());
}

// ── Proto tests ──

fn sample_proto() -> ProtoContract {
    ProtoContract {
        server: "TestGrpcService".to_string(),
        description: "Test gRPC service".to_string(),
        proto_raw: "syntax = \"proto3\";".to_string(),
    }
}

#[test]
fn test_insert_and_get_proto() {
    let mut conn = setup_db();
    let p = sample_proto();
    insert_proto(&mut conn, &p).unwrap();
    let got = get_proto(&mut conn, "TestGrpcService").unwrap().unwrap();
    assert_eq!(got, p);
}

#[test]
fn test_list_protos_returns_summaries() {
    let mut conn = setup_db();
    insert_proto(&mut conn, &sample_proto()).unwrap();
    let list = list_protos(&mut conn).unwrap();
    assert_eq!(list.len(), 1);
    assert_eq!(list[0].server, "TestGrpcService");
}

#[test]
fn test_update_proto() {
    let mut conn = setup_db();
    let mut p = sample_proto();
    insert_proto(&mut conn, &p).unwrap();
    p.description = "Updated".to_string();
    update_proto(&mut conn, "TestGrpcService", &p).unwrap();
    let got = get_proto(&mut conn, "TestGrpcService").unwrap().unwrap();
    assert_eq!(got.description, "Updated");
}

#[test]
fn test_delete_proto() {
    let mut conn = setup_db();
    insert_proto(&mut conn, &sample_proto()).unwrap();
    delete_proto(&mut conn, "TestGrpcService").unwrap();
    assert!(get_proto(&mut conn, "TestGrpcService").unwrap().is_none());
}

#[test]
fn test_insert_duplicate_proto_fails() {
    let mut conn = setup_db();
    insert_proto(&mut conn, &sample_proto()).unwrap();
    assert!(insert_proto(&mut conn, &sample_proto()).is_err());
}

// ── HTTP Contract tests ──

fn sample_http_contract() -> HttpContract {
    HttpContract {
        service: "api-gateway".to_string(),
        description: "REST API gateway".to_string(),
        spec_raw: "openapi: 3.0.0".to_string(),
    }
}

#[test]
fn test_insert_and_get_http_contract() {
    let mut conn = setup_db();
    let h = sample_http_contract();
    insert_http_contract(&mut conn, &h).unwrap();
    let got = get_http_contract(&mut conn, "api-gateway").unwrap().unwrap();
    assert_eq!(got, h);
}

#[test]
fn test_list_http_contracts_returns_summaries() {
    let mut conn = setup_db();
    insert_http_contract(&mut conn, &sample_http_contract()).unwrap();
    let list = list_http_contracts(&mut conn).unwrap();
    assert_eq!(list.len(), 1);
    assert_eq!(list[0].service, "api-gateway");
}

#[test]
fn test_update_http_contract() {
    let mut conn = setup_db();
    let mut h = sample_http_contract();
    insert_http_contract(&mut conn, &h).unwrap();
    h.description = "Updated".to_string();
    update_http_contract(&mut conn, "api-gateway", &h).unwrap();
    let got = get_http_contract(&mut conn, "api-gateway").unwrap().unwrap();
    assert_eq!(got.description, "Updated");
}

#[test]
fn test_delete_http_contract() {
    let mut conn = setup_db();
    insert_http_contract(&mut conn, &sample_http_contract()).unwrap();
    delete_http_contract(&mut conn, "api-gateway").unwrap();
    assert!(get_http_contract(&mut conn, "api-gateway").unwrap().is_none());
}

#[test]
fn test_insert_duplicate_http_contract_fails() {
    let mut conn = setup_db();
    insert_http_contract(&mut conn, &sample_http_contract()).unwrap();
    assert!(insert_http_contract(&mut conn, &sample_http_contract()).is_err());
}
