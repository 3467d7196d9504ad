use spine::embed::pipeline::{
    embed_text_for_http, embed_text_for_proto, embed_text_for_queue, embed_text_for_service,
    embed_text_for_table, hash_is_current, text_hash, to_hex_lower,
};
use spine::error::AppError;
use spine::models::{HttpContract, ProtoContract, QueueContract, QueueField, QueueSchema, Service, Table};

fn service(name: &str, description: &str) -> Service {
    Service {
        name: name.to_string(),
        description: description.to_string(),
        github_repo: None,
        grpc_servers: vec![],
        grpc_clients: vec![],
        http_server: false,
        http_clients: vec![],
        queue_publishers: vec![],
        queue_subscribers: vec![],
        tables: vec![],
    }
}

#[test]
fn service_text_is_name_colon_description() {
    let s = service("users-grpc", "User management service");
    assert_eq!(embed_text_for_service(&s), "users-grpc: User management service");
}

#[test]
fn table_text_has_database_and_ddl() {
    let t = Table {
        name: "users".to_string(),
        database: "users-db".to_string(),
        owner: "users-grpc".to_string(),
        description: "User accounts".to_string(),
        ddl: "CREATE TABLE users (id UUID);".to_string(),
    };
    assert_eq!(
        embed_text_for_table(&t),
        "users (users-db): User accounts\nCREATE TABLE users (id UUID);"
    );
}

fn field(name: &str) -> QueueField {
    QueueField { name: name.to_string(), field_type: "string".to_string(), description: String::new() }
}

#[test]
fn queue_text_lists_field_names() {
    let q = QueueContract {
        name: "user-registered".to_string(),
        description: "New users".to_string(),
        schema: QueueSchema {
            name: "UserRegisteredEvent".to_string(),
            fields: vec![field("user_id"), field("email"), field("registered_at")],
            notes: String::new(),
        },
    };
    assert_eq!(
        embed_text_for_queue(&q),
        "user-registered: New users. Fields: user_id, email, registered_at"
    );
}

#[test]
fn queue_text_without_fields() {
    let q = QueueContract {
        name: "q".to_string(),
        description: "d".to_string(),
        schema: QueueSchema { name: "E".to_string(), fields: vec![], notes: String::new() },
    };
    assert_eq!(embed_text_for_queue(&q), "q: d. Fields: ");
}

#[test]
fn proto_text_has_raw_proto() {
    let p = ProtoContract {
        server: "UsersGrpcService".to_string(),
        description: "Users".to_string(),
        proto_raw: "syntax = \"proto3\";".to_string(),
    };
    assert_eq!(embed_text_for_proto(&p), "UsersGrpcService: Users\nsyntax = \"proto3\";");
}

#[test]
fn http_text_keeps_short_spec() {
    let h = HttpContract {
        service: "api-gateway".to_string(),
        description: "Gateway".to_string(),
        spec_raw: "openapi: 3.0.0".to_string(),
    };
    assert_eq!(embed_text_for_http(&h), "api-gateway: Gateway\nopenapi: 3.0.0");
}

#[test]
fn http_text_cuts_long_spec_at_4000_bytes() {
    let spec = "x".repeat(5000);
    let h = HttpContract { service: "s".to_string(), description: "d".to_string(), spec_raw: spec };
    let text = embed_text_for_http(&h);
    assert_eq!(text, format!("s: d\n{}", "x".repeat(4000)));
}

#[test]
fn http_text_cut_counts_bytes_not_characters() {
    // 2000 two-byte characters are exactly 4000 bytes: nothing is cut.
    let exact = "é".repeat(2000);
    let h = HttpContract { service: "s".to_string(), description: "d".to_string(), spec_raw: exact.clone() + "é" };
    assert_eq!(embed_text_for_http(&h), format!("s: d\n{exact}"));
}

#[test]
fn hex_is_lowercase_two_digits_per_byte() {
    assert_eq!(to_hex_lower(&[0x0a, 0x14, 0x1e]), "0a141e");
    assert_eq!(to_hex_lower(&[0x00, 0xff]), "00ff");
    assert_eq!(to_hex_lower(&[]), "");
}

#[test]
fn text_hash_is_sha256_hex() {
    assert_eq!(
        text_hash(""),
        "e3b0c44298fc1c149afbf4c8996fb92427ae41e4649b934ca495991b7852b855"
    );
    assert_eq!(
        text_hash("abc"),
        "ba7816bf8f01cfea414140de5dae2223b00361a396177a9cb410ff61f20015ad"
    );
    assert_eq!(text_hash("users-grpc: User management").len(), 64);
}

#[test]
fn text_hash_changes_with_text() {
    assert_ne!(text_hash("a: b"), text_hash("a: c"));
    assert_eq!(text_hash("a: b"), text_hash("a: b"));
}

#[test]
fn stored_hash_decides_reembedding() {
    let h = text_hash("svc: desc");
    assert!(hash_is_current(&Ok(Some(h.clone())), &h));
    assert!(!hash_is_current(&Ok(Some(text_hash("other"))), &h));
    assert!(!hash_is_current(&Ok(None), &h));
    assert!(!hash_is_current(&Err(AppError::NotFound), &h));
}

#[test]
fn failed_embedding_stores_nothing() {
    assert_eq!(spine::embed::pipeline::vector_to_store::<Vec<u8>>(Err("down".to_string())), None);
    assert_eq!(spine::embed::pipeline::vector_to_store(Ok::<Vec<u8>, String>(vec![1, 2])), Some(vec![1, 2]));
}
