[package]
name = "spine"
version = "0.1.0"
edition = "2021"
publish = false

[dependencies]
anyhow = "=1.0.104"
axum = "=0.8.9"
bytemuck = "=1.25.2"
reqwest = { version = "=0.12.28", default-features = false, features = ["json"] }
rmcp = { version = "~1.3", features = ["transport-streamable-http-server"] }
rmcp-macros = "=1.3.0"
rusqlite = { version = "=0.41.1", features = ["bundled"] }
schemars = "1"
serde = { version = "=1.0.229", features = ["derive"] }
serde_json = "=1.0.154"
sha2 = "=0.10.9"
tokio = { version = "=1.54.1", features = ["full"] }
tower = "=0.5.3"
tower-http = { version = "=0.6.11", features = ["cors", "trace"] }
tracing = "=0.1.44"
tracing-subscriber = { version = "=0.3.23", features = ["env-filter"] }
utoipa = { version = "=5.5.0", features = ["axum_extras"] }
utoipa-swagger-ui = { version = "=9.0.2", features = ["axum", "vendored"] }
