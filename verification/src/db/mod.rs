//! Persistence of the registry in SQLite.
pub mod queries;
pub mod schema;
pub mod sql;
pub mod statement;
