//! A registry of system knowledge for AI agents: services, database tables,
//! queue contracts, gRPC proto contracts and HTTP contracts, with the
//! dependency graph derived from them and the texts that feed semantic search.
pub mod config;
pub mod context;
pub mod db;
pub mod embed;
pub mod error;
pub mod graph;
pub mod models;
