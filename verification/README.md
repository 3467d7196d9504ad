# spine

A registry of system architecture knowledge for AI agents: services, database
tables, queue contracts, gRPC proto contracts and HTTP contracts, stored in
SQLite, with a dependency graph derived from the relations that services
declare, a bundled context per service, and semantic search over embeddings.

- `src/` is the verified library (Verus): the entities, the dependency graph,
  the context of a service, the embedding texts and their hashes, the
  in-memory embedding index, the settings, and every statement run on SQLite.
  The database handle `Db` (`src/db/statement.rs`) owns the SQLite connection
  and, as ghost state, the log of every statement run through it; only the
  rusqlite wrappers there run statements, and each appends its record (the
  statement, the values given, and what rusqlite answered). Each database
  function states exactly which records it appended to the log, that is,
  every statement it ran, and its result in terms of their answers.
- `app/` is the server: the REST API (axum, OpenAPI), the MCP tools (rmcp),
  the embedding service client and the floating-point ranking of search
  results.
- `tests/` runs the library on an in-memory SQLite database.

`Cargo.toml` pins `rmcp-macros` to the release of `rmcp` (1.3.0): later
`rmcp-macros` releases generate code for the MCP tool router that calls
functions `rmcp` 1.3.0 does not have, and `app/mcp.rs` would not compile.
