//! The errors of the registry.
use vstd::prelude::*;

verus! {

/// The error type of rusqlite, carried through unchanged.
#[verifier::external_type_specification]
#[verifier::external_body]
pub struct ExDbError(rusqlite::Error);

/// Why a registry operation failed.
#[derive(Debug)]
pub enum AppError {
    /// No entity has the requested name.
    NotFound,
    /// The database refused or failed the statement.
    Db(rusqlite::Error),
    /// The value stored in the given column of a result row does not have
    /// the type (or range) that the column should hold.
    Column(usize),
    /// A query that always yields a row yielded none.
    NoRows,
    /// The embedding service failed, with its message.
    Embed(String),
}

} // verus!
