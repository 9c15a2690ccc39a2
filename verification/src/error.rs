use vstd::prelude::*;

verus! {

/// The failure taxonomy of the migration engine.
///
/// Discovery and parsing failures (`MigrationDirectoryNotFound`,
/// `MalformedMigrationFolder`, `FilesystemError`) are detected before any
/// database mutation. `QueryExecutionError` reports a statement that failed
/// while applying or reverting a unit, or while bookkeeping the tracking
/// table; `TransactionError` reports a transaction scope that failed to
/// commit or roll back cleanly.
#[derive(Clone, Debug, PartialEq, Eq)]
pub enum MigrationError {
    /// Every ancestor of the starting directory was searched and none
    /// contains a `migrations` directory.
    MigrationDirectoryNotFound,
    /// A migration folder has an unrecognizable name or does not hold
    /// exactly the two procedure files; carries the folder name.
    MalformedMigrationFolder(String),
    /// A targeted operation named a version with no matching unit on disk;
    /// carries the requested version.
    UnknownMigrationVersion(String),
    /// A directory or file could not be read; carries a description.
    FilesystemError(String),
    /// A statement failed during procedure execution or tracking-table
    /// bookkeeping; carries the offending version or a description.
    QueryExecutionError(String),
    /// A transaction scope failed to commit or roll back; carries a
    /// description of the original cause.
    TransactionError(String),
}

} // verus!
