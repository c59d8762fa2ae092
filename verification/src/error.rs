//! The errors of the database.
use vstd::prelude::*;

verus! {

/// Why an operation on the database failed.
#[derive(Debug)]
pub enum DbErr {
    /// No collection of this name exists.
    CollectionNotFound(String),
    /// A collection of this name exists already.
    CollectionAlreadyExits(String),
    /// The database file is held by another instance.
    DatabaseOccupied,
    /// A document with an equal `_id` is in the collection already.
    DuplicateKey,
    /// The `_id` is of another kind than the collection's keys.
    UnexpectedIdType,
    /// The filter uses an unknown operator or a malformed argument.
    InvalidQuery,
    /// The update uses an unknown operator or an argument that is not a document.
    InvalidUpdate,
    /// The update would change a document's `_id`.
    UnableToUpdatePrimaryKey,
    /// Commit or rollback while no transaction is open.
    NoTransactionStarted,
    /// A transaction was started while one is open.
    StartTransactionInAnotherTransaction,
    /// The session is not (or no longer) known to the database.
    SessionOutdated,
    /// A request frame ended before its announced length.
    UnexpectedEof,
}

} // verus!
