//! The error taxonomy of the service.

use vstd::prelude::*;

verus! {

/// Outcome of a storage operation that did not succeed.
#[derive(Debug, Clone, Copy, PartialEq, Eq, Structural)]
pub enum StorageError {
    /// The store is unreachable or misconfigured.
    ConnectionFailed,
    /// Applying the schema on startup failed.
    MigrationFailed,
    /// A lookup by id matched no row.
    NotFound,
    /// Any other storage-engine failure.
    QueryFailed,
}

/// Outcome of a record-service operation that did not succeed.
#[derive(Debug, Clone, Copy, PartialEq, Eq, Structural)]
pub enum ServiceError {
    /// The client input was malformed (an empty required field).
    Validation,
    /// The storage layer failed; the cause is carried unchanged.
    Storage(StorageError),
}

} // verus!
