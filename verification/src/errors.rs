//! Error taxonomy of the repository layer.
//!
//! Storage failures are mapped once, at the repository boundary, into a
//! small caller-facing taxonomy; engine-specific detail never leaks upward.

use vstd::prelude::*;

verus! {

/// Structural validation failures of the patient entity itself.
#[derive(Clone, Copy, Debug, PartialEq, Eq, Structural)]
pub enum PatientDomainError {
    FullNameRequired,
    CpfRequired,
}

/// Failures reported by a storage backend.
#[derive(Clone, Copy, Debug, PartialEq, Eq, Structural)]
pub enum PatientRepositoryError {
    /// Connectivity loss, malformed data, or any storage failure not
    /// otherwise classified.
    PersistenceError,
    /// A referenced row does not exist.
    NotFound,
    /// A uniqueness constraint was violated.
    Conflict,
}

/// Errors crossing the use-case boundary: a structural validation failure
/// that never reached storage, a mapped storage failure, or an unexpected
/// internal condition.
#[derive(Debug)]
pub enum AppError {
    Validation(String),
    Database(String),
    Unexpected(String),
}

} // verus!
