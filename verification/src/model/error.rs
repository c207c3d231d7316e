//! Failures that the rules tell apart.

use vstd::prelude::*;

verus! {

/// A failure of a store or of the remote host.
#[derive(Debug, PartialEq, Eq)]
pub enum PortError {
    NotFound(String),
    /// The remote issue now lives elsewhere.
    IssueMoved { to_canonical: String, to_remote_id: String },
    /// A uniqueness rule of the store was hit; the column is named.
    Conflict { target: String },
    Backend(String),
}

/// A change that the task model refuses.
#[derive(Debug, PartialEq, Eq)]
pub enum DomainError {
    Validation(String),
    Transition(String),
}

} // verus!
