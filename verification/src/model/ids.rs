//! Identifiers and points in time.

use vstd::prelude::*;

verus! {

/// A task. An identifier is the 128-bit value of a UUID, so that numeric order
/// is the order of the UUID's bytes.
#[derive(Clone, Copy, Debug, PartialEq, Eq, Hash, Structural)]
pub struct TaskId(pub u128);

#[derive(Clone, Copy, Debug, PartialEq, Eq, Hash, Structural)]
pub struct WorkspaceId(pub u128);

/// A repository: an instance of it bound in a workspace, or its origin.
#[derive(Clone, Copy, Debug, PartialEq, Eq, Hash, Structural)]
pub struct RepoId(pub u128);

/// A point in time, in nanoseconds since the Unix epoch.
#[derive(Clone, Copy, Debug, PartialEq, Eq, Hash, Structural)]
pub struct Timestamp(pub i128);

} // verus!
