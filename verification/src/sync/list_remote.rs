//! What a listing of remote issues shows.

use crate::model::ids::Timestamp;
use vstd::prelude::*;

verus! {

/// Why a repository appears in the listing.
#[derive(Clone, Copy, Debug, PartialEq, Eq, Structural)]
pub enum ListRemoteRole {
    /// The workspace's filing default.
    Filing,
    /// A bound code repository.
    Canonical,
    /// The one repository that was asked for.
    Repo,
}

/// One remote issue and whether a local task mirrors it.
#[derive(Debug, PartialEq, Eq)]
pub struct RemoteIssueRow {
    pub remote_id: String,
    pub title: String,
    pub closed: bool,
    pub updated_at: Timestamp,
    /// A local task mirrors the issue.
    pub is_tracked: bool,
}

/// One repository's issues.
#[derive(Debug, PartialEq, Eq)]
pub struct ListRemoteGroup {
    pub repo: String,
    pub canonical_url: String,
    pub role: ListRemoteRole,
    pub issues: Vec<RemoteIssueRow>,
}

#[derive(Debug, PartialEq, Eq)]
pub struct ListRemoteDto {
    pub groups: Vec<ListRemoteGroup>,
}

impl ListRemoteRole {
    /// The role's name in listings.
    pub open spec fn name(self) -> Seq<char> {
        match self {
            ListRemoteRole::Filing => "filing"@,
            ListRemoteRole::Canonical => "canonical"@,
            ListRemoteRole::Repo => "repo"@,
        }
    }

    /// The role's name in listings.
    pub fn as_str(&self) -> (out: &'static str)
        ensures
            out@ == self.name(),
    {
        match self {
            ListRemoteRole::Filing => "filing",
            ListRemoteRole::Canonical => "canonical",
            ListRemoteRole::Repo => "repo",
        }
    }
}

} // verus!
