//! Why a sync operation was refused.

use crate::model::error::{DomainError, PortError};
use crate::model::names::{self, decimal_text};
use crate::model::task::SyncState;
use vstd::prelude::*;

verus! {

#[derive(Debug, PartialEq, Eq)]
pub enum SyncError {
    Port(PortError),
    Domain(DomainError),
    BadId(String),
    NoRepo,
    NoRemote,
    /// Several untracked issues match the task.
    AmbiguousPromoteTarget { repo: String, count: usize, issues: String },
    Archived,
    /// Both sides changed; the task is named.
    ManualMerge(String),
}

impl SyncError {
    /// The message of a refusal; `None` for a failure that was passed on and
    /// shows its own text.
    pub open spec fn text(self) -> Option<Seq<char>> {
        match self {
            SyncError::Port(_) | SyncError::Domain(_) => None,
            SyncError::BadId(id) => Some("invalid id: "@ + id@),
            SyncError::NoRepo => Some("task is not bound to a repo"@),
            SyncError::NoRemote => Some("task has no remote reference; promote it first"@),
            SyncError::AmbiguousPromoteTarget { repo, count, issues } => Some(
                "cannot promote: "@ + repo@ + " already has "@ + names::decimal(count as nat)
                    + " untracked issues matching this "@ + "task ("@ + issues@
                    + "); attach the right one with `rl task link` or edit the task so it no longer matches"@,
            ),
            SyncError::Archived => Some("task is archived; unarchive before syncing"@),
            SyncError::ManualMerge(task) => Some("task needs a manual merge: "@ + task@),
        }
    }

    /// The message of a refusal; `None` for a failure that was passed on and
    /// shows its own text.
    pub fn message(&self) -> (out: Option<String>)
        ensures
            match out {
                Some(m) => self.text() == Some(m@),
                None => self.text() is None,
            },
    {
        match self {
            SyncError::Port(_) | SyncError::Domain(_) => None,
            SyncError::BadId(id) => {
                let mut out = "invalid id: ".to_owned();
                out.append(id.as_str());
                Some(out)
            },
            SyncError::NoRepo => Some("task is not bound to a repo".to_owned()),
            SyncError::NoRemote => Some(
                "task has no remote reference; promote it first".to_owned(),
            ),
            SyncError::AmbiguousPromoteTarget { repo, count, issues } => {
                let mut out = "cannot promote: ".to_owned();
                out.append(repo.as_str());
                out.append(" already has ");
                out.append(decimal_text(*count as u64).as_str());
                out.append(" untracked issues matching this ");
                out.append("task (");
                out.append(issues.as_str());
                out.append(
                    "); attach the right one with `rl task link` or edit the task so it no longer matches",
                );
                Some(out)
            },
            SyncError::Archived => Some("task is archived; unarchive before syncing".to_owned()),
            SyncError::ManualMerge(task) => {
                let mut out = "task needs a manual merge: ".to_owned();
                out.append(task.as_str());
                Some(out)
            },
        }
    }
}

/// The name of a sync state as it stands in messages.
pub open spec fn sync_state_label(s: SyncState) -> Seq<char> {
    match s {
        SyncState::LocalOnly => "LocalOnly"@,
        SyncState::Staged => "Staged"@,
        SyncState::Synced => "Synced"@,
        SyncState::DirtyLocal => "DirtyLocal"@,
        SyncState::DirtyRemote => "DirtyRemote"@,
        SyncState::Conflict => "Conflict"@,
    }
}

/// The name of a sync state as it stands in messages.
pub fn label_of(s: SyncState) -> (out: &'static str)
    ensures
        out@ == sync_state_label(s),
{
    match s {
        SyncState::LocalOnly => "LocalOnly",
        SyncState::Staged => "Staged",
        SyncState::Synced => "Synced",
        SyncState::DirtyLocal => "DirtyLocal",
        SyncState::DirtyRemote => "DirtyRemote",
        SyncState::Conflict => "Conflict",
    }
}

/// `prefix`, the state's name, `suffix`.
pub fn state_message(prefix: &str, s: SyncState, suffix: &str) -> (out: String)
    ensures
        out@ == prefix@ + sync_state_label(s) + suffix@,
{
    let mut out = prefix.to_owned();
    out.append(label_of(s));
    out.append(suffix);
    out
}

/// A refusal says what it is about: a bad id and a merge name it, an ambiguous
/// promotion names the repository, how many issues match and which; a failure
/// that was passed on has its own text.
pub proof fn law_refusal_names_its_subject(e: SyncError)
    ensures
        e.text() is None <==> e is Port || e is Domain,
        e matches SyncError::BadId(id) ==> e.text() == Some("invalid id: "@ + id@),
        e matches SyncError::ManualMerge(task) ==> e.text() == Some(
            "task needs a manual merge: "@ + task@,
        ),
        e matches SyncError::AmbiguousPromoteTarget { repo, count, issues } ==> exists|
            a: Seq<char>,
            b: Seq<char>,
            c: Seq<char>,
            d: Seq<char>,
        |
            e.text() == Some(
                #[trigger] (a + repo@ + b + names::decimal(count as nat) + c + issues@ + d),
            ),
        e == SyncError::NoRepo ==> e.text() == Some("task is not bound to a repo"@),
        e == SyncError::NoRemote ==> e.text() == Some(
            "task has no remote reference; promote it first"@,
        ),
        e == SyncError::Archived ==> e.text() == Some(
            "task is archived; unarchive before syncing"@,
        ),
{
    if let SyncError::AmbiguousPromoteTarget { repo, count, issues } = e {
        let c = " untracked issues matching this "@ + "task ("@;
        let d =
            "); attach the right one with `rl task link` or edit the task so it no longer matches"@;
        assert(e.text()->0 =~= "cannot promote: "@ + repo@ + " already has "@ + names::decimal(
            count as nat,
        ) + c + issues@ + d);
    }
}

/// The state that a message names is the state.
pub proof fn law_labels_name_the_state(s: SyncState)
    ensures
        s == SyncState::LocalOnly ==> sync_state_label(s) == "LocalOnly"@,
        s == SyncState::Staged ==> sync_state_label(s) == "Staged"@,
        s == SyncState::Synced ==> sync_state_label(s) == "Synced"@,
        s == SyncState::DirtyLocal ==> sync_state_label(s) == "DirtyLocal"@,
        s == SyncState::DirtyRemote ==> sync_state_label(s) == "DirtyRemote"@,
        s == SyncState::Conflict ==> sync_state_label(s) == "Conflict"@,
{
}

} // verus!
