//! Where a task's issue is filed.

use super::error::SyncError;
use crate::model::error::PortError;
use crate::model::ids::RepoId;
use crate::model::outbox::IssueCoords;
use crate::model::project::Workspace;
use crate::model::task::{RemoteRef, Task};
use vstd::prelude::*;

verus! {

/// The first of the three that is there: what the task recorded or was told,
/// the workspace's default, the origin of the task's own repository.
pub open spec fn first_filing(
    recorded: Option<RepoId>,
    workspace_default: Option<RepoId>,
    logical: Option<RepoId>,
) -> Option<RepoId> {
    if recorded is Some {
        recorded
    } else if workspace_default is Some {
        workspace_default
    } else {
        logical
    }
}

/// Resolve the filing repository.
pub fn resolve_filing_repo(
    recorded: Option<RepoId>,
    workspace_default: Option<RepoId>,
    logical: Option<RepoId>,
) -> (out: Option<RepoId>)
    ensures
        out == first_filing(recorded, workspace_default, logical),
{
    match recorded {
        Some(r) => Some(r),
        None => match workspace_default {
            Some(w) => Some(w),
            None => logical,
        },
    }
}

/// A recorded filing repository is never overruled; without one, a change of
/// the workspace default shows.
pub proof fn law_recorded_filing_is_final(
    recorded: RepoId,
    default_before: Option<RepoId>,
    default_after: Option<RepoId>,
    logical: Option<RepoId>,
)
    ensures
        first_filing(Some(recorded), default_before, logical) == Some(recorded),
        first_filing(Some(recorded), default_after, logical) == Some(recorded),
        first_filing(None, None, logical) == logical,
{
}

/// Read a lookup as one step of the filing chain: what is not found is an
/// absent step, any other failure stands.
pub fn chain_step(lookup: Result<Option<RepoId>, PortError>) -> (out: Result<
    Option<RepoId>,
    PortError,
>)
    ensures
        out == match lookup {
            Err(PortError::NotFound(_)) => Ok(None),
            _ => lookup,
        },
{
    match lookup {
        Ok(v) => Ok(v),
        Err(PortError::NotFound(_)) => Ok(None),
        Err(e) => Err(e),
    }
}

/// The origin that a remote operation addresses; a task without one has no
/// repository.
pub fn filing_origin(
    recorded: Option<RepoId>,
    workspace_default: Option<RepoId>,
    logical: Option<RepoId>,
) -> (out: Result<RepoId, SyncError>)
    ensures
        match first_filing(recorded, workspace_default, logical) {
            Some(r) => out == Ok::<RepoId, SyncError>(r),
            None => out == Err::<RepoId, SyncError>(SyncError::NoRepo),
        },
{
    match resolve_filing_repo(recorded, workspace_default, logical) {
        Some(r) => Ok(r),
        None => Err(SyncError::NoRepo),
    }
}

/// The origin that a relation's end is addressed by. An end without
/// an issue needs none, and one whose workspace is gone has none.
pub open spec fn address_of(
    task: Task,
    workspace: Option<&Workspace>,
    logical: Option<RepoId>,
) -> Option<RepoId> {
    if task.remote is Some && workspace is Some {
        first_filing(task.filing_repo_id, workspace->0.filing_repo_id, logical)
    } else {
        None
    }
}

/// The origin that a relation's end is addressed by.
pub fn end_address(task: &Task, workspace: Option<&Workspace>, logical: Option<RepoId>) -> (out:
    Option<RepoId>)
    ensures
        out == address_of(*task, workspace, logical),
{
    match workspace {
        None => None,
        Some(w) => if task.remote.is_none() {
            None
        } else {
            resolve_filing_repo(task.filing_repo_id, w.filing_repo_id, logical)
        },
    }
}

/// The coordinates of a relation's end: those of its issue, where it has one
/// and its filing repository resolved.
pub open spec fn coords_of(remote: Option<RemoteRef>, canonical: Option<String>) -> Option<
    IssueCoords,
> {
    if remote is Some && canonical is Some {
        Some(IssueCoords { canonical: canonical->0, remote_id: remote->0.remote_id })
    } else {
        None
    }
}

/// The coordinates of a relation's end.
pub fn relation_remote_coords(remote: &Option<RemoteRef>, canonical: Option<String>) -> (out: Option<
    IssueCoords,
>)
    ensures
        out == coords_of(*remote, canonical),
{
    match (remote, canonical) {
        (Some(r), Some(c)) => Some(IssueCoords { canonical: c, remote_id: r.remote_id.clone() }),
        _ => None,
    }
}

/// Whether a first filing is recorded now: only a mirror that is not on the
/// workspace's board yet and has recorded none.
pub fn records_first_filing(
    has_project: bool,
    on_board: bool,
    recorded: Option<RepoId>,
) -> (yes: bool)
    ensures
        yes == (has_project && !on_board && recorded is None),
{
    has_project && !on_board && recorded.is_none()
}

/// An issue is filed where the task recorded it; else where its workspace files
/// by default; else in the task's own repository. Without any of these it has no
/// place.
pub proof fn law_filing_goes_down_the_chain(
    recorded: Option<RepoId>,
    workspace_default: Option<RepoId>,
    logical: Option<RepoId>,
    r: RepoId,
)
    ensures
        recorded == Some(r) ==> first_filing(recorded, workspace_default, logical) == Some(r),
        recorded is None && workspace_default == Some(r) ==> first_filing(
            recorded,
            workspace_default,
            logical,
        ) == Some(r),
        recorded is None && workspace_default is None && logical == Some(r) ==> first_filing(
            recorded,
            workspace_default,
            logical,
        ) == Some(r),
        first_filing(recorded, workspace_default, logical) is None <==> recorded is None
            && workspace_default is None && logical is None,
{
}

/// A relation's end has an address exactly where it has an issue, its workspace
/// is known and one of the three places is: that of the task, that of the
/// workspace, or its own repository, in this order.
pub proof fn law_end_is_addressed_where_it_is_filed(
    task: Task,
    workspace: Option<&Workspace>,
    logical: Option<RepoId>,
)
    ensures
        task.remote is None ==> address_of(task, workspace, logical) is None,
        workspace is None ==> address_of(task, workspace, logical) is None,
        task.remote is Some && workspace is Some ==> {
            &&& task.filing_repo_id is Some ==> address_of(task, workspace, logical)
                == task.filing_repo_id
            &&& task.filing_repo_id is None && workspace->0.filing_repo_id is Some ==> address_of(
                task,
                workspace,
                logical,
            ) == workspace->0.filing_repo_id
            &&& task.filing_repo_id is None && workspace->0.filing_repo_id is None ==> address_of(
                task,
                workspace,
                logical,
            ) == logical
        },
{
}

/// The coordinates of an issue are its number and the repository it is filed
/// in; without either there are none.
pub proof fn law_coordinates_name_the_issue(remote: Option<RemoteRef>, canonical: Option<String>)
    ensures
        coords_of(remote, canonical) is Some <==> remote is Some && canonical is Some,
        coords_of(remote, canonical) matches Some(c) ==> c.canonical == canonical->0 && c.remote_id
            == remote->0.remote_id,
{
}

/// What is not found is an absent step of the chain; any other failure stands,
/// and what is found is what it is.
pub proof fn law_missing_steps_are_absent(
    lookup: Result<Option<RepoId>, PortError>,
    out: Result<Option<RepoId>, PortError>,
)
    requires
        call_ensures(chain_step, (lookup,), out),
    ensures
        lookup is Ok ==> out == lookup,
        lookup is Err && lookup->Err_0 is NotFound ==> out == Ok::<Option<RepoId>, PortError>(
            None,
        ),
        lookup is Err && !(lookup->Err_0 is NotFound) ==> out == lookup,
{
}

/// A filing repository is recorded once: for a task of a workspace with a board,
/// that is not on it and has recorded none.
pub proof fn law_first_filing_is_recorded_once(
    has_project: bool,
    on_board: bool,
    recorded: Option<RepoId>,
    yes: bool,
)
    requires
        call_ensures(records_first_filing, (has_project, on_board, recorded), yes),
    ensures
        yes <==> has_project && !on_board && recorded is None,
{
}

} // verus!
