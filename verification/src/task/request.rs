//! Reading requests.

use super::error::ServiceError;
use crate::model::error::DomainError;
use crate::model::ids::{RepoId, WorkspaceId};
use crate::model::names::{self, parse_sync, same_text};
use crate::model::task::SyncState;
use crate::text::{self, is_blank};
use vstd::prelude::*;

verus! {

/// Which tasks a listing shows; `None` leaves a criterion out.
#[derive(Clone, Copy, Debug, PartialEq, Eq, Structural)]
pub struct TaskFilter {
    pub workspace_id: Option<WorkspaceId>,
    pub repo_id: Option<RepoId>,
    pub is_open: Option<bool>,
    pub sync_state: Option<SyncState>,
    /// Archived tasks are shown too.
    pub include_archived: bool,
}

/// The open/closed bit that a status asks for: open tasks by default, and all
/// of them on request. The outer `None` is for a status that is none.
pub open spec fn status_bit(status: Option<String>) -> Option<Option<bool>> {
    match status {
        None => Some(Some(true)),
        Some(s) => if s@ == "open"@ {
            Some(Some(true))
        } else if s@ == "closed"@ {
            Some(Some(false))
        } else if s@ == "all"@ {
            Some(None)
        } else {
            None
        },
    }
}

/// The refusal of a value that a field does not take.
pub open spec fn refuses_value(e: ServiceError, field_name: Seq<char>, given: String) -> bool {
    e matches ServiceError::BadEnum { field, value } && field@ == field_name && value == given
}

/// Read the filter of a listing. The status is read before the sync state.
/// Archived tasks are closed ones, so they are shown wherever those are.
pub fn list_filter(
    workspace_id: Option<WorkspaceId>,
    repo_id: Option<RepoId>,
    status: &Option<String>,
    sync_state: &Option<String>,
) -> (out: Result<TaskFilter, ServiceError>)
    ensures
        match out {
            Ok(f) => {
                &&& f.workspace_id == workspace_id
                &&& f.repo_id == repo_id
                &&& status_bit(*status) == Some(f.is_open)
                &&& f.include_archived == (f.is_open != Some(true))
                &&& match (f.sync_state, *sync_state) {
                    (Some(s), Some(name)) => name@ == names::sync_name(s),
                    (None, None) => true,
                    _ => false,
                }
            },
            Err(e) => if status_bit(*status) is None {
                refuses_value(e, "status"@, status->0)
            } else {
                &&& *sync_state is Some
                &&& forall|known: SyncState|
                    sync_state->0@ != #[trigger] names::sync_name(known)
                &&& refuses_value(e, "sync_state"@, sync_state->0)
            },
        },
{
    let is_open: Option<bool> = match status {
        None => Some(true),
        Some(s) => {
            if same_text(s.as_str(), "open") {
                Some(true)
            } else if same_text(s.as_str(), "closed") {
                Some(false)
            } else if same_text(s.as_str(), "all") {
                None
            } else {
                return Err(ServiceError::BadEnum { field: "status", value: s.clone() });
            }
        },
    };
    let sync: Option<SyncState> = match sync_state {
        None => None,
        Some(name) => match parse_sync(name.as_str()) {
            Some(s) => Some(s),
            None => {
                return Err(ServiceError::BadEnum { field: "sync_state", value: name.clone() });
            },
        },
    };
    let include_archived: bool = match is_open {
        Some(open) => !open,
        None => true,
    };
    Ok(TaskFilter { workspace_id, repo_id, is_open, sync_state: sync, include_archived })
}

/// Check the body of a comment: a blank one is refused.
pub fn check_comment(body: &str) -> (out: Result<(), ServiceError>)
    ensures
        match out {
            Ok(_) => !text::blank(body@),
            Err(e) => text::blank(body@) && (e matches ServiceError::Domain(
                DomainError::Validation(m),
            ) && m@ == "comment body must not be empty"@),
        },
{
    if is_blank(body) {
        Err(
            ServiceError::Domain(
                DomainError::Validation("comment body must not be empty".to_owned()),
            ),
        )
    } else {
        Ok(())
    }
}

/// Without a status the open tasks are listed; `open` and `closed` list just
/// these, `all` every task, and any other word is none.
pub proof fn law_status_picks_the_tasks(status: Option<String>)
    ensures
        status is None ==> status_bit(status) == Some(Some(true)),
        status is Some && status->0@ == "open"@ ==> status_bit(status) == Some(Some(true)),
        status is Some && status->0@ == "closed"@ ==> status_bit(status) == Some(Some(false)),
        status is Some && status->0@ == "all"@ ==> status_bit(status) == Some(None::<bool>),
        status_bit(status) is None <==> status is Some && status->0@ != "open"@ && status->0@
            != "closed"@ && status->0@ != "all"@,
{
    reveal_strlit("open");
    reveal_strlit("closed");
    reveal_strlit("all");
    assert("open"@.len() == 4);
    assert("closed"@.len() == 6);
    assert("all"@.len() == 3);
}

/// A value that a field does not take is refused with both named.
pub proof fn law_refused_value_is_named(e: ServiceError, field: Seq<char>, given: String)
    requires
        refuses_value(e, field, given),
    ensures
        e is BadEnum,
        e->BadEnum_field@ == field,
        e->BadEnum_value == given,
{
}

/// A blank comment is refused, and no other.
pub proof fn law_blank_comments_are_refused(body: &str, out: Result<(), ServiceError>)
    requires
        call_ensures(check_comment, (body,), out),
    ensures
        out is Err <==> forall|i: int| 0 <= i < body@.len() ==> text::is_space(
            #[trigger] body@[i],
        ),
        out matches Err(e) ==> e is Domain,
{
}

/// A listing shows the tasks of the workspace, repository, status and sync state
/// asked for, and archived ones wherever closed ones are shown.
pub proof fn law_listing_asks_for_what_was_given(
    workspace_id: Option<WorkspaceId>,
    repo_id: Option<RepoId>,
    status: &Option<String>,
    sync_state: &Option<String>,
    out: Result<TaskFilter, ServiceError>,
)
    requires
        call_ensures(list_filter, (workspace_id, repo_id, status, sync_state), out),
    ensures
        out matches Ok(f) ==> {
            &&& f.workspace_id == workspace_id
            &&& f.repo_id == repo_id
            &&& *status is None ==> f.is_open == Some(true)
            &&& *status is Some && status->0@ == "open"@ ==> f.is_open == Some(true)
            &&& *status is Some && status->0@ == "closed"@ ==> f.is_open == Some(false)
            &&& *status is Some && status->0@ == "all"@ ==> f.is_open is None
            &&& f.include_archived <==> f.is_open != Some(true)
            &&& f.sync_state is Some <==> *sync_state is Some
            &&& *sync_state is Some ==> sync_state->0@ == names::sync_name(f.sync_state->0)
        },
        *status is Some && status->0@ != "open"@ && status->0@ != "closed"@ && status->0@ != "all"@
            ==> out is Err,
        out matches Err(e) ==> e is BadEnum,
{
    law_status_picks_the_tasks(*status);
}

} // verus!
