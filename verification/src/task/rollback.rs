//! Rolling a task back to an earlier snapshot.

use crate::model::ids::RepoId;
use crate::model::task::{Lifecycle, RemoteRef, SyncState, Task};
use vstd::prelude::*;

verus! {

/// What a snapshot keeps of a task.
#[derive(Debug, PartialEq, Eq)]
pub struct TaskSnapshot {
    pub version: u64,
    pub title: String,
    pub body: String,
    pub lifecycle: Lifecycle,
    pub sync_state: SyncState,
    pub priority: String,
    pub assignees: Vec<String>,
    pub remote: Option<RemoteRef>,
    pub repo_id: Option<RepoId>,
    /// The snapshot is of a time when the repository was recorded. Where it is
    /// not, what `repo_id` was is unknown.
    pub repo_id_recorded: bool,
    pub filing_repo_id: Option<RepoId>,
}

/// The task as of the snapshot. The repository is restored where the snapshot
/// recorded it; the filing repository, on which the remote issue's identity
/// rests, is left as it is.
pub open spec fn rolled_back(task: Task, snapshot: TaskSnapshot) -> Task {
    Task {
        title: snapshot.title,
        body: snapshot.body,
        lifecycle: snapshot.lifecycle,
        sync: snapshot.sync_state,
        priority: snapshot.priority,
        assignees: snapshot.assignees,
        remote: snapshot.remote,
        repo_id: if snapshot.repo_id_recorded {
            snapshot.repo_id
        } else {
            task.repo_id
        },
        ..task
    }
}

/// Roll a task back to a snapshot.
pub fn rollback(task: Task, snapshot: TaskSnapshot) -> (out: Task)
    ensures
        out == rolled_back(task, snapshot),
{
    let mut task = task;
    task.title = snapshot.title;
    task.body = snapshot.body;
    task.lifecycle = snapshot.lifecycle;
    task.sync = snapshot.sync_state;
    task.priority = snapshot.priority;
    task.assignees = snapshot.assignees;
    task.remote = snapshot.remote;
    if snapshot.repo_id_recorded {
        task.repo_id = snapshot.repo_id;
    }
    task
}

/// A rollback never moves a task's filing repository, whatever the snapshot
/// holds of it, nor its place in the graph of relations or on the board.
pub proof fn law_rollback_never_retargets_filing(task: Task, snapshot: TaskSnapshot)
    ensures
        rolled_back(task, snapshot).filing_repo_id == task.filing_repo_id,
        rolled_back(task, snapshot).id == task.id,
        rolled_back(task, snapshot).relations == task.relations,
        rolled_back(task, snapshot).comments == task.comments,
        rolled_back(task, snapshot).project_item_id == task.project_item_id,
        !snapshot.repo_id_recorded ==> rolled_back(task, snapshot).repo_id == task.repo_id,
        rolled_back(rolled_back(task, snapshot), snapshot) == rolled_back(task, snapshot),
{
}

/// After a rollback the task is what the snapshot holds: its title, body,
/// lifecycle, sync state, priority, people and remote issue, and its repository
/// where the snapshot recorded that.
pub proof fn law_rollback_restores_the_snapshot(task: Task, snapshot: TaskSnapshot)
    ensures
        ({
            let back = rolled_back(task, snapshot);
            &&& back.title == snapshot.title
            &&& back.body == snapshot.body
            &&& back.lifecycle == snapshot.lifecycle
            &&& back.sync == snapshot.sync_state
            &&& back.priority == snapshot.priority
            &&& back.assignees == snapshot.assignees
            &&& back.remote == snapshot.remote
            &&& snapshot.repo_id_recorded ==> back.repo_id == snapshot.repo_id
        }),
{
}

/// Everything else about a task is as it was before the rollback.
pub proof fn law_rollback_leaves_the_rest(task: Task, snapshot: TaskSnapshot)
    ensures
        ({
            let back = rolled_back(task, snapshot);
            &&& back.id == task.id
            &&& back.workspace_id == task.workspace_id
            &&& back.filing_repo_id == task.filing_repo_id
            &&& back.hash == task.hash
            &&& back.project_item_id == task.project_item_id
            &&& back.project_status_option_id == task.project_status_option_id
            &&& back.relations == task.relations
            &&& back.comments == task.comments
            &&& back.baseline == task.baseline
            &&& back.created_at == task.created_at
            &&& back.updated_at == task.updated_at
            &&& !snapshot.repo_id_recorded ==> back.repo_id == task.repo_id
        }),
{
}

/// What a rollback returns is the task with the snapshot's fields in place of its
/// own.
pub proof fn law_rollback_returns_the_restored_task(
    task: Task,
    snapshot: TaskSnapshot,
    out: Task,
)
    requires
        call_ensures(rollback, (task, snapshot), out),
    ensures
        out.title == snapshot.title,
        out.body == snapshot.body,
        out.lifecycle == snapshot.lifecycle,
        out.sync == snapshot.sync_state,
        out.priority == snapshot.priority,
        out.assignees == snapshot.assignees,
        out.remote == snapshot.remote,
        out.repo_id == if snapshot.repo_id_recorded {
            snapshot.repo_id
        } else {
            task.repo_id
        },
        out.filing_repo_id == task.filing_repo_id,
        out.relations == task.relations,
        out.comments == task.comments,
{
}

} // verus!
