//! Promoting a local task to a remote issue.
//!
//! The filing repository is settled and recorded before the issue is created,
//! and the task is saved once, together with the mutations its relations owe.

use super::error::{self, state_message, SyncError};
use super::filing::{self, filing_origin, resolve_filing_repo};
use super::relations::{self, relation_backfill_entries};
use super::summary::{self, ensure_not_archived, provider_label, SyncSummaryDto};
use crate::model::error::DomainError;
use crate::model::ids::RepoId;
use crate::model::names::{self, SyncDecision};
use crate::model::outbox::{IssueCoords, OutboxEntry};
use crate::model::task::{clone_texts, Lifecycle, RemoteRef, SyncState, Task};
use vstd::prelude::*;

verus! {

/// The issue to create.
#[derive(Debug, PartialEq, Eq)]
pub struct RemoteTaskCreate {
    pub canonical_repo: String,
    pub title: String,
    pub body: String,
    pub assignees: Vec<String>,
}

/// What a promotion does next.
#[derive(Debug, PartialEq, Eq)]
pub enum PromoteStep {
    /// Stage the task for sync.
    Stage,
    /// Read the workspace's filing default and the origin of the task's
    /// repository.
    ResolveFiling,
    /// Record the filing repository on the task.
    RecordFiling(Option<RepoId>),
    /// Read the chain that addresses the task's issue.
    ResolveAddress,
    /// Read the origin's canonical URL.
    ReadOrigin(RepoId),
    /// Create the issue.
    Create(RemoteTaskCreate),
    /// Attach the issue to the task.
    Adopt { remote: RemoteRef, coords: IssueCoords },
    /// Read the coordinates of the far end of each relation.
    Neighbors(IssueCoords),
    /// Save the task and queue the entries, in one write.
    Save(Vec<OutboxEntry>),
}

pub struct Promotion {
    pub task: Task,
    /// The sync state the promotion began in.
    pub prev: SyncState,
    pub step: PromoteStep,
}

/// The refusal of a promotion from a sync state.
pub open spec fn refuses_promote(e: SyncError, s: SyncState) -> bool {
    e matches SyncError::Domain(DomainError::Transition(m)) && m@ == "cannot promote from sync="@
        + error::sync_state_label(s)
}

fn promote_refusal(s: SyncState) -> (e: SyncError)
    ensures
        refuses_promote(e, s),
{
    let message = state_message("cannot promote from sync=", s, "");
    proof {
        reveal_strlit("");
        assert(message@ =~= "cannot promote from sync="@ + error::sync_state_label(s));
    }
    SyncError::Domain(DomainError::Transition(message))
}

impl Promotion {
    /// Begin a promotion. A local task is staged first; only a staged one goes
    /// on, and an archived one is refused.
    pub fn start(task: Task) -> (out: Result<Self, SyncError>)
        ensures
            match out {
                Ok(p) => {
                    &&& task.lifecycle != Lifecycle::NotPlanned
                    &&& task.sync == SyncState::LocalOnly || task.sync == SyncState::Staged
                    &&& p.task == task
                    &&& p.prev == task.sync
                    &&& p.step == if task.sync == SyncState::LocalOnly {
                        PromoteStep::Stage
                    } else {
                        PromoteStep::ResolveFiling
                    }
                },
                Err(e) => if task.lifecycle == Lifecycle::NotPlanned {
                    e == SyncError::Archived
                } else {
                    &&& task.sync != SyncState::LocalOnly
                    &&& task.sync != SyncState::Staged
                    &&& refuses_promote(e, task.sync)
                },
            },
    {
        match ensure_not_archived(&task) {
            Err(e) => {
                return Err(e);
            },
            Ok(_) => {},
        }
        let prev = task.sync;
        let step = match task.sync {
            SyncState::LocalOnly => PromoteStep::Stage,
            SyncState::Staged => PromoteStep::ResolveFiling,
            SyncState::Synced
            | SyncState::DirtyLocal
            | SyncState::DirtyRemote
            | SyncState::Conflict => {
                return Err(promote_refusal(prev));
            },
        };
        Ok(Promotion { task, prev, step })
    }

    /// The task was staged.
    pub fn on_staged(&mut self, staged: Task) -> (out: Result<(), SyncError>)
        requires
            old(self).step == PromoteStep::Stage,
        ensures
            match out {
                Ok(_) => staged.sync == SyncState::Staged && *final(self) == (Promotion {
                    task: staged,
                    step: PromoteStep::ResolveFiling,
                    ..*old(self)
                }),
                Err(e) => staged.sync != SyncState::Staged && refuses_promote(e, staged.sync)
                    && *final(self) == *old(self),
            },
    {
        if staged.sync != SyncState::Staged {
            return Err(promote_refusal(staged.sync));
        }
        self.task = staged;
        self.step = PromoteStep::ResolveFiling;
        Ok(())
    }

    /// The workspace default and the origin of the task's repository were
    /// read: the default wins, the task's own repository stands in for it.
    pub fn on_filing(&mut self, workspace_default: Option<RepoId>, logical: Option<RepoId>)
        requires
            old(self).step == PromoteStep::ResolveFiling,
        ensures
            *final(self) == (Promotion {
                step: PromoteStep::RecordFiling(
                    filing::first_filing(None, workspace_default, logical),
                ),
                ..*old(self)
            }),
    {
        self.step = PromoteStep::RecordFiling(
            resolve_filing_repo(None, workspace_default, logical),
        );
    }

    /// The filing repository was recorded.
    pub fn on_filing_recorded(&mut self, task: Task)
        requires
            old(self).step is RecordFiling,
        ensures
            *final(self) == (Promotion { task, step: PromoteStep::ResolveAddress, ..*old(self) }),
    {
        self.task = task;
        self.step = PromoteStep::ResolveAddress;
    }

    /// The chain that addresses the issue was read: what the task recorded,
    /// the workspace default, the origin of the task's repository.
    pub fn on_address(&mut self, workspace_default: Option<RepoId>, logical: Option<RepoId>) -> (out:
        Result<(), SyncError>)
        requires
            old(self).step == PromoteStep::ResolveAddress,
        ensures
            match filing::first_filing(old(self).task.filing_repo_id, workspace_default, logical) {
                Some(r) => out is Ok && *final(self) == (Promotion {
                    step: PromoteStep::ReadOrigin(r),
                    ..*old(self)
                }),
                None => out == Err::<(), SyncError>(SyncError::NoRepo) && *final(self)
                    == *old(self),
            },
    {
        match filing_origin(self.task.filing_repo_id, workspace_default, logical) {
            Ok(r) => {
                self.step = PromoteStep::ReadOrigin(r);
                Ok(())
            },
            Err(e) => Err(e),
        }
    }

    /// The canonical URL was read: the issue carries the task's title, body
    /// and assignees.
    pub fn on_origin(&mut self, canonical: String)
        requires
            old(self).step is ReadOrigin,
        ensures
            *final(self) == (Promotion { step: final(self).step, ..*old(self) }),
            final(self).step matches PromoteStep::Create(c) && {
                &&& c.canonical_repo == canonical
                &&& c.title == old(self).task.title
                &&& c.body == old(self).task.body
                &&& c.assignees@ == old(self).task.assignees@
            },
    {
        self.step = PromoteStep::Create(
            RemoteTaskCreate {
                canonical_repo: canonical,
                title: self.task.title.clone(),
                body: self.task.body.clone(),
                assignees: clone_texts(&self.task.assignees),
            },
        );
    }

    /// The issue was created.
    pub fn on_created(&mut self, remote_id: String, node_id: Option<String>)
        requires
            old(self).step is Create,
        ensures
            *final(self) == (Promotion { step: final(self).step, ..*old(self) }),
            final(self).step matches PromoteStep::Adopt { remote, coords } && {
                &&& remote.remote_id == remote_id
                &&& remote.node_id == node_id
                &&& remote.provider@ == if summary::starts_with(
                    old(self).step->Create_0.canonical_repo@,
                    "github.com/"@,
                ) {
                    "github"@
                } else {
                    "remote"@
                }
                &&& coords.canonical == old(self).step->Create_0.canonical_repo
                &&& coords.remote_id == remote_id
            },
    {
        let canonical: String = match &self.step {
            PromoteStep::Create(c) => c.canonical_repo.clone(),
            _ => String::new(),
        };
        let provider = provider_label(canonical.as_str());
        let coords = IssueCoords { canonical, remote_id: remote_id.clone() };
        self.step = PromoteStep::Adopt {
            remote: RemoteRef { provider, remote_id, node_id },
            coords,
        };
    }

    /// The issue was attached to the task, which is synced with it from now on.
    pub fn on_adopted(&mut self, task: Task)
        requires
            old(self).step is Adopt,
        ensures
            *final(self) == (Promotion {
                task: Task {
                    remote: Some(old(self).step->Adopt_remote),
                    sync: SyncState::Synced,
                    ..task
                },
                step: PromoteStep::Neighbors(old(self).step->Adopt_coords),
                ..*old(self)
            }),
    {
        let mut task = task;
        let coords: IssueCoords = match &self.step {
            PromoteStep::Adopt { remote, coords } => {
                task.remote = Some(remote.clone());
                coords.clone()
            },
            _ => IssueCoords { canonical: String::new(), remote_id: String::new() },
        };
        task.sync = SyncState::Synced;
        self.task = task;
        self.step = PromoteStep::Neighbors(coords);
    }

    /// The coordinates of the far end of each relation were read: edges set
    /// while the task was local now owe their remote form.
    pub fn on_neighbors(&mut self, coords: &Vec<Option<IssueCoords>>)
        requires
            old(self).step is Neighbors,
            coords@.len() == old(self).task.relations@.len(),
        ensures
            *final(self) == (Promotion { step: final(self).step, ..*old(self) }),
            final(self).step matches PromoteStep::Save(entries) && entries@ == relations::backfill(
                old(self).task.id,
                old(self).task.relations@,
                old(self).step->Neighbors_0,
                coords@,
                old(self).task.relations@.len() as int,
            ),
    {
        let entries = match &self.step {
            PromoteStep::Neighbors(this) => relation_backfill_entries(
                self.task.id,
                &self.task.relations,
                this,
                coords,
            ),
            _ => Vec::new(),
        };
        self.step = PromoteStep::Save(entries);
    }

    /// The task was saved.
    pub fn on_saved(self) -> (out: SyncSummaryDto)
        requires
            self.step is Save,
        ensures
            summary::reports(
                out,
                self.task,
                self.prev,
                names::decision_name(SyncDecision::PushLocal),
                None,
            ),
    {
        summary::summary(&self.task, self.prev, SyncDecision::PushLocal)
    }
}

/// Only a local or staged task is promoted, and no archived one; a local task is
/// staged first.
pub proof fn law_promotion_begins_from_local(task: Task, out: Result<Promotion, SyncError>)
    requires
        call_ensures(Promotion::start, (task,), out),
    ensures
        out is Ok <==> task.lifecycle != Lifecycle::NotPlanned && (task.sync
            == SyncState::LocalOnly || task.sync == SyncState::Staged),
        task.lifecycle == Lifecycle::NotPlanned ==> out == Err::<Promotion, SyncError>(
            SyncError::Archived,
        ),
        task.lifecycle != Lifecycle::NotPlanned && out is Err ==> out->Err_0 is Domain,
        out matches Ok(p) ==> {
            &&& p.task == task
            &&& p.prev == task.sync
            &&& task.sync == SyncState::LocalOnly ==> p.step == PromoteStep::Stage
            &&& task.sync == SyncState::Staged ==> p.step == PromoteStep::ResolveFiling
        },
{
}

/// The issue is filed where the workspace files by default, else in the task's
/// own repository; that is recorded on the task before anything is created.
pub proof fn law_filing_is_recorded_before_creation(
    staged: &mut Promotion,
    filed: &mut Promotion,
    recorded: &mut Promotion,
    task: Task,
    out: Result<(), SyncError>,
    workspace_default: Option<RepoId>,
    logical: Option<RepoId>,
)
    requires
        call_ensures(Promotion::on_staged, (staged, task), out),
        call_ensures(Promotion::on_filing, (filed, workspace_default, logical), ()),
        call_ensures(Promotion::on_filing_recorded, (recorded, task), ()),
    ensures
        out is Ok <==> task.sync == SyncState::Staged,
        out is Ok ==> final(staged).step == PromoteStep::ResolveFiling && final(staged).task
            == task,
        out is Err ==> *final(staged) == *old(staged),
        final(filed).step is RecordFiling,
        workspace_default is Some ==> final(filed).step->RecordFiling_0 == workspace_default,
        workspace_default is None ==> final(filed).step->RecordFiling_0 == logical,
        final(filed).task == old(filed).task,
        final(recorded).step == PromoteStep::ResolveAddress,
        final(recorded).task == task,
        final(staged).prev == old(staged).prev,
        final(filed).prev == old(filed).prev,
        final(recorded).prev == old(recorded).prev,
{
}

/// The issue is created in the repository that the task recorded, else in the
/// workspace's default, else in its own; with the task's title, body and people.
/// Without a repository the promotion is refused.
pub proof fn law_issue_is_created_from_the_task(
    addressed: &mut Promotion,
    read: &mut Promotion,
    out: Result<(), SyncError>,
    workspace_default: Option<RepoId>,
    logical: Option<RepoId>,
    canonical: String,
)
    requires
        call_ensures(Promotion::on_address, (addressed, workspace_default, logical), out),
        call_ensures(Promotion::on_origin, (read, canonical), ()),
    ensures
        ({
            let recorded = old(addressed).task.filing_repo_id;
            &&& out is Ok <==> recorded is Some || workspace_default is Some || logical is Some
            &&& out matches Err(e) ==> e == SyncError::NoRepo
            &&& out is Ok ==> {
                &&& final(addressed).step is ReadOrigin
                &&& recorded is Some ==> final(addressed).step->ReadOrigin_0 == recorded->0
                &&& recorded is None && workspace_default is Some
                    ==> final(addressed).step->ReadOrigin_0 == workspace_default->0
                &&& recorded is None && workspace_default is None
                    ==> final(addressed).step->ReadOrigin_0 == logical->0
            }
            &&& final(addressed).task == old(addressed).task
            &&& final(read).task == old(read).task
            &&& final(read).step is Create
            &&& final(read).step->Create_0.canonical_repo == canonical
            &&& final(read).step->Create_0.title == old(read).task.title
            &&& final(read).step->Create_0.body == old(read).task.body
            &&& final(read).step->Create_0.assignees@ == old(read).task.assignees@
        }),
{
}

/// The created issue, with its number and node id, becomes the task's, which is
/// synced with it; it is found where it was created.
pub proof fn law_created_issue_becomes_the_tasks(
    created: &mut Promotion,
    adopted: &mut Promotion,
    remote_id: String,
    node_id: Option<String>,
    task: Task,
)
    requires
        call_ensures(Promotion::on_created, (created, remote_id, node_id), ()),
        call_ensures(Promotion::on_adopted, (adopted, task), ()),
        old(created).step is Create,
        old(adopted).step is Adopt,
    ensures
        final(created).step is Adopt,
        final(created).step->Adopt_remote.remote_id == remote_id,
        final(created).step->Adopt_remote.node_id == node_id,
        final(created).step->Adopt_coords.remote_id == remote_id,
        final(created).step->Adopt_coords.canonical == old(created).step->Create_0.canonical_repo,
        final(created).task == old(created).task,
        (exists|rest: Seq<char>|
            old(created).step->Create_0.canonical_repo@ == #[trigger] ("github.com/"@ + rest))
            ==> final(created).step->Adopt_remote.provider@ == "github"@,
        final(adopted).step is Neighbors,
        final(adopted).step->Neighbors_0 == old(adopted).step->Adopt_coords,
        final(adopted).task.remote == Some(old(adopted).step->Adopt_remote),
        final(adopted).task.sync == SyncState::Synced,
        final(adopted).task.id == task.id,
        final(adopted).task.title == task.title,
        final(adopted).task.body == task.body,
        final(adopted).task.filing_repo_id == task.filing_repo_id,
        final(adopted).task.relations == task.relations,
        final(adopted).prev == old(adopted).prev,
{
    summary::law_prefix_goes_on(
        old(created).step->Create_0.canonical_repo@,
        "github.com/"@,
    );
}

/// The entries saved with a promoted task are those that its edges owe, and the
/// promotion reports the state it began in.
pub proof fn law_promotion_saves_what_its_edges_owe(
    p: &mut Promotion,
    coords: &Vec<Option<IssueCoords>>,
    done: Promotion,
    out: SyncSummaryDto,
)
    requires
        call_ensures(Promotion::on_neighbors, (p, coords), ()),
        old(p).step is Neighbors,
        call_ensures(Promotion::on_saved, (done,), out),
    ensures
        final(p).step is Save,
        final(p).step->Save_0@ == relations::backfill(
            old(p).task.id,
            old(p).task.relations@,
            old(p).step->Neighbors_0,
            coords@,
            old(p).task.relations@.len() as int,
        ),
        final(p).task == old(p).task,
        out.decision@ == "push_local"@,
        out.previous_state@ == names::sync_name(done.prev),
        out.new_state@ == names::sync_name(done.task.sync),
        out.task_id@ == names::id_form(done.task.id.0 as int),
{
}

} // verus!
