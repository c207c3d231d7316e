//! Planning what a changed mirror task owes, before it is saved.
//!
//! The plan is made first; then the task and the entries are saved in one
//! write, so that neither is ever stored without the other.

use crate::model::ids::{RepoId, Timestamp};
use crate::model::outbox::{self, into_entries, OutboxEntry};
use crate::model::project::{Project, Workspace};
use crate::model::task::{SyncState, Task};
use crate::sync::enqueue::{self, is_mirror, plan_at};
use crate::sync::filing::{self, records_first_filing, resolve_filing_repo};
use vstd::prelude::*;

verus! {

/// What a plan needs next.
#[derive(Debug, PartialEq, Eq)]
pub enum MirrorStep {
    /// Read the task's workspace.
    ReadWorkspace,
    /// Read the workspace's board.
    ReadProject(String),
    /// Read the origin of the task's repository.
    ReadLogical(RepoId),
    /// Record the filing repository on the task.
    RecordFiling(Option<RepoId>),
    /// Read the chain that addresses the task's issue; what is not found in it
    /// is absent.
    ResolveAddress,
    /// Read the origin's canonical URL.
    ReadOrigin(RepoId),
    /// Save the task and queue the entries, in one write.
    Save(Vec<OutboxEntry>),
}

/// The plan for a task that changed.
#[derive(Debug, PartialEq, Eq)]
pub struct MirrorPlan {
    pub task: Task,
    /// The title or body changed, and not the lifecycle alone.
    pub content_changed: bool,
    pub project: Option<Project>,
    pub workspace_default: Option<RepoId>,
    pub step: MirrorStep,
}

impl MirrorPlan {
    /// The plan is made: the entries are those that the task owes.
    pub open spec fn planned(self, before: MirrorPlan, canonical: Option<String>) -> bool {
        &&& self == (MirrorPlan { step: self.step, ..before })
        &&& self.step matches MirrorStep::Save(entries) && entries@ == outbox::entries_for(
            before.task.id,
            enqueue::owed(before.task, before.project, canonical, before.content_changed),
        )
    }

    /// Begin a plan. A purely local task owes nothing.
    pub fn start(task: Task, content_changed: bool) -> (out: Self)
        ensures
            out.task == task,
            out.content_changed == content_changed,
            out.project is None,
            out.workspace_default is None,
            if enqueue::mirror(task) {
                out.step == MirrorStep::ReadWorkspace
            } else {
                out.step matches MirrorStep::Save(entries) && entries@ == Seq::<
                    OutboxEntry,
                >::empty()
            },
    {
        let step = if is_mirror(&task) {
            MirrorStep::ReadWorkspace
        } else {
            MirrorStep::Save(Vec::new())
        };
        MirrorPlan { task, content_changed, project: None, workspace_default: None, step }
    }

    /// The workspace was read.
    pub fn on_workspace(&mut self, workspace: Workspace)
        requires
            old(self).step == MirrorStep::ReadWorkspace,
        ensures
            *final(self) == (MirrorPlan {
                workspace_default: workspace.filing_repo_id,
                step: match workspace.project_id {
                    Some(id) => MirrorStep::ReadProject(id),
                    None => MirrorStep::ResolveAddress,
                },
                ..*old(self)
            }),
    {
        self.workspace_default = workspace.filing_repo_id;
        self.step = match workspace.project_id {
            Some(id) => MirrorStep::ReadProject(id),
            None => MirrorStep::ResolveAddress,
        };
    }

    /// The board was read. A mirror that is not on it yet and has recorded no
    /// filing repository settles one now: the workspace default, or the origin
    /// of its own repository. What is recorded already is never resolved
    /// again.
    pub fn on_project(&mut self, project: Project)
        requires
            old(self).step is ReadProject,
        ensures
            *final(self) == (MirrorPlan {
                project: Some(project),
                step: if old(self).task.project_item_id is None
                    && old(self).task.filing_repo_id is None {
                    match old(self).task.repo_id {
                        Some(r) => MirrorStep::ReadLogical(r),
                        None => MirrorStep::RecordFiling(
                            filing::first_filing(None, old(self).workspace_default, None),
                        ),
                    }
                } else {
                    MirrorStep::ResolveAddress
                },
                ..*old(self)
            }),
    {
        self.project = Some(project);
        let on_board = self.task.project_item_id.is_some();
        self.step = if records_first_filing(true, on_board, self.task.filing_repo_id) {
            match self.task.repo_id {
                Some(r) => MirrorStep::ReadLogical(r),
                None => MirrorStep::RecordFiling(
                    resolve_filing_repo(None, self.workspace_default, None),
                ),
            }
        } else {
            MirrorStep::ResolveAddress
        };
    }

    /// The origin of the task's repository was read.
    pub fn on_logical(&mut self, origin: RepoId)
        requires
            old(self).step is ReadLogical,
        ensures
            *final(self) == (MirrorPlan {
                step: MirrorStep::RecordFiling(
                    filing::first_filing(None, old(self).workspace_default, Some(origin)),
                ),
                ..*old(self)
            }),
    {
        self.step = MirrorStep::RecordFiling(
            resolve_filing_repo(None, self.workspace_default, Some(origin)),
        );
    }

    /// The filing repository was recorded.
    pub fn on_filing_recorded(&mut self, task: Task)
        requires
            old(self).step is RecordFiling,
        ensures
            *final(self) == (MirrorPlan { task, step: MirrorStep::ResolveAddress, ..*old(self) }),
    {
        self.task = task;
        self.step = MirrorStep::ResolveAddress;
    }

    /// The chain that addresses the task's issue was read.
    pub fn on_address(&mut self, workspace_default: Option<RepoId>, logical: Option<RepoId>)
        requires
            old(self).step == MirrorStep::ResolveAddress,
        ensures
            match filing::first_filing(old(self).task.filing_repo_id, workspace_default, logical) {
                Some(r) => *final(self) == (MirrorPlan {
                    step: MirrorStep::ReadOrigin(r),
                    ..*old(self)
                }),
                None => final(self).planned(*old(self), None),
            },
    {
        match resolve_filing_repo(self.task.filing_repo_id, workspace_default, logical) {
            Some(r) => {
                self.step = MirrorStep::ReadOrigin(r);
            },
            None => {
                self.plan(None);
            },
        }
    }

    /// The canonical URL was read.
    pub fn on_origin(&mut self, canonical: String)
        requires
            old(self).step is ReadOrigin,
        ensures
            final(self).planned(*old(self), Some(canonical)),
    {
        self.plan(Some(&canonical));
    }

    fn plan(&mut self, canonical: Option<&String>)
        ensures
            final(self).planned(
                *old(self),
                match canonical {
                    Some(c) => Some(*c),
                    None => None,
                },
            ),
    {
        let mutations = plan_at(
            &self.task,
            self.project.as_ref(),
            canonical,
            self.content_changed,
        );
        self.step = MirrorStep::Save(into_entries(self.task.id, mutations));
    }
}

/// The plan for a task after a lifecycle change; `None` where the change left
/// the task as it was, and nothing is planned or saved.
pub fn after_transition(task: Task, updated_before: Timestamp) -> (out: Option<MirrorPlan>)
    ensures
        match out {
            None => task.updated_at == updated_before,
            Some(p) => {
                &&& task.updated_at != updated_before
                &&& p.task == task
                &&& !p.content_changed
                &&& p.project is None
                &&& p.workspace_default is None
                &&& if enqueue::mirror(task) {
                    p.step == MirrorStep::ReadWorkspace
                } else {
                    p.step matches MirrorStep::Save(entries) && entries@ == Seq::<
                        OutboxEntry,
                    >::empty()
                }
            },
        },
{
    if task.updated_at == updated_before {
        None
    } else {
        Some(MirrorPlan::start(task, false))
    }
}

/// A lifecycle change alone never writes a draft's content: the draft's card
/// move carries it.
pub proof fn law_lifecycle_change_leaves_draft_content(
    task: Task,
    project: Option<Project>,
    canonical: Option<String>,
    i: int,
)
    requires
        0 <= i < enqueue::owed(task, project, canonical, false).len(),
    ensures
        !(enqueue::owed(task, project, canonical, false)[i] is UpdateDraftIssue),
{
    enqueue::law_plans_fit_the_backing(task, project, canonical, false, i);
}

/// A plan queues each mutation that the task owes, for the task and in order,
/// and changes nothing but its own step.
pub proof fn law_plan_queues_what_is_owed(
    after: MirrorPlan,
    before: MirrorPlan,
    canonical: Option<String>,
    i: int,
)
    requires
        after.planned(before, canonical),
    ensures
        ({
            let owed = enqueue::owed(
                before.task,
                before.project,
                canonical,
                before.content_changed,
            );
            &&& after.task == before.task
            &&& after.step is Save
            &&& after.step->Save_0@.len() == owed.len()
            &&& 0 <= i < owed.len() ==> after.step->Save_0@[i].task_id == before.task.id
                && after.step->Save_0@[i].mutation == owed[i]
        }),
{
}

/// A local task owes nothing; any other reads its workspace first, and the board
/// of it where there is one.
pub proof fn law_plan_reads_the_board(
    task: Task,
    content_changed: bool,
    out: MirrorPlan,
    p: &mut MirrorPlan,
    workspace: Workspace,
)
    requires
        call_ensures(MirrorPlan::start, (task, content_changed), out),
        call_ensures(MirrorPlan::on_workspace, (p, workspace), ()),
    ensures
        out.task == task,
        out.content_changed == content_changed,
        out.project is None,
        task.sync != SyncState::LocalOnly ==> out.step == MirrorStep::ReadWorkspace,
        task.sync == SyncState::LocalOnly ==> (out.step matches MirrorStep::Save(entries)
            && entries@.len() == 0),
        final(p).task == old(p).task,
        final(p).content_changed == old(p).content_changed,
        final(p).workspace_default == workspace.filing_repo_id,
        workspace.project_id matches Some(id) ==> final(p).step == MirrorStep::ReadProject(id),
        workspace.project_id is None ==> final(p).step == MirrorStep::ResolveAddress,
{
}

/// A task that comes onto its first board, with no filing repository recorded,
/// records one: the workspace's default, else the origin of its own. Any other
/// keeps what it has.
pub proof fn law_first_board_records_the_filing(
    p: &mut MirrorPlan,
    read: &mut MirrorPlan,
    recorded: &mut MirrorPlan,
    project: Project,
    origin: RepoId,
    task: Task,
)
    requires
        call_ensures(MirrorPlan::on_project, (p, project), ()),
        call_ensures(MirrorPlan::on_logical, (read, origin), ()),
        call_ensures(MirrorPlan::on_filing_recorded, (recorded, task), ()),
    ensures
        ({
            let first = old(p).task.project_item_id is None && old(p).task.filing_repo_id is None;
            &&& final(p).project == Some(project)
            &&& final(p).task == old(p).task
            &&& !first ==> final(p).step == MirrorStep::ResolveAddress
            &&& first ==> (old(p).task.repo_id matches Some(r) ==> final(p).step
                == MirrorStep::ReadLogical(r))
            &&& first && old(p).task.repo_id is None ==> final(p).step == MirrorStep::RecordFiling(
                old(p).workspace_default,
            )
            &&& final(read).task == old(read).task
            &&& old(read).workspace_default is Some ==> final(read).step
                == MirrorStep::RecordFiling(old(read).workspace_default)
            &&& old(read).workspace_default is None ==> final(read).step
                == MirrorStep::RecordFiling(Some(origin))
            &&& final(recorded).task == task
            &&& final(recorded).step == MirrorStep::ResolveAddress
            &&& final(recorded).project == old(recorded).project
            &&& final(recorded).content_changed == old(recorded).content_changed
        }),
{
}

/// What a task owes is addressed to the repository that it recorded, else to the
/// workspace's default, else to its own; without any of these it owes what needs
/// no address.
pub proof fn law_plan_is_addressed_by_the_chain(
    p: &mut MirrorPlan,
    read: &mut MirrorPlan,
    workspace_default: Option<RepoId>,
    logical: Option<RepoId>,
    canonical: String,
)
    requires
        call_ensures(MirrorPlan::on_address, (p, workspace_default, logical), ()),
        call_ensures(MirrorPlan::on_origin, (read, canonical), ()),
    ensures
        ({
            let recorded = old(p).task.filing_repo_id;
            &&& final(p).task == old(p).task
            &&& recorded matches Some(r) ==> final(p).step == MirrorStep::ReadOrigin(r)
            &&& recorded is None && workspace_default is Some ==> final(p).step
                == MirrorStep::ReadOrigin(workspace_default->0)
            &&& recorded is None && workspace_default is None && logical is Some ==> final(p).step
                == MirrorStep::ReadOrigin(logical->0)
            &&& recorded is None && workspace_default is None && logical is None ==> final(p).step
                is Save && final(p).step->Save_0@ == outbox::entries_for(
                old(p).task.id,
                enqueue::owed(old(p).task, old(p).project, None, old(p).content_changed),
            )
            &&& final(read).task == old(read).task
            &&& final(read).step is Save
            &&& final(read).step->Save_0@ == outbox::entries_for(
                old(read).task.id,
                enqueue::owed(
                    old(read).task,
                    old(read).project,
                    Some(canonical),
                    old(read).content_changed,
                ),
            )
        }),
{
}

/// A change of lifecycle that left the task as it was saves nothing; any other is
/// planned, as one that changes no content.
pub proof fn law_unchanged_task_is_not_saved(
    task: Task,
    updated_before: Timestamp,
    out: Option<MirrorPlan>,
)
    requires
        call_ensures(after_transition, (task, updated_before), out),
    ensures
        out is None <==> task.updated_at == updated_before,
        out matches Some(p) ==> p.task == task && !p.content_changed,
{
}

} // verus!
