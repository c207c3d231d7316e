//! Planning what an edit owes.
//!
//! An orphan draft, one on a board without a repository, becomes an issue as
//! soon as a filing repository resolves for it.

use super::transition::{MirrorPlan, MirrorStep};
use crate::model::ids::RepoId;
use crate::model::outbox::{OutboxEntry, OutboxMutation};
use crate::model::task::{SyncState, Task};
use crate::sync::enqueue::{self, is_draft_backed, is_mirror};
use crate::sync::filing::{self, resolve_filing_repo};
use vstd::prelude::*;

verus! {

/// What an edit needs next.
#[derive(Debug, PartialEq, Eq)]
pub enum UpdateStep {
    /// Apply the requested changes to the task.
    Edit,
    /// Read the workspace's filing default.
    ReadWorkspace,
    /// Read the origin of the task's repository.
    ReadLogical { workspace_default: Option<RepoId>, repo: RepoId },
    /// Record the filing repository on the task.
    RecordFiling(RepoId),
    /// Read the chain that addresses the task's issue; what is not found in it
    /// is absent.
    ResolveAddress,
    /// Read the origin's canonical URL.
    ReadOrigin(RepoId),
    /// Plan as for any changed mirror.
    Mirror,
    /// Save the task and queue the entries, in one write.
    Save(Vec<OutboxEntry>),
}

/// An edit of a task.
#[derive(Debug, PartialEq, Eq)]
pub struct Update {
    pub task: Task,
    pub was_orphan_draft: bool,
    /// The sync state before the edit. The task model dirties a task only
    /// where something changed that the remote can see.
    pub sync_before: SyncState,
    pub step: UpdateStep,
}

/// The text, or none.
pub open spec fn text_or_empty(s: Option<String>) -> Seq<char> {
    match s {
        Some(t) => t@,
        None => Seq::empty(),
    }
}

fn text_of(s: &Option<String>) -> (out: String)
    ensures
        out@ == text_or_empty(*s),
{
    match s {
        Some(t) => t.clone(),
        None => String::new(),
    }
}

/// The entries turn the task's draft into an issue of the repository; where
/// the content changed too, the new content goes to the draft first.
pub open spec fn converts(
    entries: Seq<OutboxEntry>,
    task: Task,
    content_changed: bool,
    canonical: Option<String>,
) -> bool {
    &&& entries.len() == if content_changed {
        2int
    } else {
        1int
    }
    &&& forall|i: int| 0 <= i < entries.len() ==> (#[trigger] entries[i]).task_id == task.id
    &&& content_changed ==> updates_draft(entries[0].mutation, task)
    &&& entries.last().mutation matches OutboxMutation::ConvertDraftToIssue {
        item_node_id,
        repo_node_id,
    } && item_node_id@ == text_or_empty(task.project_item_id) && repo_node_id@ == text_or_empty(
        canonical,
    )
}

/// The mutation writes the task's title and body to its draft.
pub open spec fn updates_draft(m: OutboxMutation, task: Task) -> bool {
    m matches OutboxMutation::UpdateDraftIssue { item_node_id, title, body } && item_node_id@
        == text_or_empty(task.project_item_id) && title == Some(task.title) && body == Some(
        task.body,
    )
}

fn conversion_entries(task: &Task, content_changed: bool, canonical: &Option<String>) -> (out: Vec<
    OutboxEntry,
>)
    ensures
        converts(out@, *task, content_changed, *canonical),
{
    let mut out: Vec<OutboxEntry> = Vec::new();
    if content_changed {
        out.push(
            OutboxEntry {
                task_id: task.id,
                mutation: OutboxMutation::UpdateDraftIssue {
                    item_node_id: text_of(&task.project_item_id),
                    title: Some(task.title.clone()),
                    body: Some(task.body.clone()),
                },
            },
        );
    }
    out.push(
        OutboxEntry {
            task_id: task.id,
            mutation: OutboxMutation::ConvertDraftToIssue {
                item_node_id: text_of(&task.project_item_id),
                repo_node_id: text_of(canonical),
            },
        },
    );
    out
}

impl Update {
    /// Where an edit that converts no draft goes on: a local task, and one
    /// that the remote sees unchanged, owe nothing.
    pub open spec fn settles(step: UpdateStep, task: Task, sync_before: SyncState) -> bool {
        if enqueue::mirror(task) && task.sync != sync_before {
            step == UpdateStep::Mirror
        } else {
            step matches UpdateStep::Save(entries) && entries@ == Seq::<OutboxEntry>::empty()
        }
    }

    /// Begin an edit.
    pub fn start(task: Task) -> (out: Self)
        ensures
            out == (Update {
                task,
                was_orphan_draft: enqueue::draft_backed(task) && task.repo_id is None,
                sync_before: task.sync,
                step: UpdateStep::Edit,
            }),
    {
        let was_orphan_draft = is_draft_backed(&task) && task.repo_id.is_none();
        let sync_before = task.sync;
        Update { task, was_orphan_draft, sync_before, step: UpdateStep::Edit }
    }

    /// The requested changes were applied. What was an orphan draft looks for
    /// a filing repository, unless it has recorded one.
    pub fn on_edited(&mut self, task: Task)
        requires
            old(self).step == UpdateStep::Edit,
        ensures
            *final(self) == (Update { task, step: final(self).step, ..*old(self) }),
            if old(self).was_orphan_draft && task.filing_repo_id is None {
                final(self).step == UpdateStep::ReadWorkspace
            } else {
                Update::settles(final(self).step, task, old(self).sync_before)
            },
    {
        let looks = self.was_orphan_draft && task.filing_repo_id.is_none();
        self.task = task;
        if looks {
            self.step = UpdateStep::ReadWorkspace;
        } else {
            self.settle();
        }
    }

    fn settle(&mut self)
        ensures
            *final(self) == (Update { step: final(self).step, ..*old(self) }),
            Update::settles(final(self).step, old(self).task, old(self).sync_before),
    {
        self.step = if is_mirror(&self.task) && self.task.sync != self.sync_before {
            UpdateStep::Mirror
        } else {
            UpdateStep::Save(Vec::new())
        };
    }

    /// The workspace's filing default was read.
    pub fn on_workspace(&mut self, workspace_default: Option<RepoId>)
        requires
            old(self).step == UpdateStep::ReadWorkspace,
        ensures
            *final(self) == (Update { step: final(self).step, ..*old(self) }),
            match old(self).task.repo_id {
                Some(repo) => final(self).step == (UpdateStep::ReadLogical {
                    workspace_default,
                    repo,
                }),
                None => match workspace_default {
                    Some(r) => final(self).step == UpdateStep::RecordFiling(r),
                    None => Update::settles(
                        final(self).step,
                        old(self).task,
                        old(self).sync_before,
                    ),
                },
            },
    {
        match self.task.repo_id {
            Some(repo) => {
                self.step = UpdateStep::ReadLogical { workspace_default, repo };
            },
            None => match resolve_filing_repo(None, workspace_default, None) {
                Some(r) => {
                    self.step = UpdateStep::RecordFiling(r);
                },
                None => {
                    self.settle();
                },
            },
        }
    }

    /// The origin of the task's repository was read. The workspace default
    /// comes before it.
    pub fn on_logical(&mut self, origin: RepoId)
        requires
            old(self).step is ReadLogical,
        ensures
            *final(self) == (Update {
                step: UpdateStep::RecordFiling(
                    match old(self).step->ReadLogical_workspace_default {
                        Some(d) => d,
                        None => origin,
                    },
                ),
                ..*old(self)
            }),
    {
        let workspace_default: Option<RepoId> = match &self.step {
            UpdateStep::ReadLogical { workspace_default, .. } => *workspace_default,
            _ => None,
        };
        self.step = match resolve_filing_repo(None, workspace_default, Some(origin)) {
            Some(r) => UpdateStep::RecordFiling(r),
            None => UpdateStep::RecordFiling(origin),
        };
    }

    /// The filing repository was recorded: the draft is to become an issue. A
    /// local task still owes nothing.
    pub fn on_filing_recorded(&mut self, task: Task)
        requires
            old(self).step is RecordFiling,
        ensures
            *final(self) == (Update { task, step: final(self).step, ..*old(self) }),
            if enqueue::mirror(task) {
                final(self).step == UpdateStep::ResolveAddress
            } else {
                final(self).step matches UpdateStep::Save(entries) && entries@ == Seq::<
                    OutboxEntry,
                >::empty()
            },
    {
        self.step = if is_mirror(&task) {
            UpdateStep::ResolveAddress
        } else {
            UpdateStep::Save(Vec::new())
        };
        self.task = task;
    }

    /// The chain that addresses the task's issue was read.
    pub fn on_address(&mut self, workspace_default: Option<RepoId>, logical: Option<RepoId>)
        requires
            old(self).step == UpdateStep::ResolveAddress,
        ensures
            *final(self) == (Update { step: final(self).step, ..*old(self) }),
            match filing::first_filing(old(self).task.filing_repo_id, workspace_default, logical) {
                Some(r) => final(self).step == UpdateStep::ReadOrigin(r),
                None => final(self).step matches UpdateStep::Save(entries) && converts(
                    entries@,
                    old(self).task,
                    old(self).task.sync != old(self).sync_before,
                    None,
                ),
            },
    {
        match resolve_filing_repo(self.task.filing_repo_id, workspace_default, logical) {
            Some(r) => {
                self.step = UpdateStep::ReadOrigin(r);
            },
            None => {
                let changed = self.task.sync != self.sync_before;
                self.step = UpdateStep::Save(conversion_entries(&self.task, changed, &None));
            },
        }
    }

    /// The canonical URL was read.
    pub fn on_origin(&mut self, canonical: String)
        requires
            old(self).step is ReadOrigin,
        ensures
            *final(self) == (Update { step: final(self).step, ..*old(self) }),
            final(self).step matches UpdateStep::Save(entries) && converts(
                entries@,
                old(self).task,
                old(self).task.sync != old(self).sync_before,
                Some(canonical),
            ),
    {
        let changed = self.task.sync != self.sync_before;
        self.step = UpdateStep::Save(conversion_entries(&self.task, changed, &Some(canonical)));
    }

    /// Plan as for any changed mirror: its content changed.
    pub fn into_mirror(self) -> (out: MirrorPlan)
        requires
            self.step == UpdateStep::Mirror,
        ensures
            out.task == self.task,
            out.content_changed,
            out.project is None,
            out.workspace_default is None,
            if enqueue::mirror(self.task) {
                out.step == MirrorStep::ReadWorkspace
            } else {
                out.step matches MirrorStep::Save(entries) && entries@ == Seq::<
                    OutboxEntry,
                >::empty()
            },
    {
        MirrorPlan::start(self.task, true)
    }
}

/// A draft's new content lands before the draft is converted, so that the
/// issue carries it: in the order of the queue, no content write follows a
/// conversion, and nothing is converted twice.
pub proof fn law_content_lands_before_conversion(
    entries: Seq<OutboxEntry>,
    task: Task,
    content_changed: bool,
    canonical: Option<String>,
    i: int,
    j: int,
)
    requires
        converts(entries, task, content_changed, canonical),
        0 <= i < entries.len(),
        0 <= j < entries.len(),
        entries[j].mutation is ConvertDraftToIssue,
    ensures
        entries[i].mutation is UpdateDraftIssue ==> i < j,
        entries[i].mutation is ConvertDraftToIssue ==> i == j,
        content_changed ==> entries[0].mutation is UpdateDraftIssue,
{
}

/// A draft that becomes an issue is converted last, in the repository that was
/// resolved; where its content changed too, the live title and body go to the
/// draft first. Every entry is queued for the task, and there is no other.
pub proof fn law_conversion_carries_the_content(
    entries: Seq<OutboxEntry>,
    task: Task,
    content_changed: bool,
    canonical: Option<String>,
)
    requires
        converts(entries, task, content_changed, canonical),
        task.project_item_id is Some,
    ensures
        entries.len() == if content_changed {
            2int
        } else {
            1int
        },
        entries[0].task_id == task.id,
        entries.last().task_id == task.id,
        entries.last().mutation is ConvertDraftToIssue,
        entries.last().mutation->ConvertDraftToIssue_item_node_id@ == task.project_item_id->0@,
        canonical is Some ==> entries.last().mutation->ConvertDraftToIssue_repo_node_id@
            == canonical->0@,
        canonical is None ==> entries.last().mutation->ConvertDraftToIssue_repo_node_id@.len() == 0,
        content_changed ==> {
            &&& entries[0].mutation is UpdateDraftIssue
            &&& entries[0].mutation->UpdateDraftIssue_item_node_id@ == task.project_item_id->0@
            &&& entries[0].mutation->UpdateDraftIssue_title == Some(task.title)
            &&& entries[0].mutation->UpdateDraftIssue_body == Some(task.body)
        },
{
}

/// An edit that converts no draft plans for the mirror exactly where the task is
/// not local and the edit dirtied it; else nothing is owed.
pub proof fn law_unseen_edits_owe_nothing(step: UpdateStep, task: Task, sync_before: SyncState)
    requires
        Update::settles(step, task, sync_before),
    ensures
        step == UpdateStep::Mirror <==> task.sync != SyncState::LocalOnly && task.sync
            != sync_before,
        task.sync == SyncState::LocalOnly || task.sync == sync_before ==> (
        step matches UpdateStep::Save(entries) && entries@.len() == 0),
{
}

/// A draft without an issue and without a repository is an orphan. Once it is
/// edited it looks for a filing repository, unless it has recorded one; any
/// other task plans as its edit asks.
pub proof fn law_orphan_drafts_look_for_a_repository(
    task: Task,
    out: Update,
    u: &mut Update,
    edited: Task,
)
    requires
        call_ensures(Update::start, (task,), out),
        call_ensures(Update::on_edited, (u, edited), ()),
    ensures
        out.task == task,
        out.sync_before == task.sync,
        out.step == UpdateStep::Edit,
        out.was_orphan_draft <==> task.remote is None && task.project_item_id is Some
            && task.repo_id is None,
        final(u).task == edited,
        final(u).sync_before == old(u).sync_before,
        ({
            let looks = old(u).was_orphan_draft && edited.filing_repo_id is None;
            let seen = edited.sync != SyncState::LocalOnly && edited.sync != old(u).sync_before;
            &&& looks ==> final(u).step == UpdateStep::ReadWorkspace
            &&& !looks && seen ==> final(u).step == UpdateStep::Mirror
            &&& !looks && !seen ==> (final(u).step matches UpdateStep::Save(entries)
                && entries@.len() == 0)
        }),
{
}

/// The repository that a draft is filed in is the workspace's default, else the
/// origin of its own one; without either the edit owes what it would have.
pub proof fn law_draft_is_filed_by_the_chain(
    u: &mut Update,
    read: &mut Update,
    workspace_default: Option<RepoId>,
    origin: RepoId,
)
    requires
        call_ensures(Update::on_workspace, (u, workspace_default), ()),
        call_ensures(Update::on_logical, (read, origin), ()),
        old(read).step is ReadLogical,
    ensures
        ({
            let seen = old(u).task.sync != SyncState::LocalOnly && old(u).task.sync != old(u).sync_before;
            &&& final(u).task == old(u).task
            &&& old(u).task.repo_id matches Some(r) ==> final(u).step == (UpdateStep::ReadLogical {
                workspace_default,
                repo: r,
            })
            &&& old(u).task.repo_id is None && workspace_default is Some ==> final(u).step
                == UpdateStep::RecordFiling(workspace_default->0)
            &&& old(u).task.repo_id is None && workspace_default is None && seen ==> final(u).step
                == UpdateStep::Mirror
            &&& old(u).task.repo_id is None && workspace_default is None && !seen ==> (final(u).step matches UpdateStep::Save(entries) && entries@.len() == 0)
            &&& final(read).task == old(read).task
            &&& old(read).step->ReadLogical_workspace_default matches Some(d) ==> final(read).step
                == UpdateStep::RecordFiling(d)
            &&& old(read).step->ReadLogical_workspace_default is None ==> final(read).step
                == UpdateStep::RecordFiling(origin)
        }),
{
}

/// A draft whose repository was recorded becomes an issue there: its new content
/// lands first where it changed. A local task still owes nothing.
pub proof fn law_filed_draft_becomes_an_issue(
    recorded: &mut Update,
    addressed: &mut Update,
    read: &mut Update,
    task: Task,
    workspace_default: Option<RepoId>,
    logical: Option<RepoId>,
    canonical: String,
)
    requires
        call_ensures(Update::on_filing_recorded, (recorded, task), ()),
        call_ensures(Update::on_address, (addressed, workspace_default, logical), ()),
        call_ensures(Update::on_origin, (read, canonical), ()),
        old(read).task.project_item_id is Some,
    ensures
        final(recorded).task == task,
        task.sync != SyncState::LocalOnly ==> final(recorded).step == UpdateStep::ResolveAddress,
        task.sync == SyncState::LocalOnly ==> (final(recorded).step matches UpdateStep::Save(
            entries,
        ) && entries@.len() == 0),
        old(addressed).task.filing_repo_id matches Some(r) ==> final(addressed).step
            == UpdateStep::ReadOrigin(r),
        old(addressed).task.filing_repo_id is None && workspace_default is Some ==> final(addressed).step == UpdateStep::ReadOrigin(workspace_default->0),
        old(addressed).task.filing_repo_id is None && workspace_default is None && logical is Some
            ==> final(addressed).step == UpdateStep::ReadOrigin(logical->0),
        final(addressed).task == old(addressed).task,
        final(read).task == old(read).task,
        final(read).step is Save,
        ({
            let entries = final(read).step->Save_0@;
            let changed = old(read).task.sync != old(read).sync_before;
            &&& entries.len() == if changed {
                2int
            } else {
                1int
            }
            &&& entries.last().task_id == old(read).task.id
            &&& entries.last().mutation is ConvertDraftToIssue
            &&& entries.last().mutation->ConvertDraftToIssue_item_node_id@ == old(read).task.project_item_id->0@
            &&& entries.last().mutation->ConvertDraftToIssue_repo_node_id@ == canonical@
            &&& changed ==> entries[0].mutation is UpdateDraftIssue
                && entries[0].mutation->UpdateDraftIssue_title == Some(old(read).task.title)
                && entries[0].mutation->UpdateDraftIssue_body == Some(old(read).task.body)
        }),
{
}

/// An edit that the remote sees is planned as a change of content.
pub proof fn law_edit_is_planned_as_content(u: Update, out: MirrorPlan)
    requires
        call_ensures(Update::into_mirror, (u,), out),
    ensures
        out.task == u.task,
        out.content_changed,
{
}

} // verus!
