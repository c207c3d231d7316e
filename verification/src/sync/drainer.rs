//! Applying one queued mutation.
//!
//! Delivery is at least once: a crash can replay an entry whose remote call
//! already landed. A run therefore looks at the live task first wherever a
//! second call would mint a second draft or issue, and what a call minted is
//! written back before the run is done.

use super::mirror::{self, build_update_from_patch, MirrorPatch, RemoteTaskUpdate};
use crate::model::names::{self, decimal_text};
use crate::model::outbox::OutboxMutation;
use crate::model::project::{self, Project};
use crate::model::task::{Lifecycle, RemoteRef, SyncState, Task};
use vstd::prelude::*;

verus! {

/// What a run does next.
#[derive(Debug, PartialEq, Eq)]
pub enum ApplyStep {
    /// Read the live task.
    LoadTask,
    /// Compare the live task with its baseline.
    Diff,
    /// Send the update, then confirm.
    Push(RemoteTaskUpdate),
    /// Confirm the fields of the patch as synced and save the task.
    Confirm,
    /// Send the mutation as it was queued.
    Send,
    /// Send a draft's live content.
    SendDraft { item_node_id: String, title: String, body: String },
    /// Read which board the task's workspace files on now.
    CheckBoard { item_id: String },
    /// Record the board item on the task, unless it is recorded.
    WriteBackItem { item_id: String },
    /// Read the task, its workspace and that workspace's board.
    FollowUp { item_id: String },
    /// Queue a further mutation for the task.
    Enqueue(OutboxMutation),
    /// Record the issue on the task.
    WriteBackRemote(RemoteRef),
    Done,
}

/// One application of a queued mutation.
pub struct ApplyRun {
    pub mutation: OutboxMutation,
    pub step: ApplyStep,
    /// A remote call of this run minted a draft or an issue.
    pub minted: Ghost<bool>,
    /// What it minted was written back.
    pub recorded: Ghost<bool>,
}

/// A task in such a state owes the transition to synced.
pub open spec fn confirmable(s: SyncState) -> bool {
    s == SyncState::Staged || s == SyncState::DirtyLocal || s == SyncState::DirtyRemote
}

/// The issue behind the task has a node id.
pub open spec fn has_issue_node(task: Task) -> bool {
    task.remote is Some && task.remote->0.node_id is Some
}

/// The status that follows once a task is on the board: the column of its
/// open/closed bit, where the workspace's board maps one.
pub open spec fn follow_up_of(
    mutation: OutboxMutation,
    item_id: String,
    board: Option<Project>,
    is_open: bool,
) -> Option<OutboxMutation> {
    match (filed_on(mutation), board) {
        (Some(project_node_id), Some(p)) => match project::mapped_option(
            p.status_mappings@,
            is_open,
        ) {
            None => None,
            Some(option_id) => Some(
                OutboxMutation::SetProjectStatus {
                    project_node_id,
                    item_node_id: item_id,
                    status_field_id: p.status_field_id,
                    option_id,
                },
            ),
        },
        _ => None,
    }
}

/// The board that a mutation puts its task on.
pub open spec fn filed_on(mutation: OutboxMutation) -> Option<String> {
    match mutation {
        OutboxMutation::AddItem { project_node_id, .. } => Some(project_node_id),
        OutboxMutation::CreateDraftIssue { project_node_id, .. } => Some(project_node_id),
        _ => None,
    }
}

/// What follows once the live task is read.
///
/// - An issue update matters only while the task is waiting for one.
/// - A draft is not created again for a task that is on the board.
/// - A draft's content is taken from the live task.
/// - A draft is not converted again for a task that has its issue.
pub open spec fn after_load(mutation: OutboxMutation, task: Task) -> ApplyStep {
    match mutation {
        OutboxMutation::UpdateRemote { .. } => if confirmable(task.sync) {
            ApplyStep::Diff
        } else {
            ApplyStep::Done
        },
        OutboxMutation::CreateDraftIssue { .. } => match task.project_item_id {
            Some(item_id) => ApplyStep::FollowUp { item_id },
            None => ApplyStep::Send,
        },
        OutboxMutation::UpdateDraftIssue { item_node_id, .. } => ApplyStep::SendDraft {
            item_node_id,
            title: task.title,
            body: task.body,
        },
        OutboxMutation::ConvertDraftToIssue { .. } => if has_issue_node(task) {
            ApplyStep::Done
        } else {
            ApplyStep::Send
        },
        _ => ApplyStep::LoadTask,
    }
}

impl ApplyRun {
    /// What holds of a run at every step: each step belongs to its mutation,
    /// and a run that minted something is not done before it is recorded.
    pub open spec fn wf(self) -> bool {
        &&& self.step == ApplyStep::Done && self.minted@ ==> self.recorded@
        &&& match self.step {
            ApplyStep::LoadTask => !self.minted@ && (self.mutation is UpdateRemote
                || self.mutation is CreateDraftIssue || self.mutation is UpdateDraftIssue
                || self.mutation is ConvertDraftToIssue),
            ApplyStep::Diff | ApplyStep::Push(_) | ApplyStep::Confirm => !self.minted@
                && self.mutation is UpdateRemote,
            ApplyStep::Send => !self.minted@ && !(self.mutation is UpdateRemote)
                && !(self.mutation is UpdateDraftIssue),
            ApplyStep::SendDraft { .. } => !self.minted@ && self.mutation is UpdateDraftIssue,
            ApplyStep::CheckBoard { .. } => !self.minted@ && self.mutation is AddItem,
            ApplyStep::WriteBackItem { .. } => self.mutation is AddItem
                || self.mutation is CreateDraftIssue,
            ApplyStep::FollowUp { .. } | ApplyStep::Enqueue(_) => (self.minted@ ==> self.recorded@)
                && (self.mutation is AddItem || self.mutation is CreateDraftIssue),
            ApplyStep::WriteBackRemote(_) => self.mutation is ConvertDraftToIssue,
            ApplyStep::Done => true,
        }
    }

    /// Begin to apply a mutation. Those that depend on the live task read it
    /// first; the others are sent as they were queued.
    pub fn start(mutation: OutboxMutation) -> (out: Self)
        ensures
            out.wf(),
            out.mutation == mutation,
            !out.minted@,
            !out.recorded@,
            out.step == if mutation is UpdateRemote || mutation is CreateDraftIssue
                || mutation is UpdateDraftIssue || mutation is ConvertDraftToIssue {
                ApplyStep::LoadTask
            } else {
                ApplyStep::Send
            },
    {
        let step = match &mutation {
            OutboxMutation::UpdateRemote { .. }
            | OutboxMutation::CreateDraftIssue { .. }
            | OutboxMutation::UpdateDraftIssue { .. }
            | OutboxMutation::ConvertDraftToIssue { .. } => ApplyStep::LoadTask,
            _ => ApplyStep::Send,
        };
        ApplyRun { mutation, step, minted: Ghost(false), recorded: Ghost(false) }
    }

    /// The live task was read.
    pub fn on_task(&mut self, task: &Task)
        requires
            old(self).wf(),
            old(self).step == ApplyStep::LoadTask,
        ensures
            final(self).wf(),
            *final(self) == (ApplyRun { step: final(self).step, ..*old(self) }),
            final(self).step == after_load(old(self).mutation, *task),
    {
        let step = match &self.mutation {
            OutboxMutation::UpdateRemote { .. } => match task.sync {
                SyncState::Staged | SyncState::DirtyLocal | SyncState::DirtyRemote =>
                    ApplyStep::Diff,
                SyncState::LocalOnly | SyncState::Synced | SyncState::Conflict => ApplyStep::Done,
            },
            OutboxMutation::CreateDraftIssue { .. } => match &task.project_item_id {
                Some(item) => ApplyStep::FollowUp { item_id: item.clone() },
                None => ApplyStep::Send,
            },
            OutboxMutation::UpdateDraftIssue { item_node_id, .. } => ApplyStep::SendDraft {
                item_node_id: item_node_id.clone(),
                title: task.title.clone(),
                body: task.body.clone(),
            },
            OutboxMutation::ConvertDraftToIssue { .. } => match &task.remote {
                Some(r) => if r.node_id.is_some() {
                    ApplyStep::Done
                } else {
                    ApplyStep::Send
                },
                None => ApplyStep::Send,
            },
            _ => ApplyStep::Send,
        };
        self.step = step;
    }

    /// The live task was compared with its baseline. An empty patch sends
    /// nothing; the task is confirmed either way.
    pub fn on_diff(&mut self, patch: &MirrorPatch)
        requires
            old(self).wf(),
            old(self).step == ApplyStep::Diff,
        ensures
            final(self).wf(),
            *final(self) == (ApplyRun { step: final(self).step, ..*old(self) }),
            patch.empty() <==> final(self).step == ApplyStep::Confirm,
            !patch.empty() ==> final(self).step is Push,
            final(self).step matches ApplyStep::Push(u) ==> old(self).mutation matches OutboxMutation::UpdateRemote {
                canonical_repo,
                remote_id,
                ..
            } && {
                &&& u.canonical_repo == canonical_repo
                &&& u.remote_id == remote_id
                &&& u.title == patch.title
                &&& u.body == patch.body
                &&& (u.closed, u.state_reason) == mirror::patch_state(patch.status)
                &&& u.assignees is Some <==> patch.assignees is Some
                &&& u.assignees is Some ==> u.assignees->0@ == patch.assignees->0@
            },
    {
        let update = match &self.mutation {
            OutboxMutation::UpdateRemote { canonical_repo, remote_id, .. } =>
                build_update_from_patch(patch, canonical_repo, remote_id),
            _ => None,
        };
        self.step = match update {
            Some(u) => ApplyStep::Push(u),
            None => ApplyStep::Confirm,
        };
    }

    /// The update was sent.
    pub fn on_pushed(&mut self)
        requires
            old(self).wf(),
            old(self).step is Push,
        ensures
            final(self).wf(),
            *final(self) == (ApplyRun { step: ApplyStep::Confirm, ..*old(self) }),
    {
        self.step = ApplyStep::Confirm;
    }

    /// The task was confirmed and saved, or a draft's content was sent, or a
    /// further mutation was queued.
    pub fn on_finished(&mut self)
        requires
            old(self).wf(),
            old(self).step == ApplyStep::Confirm || old(self).step is SendDraft
                || old(self).step is Enqueue,
        ensures
            final(self).wf(),
            *final(self) == (ApplyRun { step: ApplyStep::Done, ..*old(self) }),
    {
        self.step = ApplyStep::Done;
    }

    /// A mutation that mints nothing was sent.
    pub fn on_sent(&mut self)
        requires
            old(self).wf(),
            old(self).step == ApplyStep::Send,
            !(old(self).mutation is AddItem || old(self).mutation is CreateDraftIssue
                || old(self).mutation is ConvertDraftToIssue),
        ensures
            final(self).wf(),
            *final(self) == (ApplyRun { step: ApplyStep::Done, ..*old(self) }),
    {
        self.step = ApplyStep::Done;
    }

    /// The issue was attached, or a draft created, as the board item
    /// `item_id`. A new draft is recorded at once; an attached issue only if
    /// its workspace still files on that board.
    pub fn on_item(&mut self, item_id: String)
        requires
            old(self).wf(),
            old(self).step == ApplyStep::Send,
            old(self).mutation is AddItem || old(self).mutation is CreateDraftIssue,
        ensures
            final(self).wf(),
            old(self).mutation is AddItem ==> *final(self) == (ApplyRun {
                step: ApplyStep::CheckBoard { item_id },
                ..*old(self)
            }),
            old(self).mutation is CreateDraftIssue ==> *final(self) == (ApplyRun {
                step: ApplyStep::WriteBackItem { item_id },
                minted: Ghost(true),
                ..*old(self)
            }),
    {
        let attach: bool = match &self.mutation {
            OutboxMutation::AddItem { .. } => true,
            _ => false,
        };
        if attach {
            self.step = ApplyStep::CheckBoard { item_id };
        } else {
            self.step = ApplyStep::WriteBackItem { item_id };
            self.minted = Ghost(true);
        }
    }

    /// The workspace's present board was read: its node id, or `None` where it
    /// has none. An item of a board that the workspace has left is not
    /// recorded.
    pub fn on_board(&mut self, board: Option<&String>)
        requires
            old(self).wf(),
            old(self).step is CheckBoard,
        ensures
            final(self).wf(),
            *final(self) == (ApplyRun { step: final(self).step, ..*old(self) }),
            match old(self).mutation {
                OutboxMutation::AddItem { project_node_id, .. } => final(self).step
                    == if board is Some && board->0@ == project_node_id@ {
                    ApplyStep::WriteBackItem { item_id: old(self).step->CheckBoard_item_id }
                } else {
                    ApplyStep::Done
                },
                _ => true,
            },
    {
        let still: bool = match (&self.mutation, board) {
            (OutboxMutation::AddItem { project_node_id, .. }, Some(b)) => *b == *project_node_id,
            _ => false,
        };
        let step = match &self.step {
            ApplyStep::CheckBoard { item_id } => if still {
                ApplyStep::WriteBackItem { item_id: item_id.clone() }
            } else {
                ApplyStep::Done
            },
            _ => ApplyStep::Done,
        };
        self.step = step;
    }

    /// The board item was recorded on the task.
    pub fn on_item_recorded(&mut self)
        requires
            old(self).wf(),
            old(self).step is WriteBackItem,
        ensures
            final(self).wf(),
            *final(self) == (ApplyRun {
                step: ApplyStep::FollowUp { item_id: old(self).step->WriteBackItem_item_id },
                recorded: Ghost(true),
                ..*old(self)
            }),
    {
        let step = match &self.step {
            ApplyStep::WriteBackItem { item_id } => ApplyStep::FollowUp {
                item_id: item_id.clone(),
            },
            _ => ApplyStep::Done,
        };
        self.step = step;
        self.recorded = Ghost(true);
    }

    /// The board and the task's open bit were read: the card's column is
    /// queued, where the board maps one.
    pub fn on_follow_up(&mut self, board: Option<&Project>, is_open: bool)
        requires
            old(self).wf(),
            old(self).step is FollowUp,
        ensures
            final(self).wf(),
            *final(self) == (ApplyRun { step: final(self).step, ..*old(self) }),
            final(self).step == match follow_up_of(
                old(self).mutation,
                old(self).step->FollowUp_item_id,
                match board {
                    Some(p) => Some(*p),
                    None => None,
                },
                is_open,
            ) {
                Some(m) => ApplyStep::Enqueue(m),
                None => ApplyStep::Done,
            },
    {
        let option = match board {
            Some(p) => p.resolved_option_id_for(is_open),
            None => None,
        };
        let step = match (&self.mutation, &self.step, board, option) {
            (
                OutboxMutation::AddItem { project_node_id, .. },
                ApplyStep::FollowUp { item_id },
                Some(p),
                Some(option_id),
            ) => ApplyStep::Enqueue(
                OutboxMutation::SetProjectStatus {
                    project_node_id: project_node_id.clone(),
                    item_node_id: item_id.clone(),
                    status_field_id: p.status_field_id.clone(),
                    option_id,
                },
            ),
            (
                OutboxMutation::CreateDraftIssue { project_node_id, .. },
                ApplyStep::FollowUp { item_id },
                Some(p),
                Some(option_id),
            ) => ApplyStep::Enqueue(
                OutboxMutation::SetProjectStatus {
                    project_node_id: project_node_id.clone(),
                    item_node_id: item_id.clone(),
                    status_field_id: p.status_field_id.clone(),
                    option_id,
                },
            ),
            _ => ApplyStep::Done,
        };
        self.step = step;
    }

    /// The draft was converted: `current` is the remote the task has now.
    pub fn on_converted(
        &mut self,
        issue_node_id: String,
        issue_number: u64,
        current: &Option<RemoteRef>,
    )
        requires
            old(self).wf(),
            old(self).step == ApplyStep::Send,
            old(self).mutation is ConvertDraftToIssue,
        ensures
            final(self).wf(),
            final(self).step is WriteBackRemote,
            *final(self) == (ApplyRun {
                step: final(self).step,
                minted: Ghost(true),
                ..*old(self)
            }),
            is_converted(
                final(self).step->WriteBackRemote_0,
                issue_node_id,
                issue_number,
                *current,
            ),
    {
        self.step = ApplyStep::WriteBackRemote(
            converted_remote(issue_node_id, issue_number, current),
        );
        self.minted = Ghost(true);
    }

    /// The issue was recorded on the task.
    pub fn on_remote_recorded(&mut self)
        requires
            old(self).wf(),
            old(self).step is WriteBackRemote,
        ensures
            final(self).wf(),
            *final(self) == (ApplyRun {
                step: ApplyStep::Done,
                recorded: Ghost(true),
                ..*old(self)
            }),
    {
        self.step = ApplyStep::Done;
        self.recorded = Ghost(true);
    }
}

/// `r` is the reference of a converted issue: addressed by its node id and by
/// its number, under the provider the task had, or `github`.
pub open spec fn is_converted(
    r: RemoteRef,
    issue_node_id: String,
    issue_number: u64,
    current: Option<RemoteRef>,
) -> bool {
    &&& r.node_id == Some(issue_node_id)
    &&& r.remote_id@ == names::decimal(issue_number as nat)
    &&& r.remote_id@.len() > 0
    &&& match current {
        Some(c) => r.provider == c.provider,
        None => r.provider@ == "github"@,
    }
}

/// The reference of a converted issue.
pub fn converted_remote(
    issue_node_id: String,
    issue_number: u64,
    current: &Option<RemoteRef>,
) -> (out: RemoteRef)
    ensures
        is_converted(out, issue_node_id, issue_number, *current),
{
    let provider: String = match current {
        Some(c) => c.provider.clone(),
        None => "github".to_owned(),
    };
    RemoteRef { provider, remote_id: decimal_text(issue_number), node_id: Some(issue_node_id) }
}

/// Record a board item on a task; says whether the task has to be saved.
pub fn record_item(task: &mut Task, item_id: &String) -> (changed: bool)
    ensures
        changed == !(old(task).project_item_id is Some && old(task).project_item_id->0@
            == item_id@),
        changed ==> *final(task) == (Task { project_item_id: Some(*item_id), ..*old(task) }),
        !changed ==> *final(task) == *old(task),
{
    let same: bool = match &task.project_item_id {
        Some(have) => *have == *item_id,
        None => false,
    };
    if same {
        return false;
    }
    task.project_item_id = Some(item_id.clone());
    true
}

/// A replay mints nothing twice: once the item of a created draft, or the
/// issue of a converted one, stands on the task, applying the entry again
/// never reaches the host with it.
pub proof fn law_replay_mints_nothing(
    mutation: OutboxMutation,
    task: Task,
    issue_node_id: String,
    issue_number: u64,
    current: Option<RemoteRef>,
)
    ensures
        mutation is CreateDraftIssue && task.project_item_id is Some ==> !(after_load(
            mutation,
            task,
        ) is Send),
        mutation is ConvertDraftToIssue && task.remote is Some && is_converted(
            task.remote->0,
            issue_node_id,
            issue_number,
            current,
        ) ==> after_load(mutation, task) == ApplyStep::Done,
{
}

/// What an entry sends of a draft is the task as it is when it is applied,
/// however stale the entry.
pub proof fn law_draft_content_is_live(
    item_node_id: String,
    title: Option<String>,
    body: Option<String>,
    task: Task,
)
    ensures
        after_load(OutboxMutation::UpdateDraftIssue { item_node_id, title, body }, task) == (
        ApplyStep::SendDraft { item_node_id, title: task.title, body: task.body }),
{
}

/// An entry looks at the live task before it acts. An issue update goes on only
/// while the task waits for one; a draft is created only for a task that is on
/// no board, else its card is settled; a draft is converted only for a task
/// whose issue has no node id.
pub proof fn law_entry_acts_on_the_live_task(mutation: OutboxMutation, task: Task)
    ensures
        mutation is UpdateRemote ==> (after_load(mutation, task) == ApplyStep::Diff <==> task.sync
            == SyncState::Staged || task.sync == SyncState::DirtyLocal || task.sync
            == SyncState::DirtyRemote),
        mutation is UpdateRemote && after_load(mutation, task) != ApplyStep::Diff ==> after_load(
            mutation,
            task,
        ) == ApplyStep::Done,
        mutation is CreateDraftIssue && task.project_item_id is None ==> after_load(mutation, task)
            == ApplyStep::Send,
        mutation is CreateDraftIssue && task.project_item_id is Some ==> after_load(mutation, task)
            == (ApplyStep::FollowUp { item_id: task.project_item_id->0 }),
        mutation is ConvertDraftToIssue ==> after_load(mutation, task) == if task.remote is Some
            && task.remote->0.node_id is Some {
            ApplyStep::Done
        } else {
            ApplyStep::Send
        },
{
}

/// Once a task is on the board, the column of its open/closed bit is queued for
/// its card: that of the first mapping for the bit, on the board that it was put
/// on. A workspace without a board, or a board without a mapping, queues none.
pub proof fn law_new_card_gets_its_column(
    project_node_id: String,
    issue_node_id: String,
    title: String,
    body: String,
    item_id: String,
    board: Option<Project>,
    is_open: bool,
    m: int,
)
    ensures
        ({
            let attached = OutboxMutation::AddItem { project_node_id, issue_node_id };
            let created = OutboxMutation::CreateDraftIssue { project_node_id, title, body };
            let columns = board->0.status_mappings@;
            let queued = OutboxMutation::SetProjectStatus {
                project_node_id,
                item_node_id: item_id,
                status_field_id: board->0.status_field_id,
                option_id: columns[m].option_id,
            };
            &&& follow_up_of(attached, item_id, board, is_open) == follow_up_of(
                created,
                item_id,
                board,
                is_open,
            )
            &&& board is None ==> follow_up_of(attached, item_id, board, is_open) is None
            &&& board is Some && 0 <= m < columns.len() && columns[m].is_open == is_open && (
            forall|k: int| 0 <= k < m ==> (#[trigger] columns[k]).is_open != is_open)
                ==> follow_up_of(attached, item_id, board, is_open) == Some(queued)
            &&& board is Some && (forall|k: int|
                0 <= k < columns.len() ==> (#[trigger] columns[k]).is_open != is_open)
                ==> follow_up_of(attached, item_id, board, is_open) is None
        }),
{
    if board is Some {
        project::law_first_mapping_counts(board->0.status_mappings@, is_open, m);
    }
}

/// A converted issue is addressed by its node id and its number, and keeps the
/// provider of the reference it replaces.
pub proof fn law_converted_issue_is_addressable(
    r: RemoteRef,
    issue_node_id: String,
    issue_number: u64,
    current: Option<RemoteRef>,
)
    requires
        is_converted(r, issue_node_id, issue_number, current),
    ensures
        r.node_id == Some(issue_node_id),
        r.remote_id@ == names::decimal(issue_number as nat),
        current is Some ==> r.provider == current->0.provider,
        current is None ==> r.provider@ == "github"@,
{
}

/// Only what puts a task on a board is followed by its column.
pub proof fn law_other_entries_have_no_follow_up(
    mutation: OutboxMutation,
    item_id: String,
    board: Option<Project>,
    is_open: bool,
)
    requires
        !(mutation is AddItem),
        !(mutation is CreateDraftIssue),
    ensures
        follow_up_of(mutation, item_id, board, is_open) is None,
{
}

/// An entry that depends on the live task reads it first; any other is sent as
/// it was queued.
pub proof fn law_entry_begins_with_the_live_task(
    mutation: OutboxMutation,
    out: ApplyRun,
    run: &mut ApplyRun,
    task: &Task,
)
    requires
        call_ensures(ApplyRun::start, (mutation,), out),
        call_ensures(ApplyRun::on_task, (run, task), ()),
    ensures
        out.mutation == mutation,
        out.step == ApplyStep::LoadTask <==> mutation is UpdateRemote
            || mutation is CreateDraftIssue || mutation is UpdateDraftIssue
            || mutation is ConvertDraftToIssue,
        out.step != ApplyStep::LoadTask ==> out.step == ApplyStep::Send,
        final(run).mutation == old(run).mutation,
        final(run).step == after_load(old(run).mutation, *task),
{
}

/// What differs from the baseline is pushed to the issue that the entry names,
/// and nothing else is; where nothing differs the task is confirmed at once.
pub proof fn law_update_sends_what_differs(run: &mut ApplyRun, sent: &mut ApplyRun, patch: &MirrorPatch)
    requires
        call_ensures(ApplyRun::on_diff, (run, patch), ()),
        old(run).mutation is UpdateRemote,
        call_ensures(ApplyRun::on_pushed, (sent,), ()),
    ensures
        final(run).step == ApplyStep::Confirm <==> patch.title is None && patch.body is None
            && patch.status is None && patch.assignees is None,
        final(run).step != ApplyStep::Confirm ==> {
            &&& final(run).step is Push
            &&& final(run).step->Push_0.canonical_repo == old(run).mutation->UpdateRemote_canonical_repo
            &&& final(run).step->Push_0.remote_id == old(run).mutation->UpdateRemote_remote_id
            &&& final(run).step->Push_0.title == patch.title
            &&& final(run).step->Push_0.body == patch.body
            &&& patch.status is None ==> final(run).step->Push_0.closed is None
            &&& patch.status matches Some(l) ==> final(run).step->Push_0.closed == Some(
                l == Lifecycle::Completed || l == Lifecycle::NotPlanned,
            )
            &&& final(run).step->Push_0.assignees is Some <==> patch.assignees is Some
            &&& patch.assignees is Some ==> final(run).step->Push_0.assignees->0@
                == patch.assignees->0@
        },
        final(sent).step == ApplyStep::Confirm,
{
}

/// A new draft's item is recorded on the task; that of an attached issue only
/// while the workspace still files on the board it was attached to.
pub proof fn law_item_of_a_left_board_is_not_recorded(
    run: &mut ApplyRun,
    checked: &mut ApplyRun,
    recorded: &mut ApplyRun,
    item: String,
    board: Option<&String>,
)
    requires
        call_ensures(ApplyRun::on_item, (run, item), ()),
        call_ensures(ApplyRun::on_board, (checked, board), ()),
        old(checked).mutation is AddItem,
        old(checked).step is CheckBoard,
        call_ensures(ApplyRun::on_item_recorded, (recorded,), ()),
        old(recorded).step is WriteBackItem,
    ensures
        old(run).mutation is CreateDraftIssue ==> final(run).step == (ApplyStep::WriteBackItem {
            item_id: item,
        }),
        old(run).mutation is AddItem ==> final(run).step == (ApplyStep::CheckBoard {
            item_id: item,
        }),
        ({
            let still = board is Some && board->0@ == old(checked).mutation->AddItem_project_node_id@;
            &&& still ==> final(checked).step == (ApplyStep::WriteBackItem {
                item_id: old(checked).step->CheckBoard_item_id,
            })
            &&& !still ==> final(checked).step == ApplyStep::Done
        }),
        final(recorded).step == (ApplyStep::FollowUp {
            item_id: old(recorded).step->WriteBackItem_item_id,
        }),
{
}

/// A card's column is queued where the board has one for the task's open bit,
/// and the entry is done where it has none.
pub proof fn law_card_column_is_queued(
    run: &mut ApplyRun,
    board: &Project,
    is_open: bool,
    m: int,
)
    requires
        call_ensures(ApplyRun::on_follow_up, (run, Some(board), is_open), ()),
        old(run).mutation is AddItem,
        old(run).step is FollowUp,
    ensures
        ({
            let columns = board.status_mappings@;
            &&& 0 <= m < columns.len() && columns[m].is_open == is_open && (forall|k: int|
                0 <= k < m ==> (#[trigger] columns[k]).is_open != is_open) ==> final(run).step
                == ApplyStep::Enqueue(
                OutboxMutation::SetProjectStatus {
                    project_node_id: old(run).mutation->AddItem_project_node_id,
                    item_node_id: old(run).step->FollowUp_item_id,
                    status_field_id: board.status_field_id,
                    option_id: columns[m].option_id,
                },
            )
            &&& (forall|k: int|
                0 <= k < columns.len() ==> (#[trigger] columns[k]).is_open != is_open)
                ==> final(run).step == ApplyStep::Done
        }),
{
    project::law_first_mapping_counts(board.status_mappings@, is_open, m);
}

/// A converted draft's issue is written back with its node id and its number.
pub proof fn law_converted_issue_is_written_back(
    run: &mut ApplyRun,
    recorded: &mut ApplyRun,
    node: String,
    number: u64,
    current: &Option<RemoteRef>,
)
    requires
        call_ensures(ApplyRun::on_converted, (run, node, number, current), ()),
        call_ensures(ApplyRun::on_remote_recorded, (recorded,), ()),
    ensures
        final(run).step is WriteBackRemote,
        final(run).step->WriteBackRemote_0.node_id == Some(node),
        final(run).step->WriteBackRemote_0.remote_id@ == names::decimal(number as nat),
        *current matches Some(c) ==> final(run).step->WriteBackRemote_0.provider == c.provider,
        *current is None ==> final(run).step->WriteBackRemote_0.provider@ == "github"@,
        final(recorded).step == ApplyStep::Done,
{
}

/// A board item is recorded on a task that has another or none, and nothing else
/// about the task changes.
pub proof fn law_item_is_recorded_once(task: &mut Task, item_id: &String, changed: bool)
    requires
        call_ensures(record_item, (task, item_id), changed),
    ensures
        final(task).project_item_id is Some,
        final(task).project_item_id->0@ == item_id@,
        changed <==> old(task).project_item_id is None || old(task).project_item_id->0@
            != item_id@,
        final(task).title == old(task).title,
        final(task).body == old(task).body,
        final(task).sync == old(task).sync,
        final(task).remote == old(task).remote,
        final(task).relations == old(task).relations,
        final(task).lifecycle == old(task).lifecycle,
{
}

/// An entry is done once it was sent and mints nothing, or once what it ended
/// with was confirmed, sent or queued.
pub proof fn law_sent_entry_is_done(sent: &mut ApplyRun, finished: &mut ApplyRun)
    requires
        call_ensures(ApplyRun::on_sent, (sent,), ()),
        call_ensures(ApplyRun::on_finished, (finished,), ()),
    ensures
        final(sent).step == ApplyStep::Done,
        final(sent).mutation == old(sent).mutation,
        final(finished).step == ApplyStep::Done,
        final(finished).mutation == old(finished).mutation,
{
}

} // verus!
