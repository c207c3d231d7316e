//! Pulling the remote issue and reconciling the task with it.
//!
//! Drift is decided on the mirrored fields alone, so unrelated activity on the
//! issue never rewrites the task. The local state is saved before the remote
//! overwrites it. Comments and relations are mirrored whatever the decision.

use super::error::SyncError;
use super::mirror::{self, copy_inbound_mirror_from_snap, RemoteTaskSnapshot};
use super::summary::{self, ensure_not_archived, remote_mirrors_baseline, SyncSummaryDto};
use crate::model::names::{self, SyncDecision};
use crate::model::task::{
    records, settle, settled, Lifecycle, RemoteRef, SyncState, Task, TaskRelation,
};
use crate::text;
use vstd::prelude::*;

verus! {

/// What a refresh does.
#[derive(Clone, Debug, PartialEq, Eq)]
pub enum RefreshOutcome {
    /// The task has no issue to observe; nothing was fetched.
    NotIssueBacked,
    /// The issue was observed and the time of it recorded.
    Stamped,
}

/// What a pull does next.
#[derive(Debug, PartialEq, Eq)]
pub enum PullStep {
    /// Resolve the canonical URL that the issue is filed under.
    Address,
    /// Fetch the issue.
    Fetch { canonical: String, remote_id: String },
    /// Decide from the task's sync state and whether the remote changed.
    Decide { remote_changed: bool },
    /// Save the local state before the remote overwrites it.
    SaveBefore,
    /// Mark the task as changed on the remote.
    MarkDirtyRemote,
    /// Confirm the task as synced.
    Confirm,
    /// Save the task as pulled.
    SavePulled,
    /// Mark the task as conflicted.
    MarkConflicted,
    /// Save the conflicted task.
    SaveConflicted,
    /// Fetch the issue's comments and replace the task's.
    Comments,
    /// Align the task's relations with the issue's.
    Relations,
    /// Record the issue's node id.
    CacheNodeId(String),
    Done,
}

pub struct Pull {
    pub task: Task,
    pub prev: SyncState,
    /// What the remote said, once it was fetched.
    pub snap: Option<RemoteTaskSnapshot>,
    /// A node id that the task lacked.
    pub node_id: Option<String>,
    pub decision: SyncDecision,
    pub step: PullStep,
    /// The local state was saved before the remote overwrote it.
    pub kept: Ghost<bool>,
    /// The remote fields were copied onto the task.
    pub overwritten: Ghost<bool>,
}

/// The node id that a task is to take over: the remote's, where the task has
/// an issue without one.
pub open spec fn learned_node_id(task: Task, snap: RemoteTaskSnapshot) -> Option<String> {
    if task.remote is Some && task.remote->0.node_id is None {
        snap.node_id
    } else {
        None
    }
}

/// The task's remote with a node id it lacked.
pub open spec fn with_node_id(remote: Option<RemoteRef>, learned: Option<String>) -> Option<
    RemoteRef,
> {
    match (remote, learned) {
        (Some(r), Some(n)) => Some(RemoteRef { node_id: Some(n), ..r }),
        _ => remote,
    }
}

/// The remote differs from what the task was last aligned with; a task without
/// such a baseline differs.
pub open spec fn drifted(task: Task, snap: RemoteTaskSnapshot) -> bool {
    match task.baseline {
        Some(b) => !summary::no_drift(snap, b),
        None => true,
    }
}

/// `pulled` is `marked` with the remote's mirrored fields in place of its own.
pub open spec fn took_over(pulled: Task, marked: Task, snap: RemoteTaskSnapshot) -> bool {
    &&& pulled == (Task {
        title: snap.title,
        body: snap.body,
        assignees: pulled.assignees,
        lifecycle: mirror::observed_lifecycle(snap.closed, marked.lifecycle),
        ..marked
    })
    &&& pulled.assignees@ == snap.assignees@
}

/// The task's mirrored fields are those of the remote.
pub open spec fn shows(task: Task, snap: RemoteTaskSnapshot) -> bool {
    &&& task.title == snap.title
    &&& task.body == snap.body
    &&& task.assignees@ == snap.assignees@
    &&& task.lifecycle.open() == !snap.closed
}

/// The task is synced, shows the remote's fields, and has them as its baseline.
pub open spec fn aligned(task: Task, snap: RemoteTaskSnapshot) -> bool {
    &&& shows(task, snap)
    &&& task.sync == SyncState::Synced
    &&& task.baseline is Some
    &&& records(task.baseline->0, task)
}

impl Pull {
    /// What holds of a pull at every step: the remote fields are copied onto
    /// the task only where that was decided, and only after the local state
    /// was saved; once the task is confirmed it stays aligned with the remote.
    pub open spec fn wf(self) -> bool {
        &&& self.overwritten@ ==> self.kept@ && self.decision == SyncDecision::PullRemote
        &&& self.kept@ ==> self.decision == SyncDecision::PullRemote
        &&& match self.step {
            PullStep::Address => self.snap is None && !self.kept@ && !self.overwritten@,
            PullStep::Fetch { .. } => self.snap is None && !self.kept@ && !self.overwritten@
                && self.task.remote is Some,
            PullStep::Decide { .. } => self.snap is Some && !self.kept@ && !self.overwritten@,
            PullStep::SaveBefore => self.snap is Some && !self.kept@ && !self.overwritten@
                && self.decision == SyncDecision::PullRemote,
            PullStep::MarkDirtyRemote => self.snap is Some && self.kept@ && !self.overwritten@,
            PullStep::Confirm => self.overwritten@ && self.snap is Some && shows(
                self.task,
                self.snap->0,
            ),
            PullStep::SavePulled => self.overwritten@ && self.snap is Some && aligned(
                self.task,
                self.snap->0,
            ),
            PullStep::MarkConflicted | PullStep::SaveConflicted => self.decision
                == SyncDecision::RequireManualMerge,
            PullStep::Comments
            | PullStep::Relations
            | PullStep::CacheNodeId(_)
            | PullStep::Done => self.decision == SyncDecision::PullRemote ==> self.overwritten@
                && self.snap is Some && aligned(self.task, self.snap->0),
        }
    }

    /// Begin a pull. An archived task is refused.
    pub fn start(task: Task) -> (out: Result<Self, SyncError>)
        ensures
            match out {
                Ok(p) => {
                    &&& task.lifecycle != Lifecycle::NotPlanned
                    &&& p.wf()
                    &&& p.task == task
                    &&& p.prev == task.sync
                    &&& p.node_id is None
                    &&& p.step == PullStep::Address
                },
                Err(e) => task.lifecycle == Lifecycle::NotPlanned && e == SyncError::Archived,
            },
    {
        match ensure_not_archived(&task) {
            Err(e) => {
                return Err(e);
            },
            Ok(_) => {},
        }
        let prev = task.sync;
        Ok(
            Pull {
                task,
                prev,
                snap: None,
                node_id: None,
                decision: SyncDecision::Noop,
                step: PullStep::Address,
                kept: Ghost(false),
                overwritten: Ghost(false),
            },
        )
    }

    /// The canonical URL was resolved. A task without an issue is refused.
    pub fn on_address(&mut self, canonical: String) -> (out: Result<(), SyncError>)
        requires
            old(self).wf(),
            old(self).step == PullStep::Address,
        ensures
            final(self).wf(),
            match old(self).task.remote {
                Some(r) => out is Ok && *final(self) == (Pull {
                    step: PullStep::Fetch { canonical, remote_id: r.remote_id },
                    ..*old(self)
                }),
                None => out == Err::<(), SyncError>(SyncError::NoRemote) && *final(self)
                    == *old(self),
            },
    {
        let remote_id: String = match &self.task.remote {
            Some(r) => r.remote_id.clone(),
            None => {
                return Err(SyncError::NoRemote);
            },
        };
        self.step = PullStep::Fetch { canonical, remote_id };
        Ok(())
    }

    /// The issue was fetched: a node id that the task lacked is taken over,
    /// and the mirrored fields are compared with the baseline.
    pub fn on_fetched(&mut self, snap: RemoteTaskSnapshot)
        requires
            old(self).wf(),
            old(self).step is Fetch,
        ensures
            final(self).wf(),
            *final(self) == (Pull {
                task: Task {
                    remote: with_node_id(
                        old(self).task.remote,
                        learned_node_id(old(self).task, snap),
                    ),
                    ..old(self).task
                },
                snap: Some(snap),
                node_id: learned_node_id(old(self).task, snap),
                step: PullStep::Decide { remote_changed: drifted(old(self).task, snap) },
                ..*old(self)
            }),
    {
        let lacks: bool = match &self.task.remote {
            Some(r) => r.node_id.is_none(),
            None => false,
        };
        let learned: Option<String> = if lacks {
            crate::model::task::clone_text(&snap.node_id)
        } else {
            None
        };
        let remote_changed: bool = match &self.task.baseline {
            Some(b) => !remote_mirrors_baseline(&snap, b),
            None => true,
        };
        let remote = match (&self.task.remote, &learned) {
            (Some(r), Some(n)) => Some(
                RemoteRef {
                    provider: r.provider.clone(),
                    remote_id: r.remote_id.clone(),
                    node_id: Some(n.clone()),
                },
            ),
            (Some(r), None) => Some(r.clone()),
            (None, _) => None,
        };
        self.task.remote = remote;
        self.node_id = learned;
        self.snap = Some(snap);
        self.step = PullStep::Decide { remote_changed };
    }

    /// The decision was made. Local edits that are ahead are left for a push.
    pub fn on_decided(&mut self, decision: SyncDecision)
        requires
            old(self).wf(),
            old(self).step is Decide,
        ensures
            final(self).wf(),
            *final(self) == (Pull {
                decision,
                step: match decision {
                    SyncDecision::Noop | SyncDecision::PushLocal => PullStep::Comments,
                    SyncDecision::PullRemote => PullStep::SaveBefore,
                    SyncDecision::RequireManualMerge => PullStep::MarkConflicted,
                },
                ..*old(self)
            }),
    {
        self.decision = decision;
        self.step = match decision {
            SyncDecision::Noop | SyncDecision::PushLocal => PullStep::Comments,
            SyncDecision::PullRemote => PullStep::SaveBefore,
            SyncDecision::RequireManualMerge => PullStep::MarkConflicted,
        };
    }

    /// The local state was saved.
    pub fn on_saved_before(&mut self)
        requires
            old(self).wf(),
            old(self).step == PullStep::SaveBefore,
        ensures
            final(self).wf(),
            *final(self) == (Pull {
                step: PullStep::MarkDirtyRemote,
                kept: Ghost(true),
                ..*old(self)
            }),
    {
        self.step = PullStep::MarkDirtyRemote;
        self.kept = Ghost(true);
    }

    /// The task was marked: the remote fields are copied onto it.
    pub fn on_marked(&mut self, task: Task)
        requires
            old(self).wf(),
            old(self).step == PullStep::MarkDirtyRemote,
        ensures
            final(self).wf(),
            took_over(final(self).task, task, old(self).snap->0),
            *final(self) == (Pull {
                task: final(self).task,
                step: PullStep::Confirm,
                overwritten: Ghost(true),
                ..*old(self)
            }),
    {
        let mut task = task;
        match &self.snap {
            Some(snap) => {
                copy_inbound_mirror_from_snap(
                    &mut task,
                    &snap.title,
                    &snap.body,
                    &snap.assignees,
                    snap.closed,
                );
            },
            None => {},
        }
        self.task = task;
        self.step = PullStep::Confirm;
        self.overwritten = Ghost(true);
    }

    /// The task was confirmed as synced. Whatever else confirming changed, the
    /// task keeps what it took over, and that is its baseline from now on.
    pub fn on_confirmed(&mut self, task: Task)
        requires
            old(self).wf(),
            old(self).step == PullStep::Confirm,
        ensures
            final(self).wf(),
            settled(final(self).task, old(self).task, task),
            *final(self) == (Pull {
                task: final(self).task,
                step: PullStep::SavePulled,
                ..*old(self)
            }),
    {
        self.task = settle(&self.task, task);
        self.step = PullStep::SavePulled;
    }

    /// The task was marked as conflicted.
    pub fn on_conflicted(&mut self, task: Task)
        requires
            old(self).wf(),
            old(self).step == PullStep::MarkConflicted,
        ensures
            final(self).wf(),
            *final(self) == (Pull { task, step: PullStep::SaveConflicted, ..*old(self) }),
    {
        self.task = task;
        self.step = PullStep::SaveConflicted;
    }

    /// The pulled or conflicted task was saved.
    pub fn on_saved(&mut self)
        requires
            old(self).wf(),
            old(self).step == PullStep::SavePulled || old(self).step == PullStep::SaveConflicted,
        ensures
            final(self).wf(),
            *final(self) == (Pull { step: PullStep::Comments, ..*old(self) }),
    {
        self.step = PullStep::Comments;
    }

    /// The comments were replaced.
    pub fn on_comments(&mut self)
        requires
            old(self).wf(),
            old(self).step == PullStep::Comments,
        ensures
            final(self).wf(),
            *final(self) == (Pull { step: PullStep::Relations, ..*old(self) }),
    {
        self.step = PullStep::Relations;
    }

    /// The relations were aligned.
    pub fn on_relations(&mut self, relations: Vec<TaskRelation>)
        requires
            old(self).wf(),
            old(self).step == PullStep::Relations,
        ensures
            final(self).wf(),
            *final(self) == (Pull {
                task: Task { relations, ..old(self).task },
                step: match old(self).node_id {
                    Some(n) => PullStep::CacheNodeId(n),
                    None => PullStep::Done,
                },
                ..*old(self)
            }),
    {
        self.task.relations = relations;
        let step = match &self.node_id {
            Some(n) => PullStep::CacheNodeId(n.clone()),
            None => PullStep::Done,
        };
        self.step = step;
    }

    /// The node id was recorded.
    pub fn on_node_id_cached(&mut self)
        requires
            old(self).wf(),
            old(self).step is CacheNodeId,
        ensures
            final(self).wf(),
            *final(self) == (Pull { step: PullStep::Done, ..*old(self) }),
    {
        self.step = PullStep::Done;
    }

    /// Report the pull. A conflict is reported last, as an error that names the
    /// task, once everything else was mirrored.
    pub fn finish(self, task_ref: String) -> (out: Result<SyncSummaryDto, SyncError>)
        requires
            self.wf(),
            self.step == PullStep::Done,
        ensures
            match out {
                Ok(s) => self.decision != SyncDecision::RequireManualMerge && summary::reports(
                    s,
                    self.task,
                    self.prev,
                    names::decision_name(self.decision),
                    None,
                ),
                Err(e) => self.decision == SyncDecision::RequireManualMerge && e
                    == SyncError::ManualMerge(task_ref),
            },
    {
        if self.decision == SyncDecision::RequireManualMerge {
            return Err(SyncError::ManualMerge(task_ref));
        }
        Ok(summary::summary(&self.task, self.prev, self.decision))
    }
}

/// A pull that took over the remote leaves the task synced, with the remote's
/// title, body, people and open bit; pulling that remote again sees no drift,
/// whatever else was said of the issue in between.
pub proof fn law_second_pull_sees_no_drift(done: Pull, again: RemoteTaskSnapshot)
    requires
        done.wf(),
        done.step == PullStep::Done,
        done.decision == SyncDecision::PullRemote,
        again.title@ == done.snap->0.title@,
        again.body@ == done.snap->0.body@,
        mirror::same_people(
            text::views(again.assignees@),
            text::views(done.snap->0.assignees@),
        ),
        again.closed == done.snap->0.closed,
    ensures
        done.snap is Some,
        shows(done.task, done.snap->0),
        done.task.sync == SyncState::Synced,
        !drifted(done.task, done.snap->0),
        !drifted(done.task, again),
{
}

/// Drift is read off the mirrored fields alone: two observations of an issue
/// with the same title, body, people and open/closed bit drift alike.
pub proof fn law_drift_reads_mirrored_fields_only(
    task: Task,
    a: RemoteTaskSnapshot,
    b: RemoteTaskSnapshot,
)
    requires
        a.title@ == b.title@,
        a.body@ == b.body@,
        mirror::same_people(text::views(a.assignees@), text::views(b.assignees@)),
        a.closed == b.closed,
    ensures
        drifted(task, a) == drifted(task, b),
{
}

/// Begin a refresh: the number of the issue to observe, where there is one.
pub fn refresh_target(task: &Task) -> (out: Result<String, RefreshOutcome>)
    ensures
        match task.remote {
            Some(r) => out == Ok::<String, RefreshOutcome>(r.remote_id),
            None => out == Err::<String, RefreshOutcome>(RefreshOutcome::NotIssueBacked),
        },
{
    match &task.remote {
        Some(r) => Ok(r.remote_id.clone()),
        None => Err(RefreshOutcome::NotIssueBacked),
    }
}

/// A pull sees drift if and only if some mirrored field of the remote is not that
/// of the baseline: its title, its body, its open/closed bit, or anyone who is
/// assigned on the one side and not on the other. A task without a baseline
/// always drifted.
pub proof fn law_any_mirrored_difference_is_drift(task: Task, snap: RemoteTaskSnapshot)
    ensures
        task.baseline is None ==> drifted(task, snap),
        task.baseline is Some ==> {
            let b = task.baseline->0;
            drifted(task, snap) <==> {
                ||| snap.title@ != b.title@
                ||| snap.body@ != b.body@
                ||| exists|k: int|
                    0 <= k < snap.assignees@.len() && !mirror::assigned(
                        b.assignees@,
                        (#[trigger] snap.assignees@[k])@,
                    )
                ||| exists|k: int|
                    0 <= k < b.assignees@.len() && !mirror::assigned(
                        snap.assignees@,
                        (#[trigger] b.assignees@[k])@,
                    )
                ||| snap.closed != (b.lifecycle == Lifecycle::Completed || b.lifecycle
                    == Lifecycle::NotPlanned)
            }
        },
{
    if task.baseline is Some {
        mirror::law_mirrored_fields_decide(
            snap.title@,
            snap.body@,
            snap.assignees@,
            snap.closed,
            task.baseline->0,
        );
    }
}

/// A task that takes the remote over has its title, body, people and open bit:
/// it is completed where the issue was closed, reopened where it was opened
/// again, and nothing else about it changes.
pub proof fn law_takeover_copies_the_remote(pulled: Task, marked: Task, snap: RemoteTaskSnapshot)
    requires
        took_over(pulled, marked, snap),
    ensures
        ({
            let closed = marked.lifecycle == Lifecycle::Completed || marked.lifecycle
                == Lifecycle::NotPlanned;
            &&& pulled.title == snap.title
            &&& pulled.body == snap.body
            &&& pulled.assignees@ == snap.assignees@
            &&& pulled.lifecycle == if closed == snap.closed {
                marked.lifecycle
            } else if snap.closed {
                Lifecycle::Completed
            } else {
                Lifecycle::Reopened
            }
            &&& pulled.id == marked.id
            &&& pulled.workspace_id == marked.workspace_id
            &&& pulled.repo_id == marked.repo_id
            &&& pulled.filing_repo_id == marked.filing_repo_id
            &&& pulled.hash == marked.hash
            &&& pulled.priority == marked.priority
            &&& pulled.sync == marked.sync
            &&& pulled.remote == marked.remote
            &&& pulled.project_item_id == marked.project_item_id
            &&& pulled.relations == marked.relations
            &&& pulled.comments == marked.comments
            &&& pulled.baseline == marked.baseline
        }),
{
    mirror::law_lifecycle_follows_the_issue(snap.closed, marked.lifecycle);
}

/// A task takes a node id over from its issue where it lacks one and the issue
/// has one; a node id that it has is kept, and so is everything else about the
/// reference.
pub proof fn law_node_id_is_learned_once(task: Task, snap: RemoteTaskSnapshot)
    ensures
        ({
            let learned = learned_node_id(task, snap);
            let after = with_node_id(task.remote, learned);
            &&& task.remote is None ==> learned is None && after is None
            &&& task.remote is Some ==> {
                &&& after is Some
                &&& after->0.provider == task.remote->0.provider
                &&& after->0.remote_id == task.remote->0.remote_id
                &&& task.remote->0.node_id is Some ==> learned is None && after->0.node_id
                    == task.remote->0.node_id
                &&& task.remote->0.node_id is None ==> learned == snap.node_id
                    && after->0.node_id == snap.node_id
            }
        }),
{
}

/// What a pull leaves aligned shows the remote, and the baseline shows it too.
pub proof fn law_aligned_task_agrees_with_the_remote(task: Task, snap: RemoteTaskSnapshot)
    requires
        aligned(task, snap),
    ensures
        task.sync == SyncState::Synced,
        task.title == snap.title,
        task.body == snap.body,
        task.assignees@ == snap.assignees@,
        snap.closed <==> task.lifecycle == Lifecycle::Completed || task.lifecycle
            == Lifecycle::NotPlanned,
        !drifted(task, snap),
{
}

/// An archived task is not pulled; any other begins with its address.
pub proof fn law_archived_tasks_are_not_pulled(task: Task, out: Result<Pull, SyncError>)
    requires
        call_ensures(Pull::start, (task,), out),
    ensures
        out is Err <==> task.lifecycle == Lifecycle::NotPlanned,
        out matches Err(e) ==> e == SyncError::Archived,
        out matches Ok(p) ==> p.task == task && p.prev == task.sync && p.step == PullStep::Address,
{
}

/// A pull fetches the issue that the task has, where it is filed; a task without
/// one is refused.
pub proof fn law_pull_fetches_the_tasks_issue(
    p: &mut Pull,
    canonical: String,
    out: Result<(), SyncError>,
)
    requires
        call_ensures(Pull::on_address, (p, canonical), out),
    ensures
        out is Ok <==> old(p).task.remote is Some,
        out matches Err(e) ==> e == SyncError::NoRemote,
        out is Ok ==> {
            &&& final(p).step is Fetch
            &&& final(p).step->Fetch_canonical == canonical
            &&& final(p).step->Fetch_remote_id == old(p).task.remote->0.remote_id
            &&& final(p).task == old(p).task
        },
{
}

/// What was fetched is compared with the baseline, field by field; until it is
/// decided, the task only learns the node id that it lacked.
pub proof fn law_pull_compares_the_mirrored_fields(p: &mut Pull, snap: RemoteTaskSnapshot)
    requires
        call_ensures(Pull::on_fetched, (p, snap), ()),
    ensures
        final(p).step is Decide,
        final(p).snap == Some(snap),
        old(p).task.baseline is None ==> final(p).step->Decide_remote_changed,
        old(p).task.baseline matches Some(b) ==> {
            final(p).step->Decide_remote_changed <==> {
                ||| snap.title@ != b.title@
                ||| snap.body@ != b.body@
                ||| exists|k: int|
                    0 <= k < snap.assignees@.len() && !mirror::assigned(
                        b.assignees@,
                        (#[trigger] snap.assignees@[k])@,
                    )
                ||| exists|k: int|
                    0 <= k < b.assignees@.len() && !mirror::assigned(
                        snap.assignees@,
                        (#[trigger] b.assignees@[k])@,
                    )
                ||| snap.closed != (b.lifecycle == Lifecycle::Completed || b.lifecycle
                    == Lifecycle::NotPlanned)
            }
        },
        final(p).task.title == old(p).task.title,
        final(p).task.body == old(p).task.body,
        final(p).task.assignees == old(p).task.assignees,
        final(p).task.lifecycle == old(p).task.lifecycle,
        final(p).task.sync == old(p).task.sync,
        final(p).task.baseline == old(p).task.baseline,
        final(p).prev == old(p).prev,
{
    law_any_mirrored_difference_is_drift(old(p).task, snap);
}

/// Only a decision for the remote overwrites the task, and only after its state
/// is saved; a conflict is marked; anything else leaves the task as it is.
pub proof fn law_decision_is_carried_out(p: &mut Pull, decision: SyncDecision)
    requires
        call_ensures(Pull::on_decided, (p, decision), ()),
    ensures
        final(p).decision == decision,
        final(p).task == old(p).task,
        final(p).snap == old(p).snap,
        final(p).node_id == old(p).node_id,
        decision == SyncDecision::PullRemote <==> final(p).step == PullStep::SaveBefore,
        decision == SyncDecision::RequireManualMerge <==> final(p).step
            == PullStep::MarkConflicted,
        decision == SyncDecision::Noop || decision == SyncDecision::PushLocal <==> final(p).step
            == PullStep::Comments,
{
}

/// Once its state is saved and it is marked, the task takes the remote's title,
/// body, people and open bit; it is then confirmed.
pub proof fn law_saved_task_takes_the_remote(p: &mut Pull, q: &mut Pull, marked: Task)
    requires
        call_ensures(Pull::on_saved_before, (p,), ()),
        *final(p) == *old(q),
        call_ensures(Pull::on_marked, (q, marked), ()),
        old(p).snap is Some,
    ensures
        ({
            let snap = old(p).snap->0;
            let closed = marked.lifecycle == Lifecycle::Completed || marked.lifecycle
                == Lifecycle::NotPlanned;
            &&& final(p).step == PullStep::MarkDirtyRemote
            &&& final(p).task == old(p).task
            &&& final(q).step == PullStep::Confirm
            &&& final(q).task.title == snap.title
            &&& final(q).task.body == snap.body
            &&& final(q).task.assignees@ == snap.assignees@
            &&& final(q).task.lifecycle == if closed == snap.closed {
                marked.lifecycle
            } else if snap.closed {
                Lifecycle::Completed
            } else {
                Lifecycle::Reopened
            }
            &&& final(q).task.remote == marked.remote
            &&& final(q).task.relations == marked.relations
            &&& final(q).decision == old(p).decision
            &&& final(q).node_id == old(p).node_id
        }),
{
    law_takeover_copies_the_remote(final(q).task, marked, old(p).snap->0);
}

/// A confirmed task keeps what it took over, is synced with it, and is saved.
pub proof fn law_confirmed_task_keeps_the_remote(p: &mut Pull, confirmed: Task)
    requires
        call_ensures(Pull::on_confirmed, (p, confirmed), ()),
    ensures
        final(p).step == PullStep::SavePulled,
        final(p).task.title == old(p).task.title,
        final(p).task.body == old(p).task.body,
        final(p).task.assignees@ == old(p).task.assignees@,
        final(p).task.lifecycle == old(p).task.lifecycle,
        final(p).task.sync == SyncState::Synced,
        final(p).task.baseline is Some,
        final(p).task.baseline->0.title == old(p).task.title,
        final(p).task.baseline->0.body == old(p).task.body,
        final(p).task.baseline->0.assignees@ == old(p).task.assignees@,
        final(p).task.baseline->0.lifecycle == old(p).task.lifecycle,
        final(p).decision == old(p).decision,
        final(p).node_id == old(p).node_id,
{
}

/// Whatever was decided, the comments are replaced and then the relations
/// aligned, and only the relations of the task change; a node id that was
/// learned is recorded last.
pub proof fn law_comments_and_relations_follow(
    saved: &mut Pull,
    comments: &mut Pull,
    aligned: &mut Pull,
    cached: &mut Pull,
    relations: Vec<TaskRelation>,
)
    requires
        call_ensures(Pull::on_saved, (saved,), ()),
        call_ensures(Pull::on_comments, (comments,), ()),
        call_ensures(Pull::on_relations, (aligned, relations), ()),
        call_ensures(Pull::on_node_id_cached, (cached,), ()),
    ensures
        final(saved).step == PullStep::Comments,
        final(saved).task == old(saved).task,
        final(saved).decision == old(saved).decision,
        final(saved).node_id == old(saved).node_id,
        final(comments).step == PullStep::Relations,
        final(comments).task == old(comments).task,
        final(comments).decision == old(comments).decision,
        final(comments).node_id == old(comments).node_id,
        final(aligned).task.relations == relations,
        final(aligned).task.title == old(aligned).task.title,
        final(aligned).task.body == old(aligned).task.body,
        final(aligned).task.sync == old(aligned).task.sync,
        final(aligned).task.remote == old(aligned).task.remote,
        final(aligned).task.baseline == old(aligned).task.baseline,
        final(aligned).decision == old(aligned).decision,
        old(aligned).node_id matches Some(n) ==> final(aligned).step == PullStep::CacheNodeId(n),
        old(aligned).node_id is None ==> final(aligned).step == PullStep::Done,
        final(cached).step == PullStep::Done,
        final(cached).task == old(cached).task,
        final(cached).decision == old(cached).decision,
{
}

/// A conflict is an error that names the task; any other pull reports the states
/// before and after, the decision and the issue.
pub proof fn law_pull_reports_what_it_decided(
    p: Pull,
    task_ref: String,
    out: Result<SyncSummaryDto, SyncError>,
)
    requires
        call_ensures(Pull::finish, (p, task_ref), out),
    ensures
        out is Err <==> p.decision == SyncDecision::RequireManualMerge,
        out matches Err(e) ==> e == SyncError::ManualMerge(task_ref),
        out matches Ok(s) ==> {
            &&& s.task_id@ == names::id_form(p.task.id.0 as int)
            &&& s.previous_state@ == names::sync_name(p.prev)
            &&& s.new_state@ == names::sync_name(p.task.sync)
            &&& p.decision == SyncDecision::Noop ==> s.decision@ == "noop"@
            &&& p.decision == SyncDecision::PullRemote ==> s.decision@ == "pull_remote"@
            &&& p.decision == SyncDecision::PushLocal ==> s.decision@ == "push_local"@
            &&& s.note is None
            &&& s.remote is Some <==> p.task.remote is Some
        },
{
}

/// A conflicted task is saved as it was marked.
pub proof fn law_conflicted_task_is_saved(p: &mut Pull, task: Task)
    requires
        call_ensures(Pull::on_conflicted, (p, task), ()),
    ensures
        final(p).step == PullStep::SaveConflicted,
        final(p).task == task,
        final(p).decision == old(p).decision,
        final(p).node_id == old(p).node_id,
{
}

/// A refresh observes the issue that the task has; a task without one is not
/// observed.
pub proof fn law_refresh_observes_the_issue(task: &Task, out: Result<String, RefreshOutcome>)
    requires
        call_ensures(refresh_target, (task,), out),
    ensures
        out is Ok <==> task.remote is Some,
        out matches Ok(n) ==> n == task.remote->0.remote_id,
        out matches Err(e) ==> e == RefreshOutcome::NotIssueBacked,
{
}

} // verus!
