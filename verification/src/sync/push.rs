//! Pushing local edits and comments to the remote issue.
//!
//! Two things are pushed independently: the mirrored fields of a task with
//! local edits, and comments that are not on the remote yet.

use super::error::{self, state_message, SyncError};
use super::mirror::{self, build_update_from_patch, MirrorPatch, RemoteTaskUpdate};
use super::summary::{self, SyncSummaryDto};
use crate::model::error::DomainError;
use crate::model::names::{self, SyncDecision};
use crate::model::task::{Lifecycle, SyncState, Task, TaskComment};
use crate::seqs;
use vstd::prelude::*;

verus! {

/// A comment to push: its stored row and its text.
#[derive(Debug, PartialEq, Eq)]
pub struct PendingComment {
    pub local_id: String,
    pub body: String,
}

/// What a push does next.
#[derive(Debug, PartialEq, Eq)]
pub enum PushStep {
    /// Compare the task with its baseline.
    Diff,
    /// Send the update, then confirm.
    Update(RemoteTaskUpdate),
    /// Confirm the fields of the patch as synced and save the task.
    Confirm,
    /// Send each comment, then mark them all as pushed.
    Comments(Vec<PendingComment>),
    Done,
}

pub struct Push {
    pub task: Task,
    pub prev: SyncState,
    pub canonical: String,
    pub remote_id: String,
    /// The mirrored fields are to be pushed.
    pub snapshot_dirty: bool,
    /// Comments are to be pushed.
    pub comments_pending: bool,
    pub step: PushStep,
}

pub open spec fn has_local_edits(s: SyncState) -> bool {
    s == SyncState::DirtyLocal || s == SyncState::Staged
}

/// Some comment is not on the remote.
pub open spec fn any_pending(comments: Seq<TaskComment>) -> bool {
    exists|i: int| 0 <= i < comments.len() && (#[trigger] comments[i]).remote_id is None
}

/// The comments to push: those that are not on the remote and are stored.
pub open spec fn pending(comments: Seq<TaskComment>) -> Seq<PendingComment>
    decreases comments.len(),
{
    if comments.len() == 0 {
        Seq::empty()
    } else {
        let before = pending(comments.drop_last());
        let c = comments.last();
        if c.remote_id is None && c.local_id is Some {
            before.push(PendingComment { local_id: c.local_id->0, body: c.body })
        } else {
            before
        }
    }
}

/// The refusal of a push that has nothing to push.
pub open spec fn refuses_push(e: SyncError, s: SyncState) -> bool {
    e matches SyncError::Domain(DomainError::Transition(m)) && m@ == "cannot push from sync="@
        + error::sync_state_label(s) + " with no pending comments"@
}

/// Whether some comment is not on the remote.
pub fn has_pending_comments(comments: &Vec<TaskComment>) -> (yes: bool)
    ensures
        yes == any_pending(comments@),
{
    let mut i: usize = 0;
    while i < comments.len()
        invariant
            i <= comments.len(),
            forall|k: int| 0 <= k < i ==> (#[trigger] comments@[k]).remote_id is Some,
        decreases comments.len() - i,
    {
        if comments[i].remote_id.is_none() {
            assert(comments@[i as int].remote_id is None);
            return true;
        }
        i += 1;
    }
    false
}

/// The comments to push.
pub fn pending_comments(comments: &Vec<TaskComment>) -> (out: Vec<PendingComment>)
    ensures
        out@ == pending(comments@),
{
    let mut out: Vec<PendingComment> = Vec::new();
    let mut i: usize = 0;
    assert(comments@.take(0) =~= Seq::empty());
    while i < comments.len()
        invariant
            i <= comments.len(),
            out@ == pending(comments@.take(i as int)),
        decreases comments.len() - i,
    {
        assert(comments@.take(i as int + 1).drop_last() =~= comments@.take(i as int));
        if comments[i].remote_id.is_none() {
            match &comments[i].local_id {
                Some(id) => {
                    out.push(
                        PendingComment { local_id: id.clone(), body: comments[i].body.clone() },
                    );
                },
                None => {},
            }
        }
        i += 1;
    }
    assert(comments@.take(i as int) =~= comments@);
    out
}

impl Push {
    /// Begin a push at the canonical URL that the issue is filed under. A task
    /// without an issue is refused, and so is one with nothing to push.
    pub fn start(task: Task, canonical: String) -> (out: Result<Self, SyncError>)
        ensures
            match out {
                Ok(p) => {
                    &&& task.remote is Some
                    &&& has_local_edits(task.sync) || any_pending(task.comments@)
                    &&& p.task == task
                    &&& p.prev == task.sync
                    &&& p.canonical == canonical
                    &&& p.remote_id == task.remote->0.remote_id
                    &&& p.snapshot_dirty == has_local_edits(task.sync)
                    &&& p.comments_pending == any_pending(task.comments@)
                    &&& if has_local_edits(task.sync) {
                        p.step == PushStep::Diff
                    } else {
                        p.step matches PushStep::Comments(list) && list@ == pending(task.comments@)
                    }
                },
                Err(e) => if task.remote is None {
                    e == SyncError::NoRemote
                } else {
                    &&& !has_local_edits(task.sync)
                    &&& !any_pending(task.comments@)
                    &&& refuses_push(e, task.sync)
                },
            },
    {
        let remote_id: String = match &task.remote {
            Some(r) => r.remote_id.clone(),
            None => {
                return Err(SyncError::NoRemote);
            },
        };
        let prev = task.sync;
        let snapshot_dirty: bool = task.sync == SyncState::DirtyLocal || task.sync
            == SyncState::Staged;
        let comments_pending: bool = has_pending_comments(&task.comments);
        if !snapshot_dirty && !comments_pending {
            let message = state_message(
                "cannot push from sync=",
                task.sync,
                " with no pending comments",
            );
            return Err(SyncError::Domain(DomainError::Transition(message)));
        }
        let step = if snapshot_dirty {
            PushStep::Diff
        } else {
            PushStep::Comments(pending_comments(&task.comments))
        };
        Ok(Push { task, prev, canonical, remote_id, snapshot_dirty, comments_pending, step })
    }

    /// The task was compared with its baseline: an empty patch sends nothing.
    pub fn on_diff(&mut self, patch: &MirrorPatch)
        requires
            old(self).step == PushStep::Diff,
        ensures
            *final(self) == (Push { step: final(self).step, ..*old(self) }),
            patch.empty() ==> final(self).step == PushStep::Confirm,
            !patch.empty() ==> (final(self).step matches PushStep::Update(u) && {
                &&& u.canonical_repo == old(self).canonical
                &&& u.remote_id == old(self).remote_id
                &&& u.title == patch.title
                &&& u.body == patch.body
                &&& (u.closed, u.state_reason) == mirror::patch_state(patch.status)
                &&& u.assignees is Some <==> patch.assignees is Some
                &&& u.assignees is Some ==> u.assignees->0@ == patch.assignees->0@
            }),
    {
        self.step = match build_update_from_patch(patch, &self.canonical, &self.remote_id) {
            Some(u) => PushStep::Update(u),
            None => PushStep::Confirm,
        };
    }

    /// The update was sent.
    pub fn on_updated(&mut self)
        requires
            old(self).step is Update,
        ensures
            *final(self) == (Push { step: PushStep::Confirm, ..*old(self) }),
    {
        self.step = PushStep::Confirm;
    }

    /// The task was confirmed and saved: comments follow, where there are any.
    pub fn on_confirmed(&mut self, task: Task)
        requires
            old(self).step == PushStep::Confirm,
        ensures
            *final(self) == (Push { task, step: final(self).step, ..*old(self) }),
            old(self).comments_pending ==> (final(self).step matches PushStep::Comments(list)
                && list@ == pending(task.comments@)),
            !old(self).comments_pending ==> final(self).step == PushStep::Done,
    {
        self.step = if self.comments_pending {
            PushStep::Comments(pending_comments(&task.comments))
        } else {
            PushStep::Done
        };
        self.task = task;
    }

    /// The comments were sent and marked.
    pub fn on_comments(&mut self)
        requires
            old(self).step is Comments,
        ensures
            *final(self) == (Push { step: PushStep::Done, ..*old(self) }),
    {
        self.step = PushStep::Done;
    }

    /// Report the push.
    pub fn finish(self) -> (out: SyncSummaryDto)
        requires
            self.step == PushStep::Done,
        ensures
            summary::reports(
                out,
                self.task,
                self.prev,
                names::decision_name(
                    if self.snapshot_dirty {
                        SyncDecision::PushLocal
                    } else {
                        SyncDecision::Noop
                    },
                ),
                None,
            ),
    {
        let decision = if self.snapshot_dirty {
            SyncDecision::PushLocal
        } else {
            SyncDecision::Noop
        };
        summary::summary(&self.task, self.prev, decision)
    }
}

proof fn lemma_pending_is_picks(comments: Seq<TaskComment>)
    ensures
        pending(comments) == seqs::picks(
            comments.len() as int,
            |i: int| comments[i].remote_id is None && comments[i].local_id is Some,
            |i: int| PendingComment { local_id: comments[i].local_id->0, body: comments[i].body },
        ),
    decreases comments.len(),
{
    if comments.len() > 0 {
        let front = comments.drop_last();
        lemma_pending_is_picks(front);
        seqs::lemma_picks_agree(
            front.len() as int,
            |i: int| front[i].remote_id is None && front[i].local_id is Some,
            |i: int| comments[i].remote_id is None && comments[i].local_id is Some,
            |i: int| PendingComment { local_id: front[i].local_id->0, body: front[i].body },
            |i: int| PendingComment { local_id: comments[i].local_id->0, body: comments[i].body },
        );
    }
}

/// Every comment that has a stored row and no remote one is pushed, with its
/// row and its text, in the order of the task's comments, and no other is.
pub proof fn law_every_pending_comment_is_pushed(comments: Seq<TaskComment>, i: int)
    ensures
        ({
            let owed = |k: int| comments[k].remote_id is None && comments[k].local_id is Some;
            let at = seqs::tally(i, owed) as int;
            &&& pending(comments).len() == seqs::tally(comments.len() as int, owed)
            &&& 0 <= i < comments.len() && owed(i) ==> {
                &&& at < pending(comments).len()
                &&& pending(comments)[at].local_id == comments[i].local_id->0
                &&& pending(comments)[at].body == comments[i].body
            }
        }),
{
    let owed = |k: int| comments[k].remote_id is None && comments[k].local_id is Some;
    let item = |k: int|
        PendingComment { local_id: comments[k].local_id->0, body: comments[k].body };
    lemma_pending_is_picks(comments);
    seqs::lemma_picks(comments.len() as int, owed, item);
}

/// A push has something to send exactly where the task has local edits or a
/// comment that is not on the remote.
pub proof fn law_push_needs_edits_or_comments(s: SyncState, comments: Seq<TaskComment>)
    ensures
        has_local_edits(s) <==> s == SyncState::DirtyLocal || s == SyncState::Staged,
        any_pending(comments) <==> seqs::tally(
            comments.len() as int,
            |k: int| comments[k].remote_id is None,
        ) > 0,
        pending(comments).len() > 0 ==> any_pending(comments),
{
    let owed = |k: int| comments[k].remote_id is None;
    let n = comments.len() as int;
    if any_pending(comments) {
        let i = choose|i: int|
            0 <= i < comments.len() && (#[trigger] comments[i]).remote_id is None;
        assert(owed(i));
        seqs::lemma_tally_grows(i, n, owed);
    } else {
        seqs::lemma_tally_agrees(n, owed, |k: int| false);
        lemma_none(n);
    }
    lemma_pending_is_picks(comments);
    if pending(comments).len() > 0 {
        let k = seqs::lemma_picks_source(
            n,
            |i: int| comments[i].remote_id is None && comments[i].local_id is Some,
            |i: int| PendingComment { local_id: comments[i].local_id->0, body: comments[i].body },
            0,
        );
        assert(comments[k].remote_id is None);
    }
}

proof fn lemma_none(n: int)
    ensures
        seqs::tally(n, |k: int| false) == 0,
    decreases n,
{
    seqs::lemma_tally_finite(n, |k: int| false);
    if n > 0 {
        lemma_none(n - 1);
    }
}

/// A push is refused where the task has no issue, or neither local edits nor a
/// comment to push. Local edits come first; without any, the comments are sent
/// at once.
pub proof fn law_push_begins_with_the_edits(
    task: Task,
    canonical: String,
    out: Result<Push, SyncError>,
)
    requires
        call_ensures(Push::start, (task, canonical), out),
    ensures
        ({
            let dirty = task.sync == SyncState::DirtyLocal || task.sync == SyncState::Staged;
            let owed = exists|i: int|
                0 <= i < task.comments@.len() && (#[trigger] task.comments@[i]).remote_id is None;
            &&& out is Ok <==> task.remote is Some && (dirty || owed)
            &&& task.remote is None ==> out == Err::<Push, SyncError>(SyncError::NoRemote)
            &&& task.remote is Some && out is Err ==> out->Err_0 is Domain
            &&& out matches Ok(p) ==> {
                &&& p.task == task
                &&& p.prev == task.sync
                &&& p.canonical == canonical
                &&& p.remote_id == task.remote->0.remote_id
                &&& p.snapshot_dirty == dirty
                &&& p.comments_pending == owed
                &&& dirty ==> p.step == PushStep::Diff
                &&& !dirty ==> (p.step matches PushStep::Comments(list) && list@ == pending(
                    task.comments@,
                ))
            }
        }),
{
}

/// What differs from the baseline is sent to the task's issue, and nothing else:
/// the title, the body, whether it is closed and why, and the people, each where
/// it differs. Where nothing differs nothing is sent.
pub proof fn law_push_sends_what_differs(p: &mut Push, patch: &MirrorPatch)
    requires
        call_ensures(Push::on_diff, (p, patch), ()),
    ensures
        final(p).task == old(p).task,
        final(p).comments_pending == old(p).comments_pending,
        final(p).snapshot_dirty == old(p).snapshot_dirty,
        final(p).step == PushStep::Confirm <==> patch.title is None && patch.body is None
            && patch.status is None && patch.assignees is None,
        final(p).step != PushStep::Confirm ==> {
            &&& final(p).step is Update
            &&& final(p).step->Update_0.canonical_repo == old(p).canonical
            &&& final(p).step->Update_0.remote_id == old(p).remote_id
            &&& final(p).step->Update_0.title == patch.title
            &&& final(p).step->Update_0.body == patch.body
            &&& patch.status is None ==> final(p).step->Update_0.closed is None
                && final(p).step->Update_0.state_reason is None
            &&& patch.status matches Some(l) ==> final(p).step->Update_0.closed == Some(
                l == Lifecycle::Completed || l == Lifecycle::NotPlanned,
            )
            &&& final(p).step->Update_0.assignees is Some <==> patch.assignees is Some
            &&& patch.assignees is Some ==> final(p).step->Update_0.assignees->0@
                == patch.assignees->0@
        },
{
}

/// Once the edits are sent and confirmed, the comments that the confirmed task
/// still owes follow, where there were any to push.
pub proof fn law_comments_follow_the_edits(
    sent: &mut Push,
    confirmed: &mut Push,
    pushed: &mut Push,
    task: Task,
)
    requires
        call_ensures(Push::on_updated, (sent,), ()),
        call_ensures(Push::on_confirmed, (confirmed, task), ()),
        call_ensures(Push::on_comments, (pushed,), ()),
    ensures
        final(sent).step == PushStep::Confirm,
        final(sent).task == old(sent).task,
        final(sent).comments_pending == old(sent).comments_pending,
        final(sent).snapshot_dirty == old(sent).snapshot_dirty,
        final(confirmed).task == task,
        final(confirmed).snapshot_dirty == old(confirmed).snapshot_dirty,
        final(confirmed).remote_id == old(confirmed).remote_id,
        final(confirmed).canonical == old(confirmed).canonical,
        final(confirmed).prev == old(confirmed).prev,
        old(confirmed).comments_pending ==> final(confirmed).step is Comments
            && final(confirmed).step->Comments_0@ == pending(task.comments@),
        !old(confirmed).comments_pending ==> final(confirmed).step == PushStep::Done,
        final(pushed).step == PushStep::Done,
        final(pushed).task == old(pushed).task,
        final(pushed).snapshot_dirty == old(pushed).snapshot_dirty,
{
}

/// A push of edits reports that the local side was pushed; one of comments alone
/// reports that nothing else was to be done.
pub proof fn law_push_reports_what_it_sent(p: Push, out: SyncSummaryDto)
    requires
        call_ensures(Push::finish, (p,), out),
    ensures
        p.snapshot_dirty ==> out.decision@ == "push_local"@,
        !p.snapshot_dirty ==> out.decision@ == "noop"@,
        out.previous_state@ == names::sync_name(p.prev),
        out.new_state@ == names::sync_name(p.task.sync),
        out.task_id@ == names::id_form(p.task.id.0 as int),
        out.note is None,
{
}

} // verus!
