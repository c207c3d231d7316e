//! What a sync operation reports.

use super::error::SyncError;
use super::mirror::{self, inbound_mirrors_baseline, RemoteTaskSnapshot};
use crate::model::names::{self, decision_str, sync_str, SyncDecision};
use crate::model::task::{Baseline, Lifecycle, RemoteRef, SyncState, Task};
use crate::text;
use vstd::prelude::*;

verus! {

/// The remote issue as summaries and listings show it.
#[derive(Debug, PartialEq, Eq)]
pub struct RemoteRefDto {
    pub provider: String,
    pub remote_id: String,
}

#[derive(Debug, PartialEq, Eq)]
pub struct SyncSummaryDto {
    pub task_id: String,
    pub previous_state: String,
    pub new_state: String,
    pub decision: String,
    pub remote: Option<RemoteRefDto>,
    pub note: Option<String>,
}

/// A task dropped as not planned takes no part in sync.
pub fn ensure_not_archived(task: &Task) -> (out: Result<(), SyncError>)
    ensures
        out == if task.lifecycle == Lifecycle::NotPlanned {
            Err::<(), SyncError>(SyncError::Archived)
        } else {
            Ok::<(), SyncError>(())
        },
{
    if task.lifecycle == Lifecycle::NotPlanned {
        Err(SyncError::Archived)
    } else {
        Ok(())
    }
}

/// The remote's mirrored fields are those of the baseline.
pub open spec fn no_drift(snap: RemoteTaskSnapshot, baseline: Baseline) -> bool {
    mirror::mirrors(
        snap.title@,
        snap.body@,
        text::views(snap.assignees@),
        snap.closed,
        baseline,
    )
}

/// Whether the remote's mirrored fields are those of the baseline.
pub fn remote_mirrors_baseline(snap: &RemoteTaskSnapshot, baseline: &Baseline) -> (yes: bool)
    ensures
        yes == no_drift(*snap, *baseline),
{
    inbound_mirrors_baseline(&snap.title, &snap.body, &snap.assignees, snap.closed, baseline)
}

/// The remote issue as a summary shows it.
pub open spec fn shown_remote(remote: Option<RemoteRef>) -> Option<RemoteRefDto> {
    match remote {
        Some(r) => Some(RemoteRefDto { provider: r.provider, remote_id: r.remote_id }),
        None => None,
    }
}

/// The remote issue as a summary shows it.
pub fn remote_dto(remote: &Option<RemoteRef>) -> (out: Option<RemoteRefDto>)
    ensures
        out == shown_remote(*remote),
{
    match remote {
        Some(r) => Some(
            RemoteRefDto { provider: r.provider.clone(), remote_id: r.remote_id.clone() },
        ),
        None => None,
    }
}

/// `s` reports `task`, its sync state before and after, a decision and a note.
pub open spec fn reports(
    s: SyncSummaryDto,
    task: Task,
    prev: SyncState,
    decision: Seq<char>,
    note: Option<String>,
) -> bool {
    &&& s.task_id@ == names::id_form(task.id.0 as int)
    &&& s.previous_state@ == names::sync_name(prev)
    &&& s.new_state@ == names::sync_name(task.sync)
    &&& s.decision@ == decision
    &&& s.remote == shown_remote(task.remote)
    &&& s.note == note
}

/// Summarise a link.
pub fn link_summary(task: &Task, prev: SyncState, decision: &str, note: Option<String>) -> (out:
    SyncSummaryDto)
    ensures
        reports(out, *task, prev, decision@, note),
{
    SyncSummaryDto {
        task_id: task.id.to_text(),
        previous_state: sync_str(prev).to_owned(),
        new_state: sync_str(task.sync).to_owned(),
        decision: decision.to_owned(),
        remote: remote_dto(&task.remote),
        note,
    }
}

/// Summarise a decision, with a note.
pub fn summary_with_note(
    task: &Task,
    prev: SyncState,
    decision: SyncDecision,
    note: Option<String>,
) -> (out: SyncSummaryDto)
    ensures
        reports(out, *task, prev, names::decision_name(decision), note),
{
    link_summary(task, prev, decision_str(decision), note)
}

/// Summarise a decision.
pub fn summary(task: &Task, prev: SyncState, decision: SyncDecision) -> (out: SyncSummaryDto)
    ensures
        reports(out, *task, prev, names::decision_name(decision), None),
{
    summary_with_note(task, prev, decision, None)
}

/// `s` starts with `prefix`.
pub open spec fn starts_with(s: Seq<char>, prefix: Seq<char>) -> bool {
    prefix.len() <= s.len() && s.take(prefix.len() as int) == prefix
}

/// Whether `s` starts with `prefix`.
pub fn has_prefix(s: &str, prefix: &str) -> (yes: bool)
    ensures
        yes == starts_with(s@, prefix@),
{
    let whole = text::chars_of(s);
    let head = text::chars_of(prefix);
    if head.len() > whole.len() {
        return false;
    }
    let mut i: usize = 0;
    while i < head.len()
        invariant
            i <= head.len() <= whole.len(),
            whole@ == s@,
            head@ == prefix@,
            forall|k: int| 0 <= k < i ==> whole@[k] == head@[k],
        decreases head.len() - i,
    {
        if whole[i] != head[i] {
            assert(s@.take(prefix@.len() as int)[i as int] == whole@[i as int]);
            return false;
        }
        i += 1;
    }
    assert(s@.take(prefix@.len() as int) =~= prefix@);
    true
}

/// The provider that a canonical repository URL names.
pub fn provider_label(canonical: &str) -> (out: String)
    ensures
        out@ == if starts_with(canonical@, "github.com/"@) {
            "github"@
        } else {
            "remote"@
        },
{
    if has_prefix(canonical, "github.com/") {
        "github".to_owned()
    } else {
        "remote".to_owned()
    }
}

/// A report names the task, the state it was in and the one it is in now, what
/// was decided, the note, and the issue the task has.
pub proof fn law_report_tells_what_happened(
    s: SyncSummaryDto,
    task: Task,
    prev: SyncState,
    decision: Seq<char>,
    note: Option<String>,
)
    requires
        reports(s, task, prev, decision, note),
    ensures
        s.task_id@ == names::id_form(task.id.0 as int),
        s.previous_state@ == names::sync_name(prev),
        s.new_state@ == names::sync_name(task.sync),
        s.decision@ == decision,
        s.note == note,
        s.remote is Some <==> task.remote is Some,
        s.remote is Some ==> s.remote->0.provider == task.remote->0.provider
            && s.remote->0.remote_id == task.remote->0.remote_id,
{
}

/// A text starts with another if and only if it goes on from it.
pub proof fn law_prefix_goes_on(s: Seq<char>, prefix: Seq<char>)
    ensures
        starts_with(s, prefix) <==> exists|rest: Seq<char>| s == #[trigger] (prefix + rest),
{
    if starts_with(s, prefix) {
        assert(s =~= prefix + s.skip(prefix.len() as int));
    }
    if exists|rest: Seq<char>| s == #[trigger] (prefix + rest) {
        let rest = choose|rest: Seq<char>| s == #[trigger] (prefix + rest);
        assert(s.take(prefix.len() as int) =~= prefix);
    }
}

/// Only a dropped task is archived, and an issue of the host is told by its
/// repository's URL.
pub proof fn law_archived_tasks_take_no_part(
    task: &Task,
    out: Result<(), SyncError>,
    canonical: &str,
    provider: String,
)
    requires
        call_ensures(ensure_not_archived, (task,), out),
        call_ensures(provider_label, (canonical,), provider),
    ensures
        out is Err <==> task.lifecycle == Lifecycle::NotPlanned,
        out matches Err(e) ==> e == SyncError::Archived,
        (exists|rest: Seq<char>| canonical@ == #[trigger] ("github.com/"@ + rest))
            ==> provider@ == "github"@,
        !(exists|rest: Seq<char>| canonical@ == #[trigger] ("github.com/"@ + rest))
            ==> provider@ == "remote"@,
{
    law_prefix_goes_on(canonical@, "github.com/"@);
}

} // verus!
