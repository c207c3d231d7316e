//! Tasks and their mirrored state.

use crate::model::ids::{RepoId, TaskId, Timestamp, WorkspaceId};
use crate::seqs;
use vstd::prelude::*;

verus! {

#[derive(Clone, Copy, Debug, PartialEq, Eq, Structural)]
pub enum Lifecycle {
    Open,
    Reopened,
    Completed,
    NotPlanned,
}

#[derive(Clone, Copy, Debug, PartialEq, Eq, Structural)]
pub enum SyncState {
    LocalOnly,
    Staged,
    Synced,
    DirtyLocal,
    DirtyRemote,
    Conflict,
}

#[derive(Clone, Copy, Debug, PartialEq, Eq, Structural)]
pub enum RelationKind {
    ParentOf,
    ChildOf,
    BlockedBy,
    Blocks,
    RelatedTo,
    Duplicates,
}

/// Why a snapshot of a task was taken.
#[derive(Clone, Copy, Debug, PartialEq, Eq, Structural)]
pub enum SnapshotSource {
    Created,
    LocalEdit,
    Promote,
    Push,
    PrePull,
    Pull,
    Link,
    Rollback,
    FilingRepoRepair,
}

#[derive(Clone, Copy, Debug, PartialEq, Eq, Structural)]
pub struct TaskRelation {
    pub kind: RelationKind,
    pub other: TaskId,
}

/// The remote issue behind a task.
#[derive(Debug, PartialEq, Eq)]
pub struct RemoteRef {
    pub provider: String,
    pub remote_id: String,
    pub node_id: Option<String>,
}

#[derive(Clone, Debug, PartialEq, Eq)]
pub struct TaskComment {
    /// The stored row's own id.
    pub local_id: Option<String>,
    /// The remote comment's id; `None` while it is still to be pushed.
    pub remote_id: Option<String>,
    pub author: String,
    pub body: String,
    pub created_at: Timestamp,
}

/// The mirrored fields as of the last alignment with the remote.
#[derive(Clone, Debug, PartialEq, Eq)]
pub struct Baseline {
    pub title: String,
    pub body: String,
    pub assignees: Vec<String>,
    pub lifecycle: Lifecycle,
}

#[derive(Clone, Debug, PartialEq, Eq)]
pub struct Task {
    pub id: TaskId,
    pub workspace_id: WorkspaceId,
    /// The repository instance the task belongs to.
    pub repo_id: Option<RepoId>,
    /// The origin that the task's issue is filed in, once recorded.
    pub filing_repo_id: Option<RepoId>,
    pub hash: String,
    pub title: String,
    pub body: String,
    /// The stored name of the priority.
    pub priority: String,
    pub assignees: Vec<String>,
    pub lifecycle: Lifecycle,
    pub sync: SyncState,
    pub remote: Option<RemoteRef>,
    pub project_item_id: Option<String>,
    pub project_status_option_id: Option<String>,
    pub relations: Vec<TaskRelation>,
    pub comments: Vec<TaskComment>,
    pub baseline: Option<Baseline>,
    pub created_at: Timestamp,
    pub updated_at: Timestamp,
}

impl Clone for RemoteRef {
    fn clone(&self) -> (out: Self)
        ensures
            out == *self,
    {
        RemoteRef {
            provider: self.provider.clone(),
            remote_id: self.remote_id.clone(),
            node_id: clone_text(&self.node_id),
        }
    }
}

/// A copy of an optional string.
pub fn clone_text(s: &Option<String>) -> (out: Option<String>)
    ensures
        out == *s,
{
    match s {
        Some(x) => Some(x.clone()),
        None => None,
    }
}

/// A copy of a list of strings.
pub fn clone_texts(s: &Vec<String>) -> (out: Vec<String>)
    ensures
        out@ == s@,
{
    let mut out: Vec<String> = Vec::new();
    let mut i: usize = 0;
    while i < s.len()
        invariant
            i <= s.len(),
            out@ == s@.take(i as int),
        decreases s.len() - i,
    {
        out.push(s[i].clone());
        assert(out@ =~= s@.take(i as int + 1));
        i += 1;
    }
    assert(s@.take(i as int) =~= s@);
    out
}

/// The baseline holds the mirrored fields of the task.
pub open spec fn records(baseline: Baseline, task: Task) -> bool {
    &&& baseline.title == task.title
    &&& baseline.body == task.body
    &&& baseline.assignees@ == task.assignees@
    &&& baseline.lifecycle == task.lifecycle
}

/// `out` is `reply` as synced, with the mirrored fields of `kept`, which are
/// its baseline too.
pub open spec fn settled(out: Task, kept: Task, reply: Task) -> bool {
    &&& out == (Task {
        title: kept.title,
        body: kept.body,
        assignees: out.assignees,
        lifecycle: kept.lifecycle,
        sync: SyncState::Synced,
        baseline: out.baseline,
        ..reply
    })
    &&& out.assignees@ == kept.assignees@
    &&& out.baseline is Some
    &&& records(out.baseline->0, kept)
}

/// Settle the mirrored fields of `kept` on `reply`: it shows them, has them as
/// its baseline, and is synced.
pub fn settle(kept: &Task, reply: Task) -> (out: Task)
    ensures
        settled(out, *kept, reply),
{
    let mut out = reply;
    out.title = kept.title.clone();
    out.body = kept.body.clone();
    out.assignees = clone_texts(&kept.assignees);
    out.lifecycle = kept.lifecycle;
    out.sync = SyncState::Synced;
    out.baseline = Some(
        Baseline {
            title: kept.title.clone(),
            body: kept.body.clone(),
            assignees: clone_texts(&kept.assignees),
            lifecycle: kept.lifecycle,
        },
    );
    out
}

impl Lifecycle {
    pub open spec fn open(self) -> bool {
        self == Lifecycle::Open || self == Lifecycle::Reopened
    }

    pub fn is_open(&self) -> (yes: bool)
        ensures
            yes == self.open(),
    {
        match self {
            Lifecycle::Open | Lifecycle::Reopened => true,
            Lifecycle::Completed | Lifecycle::NotPlanned => false,
        }
    }
}

impl RelationKind {
    /// The kind that the other end of an edge carries.
    pub open spec fn mirrored(self) -> RelationKind {
        match self {
            RelationKind::ParentOf => RelationKind::ChildOf,
            RelationKind::ChildOf => RelationKind::ParentOf,
            RelationKind::BlockedBy => RelationKind::Blocks,
            RelationKind::Blocks => RelationKind::BlockedBy,
            RelationKind::RelatedTo => RelationKind::RelatedTo,
            RelationKind::Duplicates => RelationKind::Duplicates,
        }
    }

    /// The kind that the other end of an edge carries.
    pub fn inverse(&self) -> (out: RelationKind)
        ensures
            out == self.mirrored(),
    {
        match self {
            RelationKind::ParentOf => RelationKind::ChildOf,
            RelationKind::ChildOf => RelationKind::ParentOf,
            RelationKind::BlockedBy => RelationKind::Blocks,
            RelationKind::Blocks => RelationKind::BlockedBy,
            RelationKind::RelatedTo => RelationKind::RelatedTo,
            RelationKind::Duplicates => RelationKind::Duplicates,
        }
    }
}

/// Mirroring a kind twice gives it back.
pub proof fn law_mirroring_twice_is_identity(kind: RelationKind)
    ensures
        kind.mirrored().mirrored() == kind,
{
}

/// The edge stands among the relations.
pub open spec fn has_edge(relations: Seq<TaskRelation>, kind: RelationKind, other: TaskId) -> bool {
    relations.contains(TaskRelation { kind, other })
}

/// The relations with an edge added, unless it is there.
pub open spec fn with_edge(
    relations: Seq<TaskRelation>,
    kind: RelationKind,
    other: TaskId,
) -> Seq<TaskRelation> {
    if has_edge(relations, kind, other) {
        relations
    } else {
        relations.push(TaskRelation { kind, other })
    }
}

/// The relations without an edge.
pub open spec fn without_edge(
    relations: Seq<TaskRelation>,
    kind: RelationKind,
    other: TaskId,
) -> Seq<TaskRelation> {
    relations.filter(|r: TaskRelation| r != (TaskRelation { kind, other }))
}

/// Whether the edge stands among the relations.
pub fn edge_stands(relations: &Vec<TaskRelation>, kind: RelationKind, other: TaskId) -> (yes: bool)
    ensures
        yes == has_edge(relations@, kind, other),
{
    let wanted = TaskRelation { kind, other };
    let mut i: usize = 0;
    while i < relations.len()
        invariant
            i <= relations.len(),
            wanted == (TaskRelation { kind, other }),
            forall|k: int| 0 <= k < i ==> relations@[k] != wanted,
        decreases relations.len() - i,
    {
        if relations[i] == wanted {
            assert(relations@[i as int] == wanted);
            return true;
        }
        i += 1;
    }
    false
}

/// Add an edge; adding one that is there changes nothing.
pub fn add_edge(relations: &mut Vec<TaskRelation>, kind: RelationKind, other: TaskId)
    ensures
        final(relations)@ == with_edge(old(relations)@, kind, other),
{
    if !edge_stands(relations, kind, other) {
        relations.push(TaskRelation { kind, other });
    }
}

/// Remove an edge; says whether it was there.
pub fn remove_edge(relations: &mut Vec<TaskRelation>, kind: RelationKind, other: TaskId) -> (changed:
    bool)
    ensures
        final(relations)@ == without_edge(old(relations)@, kind, other),
        changed == has_edge(old(relations)@, kind, other),
{
    let wanted = TaskRelation { kind, other };
    let ghost keep = |r: TaskRelation| r != (TaskRelation { kind, other });
    let ghost before = relations@;
    let changed = edge_stands(relations, kind, other);
    let mut kept: Vec<TaskRelation> = Vec::new();
    let mut i: usize = 0;
    proof {
        reveal(Seq::filter);
    }
    assert(before.take(0).filter(keep) =~= Seq::empty());
    while i < relations.len()
        invariant
            i <= relations.len(),
            relations@ == before,
            wanted == (TaskRelation { kind, other }),
            keep == (|r: TaskRelation| r != (TaskRelation { kind, other })),
            kept@ == before.take(i as int).filter(keep),
        decreases relations.len() - i,
    {
        proof {
            reveal(Seq::filter);
            assert(before.take(i as int + 1).drop_last() =~= before.take(i as int));
        }
        if relations[i] != wanted {
            kept.push(relations[i]);
        }
        i += 1;
    }
    assert(before.take(i as int) =~= before);
    *relations = kept;
    changed
}

/// Removing a new edge right after adding it gives the relations back, and
/// after a removal the edge is gone.
pub proof fn law_removal_undoes_addition(
    relations: Seq<TaskRelation>,
    kind: RelationKind,
    other: TaskId,
)
    ensures
        has_edge(with_edge(relations, kind, other), kind, other),
        !has_edge(without_edge(relations, kind, other), kind, other),
        !has_edge(relations, kind, other) ==> without_edge(
            with_edge(relations, kind, other),
            kind,
            other,
        ) == relations,
        with_edge(with_edge(relations, kind, other), kind, other) == with_edge(
            relations,
            kind,
            other,
        ),
{
    let edge = TaskRelation { kind, other };
    let keep = |r: TaskRelation| r != (TaskRelation { kind, other });
    let more = with_edge(relations, kind, other);
    if !has_edge(relations, kind, other) {
        assert(more[relations.len() as int] == edge);
        reveal(Seq::filter);
        assert(more.drop_last() =~= relations);
        seqs::lemma_filter_keeps_all(relations, keep);
    }
    if has_edge(without_edge(relations, kind, other), kind, other) {
        seqs::lemma_filter_contains(relations, keep, edge);
    }
}

/// Adding an edge leaves every other as it is and puts it last where it is new;
/// removing one takes just that one out and keeps the order of the others.
pub proof fn law_edges_change_alone(
    relations: Seq<TaskRelation>,
    kind: RelationKind,
    other: TaskId,
    r: TaskRelation,
)
    ensures
        ({
            let edge = TaskRelation { kind, other };
            let more = with_edge(relations, kind, other);
            let less = without_edge(relations, kind, other);
            &&& more.contains(r) <==> relations.contains(r) || r == edge
            &&& relations.contains(edge) ==> more == relations
            &&& !relations.contains(edge) ==> more == relations.push(edge)
            &&& less.contains(r) <==> relations.contains(r) && r != edge
            &&& r != edge ==> without_edge(relations.push(r), kind, other) == less.push(r)
            &&& without_edge(relations.push(edge), kind, other) == less
        }),
{
    let edge = TaskRelation { kind, other };
    let keep = |x: TaskRelation| x != (TaskRelation { kind, other });
    let more = with_edge(relations, kind, other);
    reveal(Seq::filter);
    seqs::lemma_filter_contains(relations, keep, r);
    assert(relations.push(r).drop_last() =~= relations);
    assert(relations.push(edge).drop_last() =~= relations);
    let longer = relations.push(edge);
    assert(longer[relations.len() as int] == edge);
    if relations.contains(r) {
        let k = choose|k: int| 0 <= k < relations.len() && relations[k] == r;
        assert(longer[k] == r);
    }
    if longer.contains(r) && r != edge {
        let k = choose|k: int| 0 <= k < longer.len() && longer[k] == r;
        assert(relations[k] == r);
    }
}

/// The other end of an edge: a parent's is a child, a blocker's is blocked, and
/// the kinds without a direction are the same from both ends.
pub proof fn law_kinds_have_their_other_end()
    ensures
        RelationKind::ParentOf.mirrored() == RelationKind::ChildOf,
        RelationKind::ChildOf.mirrored() == RelationKind::ParentOf,
        RelationKind::BlockedBy.mirrored() == RelationKind::Blocks,
        RelationKind::Blocks.mirrored() == RelationKind::BlockedBy,
        RelationKind::RelatedTo.mirrored() == RelationKind::RelatedTo,
        RelationKind::Duplicates.mirrored() == RelationKind::Duplicates,
{
}

/// A task is open until it is completed or dropped, and again once it was
/// reopened.
pub proof fn law_open_until_closed(lifecycle: Lifecycle)
    ensures
        lifecycle.open() <==> lifecycle != Lifecycle::Completed && lifecycle
            != Lifecycle::NotPlanned,
{
}

/// A settled task is synced, shows the kept title, body, people and lifecycle,
/// and was last aligned with just these; the rest is that of the reply.
pub proof fn law_settled_task_shows_its_baseline(out: Task, kept: Task, reply: Task)
    requires
        settled(out, kept, reply),
    ensures
        out.sync == SyncState::Synced,
        out.title == kept.title,
        out.body == kept.body,
        out.assignees@ == kept.assignees@,
        out.lifecycle == kept.lifecycle,
        out.baseline is Some,
        out.baseline->0.title == kept.title,
        out.baseline->0.body == kept.body,
        out.baseline->0.assignees@ == kept.assignees@,
        out.baseline->0.lifecycle == kept.lifecycle,
        out.id == reply.id,
        out.workspace_id == reply.workspace_id,
        out.repo_id == reply.repo_id,
        out.filing_repo_id == reply.filing_repo_id,
        out.hash == reply.hash,
        out.priority == reply.priority,
        out.remote == reply.remote,
        out.project_item_id == reply.project_item_id,
        out.project_status_option_id == reply.project_status_option_id,
        out.relations == reply.relations,
        out.comments == reply.comments,
{
}

} // verus!
