//! Relating tasks, and taking relations back.
//!
//! An edge is stored at both ends. An edge between two issues also owes its
//! remote form, queued in the write that stores it.

use super::cycle::{self, cycle_axis, would_create_cycle, Axis, RelationRow};
use super::error::ServiceError;
use crate::model::ids::TaskId;
use crate::model::names::{self, parse_relation};
use crate::model::outbox::{IssueCoords, OutboxEntry, OutboxMutation};
use crate::model::task::{self, add_edge, edge_stands, remove_edge, RelationKind, Task, TaskRelation};
use crate::sync::enqueue::{self, relation_mutation};
use vstd::prelude::*;

verus! {

/// A request about the relation of two tasks, as it was given.
#[derive(Debug, PartialEq, Eq)]
pub struct RelationCmd {
    pub task_id: String,
    pub kind: String,
    pub other: String,
}

/// Read the kind of a relation.
pub fn parse_kind(name: &String) -> (out: Result<RelationKind, ServiceError>)
    ensures
        match out {
            Ok(k) => name@ == names::relation_name(k),
            Err(e) => {
                &&& forall|k: RelationKind| name@ != #[trigger] names::relation_name(k)
                &&& e matches ServiceError::BadEnum { field, value } && field@ == "kind"@ && value
                    == *name
            },
        },
{
    match parse_relation(name.as_str()) {
        Some(k) => Ok(k),
        None => Err(ServiceError::BadEnum { field: "kind", value: name.clone() }),
    }
}

/// The entries that an edge owes when it is added or removed: one, where both
/// ends have an issue and the kind has a remote form.
pub open spec fn edge_entries(
    me: TaskId,
    kind: RelationKind,
    added: bool,
    this: Option<IssueCoords>,
    far: Option<IssueCoords>,
) -> Seq<OutboxEntry> {
    if this is Some && far is Some {
        match enqueue::edge_mutation(kind, added, this->0, far->0) {
            Some(m) => seq![OutboxEntry { task_id: me, mutation: m }],
            None => Seq::empty(),
        }
    } else {
        Seq::empty()
    }
}

/// Plan the entries that an edge owes, queued for the task `me`.
pub fn plan_relation_entries(
    me: TaskId,
    kind: RelationKind,
    added: bool,
    this: &Option<IssueCoords>,
    far: &Option<IssueCoords>,
) -> (out: Vec<OutboxEntry>)
    ensures
        out@ == edge_entries(me, kind, added, *this, *far),
{
    let mut out: Vec<OutboxEntry> = Vec::new();
    match (this, far) {
        (Some(a), Some(b)) => match relation_mutation(kind, added, a, b) {
            Some(m) => {
                out.push(OutboxEntry { task_id: me, mutation: m });
            },
            None => {},
        },
        _ => {},
    }
    assert(out@ =~= edge_entries(me, kind, added, *this, *far));
    out
}

/// `after` is `before` with other relations.
pub open spec fn related_as(after: Task, before: Task, relations: Seq<TaskRelation>) -> bool {
    after == (Task { relations: after.relations, ..before }) && after.relations@ == relations
}

/// What adding a relation does next.
#[derive(Debug, PartialEq, Eq)]
pub enum AddStep {
    /// Read the relations of all tasks, open or closed.
    CheckCycle(Axis),
    /// Read the coordinates of both ends' issues.
    ReadCoords,
    /// Save both tasks and queue the entries, in one write.
    Save(Vec<OutboxEntry>),
}

/// Adding the edge `kind` from `t` to `other`.
#[derive(Debug, PartialEq, Eq)]
pub struct AddRelation {
    pub cmd: RelationCmd,
    pub kind: RelationKind,
    pub t: Task,
    pub other: Task,
    pub step: AddStep,
}

impl AddRelation {
    /// Both ends carry the edge. Only an edge that is new owes a remote form.
    pub open spec fn linked(self, t: Task, other: Task) -> bool {
        &&& related_as(self.t, t, task::with_edge(t.relations@, self.kind, other.id))
        &&& related_as(
            self.other,
            other,
            task::with_edge(other.relations@, self.kind.mirrored(), t.id),
        )
        &&& if task::has_edge(t.relations@, self.kind, other.id) {
            self.step matches AddStep::Save(entries) && entries@ == Seq::<OutboxEntry>::empty()
        } else {
            self.step == AddStep::ReadCoords
        }
    }

    /// Begin adding a relation. A task does not relate to itself. A directed
    /// kind is held against the tasks' relations first.
    pub fn start(cmd: RelationCmd, kind: RelationKind, t: Task, other: Task) -> (out: Result<
        Self,
        ServiceError,
    >)
        ensures
            match out {
                Ok(a) => {
                    &&& t.id != other.id
                    &&& a.cmd == cmd
                    &&& a.kind == kind
                    &&& match cycle::axis_of(kind, t.id, other.id) {
                        Some(axis) => a.step == AddStep::CheckCycle(axis) && a.t == t && a.other
                            == other,
                        None => a.linked(t, other),
                    }
                },
                Err(e) => t.id == other.id && e == ServiceError::SelfRelation,
            },
    {
        if other.id == t.id {
            return Err(ServiceError::SelfRelation);
        }
        match cycle_axis(kind, t.id, other.id) {
            Some(axis) => Ok(
                AddRelation { cmd, kind, t, other, step: AddStep::CheckCycle(axis) },
            ),
            None => Ok(
                AddRelation { cmd, kind, t, other, step: AddStep::ReadCoords }.link(),
            ),
        }
    }

    /// The relations of all tasks were read: an edge that would close a cycle
    /// is refused.
    pub fn on_rows(self, rows: &Vec<RelationRow>) -> (out: Result<Self, ServiceError>)
        requires
            self.step is CheckCycle,
        ensures
            ({
                let axis = self.step->CheckCycle_0;
                let closes = cycle::reaches(
                    cycle::family(rows@, axis.forward, axis.inverse),
                    axis.upper,
                    axis.lower,
                );
                match out {
                    Ok(a) => !closes && a.cmd == self.cmd && a.kind == self.kind && a.linked(
                        self.t,
                        self.other,
                    ),
                    Err(e) => closes && e == (ServiceError::RelationCycle {
                        kind: self.cmd.kind,
                        from: self.cmd.task_id,
                        to: self.cmd.other,
                    }),
                }
            }),
    {
        let axis: Axis = match self.step {
            AddStep::CheckCycle(axis) => axis,
            _ => {
                return Ok(self);
            },
        };
        if would_create_cycle(rows, axis) {
            return Err(
                ServiceError::RelationCycle {
                    kind: self.cmd.kind,
                    from: self.cmd.task_id,
                    to: self.cmd.other,
                },
            );
        }
        Ok(self.link())
    }

    fn link(self) -> (out: Self)
        ensures
            out.cmd == self.cmd,
            out.kind == self.kind,
            out.linked(self.t, self.other),
    {
        let AddRelation { cmd, kind, t, other, step: _ } = self;
        let mut t = t;
        let mut other = other;
        let known = edge_stands(&t.relations, kind, other.id);
        add_edge(&mut t.relations, kind, other.id);
        add_edge(&mut other.relations, kind.inverse(), t.id);
        let step = if known {
            AddStep::Save(Vec::new())
        } else {
            AddStep::ReadCoords
        };
        AddRelation { cmd, kind, t, other, step }
    }

    /// The coordinates of both ends' issues were read.
    pub fn on_coords(&mut self, this: &Option<IssueCoords>, far: &Option<IssueCoords>)
        requires
            old(self).step == AddStep::ReadCoords,
        ensures
            *final(self) == (AddRelation { step: final(self).step, ..*old(self) }),
            final(self).step matches AddStep::Save(entries) && entries@ == edge_entries(
                old(self).t.id,
                old(self).kind,
                true,
                *this,
                *far,
            ),
    {
        self.step = AddStep::Save(plan_relation_entries(self.t.id, self.kind, true, this, far));
    }
}

/// What removing a relation does next.
#[derive(Debug, PartialEq, Eq)]
pub enum RemoveStep {
    /// Read the coordinates of both ends' issues.
    ReadCoords,
    /// Save the tasks that changed and queue the entries, in one write.
    Save(Vec<OutboxEntry>),
    /// Nothing was there to remove, and nothing is saved.
    Unchanged,
}

/// Removing the edge `kind` from `t` to `other`.
#[derive(Debug, PartialEq, Eq)]
pub struct RemoveRelation {
    pub kind: RelationKind,
    pub t: Task,
    pub other: Task,
    pub t_changed: bool,
    pub other_changed: bool,
    pub step: RemoveStep,
}

impl RemoveRelation {
    /// Begin removing a relation: each end drops the edge, where it has it.
    /// Only an edge that stood at the first end owes its removal.
    pub fn start(kind: RelationKind, t: Task, other: Task) -> (out: Result<Self, ServiceError>)
        ensures
            match out {
                Ok(r) => {
                    &&& t.id != other.id
                    &&& r.kind == kind
                    &&& related_as(r.t, t, task::without_edge(t.relations@, kind, other.id))
                    &&& related_as(
                        r.other,
                        other,
                        task::without_edge(other.relations@, kind.mirrored(), t.id),
                    )
                    &&& r.t_changed == task::has_edge(t.relations@, kind, other.id)
                    &&& r.other_changed == task::has_edge(
                        other.relations@,
                        kind.mirrored(),
                        t.id,
                    )
                    &&& if r.t_changed {
                        r.step == RemoveStep::ReadCoords
                    } else if r.other_changed {
                        r.step matches RemoveStep::Save(entries) && entries@ == Seq::<
                            OutboxEntry,
                        >::empty()
                    } else {
                        r.step == RemoveStep::Unchanged
                    }
                },
                Err(e) => t.id == other.id && e == ServiceError::SelfRelation,
            },
    {
        if other.id == t.id {
            return Err(ServiceError::SelfRelation);
        }
        let mut t = t;
        let mut other = other;
        let t_changed = remove_edge(&mut t.relations, kind, other.id);
        let other_changed = remove_edge(&mut other.relations, kind.inverse(), t.id);
        let step = if t_changed {
            RemoveStep::ReadCoords
        } else if other_changed {
            RemoveStep::Save(Vec::new())
        } else {
            RemoveStep::Unchanged
        };
        Ok(RemoveRelation { kind, t, other, t_changed, other_changed, step })
    }

    /// The coordinates of both ends' issues were read.
    pub fn on_coords(&mut self, this: &Option<IssueCoords>, far: &Option<IssueCoords>)
        requires
            old(self).step == RemoveStep::ReadCoords,
        ensures
            *final(self) == (RemoveRelation { step: final(self).step, ..*old(self) }),
            final(self).step matches RemoveStep::Save(entries) && entries@ == edge_entries(
                old(self).t.id,
                old(self).kind,
                false,
                *this,
                *far,
            ),
    {
        self.step = RemoveStep::Save(
            plan_relation_entries(self.t.id, self.kind, false, this, far),
        );
    }
}

/// The relations of all tasks after the one in row `i` was related to the one
/// in row `j`.
pub open spec fn rows_with_edge(
    rows: Seq<RelationRow>,
    i: int,
    j: int,
    after_i: RelationRow,
    after_j: RelationRow,
    kind: RelationKind,
) -> bool {
    &&& after_i.id == rows[i].id
    &&& after_j.id == rows[j].id
    &&& after_i.relations@ == task::with_edge(rows[i].relations@, kind, rows[j].id)
    &&& after_j.relations@ == task::with_edge(rows[j].relations@, kind.mirrored(), rows[i].id)
}

proof fn lemma_row_states(
    rows: Seq<RelationRow>,
    i: int,
    r: TaskRelation,
    forward: RelationKind,
    inverse: RelationKind,
    from: TaskId,
    to: TaskId,
)
    requires
        0 <= i < rows.len(),
        rows[i].relations@.contains(r),
        cycle::states_edge(rows[i].id, r, forward, inverse, from, to),
    ensures
        cycle::upstream_edge(rows, forward, inverse, from, to),
{
    let b = choose|b: int| 0 <= b < rows[i].relations@.len() && rows[i].relations@[b] == r;
    assert(cycle::states_edge(rows[i].id, rows[i].relations@[b], forward, inverse, from, to));
}

proof fn lemma_with_edge_contains(relations: Seq<TaskRelation>, kind: RelationKind, other: TaskId)
    ensures
        forall|r: TaskRelation|
            #[trigger] task::with_edge(relations, kind, other).contains(r) <==> relations.contains(
                r,
            ) || r == (TaskRelation { kind, other }),
{
    let edge = TaskRelation { kind, other };
    let more = task::with_edge(relations, kind, other);
    assert forall|r: TaskRelation| #[trigger] more.contains(r) <==> relations.contains(r) || r
        == edge by {
        if relations.contains(r) {
            let k = choose|k: int| 0 <= k < relations.len() && relations[k] == r;
            assert(more[k] == r);
        }
        if r == edge && !task::has_edge(relations, kind, other) {
            assert(more[relations.len() as int] == r);
        }
        if more.contains(r) {
            let k = choose|k: int| 0 <= k < more.len() && more[k] == r;
            if k < relations.len() {
                assert(relations[k] == r);
            }
        }
    }
}

/// A relation that the guard lets through adds its one edge to its family, and
/// leaves the other families as they were.
proof fn lemma_family_after(
    rows: Seq<RelationRow>,
    i: int,
    j: int,
    after_i: RelationRow,
    after_j: RelationRow,
    kind: RelationKind,
    forward: RelationKind,
)
    requires
        0 <= i < rows.len(),
        0 <= j < rows.len(),
        i != j,
        rows_with_edge(rows, i, j, after_i, after_j, kind),
        forward == RelationKind::BlockedBy || forward == RelationKind::ChildOf,
    ensures
        ({
            let after = cycle::family(
                rows.update(i, after_i).update(j, after_j),
                forward,
                forward.mirrored(),
            );
            let before = cycle::family(rows, forward, forward.mirrored());
            match cycle::axis_of(kind, rows[i].id, rows[j].id) {
                Some(axis) => if axis.forward == forward {
                    after == before.insert((axis.lower, axis.upper))
                } else {
                    after == before
                },
                None => after == before,
            }
        }),
{
    let inverse = forward.mirrored();
    let more = rows.update(i, after_i).update(j, after_j);
    let before = cycle::family(rows, forward, inverse);
    let after = cycle::family(more, forward, inverse);
    let new_i = TaskRelation { kind, other: rows[j].id };
    let new_j = TaskRelation { kind: kind.mirrored(), other: rows[i].id };
    lemma_with_edge_contains(rows[i].relations@, kind, rows[j].id);
    lemma_with_edge_contains(rows[j].relations@, kind.mirrored(), rows[i].id);
    assert forall|e: (TaskId, TaskId)| #[trigger] after.contains(e) implies before.contains(e)
        || cycle::states_edge(rows[i].id, new_i, forward, inverse, e.0, e.1)
        || cycle::states_edge(rows[j].id, new_j, forward, inverse, e.0, e.1) by {
        let (a, b) = choose|a: int, b: int|
            0 <= a < more.len() && 0 <= b < more[a].relations@.len()
                && #[trigger] cycle::states_edge(
                more[a].id,
                more[a].relations@[b],
                forward,
                inverse,
                e.0,
                e.1,
            );
        let r = more[a].relations@[b];
        assert(more[a].relations@.contains(r));
        if rows[a].relations@.contains(r) {
            lemma_row_states(rows, a, r, forward, inverse, e.0, e.1);
        }
    }
    assert forall|e: (TaskId, TaskId)| #[trigger] before.contains(e) implies after.contains(e) by {
        let (a, b) = choose|a: int, b: int|
            0 <= a < rows.len() && 0 <= b < rows[a].relations@.len()
                && #[trigger] cycle::states_edge(
                rows[a].id,
                rows[a].relations@[b],
                forward,
                inverse,
                e.0,
                e.1,
            );
        let r = rows[a].relations@[b];
        assert(rows[a].relations@.contains(r));
        assert(more[a].relations@.contains(r));
        lemma_row_states(more, a, r, forward, inverse, e.0, e.1);
    }
    match cycle::axis_of(kind, rows[i].id, rows[j].id) {
        Some(axis) => {
            if axis.forward == forward {
                assert(more[i].relations@.contains(new_i));
                lemma_row_states(more, i, new_i, forward, inverse, axis.lower, axis.upper);
                assert(after.contains((axis.lower, axis.upper)));
                assert(after =~= before.insert((axis.lower, axis.upper)));
            } else {
                assert(after =~= before);
            }
        },
        None => {
            assert(after =~= before);
        },
    }
}

/// Neither family ever gets a cycle: where the relations of all tasks hold
/// none, they hold none after an edge between two tasks that the guard lets
/// through is stored at both ends. An edge of a symmetric kind needs no guard.
pub proof fn law_accepted_relation_closes_no_cycle(
    rows: Seq<RelationRow>,
    i: int,
    j: int,
    after_i: RelationRow,
    after_j: RelationRow,
    kind: RelationKind,
    forward: RelationKind,
)
    requires
        0 <= i < rows.len(),
        0 <= j < rows.len(),
        rows[i].id != rows[j].id,
        rows_with_edge(rows, i, j, after_i, after_j, kind),
        forward == RelationKind::BlockedBy || forward == RelationKind::ChildOf,
        cycle::acyclic(cycle::family(rows, forward, forward.mirrored())),
        match cycle::axis_of(kind, rows[i].id, rows[j].id) {
            Some(axis) => !cycle::reaches(
                cycle::family(rows, axis.forward, axis.inverse),
                axis.upper,
                axis.lower,
            ),
            None => true,
        },
    ensures
        cycle::acyclic(
            cycle::family(
                rows.update(i, after_i).update(j, after_j),
                forward,
                forward.mirrored(),
            ),
        ),
{
    lemma_family_after(rows, i, j, after_i, after_j, kind, forward);
    match cycle::axis_of(kind, rows[i].id, rows[j].id) {
        Some(axis) => {
            if axis.forward == forward {
                cycle::law_guard_is_exact(
                    cycle::family(rows, forward, forward.mirrored()),
                    axis.lower,
                    axis.upper,
                );
            }
        },
        None => {},
    }
}

/// An edge stands at both ends after it was added, and at neither after it was
/// removed.
pub proof fn law_edges_are_mutual(
    of_t: Seq<TaskRelation>,
    of_other: Seq<TaskRelation>,
    kind: RelationKind,
    t: TaskId,
    other: TaskId,
)
    ensures
        task::has_edge(task::with_edge(of_t, kind, other), kind, other),
        task::has_edge(task::with_edge(of_other, kind.mirrored(), t), kind.mirrored(), t),
        !task::has_edge(task::without_edge(of_t, kind, other), kind, other),
        !task::has_edge(
            task::without_edge(of_other, kind.mirrored(), t),
            kind.mirrored(),
            t,
        ),
{
    task::law_removal_undoes_addition(of_t, kind, other);
    task::law_removal_undoes_addition(of_other, kind.mirrored(), t);
}

/// An edge owes one entry where both ends have an issue and its kind has a
/// direction, and none otherwise: added or removed as asked, as a sub-issue of
/// the parent or a dependency of the blocked, queued for the task that asked.
pub proof fn law_edge_owes_its_remote_form(
    me: TaskId,
    kind: RelationKind,
    this: Option<IssueCoords>,
    far: Option<IssueCoords>,
)
    ensures
        ({
            let adds = edge_entries(me, kind, true, this, far);
            let removes = edge_entries(me, kind, false, this, far);
            let owes = this is Some && far is Some && kind != RelationKind::RelatedTo && kind
                != RelationKind::Duplicates;
            &&& adds.len() == if owes {
                1int
            } else {
                0int
            }
            &&& removes.len() == adds.len()
            &&& owes ==> adds[0].task_id == me && removes[0].task_id == me
            &&& owes && kind == RelationKind::ParentOf ==> adds[0].mutation == (
            OutboxMutation::AddSubIssue { parent: this->0, child: far->0 })
                && removes[0].mutation == (OutboxMutation::RemoveSubIssue {
                parent: this->0,
                child: far->0,
            })
            &&& owes && kind == RelationKind::ChildOf ==> adds[0].mutation == (
            OutboxMutation::AddSubIssue { parent: far->0, child: this->0 })
                && removes[0].mutation == (OutboxMutation::RemoveSubIssue {
                parent: far->0,
                child: this->0,
            })
            &&& owes && kind == RelationKind::BlockedBy ==> adds[0].mutation == (
            OutboxMutation::AddBlockedBy { blocked: this->0, blocker: far->0 })
                && removes[0].mutation == (OutboxMutation::RemoveBlockedBy {
                blocked: this->0,
                blocker: far->0,
            })
            &&& owes && kind == RelationKind::Blocks ==> adds[0].mutation == (
            OutboxMutation::AddBlockedBy { blocked: far->0, blocker: this->0 })
                && removes[0].mutation == (OutboxMutation::RemoveBlockedBy {
                blocked: far->0,
                blocker: this->0,
            })
        }),
{
}

/// Once two tasks are linked, the one has the edge and the other its mirror;
/// their other edges, and everything else about them, are as before. A remote
/// form is owed exactly where the edge was not there yet.
pub proof fn law_linked_tasks_carry_the_edge(
    a: AddRelation,
    t: Task,
    other: Task,
    r: TaskRelation,
)
    requires
        a.linked(t, other),
    ensures
        ({
            let edge = TaskRelation { kind: a.kind, other: other.id };
            let back = TaskRelation { kind: a.kind.mirrored(), other: t.id };
            &&& a.t.relations@.contains(r) <==> t.relations@.contains(r) || r == edge
            &&& a.other.relations@.contains(r) <==> other.relations@.contains(r) || r == back
            &&& a.step == AddStep::ReadCoords <==> !t.relations@.contains(edge)
            &&& t.relations@.contains(edge) ==> (a.step matches AddStep::Save(entries)
                && entries@.len() == 0)
            &&& a.t.id == t.id
            &&& a.t.title == t.title
            &&& a.t.body == t.body
            &&& a.t.lifecycle == t.lifecycle
            &&& a.t.sync == t.sync
            &&& a.t.remote == t.remote
            &&& a.other.id == other.id
            &&& a.other.title == other.title
            &&& a.other.body == other.body
            &&& a.other.lifecycle == other.lifecycle
            &&& a.other.sync == other.sync
            &&& a.other.remote == other.remote
        }),
{
    task::law_edges_change_alone(t.relations@, a.kind, other.id, r);
    task::law_edges_change_alone(other.relations@, a.kind.mirrored(), t.id, r);
}

/// Only the relations of a task change when it is related.
pub proof fn law_relating_changes_relations_only(
    after: Task,
    before: Task,
    relations: Seq<TaskRelation>,
)
    requires
        related_as(after, before, relations),
    ensures
        after.relations@ == relations,
        after.id == before.id,
        after.workspace_id == before.workspace_id,
        after.repo_id == before.repo_id,
        after.filing_repo_id == before.filing_repo_id,
        after.hash == before.hash,
        after.title == before.title,
        after.body == before.body,
        after.priority == before.priority,
        after.assignees == before.assignees,
        after.lifecycle == before.lifecycle,
        after.sync == before.sync,
        after.remote == before.remote,
        after.project_item_id == before.project_item_id,
        after.comments == before.comments,
        after.baseline == before.baseline,
{
}

/// A task is not related to itself. An edge with a direction is held against the
/// graph first; any other is stored at once.
pub proof fn law_directed_edges_are_checked(
    cmd: RelationCmd,
    kind: RelationKind,
    t: Task,
    other: Task,
    out: Result<AddRelation, ServiceError>,
)
    requires
        call_ensures(AddRelation::start, (cmd, kind, t, other), out),
    ensures
        out is Err <==> t.id == other.id,
        out matches Err(e) ==> e == ServiceError::SelfRelation,
        out matches Ok(a) ==> {
            &&& a.cmd == cmd
            &&& a.kind == kind
            &&& kind == RelationKind::RelatedTo || kind == RelationKind::Duplicates ==> a.linked(
                t,
                other,
            )
            &&& kind != RelationKind::RelatedTo && kind != RelationKind::Duplicates ==> {
                &&& a.t == t
                &&& a.other == other
                &&& a.step is CheckCycle
                &&& a.step->CheckCycle_0.lower == if kind == RelationKind::BlockedBy || kind
                    == RelationKind::ChildOf {
                    t.id
                } else {
                    other.id
                }
                &&& a.step->CheckCycle_0.upper == if kind == RelationKind::BlockedBy || kind
                    == RelationKind::ChildOf {
                    other.id
                } else {
                    t.id
                }
            }
        },
{
}

/// An edge is refused exactly where its upper end already reaches its lower one,
/// and the request is named as it was given; else both ends carry it.
pub proof fn law_cycles_are_refused(
    a: AddRelation,
    rows: &Vec<RelationRow>,
    out: Result<AddRelation, ServiceError>,
)
    requires
        call_ensures(AddRelation::on_rows, (a, rows), out),
        a.step is CheckCycle,
    ensures
        ({
            let axis = a.step->CheckCycle_0;
            &&& out is Err <==> cycle::reaches(
                cycle::family(rows@, axis.forward, axis.inverse),
                axis.upper,
                axis.lower,
            )
            &&& out matches Err(e) ==> {
                &&& e is RelationCycle
                &&& e->RelationCycle_kind == a.cmd.kind
                &&& e->from == a.cmd.task_id
                &&& e->to == a.cmd.other
            }
            &&& out matches Ok(b) ==> b.kind == a.kind && b.linked(a.t, a.other)
        }),
{
}

/// A new edge queues its remote form, an edge that was removed its removal; both
/// for the task that asked.
pub proof fn law_changed_edge_is_queued(
    a: &mut AddRelation,
    r: &mut RemoveRelation,
    this: &Option<IssueCoords>,
    far: &Option<IssueCoords>,
)
    requires
        call_ensures(AddRelation::on_coords, (a, this, far), ()),
        call_ensures(RemoveRelation::on_coords, (r, this, far), ()),
    ensures
        final(a).step is Save,
        final(a).step->Save_0@ == edge_entries(old(a).t.id, old(a).kind, true, *this, *far),
        final(a).t == old(a).t,
        final(a).other == old(a).other,
        final(r).step is Save,
        final(r).step->Save_0@ == edge_entries(old(r).t.id, old(r).kind, false, *this, *far),
        final(r).t == old(r).t,
        final(r).other == old(r).other,
        final(r).t_changed == old(r).t_changed,
        final(r).other_changed == old(r).other_changed,
{
}

/// Removing an edge takes it from the one task and its mirror from the other, and
/// nothing else; what was there to remove is saved, and a removal is owed only
/// where the task that asked had the edge.
pub proof fn law_removed_edge_leaves_both_ends(
    kind: RelationKind,
    t: Task,
    other: Task,
    out: Result<RemoveRelation, ServiceError>,
    x: TaskRelation,
)
    requires
        call_ensures(RemoveRelation::start, (kind, t, other), out),
    ensures
        out is Err <==> t.id == other.id,
        out matches Err(e) ==> e == ServiceError::SelfRelation,
        out matches Ok(r) ==> {
            let edge = TaskRelation { kind, other: other.id };
            let back = TaskRelation { kind: kind.mirrored(), other: t.id };
            &&& r.t.relations@.contains(x) <==> t.relations@.contains(x) && x != edge
            &&& r.other.relations@.contains(x) <==> other.relations@.contains(x) && x != back
            &&& r.t_changed == t.relations@.contains(edge)
            &&& r.other_changed == other.relations@.contains(back)
            &&& r.t.title == t.title
            &&& r.other.title == other.title
            &&& r.t.id == t.id
            &&& r.other.id == other.id
            &&& r.t_changed ==> r.step == RemoveStep::ReadCoords
            &&& !r.t_changed && r.other_changed ==> (r.step matches RemoveStep::Save(entries)
                && entries@.len() == 0)
            &&& !r.t_changed && !r.other_changed ==> r.step == RemoveStep::Unchanged
        },
{
    task::law_edges_change_alone(t.relations@, kind, other.id, x);
    task::law_edges_change_alone(other.relations@, kind.mirrored(), t.id, x);
}

} // verus!
