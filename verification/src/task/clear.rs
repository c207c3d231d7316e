//! Dropping every relation of a task.
//!
//! Each distinct far end is read once, loses the edges that point back, and is
//! saved with the task where it changed.

use super::relate::{self, plan_relation_entries};
use crate::model::ids::TaskId;
use crate::model::outbox::{IssueCoords, OutboxEntry, OutboxMutation};
use crate::model::task::{self, remove_edge, RelationKind, Task, TaskRelation};
use crate::seqs;
use vstd::prelude::*;

verus! {

/// The other end of dropped edges, and the kinds that point back from it.
#[derive(Debug, PartialEq, Eq)]
pub struct FarEnd {
    pub id: TaskId,
    pub kinds: Vec<RelationKind>,
}

/// The distinct other ends, each where it comes first; `me` is none.
pub open spec fn far_ids(removed: Seq<TaskRelation>, me: TaskId) -> Seq<TaskId>
    decreases removed.len(),
{
    if removed.len() == 0 {
        Seq::empty()
    } else {
        let before = far_ids(removed.drop_last(), me);
        let o = removed.last().other;
        if o == me || before.contains(o) {
            before
        } else {
            before.push(o)
        }
    }
}

/// The kinds that point back from `other`, one for each dropped edge to it.
pub open spec fn back_kinds(removed: Seq<TaskRelation>, other: TaskId) -> Seq<RelationKind>
    decreases removed.len(),
{
    if removed.len() == 0 {
        Seq::empty()
    } else {
        let before = back_kinds(removed.drop_last(), other);
        if removed.last().other == other {
            before.push(removed.last().kind.mirrored())
        } else {
            before
        }
    }
}

fn back_kinds_of(removed: &Vec<TaskRelation>, other: TaskId) -> (out: Vec<RelationKind>)
    ensures
        out@ == back_kinds(removed@, other),
{
    let mut out: Vec<RelationKind> = Vec::new();
    let mut i: usize = 0;
    assert(removed@.take(0) =~= Seq::empty());
    while i < removed.len()
        invariant
            i <= removed.len(),
            out@ == back_kinds(removed@.take(i as int), other),
        decreases removed.len() - i,
    {
        assert(removed@.take(i as int + 1).drop_last() =~= removed@.take(i as int));
        if removed[i].other == other {
            out.push(removed[i].kind.inverse());
        }
        i += 1;
    }
    assert(removed@.take(i as int) =~= removed@);
    out
}

/// `far` are the other ends, with the kinds that point back from each.
pub open spec fn groups(far: Seq<FarEnd>, removed: Seq<TaskRelation>, me: TaskId) -> bool {
    &&& far.len() == far_ids(removed, me).len()
    &&& forall|i: int|
        0 <= i < far.len() ==> (#[trigger] far[i]).id == far_ids(removed, me)[i]
            && far[i].kinds@ == back_kinds(removed, far[i].id)
}

/// Group dropped edges by their other end.
pub fn group_far_ends(removed: &Vec<TaskRelation>, me: TaskId) -> (far: Vec<FarEnd>)
    ensures
        groups(far@, removed@, me),
{
    let mut far: Vec<FarEnd> = Vec::new();
    let mut i: usize = 0;
    assert(removed@.take(0) =~= Seq::empty());
    while i < removed.len()
        invariant
            i <= removed.len(),
            far@.len() == far_ids(removed@.take(i as int), me).len(),
            forall|k: int|
                0 <= k < far@.len() ==> (#[trigger] far@[k]).id == far_ids(
                    removed@.take(i as int),
                    me,
                )[k] && far@[k].kinds@ == back_kinds(removed@, far@[k].id),
        decreases removed.len() - i,
    {
        let ghost ids = far_ids(removed@.take(i as int), me);
        assert(removed@.take(i as int + 1).drop_last() =~= removed@.take(i as int));
        let o = removed[i].other;
        let mut known = o == me;
        let mut j: usize = 0;
        while j < far.len()
            invariant
                j <= far.len(),
                far@.len() == ids.len(),
                forall|k: int| 0 <= k < far@.len() ==> (#[trigger] far@[k]).id == ids[k],
                known == (o == me || exists|k: int| 0 <= k < j && ids[k] == o),
            decreases far.len() - j,
        {
            if far[j].id == o {
                known = true;
            }
            assert(far@[j as int].id == ids[j as int]);
            j += 1;
        }
        assert(known == (o == me || ids.contains(o)));
        if !known {
            far.push(FarEnd { id: o, kinds: back_kinds_of(removed, o) });
        }
        i += 1;
    }
    assert(removed@.take(i as int) =~= removed@);
    far
}

/// The relations without the edges of these kinds to `me`.
pub open spec fn stripped(
    relations: Seq<TaskRelation>,
    kinds: Seq<RelationKind>,
    me: TaskId,
) -> Seq<TaskRelation>
    decreases kinds.len(),
{
    if kinds.len() == 0 {
        relations
    } else {
        task::without_edge(stripped(relations, kinds.drop_last(), me), kinds.last(), me)
    }
}

/// One of the edges stands.
pub open spec fn any_edge(
    relations: Seq<TaskRelation>,
    kinds: Seq<RelationKind>,
    me: TaskId,
) -> bool {
    exists|i: int| 0 <= i < kinds.len() && task::has_edge(relations, #[trigger] kinds[i], me)
}

/// What is stripped is gone, and everything else stays.
proof fn lemma_stripped(
    relations: Seq<TaskRelation>,
    kinds: Seq<RelationKind>,
    me: TaskId,
    kind: RelationKind,
    other: TaskId,
)
    ensures
        task::has_edge(stripped(relations, kinds, me), kind, other) <==> task::has_edge(
            relations,
            kind,
            other,
        ) && !(other == me && kinds.contains(kind)),
    decreases kinds.len(),
{
    if kinds.len() > 0 {
        let last = kinds.last();
        lemma_stripped(relations, kinds.drop_last(), me, kind, other);
        seqs::lemma_filter_contains(
            stripped(relations, kinds.drop_last(), me),
            |r: TaskRelation| r != (TaskRelation { kind: last, other: me }),
            TaskRelation { kind, other },
        );
        if kinds.contains(kind) {
            let i = choose|i: int| 0 <= i < kinds.len() && kinds[i] == kind;
            if i < kinds.len() - 1 {
                assert(kinds.drop_last()[i] == kind);
            }
        }
        if kinds.drop_last().contains(kind) {
            let i = choose|i: int| 0 <= i < kinds.len() - 1 && kinds.drop_last()[i] == kind;
            assert(kinds[i] == kind);
        }
        assert(kinds[kinds.len() - 1] == last);
    }
}

/// Drop the edges of these kinds to `me`; says whether one was there.
pub fn strip_edges(relations: &mut Vec<TaskRelation>, kinds: &Vec<RelationKind>, me: TaskId) -> (changed:
    bool)
    ensures
        final(relations)@ == stripped(old(relations)@, kinds@, me),
        changed == any_edge(old(relations)@, kinds@, me),
{
    let ghost before = relations@;
    let mut changed = false;
    let mut i: usize = 0;
    assert(kinds@.take(0) =~= Seq::empty());
    while i < kinds.len()
        invariant
            i <= kinds.len(),
            relations@ == stripped(before, kinds@.take(i as int), me),
            changed == any_edge(before, kinds@.take(i as int), me),
        decreases kinds.len() - i,
    {
        let ghost seen = kinds@.take(i as int);
        let ghost more = kinds@.take(i as int + 1);
        let was = remove_edge(relations, kinds[i], me);
        proof {
            assert(more.drop_last() =~= seen);
            assert(more.last() == kinds@[i as int]);
            lemma_stripped(before, seen, me, kinds@[i as int], me);
            if any_edge(before, seen, me) {
                let k = choose|k: int|
                    0 <= k < seen.len() && task::has_edge(before, #[trigger] seen[k], me);
                assert(task::has_edge(before, more[k], me));
            }
            if was {
                assert(task::has_edge(before, more[i as int], me));
            }
            if any_edge(before, more, me) {
                let k = choose|k: int|
                    0 <= k < more.len() && task::has_edge(before, #[trigger] more[k], me);
                if k < i {
                    assert(task::has_edge(before, seen[k], me));
                } else if !was {
                    let j = choose|j: int| 0 <= j < seen.len() && seen[j] == kinds@[i as int];
                    assert(task::has_edge(before, seen[j], me));
                }
            }
        }
        if was {
            changed = true;
        }
        i += 1;
    }
    assert(kinds@.take(i as int) =~= kinds@);
    changed
}

/// The coordinates of the issue of a far end that was read.
#[derive(Debug, PartialEq, Eq)]
pub struct EndCoords {
    pub id: TaskId,
    pub coords: Option<IssueCoords>,
}

/// What was read last for the far end `other`, among the first `n`.
pub open spec fn far_coords(ends: Seq<EndCoords>, other: TaskId, n: int) -> Option<IssueCoords>
    decreases n,
{
    if n <= 0 {
        None
    } else if ends[n - 1].id == other {
        ends[n - 1].coords
    } else {
        far_coords(ends, other, n - 1)
    }
}

fn far_coords_of(ends: &Vec<EndCoords>, other: TaskId) -> (out: Option<IssueCoords>)
    ensures
        out == far_coords(ends@, other, ends@.len() as int),
{
    let mut out: Option<IssueCoords> = None;
    let mut i: usize = 0;
    while i < ends.len()
        invariant
            i <= ends.len(),
            out == far_coords(ends@, other, i as int),
        decreases ends.len() - i,
    {
        if ends[i].id == other {
            out = match &ends[i].coords {
                Some(c) => Some(c.clone()),
                None => None,
            };
        }
        i += 1;
    }
    out
}

/// The removals owed for the first `n` dropped edges: one for each edge to
/// another task where both ends have an issue and the kind has a remote form.
pub open spec fn unlinks(
    me: TaskId,
    removed: Seq<TaskRelation>,
    this: Option<IssueCoords>,
    ends: Seq<EndCoords>,
    n: int,
) -> Seq<OutboxEntry>
    decreases n,
{
    if n <= 0 {
        Seq::empty()
    } else {
        let r = removed[n - 1];
        let before = unlinks(me, removed, this, ends, n - 1);
        if r.other == me {
            before
        } else {
            before + relate::edge_entries(
                me,
                r.kind,
                false,
                this,
                far_coords(ends, r.other, ends.len() as int),
            )
        }
    }
}

/// What clearing a task's relations does next.
#[derive(Clone, Copy, Debug, PartialEq, Eq, Structural)]
pub enum ClearStep {
    /// The task had no relation, and nothing is saved.
    Unchanged,
    /// Read this far end and the coordinates of its issue.
    Load(TaskId),
    /// Read the coordinates of the task's own issue.
    ReadCoords,
}

/// Clearing the relations of `t`.
#[derive(Debug, PartialEq, Eq)]
pub struct ClearRelations {
    pub t: Task,
    /// The edges that the task had.
    pub removed: Vec<TaskRelation>,
    pub far: Vec<FarEnd>,
    /// The coordinates of the far ends read so far.
    pub ends: Vec<EndCoords>,
    /// The far ends that lost an edge.
    pub changed: Vec<Task>,
}

/// Everything to save and queue, in one write.
#[derive(Debug, PartialEq, Eq)]
pub struct ClearedRelations {
    pub t: Task,
    pub others: Vec<Task>,
    pub entries: Vec<OutboxEntry>,
}

impl ClearRelations {
    pub open spec fn wf(self) -> bool {
        &&& groups(self.far@, self.removed@, self.t.id)
        &&& self.ends@.len() <= self.far@.len()
    }

    /// What is to be done next.
    pub open spec fn step(self) -> ClearStep {
        if self.removed@.len() == 0 {
            ClearStep::Unchanged
        } else if self.ends@.len() < self.far@.len() {
            ClearStep::Load(self.far@[self.ends@.len() as int].id)
        } else {
            ClearStep::ReadCoords
        }
    }

    /// Begin clearing the relations of a task.
    pub fn start(t: Task) -> (out: Self)
        ensures
            out.wf(),
            relate::related_as(out.t, t, Seq::empty()),
            out.removed == t.relations,
            out.ends@ == Seq::<EndCoords>::empty(),
            out.changed@ == Seq::<Task>::empty(),
    {
        let mut t = t;
        let mut removed: Vec<TaskRelation> = Vec::new();
        std::mem::swap(&mut removed, &mut t.relations);
        let far = group_far_ends(&removed, t.id);
        ClearRelations { t, removed, far, ends: Vec::new(), changed: Vec::new() }
    }

    /// What is to be done next.
    pub fn next(&self) -> (out: ClearStep)
        requires
            self.wf(),
        ensures
            out == self.step(),
    {
        if self.removed.len() == 0 {
            ClearStep::Unchanged
        } else if self.ends.len() < self.far.len() {
            ClearStep::Load(self.far[self.ends.len()].id)
        } else {
            ClearStep::ReadCoords
        }
    }

    /// A far end was read, with the coordinates of its issue: it loses the
    /// edges that point back from the end asked for. Its coordinates count
    /// whether or not it changed.
    pub fn on_far_end(&mut self, other: Task, coords: Option<IssueCoords>)
        requires
            old(self).wf(),
            old(self).step() is Load,
        ensures
            final(self).wf(),
            *final(self) == (ClearRelations {
                ends: final(self).ends,
                changed: final(self).changed,
                ..*old(self)
            }),
            final(self).ends@ == old(self).ends@.push(EndCoords { id: other.id, coords }),
            ({
                let kinds = back_kinds(old(self).removed@, old(self).step()->0);
                if any_edge(other.relations@, kinds, old(self).t.id) {
                    &&& final(self).changed@.len() == old(self).changed@.len() + 1
                    &&& final(self).changed@.drop_last() == old(self).changed@
                    &&& relate::related_as(
                        final(self).changed@.last(),
                        other,
                        stripped(other.relations@, kinds, old(self).t.id),
                    )
                } else {
                    final(self).changed == old(self).changed
                }
            }),
    {
        let mut other = other;
        let at = self.ends.len();
        let lost = strip_edges(&mut other.relations, &self.far[at].kinds, self.t.id);
        self.ends.push(EndCoords { id: other.id, coords });
        if lost {
            self.changed.push(other);
            assert(self.changed@.drop_last() =~= old(self).changed@);
        }
    }

    /// The coordinates of the task's own issue were read.
    pub fn finish(self, this: &Option<IssueCoords>) -> (out: ClearedRelations)
        requires
            self.wf(),
            self.step() == ClearStep::ReadCoords,
        ensures
            out.t == self.t,
            out.others == self.changed,
            out.entries@ == unlinks(
                self.t.id,
                self.removed@,
                *this,
                self.ends@,
                self.removed@.len() as int,
            ),
    {
        let me = self.t.id;
        let mut entries: Vec<OutboxEntry> = Vec::new();
        let mut i: usize = 0;
        while i < self.removed.len()
            invariant
                i <= self.removed.len(),
                me == self.t.id,
                entries@ == unlinks(me, self.removed@, *this, self.ends@, i as int),
            decreases self.removed.len() - i,
        {
            let r: TaskRelation = self.removed[i];
            if r.other != me {
                let there = far_coords_of(&self.ends, r.other);
                let mut planned = plan_relation_entries(me, r.kind, false, this, &there);
                entries.append(&mut planned);
            }
            i += 1;
        }
        ClearedRelations { t: self.t, others: self.changed, entries }
    }
}

proof fn lemma_back_kinds(removed: Seq<TaskRelation>, i: int)
    requires
        0 <= i < removed.len(),
    ensures
        back_kinds(removed, removed[i].other).contains(removed[i].kind.mirrored()),
    decreases removed.len(),
{
    let other = removed[i].other;
    let kind = removed[i].kind.mirrored();
    let before = back_kinds(removed.drop_last(), other);
    let all = back_kinds(removed, other);
    if i == removed.len() - 1 {
        assert(all[before.len() as int] == kind);
    } else {
        assert(removed.drop_last()[i] == removed[i]);
        lemma_back_kinds(removed.drop_last(), i);
        let k = choose|k: int| 0 <= k < before.len() && before[k] == kind;
        assert(all[k] == kind);
    }
}

proof fn lemma_far_ids(removed: Seq<TaskRelation>, me: TaskId)
    ensures
        far_ids(removed, me).no_duplicates(),
        !far_ids(removed, me).contains(me),
        forall|i: int|
            0 <= i < removed.len() && (#[trigger] removed[i]).other != me ==> far_ids(
                removed,
                me,
            ).contains(removed[i].other),
    decreases removed.len(),
{
    if removed.len() > 0 {
        let before = far_ids(removed.drop_last(), me);
        let all = far_ids(removed, me);
        lemma_far_ids(removed.drop_last(), me);
        assert forall|i: int|
            0 <= i < removed.len() && (#[trigger] removed[i]).other != me implies all.contains(
            removed[i].other,
        ) by {
            if i < removed.len() - 1 {
                assert(removed.drop_last()[i] == removed[i]);
                let k = choose|k: int| 0 <= k < before.len() && before[k] == removed[i].other;
                assert(all[k] == removed[i].other);
            } else if !before.contains(removed[i].other) {
                assert(all[before.len() as int] == removed[i].other);
            }
        }
        if all.contains(me) {
            let k = choose|k: int| 0 <= k < all.len() && all[k] == me;
            assert(before[k] == me);
            assert(before.contains(me));
        }
    }
}

/// Clearing leaves no edge dangling: each other end of a dropped edge is read,
/// once, and what it then holds has no edge back for any dropped edge, and
/// every other edge that it had, be it to another task or back of a kind that
/// mirrors no dropped edge.
pub proof fn law_clearing_leaves_no_back_edge(
    removed: Seq<TaskRelation>,
    me: TaskId,
    i: int,
    held: Seq<TaskRelation>,
    kind: RelationKind,
    third: TaskId,
)
    requires
        0 <= i < removed.len(),
        removed[i].other != me,
        third != me,
    ensures
        far_ids(removed, me).contains(removed[i].other),
        far_ids(removed, me).no_duplicates(),
        !task::has_edge(
            stripped(held, back_kinds(removed, removed[i].other), me),
            removed[i].kind.mirrored(),
            me,
        ),
        task::has_edge(stripped(held, back_kinds(removed, removed[i].other), me), kind, third)
            == task::has_edge(held, kind, third),
        !back_kinds(removed, removed[i].other).contains(kind) ==> task::has_edge(
            stripped(held, back_kinds(removed, removed[i].other), me),
            kind,
            me,
        ) == task::has_edge(held, kind, me),
{
    let kinds = back_kinds(removed, removed[i].other);
    lemma_far_ids(removed, me);
    lemma_back_kinds(removed, i);
    lemma_stripped(held, kinds, me, removed[i].kind.mirrored(), me);
    lemma_stripped(held, kinds, me, kind, third);
    lemma_stripped(held, kinds, me, kind, me);
}

/// The other ends to read are the tasks that the dropped edges lead to, the
/// cleared task apart, and no others.
pub proof fn law_far_ends_are_those_of_the_edges(
    removed: Seq<TaskRelation>,
    me: TaskId,
    o: TaskId,
)
    ensures
        far_ids(removed, me).no_duplicates(),
        far_ids(removed, me).contains(o) <==> o != me && exists|i: int|
            0 <= i < removed.len() && (#[trigger] removed[i]).other == o,
{
    lemma_far_ids(removed, me);
    if far_ids(removed, me).contains(o) {
        lemma_far_source(removed, me, o);
    }
}

proof fn lemma_far_source(removed: Seq<TaskRelation>, me: TaskId, o: TaskId)
    requires
        far_ids(removed, me).contains(o),
    ensures
        exists|i: int| 0 <= i < removed.len() && (#[trigger] removed[i]).other == o,
    decreases removed.len(),
{
    let front = removed.drop_last();
    let before = far_ids(front, me);
    let all = far_ids(removed, me);
    let k = choose|k: int| 0 <= k < all.len() && all[k] == o;
    if k < before.len() {
        assert(before[k] == o);
        lemma_far_source(front, me, o);
        let i = choose|i: int| 0 <= i < front.len() && (#[trigger] front[i]).other == o;
        assert(removed[i].other == o);
    } else {
        assert(removed[removed.len() - 1].other == o);
    }
}

proof fn lemma_back_kinds_are_picks(removed: Seq<TaskRelation>, other: TaskId)
    ensures
        back_kinds(removed, other) == seqs::picks(
            removed.len() as int,
            |k: int| removed[k].other == other,
            |k: int| removed[k].kind.mirrored(),
        ),
    decreases removed.len(),
{
    if removed.len() > 0 {
        let front = removed.drop_last();
        lemma_back_kinds_are_picks(front, other);
        seqs::lemma_picks_agree(
            front.len() as int,
            |k: int| front[k].other == other,
            |k: int| removed[k].other == other,
            |k: int| front[k].kind.mirrored(),
            |k: int| removed[k].kind.mirrored(),
        );
    }
}

/// Each dropped edge has its edge back: an end loses one kind for every edge
/// that led to it, a child for a parent and a blocked task for a blocker.
pub proof fn law_every_edge_has_its_way_back(removed: Seq<TaskRelation>, other: TaskId, i: int)
    ensures
        ({
            let leads = |k: int| removed[k].other == other;
            let at = seqs::tally(i, leads) as int;
            &&& back_kinds(removed, other).len() == seqs::tally(removed.len() as int, leads)
            &&& 0 <= i < removed.len() && leads(i) ==> {
                &&& at < back_kinds(removed, other).len()
                &&& removed[i].kind == RelationKind::ParentOf ==> back_kinds(removed, other)[at]
                    == RelationKind::ChildOf
                &&& removed[i].kind == RelationKind::ChildOf ==> back_kinds(removed, other)[at]
                    == RelationKind::ParentOf
                &&& removed[i].kind == RelationKind::BlockedBy ==> back_kinds(removed, other)[at]
                    == RelationKind::Blocks
                &&& removed[i].kind == RelationKind::Blocks ==> back_kinds(removed, other)[at]
                    == RelationKind::BlockedBy
                &&& removed[i].kind == RelationKind::RelatedTo || removed[i].kind
                    == RelationKind::Duplicates ==> back_kinds(removed, other)[at]
                    == removed[i].kind
            }
        }),
{
    let leads = |k: int| removed[k].other == other;
    let item = |k: int| removed[k].kind.mirrored();
    lemma_back_kinds_are_picks(removed, other);
    seqs::lemma_picks(removed.len() as int, leads, item);
}

/// An end counts as changed exactly where it held one of the edges, and what it
/// loses are these edges and no others.
pub proof fn law_stripping_takes_the_edges_out(
    held: Seq<TaskRelation>,
    kinds: Seq<RelationKind>,
    me: TaskId,
    r: TaskRelation,
)
    ensures
        stripped(held, kinds, me).contains(r) <==> held.contains(r) && !(r.other == me
            && kinds.contains(r.kind)),
        any_edge(held, kinds, me) <==> exists|k: RelationKind| #[trigger]
            kinds.contains(k) && held.contains(TaskRelation { kind: k, other: me }),
{
    lemma_stripped(held, kinds, me, r.kind, r.other);
    assert(r == (TaskRelation { kind: r.kind, other: r.other }));
    if any_edge(held, kinds, me) {
        let i = choose|i: int|
            0 <= i < kinds.len() && task::has_edge(held, #[trigger] kinds[i], me);
        assert(kinds.contains(kinds[i]));
    }
    if exists|k: RelationKind| #[trigger]
        kinds.contains(k) && held.contains(TaskRelation { kind: k, other: me }) {
        let k = choose|k: RelationKind| #[trigger]
            kinds.contains(k) && held.contains(TaskRelation { kind: k, other: me });
        let i = choose|i: int| 0 <= i < kinds.len() && kinds[i] == k;
        assert(task::has_edge(held, kinds[i], me));
    }
}

/// The coordinates of an end are those that were read for it last; an end that
/// was not read has none.
pub proof fn law_last_coordinates_count(ends: Seq<EndCoords>, other: TaskId, e: int, n: int)
    requires
        0 <= n <= ends.len(),
    ensures
        0 <= e < n && ends[e].id == other && (forall|k: int|
            e < k < n ==> (#[trigger] ends[k]).id != other) ==> far_coords(ends, other, n)
            == ends[e].coords,
        (forall|k: int| 0 <= k < n ==> (#[trigger] ends[k]).id != other) ==> far_coords(
            ends,
            other,
            n,
        ) is None,
    decreases n,
{
    if n > 0 {
        law_last_coordinates_count(ends, other, e, n - 1);
    }
}

proof fn lemma_unlinks_are_picks(
    me: TaskId,
    removed: Seq<TaskRelation>,
    this: Option<IssueCoords>,
    ends: Seq<EndCoords>,
    n: int,
)
    requires
        n <= removed.len(),
    ensures
        unlinks(me, removed, this, ends, n) == seqs::picks(
            n,
            |k: int|
                {
                    let far = far_coords(ends, removed[k].other, ends.len() as int);
                    removed[k].other != me && relate::edge_entries(
                        me,
                        removed[k].kind,
                        false,
                        this,
                        far,
                    ).len() > 0
                },
            |k: int|
                relate::edge_entries(
                    me,
                    removed[k].kind,
                    false,
                    this,
                    far_coords(ends, removed[k].other, ends.len() as int),
                )[0],
        ),
    decreases n,
{
    if n > 0 {
        lemma_unlinks_are_picks(me, removed, this, ends, n - 1);
        let r = removed[n - 1];
        let before = unlinks(me, removed, this, ends, n - 1);
        let own = relate::edge_entries(
            me,
            r.kind,
            false,
            this,
            far_coords(ends, r.other, ends.len() as int),
        );
        relate::law_edge_owes_its_remote_form(
            me,
            r.kind,
            this,
            far_coords(ends, r.other, ends.len() as int),
        );
        if own.len() > 0 {
            assert(before + own =~= before.push(own[0]));
        } else {
            assert(before + own =~= before);
        }
    }
}

/// Clearing a task queues one removal for each dropped edge to another task
/// whose kind has a direction, where the task and that other end have an issue,
/// in the order of the edges, and nothing else.
pub proof fn law_every_dropped_edge_is_unlinked(
    me: TaskId,
    removed: Seq<TaskRelation>,
    this: Option<IssueCoords>,
    ends: Seq<EndCoords>,
    i: int,
)
    ensures
        ({
            let n = removed.len() as int;
            let entries = unlinks(me, removed, this, ends, n);
            let far = |k: int| far_coords(ends, removed[k].other, ends.len() as int);
            let owes = |k: int|
                {
                    &&& removed[k].other != me
                    &&& this is Some
                    &&& far(k) is Some
                    &&& removed[k].kind != RelationKind::RelatedTo
                    &&& removed[k].kind != RelationKind::Duplicates
                };
            let at = seqs::tally(i, owes) as int;
            &&& entries.len() == seqs::tally(n, owes)
            &&& 0 <= i < n && owes(i) ==> {
                &&& at < entries.len()
                &&& entries[at].task_id == me
                &&& removed[i].kind == RelationKind::ParentOf ==> entries[at].mutation == (
                OutboxMutation::RemoveSubIssue { parent: this->0, child: far(i)->0 })
                &&& removed[i].kind == RelationKind::ChildOf ==> entries[at].mutation == (
                OutboxMutation::RemoveSubIssue { parent: far(i)->0, child: this->0 })
                &&& removed[i].kind == RelationKind::BlockedBy ==> entries[at].mutation == (
                OutboxMutation::RemoveBlockedBy { blocked: this->0, blocker: far(i)->0 })
                &&& removed[i].kind == RelationKind::Blocks ==> entries[at].mutation == (
                OutboxMutation::RemoveBlockedBy { blocked: far(i)->0, blocker: this->0 })
            }
        }),
{
    let n = removed.len() as int;
    let far = |k: int| far_coords(ends, removed[k].other, ends.len() as int);
    let owes = |k: int|
        {
            &&& removed[k].other != me
            &&& this is Some
            &&& far(k) is Some
            &&& removed[k].kind != RelationKind::RelatedTo
            &&& removed[k].kind != RelationKind::Duplicates
        };
    let keep = |k: int|
        {
            let far = far_coords(ends, removed[k].other, ends.len() as int);
            removed[k].other != me && relate::edge_entries(
                me,
                removed[k].kind,
                false,
                this,
                far,
            ).len() > 0
        };
    let item = |k: int|
        relate::edge_entries(
            me,
            removed[k].kind,
            false,
            this,
            far_coords(ends, removed[k].other, ends.len() as int),
        )[0];
    lemma_unlinks_are_picks(me, removed, this, ends, n);
    assert forall|k: int| 0 <= k < n implies #[trigger] keep(k) == owes(k) by {
        relate::law_edge_owes_its_remote_form(me, removed[k].kind, this, far(k));
    }
    seqs::lemma_picks_agree(n, keep, owes, item, item);
    seqs::lemma_picks(n, owes, item);
    if 0 <= i < n && owes(i) {
        relate::law_edge_owes_its_remote_form(me, removed[i].kind, this, far(i));
    }
}

/// A task without relations is left alone; else its far ends are read one after
/// the other, and then its own coordinates.
pub proof fn law_far_ends_are_read_in_turn(c: ClearRelations)
    requires
        c.wf(),
    ensures
        c.removed@.len() == 0 ==> c.step() == ClearStep::Unchanged,
        c.removed@.len() > 0 && c.ends@.len() < c.far@.len() ==> c.step() == ClearStep::Load(
            far_ids(c.removed@, c.t.id)[c.ends@.len() as int],
        ),
        c.removed@.len() > 0 && c.ends@.len() == c.far@.len() ==> c.step()
            == ClearStep::ReadCoords,
        c.far@.len() == far_ids(c.removed@, c.t.id).len(),
{
}

/// Clearing drops every edge of the task and nothing else about it.
pub proof fn law_clearing_drops_every_edge(t: Task, out: ClearRelations)
    requires
        call_ensures(ClearRelations::start, (t,), out),
    ensures
        out.t.relations@.len() == 0,
        out.t.id == t.id,
        out.t.title == t.title,
        out.t.body == t.body,
        out.t.sync == t.sync,
        out.t.remote == t.remote,
        out.t.comments == t.comments,
        out.removed == t.relations,
        out.ends@.len() == 0,
        out.changed@.len() == 0,
{
}

/// A far end that was read loses its edges back to the cleared task and is saved
/// where it had one; its coordinates count either way.
pub proof fn law_far_end_loses_its_edges_back(
    c: &mut ClearRelations,
    other: Task,
    coords: Option<IssueCoords>,
    x: TaskRelation,
)
    requires
        old(c).wf(),
        old(c).step() is Load,
        call_ensures(ClearRelations::on_far_end, (c, other, coords), ()),
    ensures
        ({
            let kinds = back_kinds(old(c).removed@, old(c).step()->0);
            let had = exists|k: RelationKind| #[trigger]
                kinds.contains(k) && other.relations@.contains(
                    TaskRelation { kind: k, other: old(c).t.id },
                );
            let last = final(c).changed@.last();
            &&& final(c).t == old(c).t
            &&& final(c).removed == old(c).removed
            &&& final(c).ends@ == old(c).ends@.push(EndCoords { id: other.id, coords })
            &&& !had ==> final(c).changed == old(c).changed
            &&& had ==> {
                &&& final(c).changed@.len() == old(c).changed@.len() + 1
                &&& final(c).changed@.drop_last() == old(c).changed@
                &&& last.id == other.id
                &&& last.title == other.title
                &&& last.relations@.contains(x) <==> other.relations@.contains(x) && !(x.other
                    == old(c).t.id && kinds.contains(x.kind))
            }
        }),
{
    let kinds = back_kinds(old(c).removed@, old(c).step()->0);
    law_stripping_takes_the_edges_out(other.relations@, kinds, old(c).t.id, x);
}

/// What a clearing saves is the cleared task and every far end that changed, and
/// what it queues are the removals of the dropped edges.
pub proof fn law_clearing_saves_what_changed(
    c: ClearRelations,
    this: &Option<IssueCoords>,
    out: ClearedRelations,
)
    requires
        call_ensures(ClearRelations::finish, (c, this), out),
    ensures
        out.t == c.t,
        out.others == c.changed,
        out.entries@ == unlinks(
            c.t.id,
            c.removed@,
            *this,
            c.ends@,
            c.removed@.len() as int,
        ),
{
}

} // verus!
