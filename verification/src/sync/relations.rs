//! Aligning a task's relations with those of its remote issue.

use super::enqueue::{self, relation_mutation};
use crate::model::ids::TaskId;
use crate::model::outbox::{IssueCoords, OutboxEntry, OutboxMutation};
use crate::model::task::{self, add_edge, remove_edge, RelationKind, TaskRelation};
use crate::seqs;
use vstd::prelude::*;

verus! {

/// What the alignment reads and changes of a related task.
#[derive(Debug, PartialEq, Eq)]
pub struct Neighbor {
    pub id: TaskId,
    pub issue_backed: bool,
    pub relations: Vec<TaskRelation>,
}

/// The far ends of the edges of one kind, in order.
pub open spec fn far_ends(relations: Seq<TaskRelation>, kind: RelationKind) -> Seq<TaskId>
    decreases relations.len(),
{
    if relations.len() == 0 {
        Seq::empty()
    } else if relations.last().kind == kind {
        far_ends(relations.drop_last(), kind).push(relations.last().other)
    } else {
        far_ends(relations.drop_last(), kind)
    }
}

/// Another task that the edges of one kind do not lead to.
pub open spec fn lacks(me: TaskId, relations: Seq<TaskRelation>, kind: RelationKind) -> spec_fn(
    TaskId,
) -> bool {
    |o: TaskId| o != me && !task::has_edge(relations, kind, o)
}

/// Another task that the remote does not name.
pub open spec fn unwanted(me: TaskId, desired: Seq<TaskId>) -> spec_fn(TaskId) -> bool {
    |o: TaskId| o != me && !desired.contains(o)
}

/// What the remote has and the task has not, in the remote's order.
pub open spec fn missing(
    me: TaskId,
    relations: Seq<TaskRelation>,
    kind: RelationKind,
    desired: Seq<TaskId>,
) -> Seq<TaskId> {
    desired.filter(lacks(me, relations, kind))
}

/// What the task has and the remote has not, in the task's order.
pub open spec fn surplus(
    me: TaskId,
    relations: Seq<TaskRelation>,
    kind: RelationKind,
    desired: Seq<TaskId>,
) -> Seq<TaskId> {
    far_ends(relations, kind).filter(unwanted(me, desired))
}

/// Some neighbor is `id`, and it has an issue.
pub open spec fn backed(neighbors: Seq<Neighbor>, id: TaskId) -> bool {
    exists|i: int|
        0 <= i < neighbors.len() && (#[trigger] neighbors[i]).id == id && neighbors[i].issue_backed
}

/// The relations with an edge to each of `others` added.
pub open spec fn add_all(
    relations: Seq<TaskRelation>,
    kind: RelationKind,
    others: Seq<TaskId>,
) -> Seq<TaskRelation>
    decreases others.len(),
{
    if others.len() == 0 {
        relations
    } else {
        task::with_edge(add_all(relations, kind, others.drop_last()), kind, others.last())
    }
}

/// The relations without the edges to those of `others` that have an issue.
pub open spec fn drop_all(
    relations: Seq<TaskRelation>,
    kind: RelationKind,
    others: Seq<TaskId>,
    neighbors: Seq<Neighbor>,
) -> Seq<TaskRelation>
    decreases others.len(),
{
    if others.len() == 0 {
        relations
    } else {
        let before = drop_all(relations, kind, others.drop_last(), neighbors);
        if backed(neighbors, others.last()) {
            task::without_edge(before, kind, others.last())
        } else {
            before
        }
    }
}

/// The task's relations once one family of them is aligned: what the remote
/// has is added, what it dropped is removed where the far end has an issue.
pub open spec fn aligned(
    me: TaskId,
    relations: Seq<TaskRelation>,
    kind: RelationKind,
    desired: Seq<TaskId>,
    neighbors: Seq<Neighbor>,
) -> Seq<TaskRelation> {
    drop_all(
        add_all(relations, kind, missing(me, relations, kind, desired)),
        kind,
        surplus(me, relations, kind, desired),
        neighbors,
    )
}

/// Whether the alignment changes an edge of the task.
pub open spec fn realigns(
    me: TaskId,
    relations: Seq<TaskRelation>,
    kind: RelationKind,
    desired: Seq<TaskId>,
    neighbors: Seq<Neighbor>,
) -> bool {
    ||| missing(me, relations, kind, desired).len() > 0
    ||| exists|i: int|
        0 <= i < surplus(me, relations, kind, desired).len() && backed(
            neighbors,
            #[trigger] surplus(me, relations, kind, desired)[i],
        )
}

/// A neighbor's relations once the family is aligned: it carries the mirrored
/// edge to a task that gained one, and loses it to one that lost it.
pub open spec fn aligned_neighbor(
    me: TaskId,
    relations: Seq<TaskRelation>,
    kind: RelationKind,
    inverse: RelationKind,
    desired: Seq<TaskId>,
    id: TaskId,
    issue_backed: bool,
    held: Seq<TaskRelation>,
) -> Seq<TaskRelation> {
    if missing(me, relations, kind, desired).contains(id) {
        task::with_edge(held, inverse, me)
    } else if issue_backed && surplus(me, relations, kind, desired).contains(id) {
        task::without_edge(held, inverse, me)
    } else {
        held
    }
}

fn holds(list: &Vec<TaskId>, id: TaskId) -> (yes: bool)
    ensures
        yes == list@.contains(id),
{
    let mut i: usize = 0;
    while i < list.len()
        invariant
            i <= list.len(),
            forall|k: int| 0 <= k < i ==> list@[k] != id,
        decreases list.len() - i,
    {
        if list[i] == id {
            assert(list@[i as int] == id);
            return true;
        }
        i += 1;
    }
    false
}

/// The tasks that the remote adds to one family of relations.
pub fn missing_of(
    me: TaskId,
    relations: &Vec<TaskRelation>,
    kind: RelationKind,
    desired: &Vec<TaskId>,
) -> (out: Vec<TaskId>)
    ensures
        out@ == missing(me, relations@, kind, desired@),
{
    let ghost keep = lacks(me, relations@, kind);
    let mut out: Vec<TaskId> = Vec::new();
    let mut i: usize = 0;
    assert(desired@.take(0).filter(keep) =~= Seq::empty()) by {
        reveal(Seq::filter);
    }
    while i < desired.len()
        invariant
            i <= desired.len(),
            keep == lacks(me, relations@, kind),
            out@ == desired@.take(i as int).filter(keep),
        decreases desired.len() - i,
    {
        proof {
            reveal(Seq::filter);
            assert(desired@.take(i as int + 1).drop_last() =~= desired@.take(i as int));
        }
        if desired[i] != me && !task::edge_stands(relations, kind, desired[i]) {
            out.push(desired[i]);
        }
        i += 1;
    }
    assert(desired@.take(i as int) =~= desired@);
    out
}

/// The tasks that the remote dropped from one family of relations.
pub fn surplus_of(
    me: TaskId,
    relations: &Vec<TaskRelation>,
    kind: RelationKind,
    desired: &Vec<TaskId>,
) -> (out: Vec<TaskId>)
    ensures
        out@ == surplus(me, relations@, kind, desired@),
{
    let ghost keep = unwanted(me, desired@);
    let mut out: Vec<TaskId> = Vec::new();
    let mut i: usize = 0;
    assert(far_ends(relations@.take(0), kind).filter(keep) =~= Seq::empty()) by {
        reveal(Seq::filter);
    }
    while i < relations.len()
        invariant
            i <= relations.len(),
            keep == unwanted(me, desired@),
            out@ == far_ends(relations@.take(i as int), kind).filter(keep),
        decreases relations.len() - i,
    {
        let r: TaskRelation = relations[i];
        proof {
            reveal(Seq::filter);
            let longer = relations@.take(i as int + 1);
            assert(longer.drop_last() =~= relations@.take(i as int));
            assert(longer.last() == r);
            let before = far_ends(relations@.take(i as int), kind);
            assert(before.push(r.other).drop_last() =~= before);
        }
        if r.kind == kind && r.other != me && !holds(desired, r.other) {
            out.push(r.other);
        }
        i += 1;
    }
    assert(relations@.take(i as int) =~= relations@);
    out
}

fn is_backed(neighbors: &Vec<Neighbor>, id: TaskId) -> (yes: bool)
    ensures
        yes == backed(neighbors@, id),
{
    let mut i: usize = 0;
    while i < neighbors.len()
        invariant
            i <= neighbors.len(),
            forall|k: int|
                0 <= k < i ==> !((#[trigger] neighbors@[k]).id == id && neighbors@[k].issue_backed),
        decreases neighbors.len() - i,
    {
        if neighbors[i].id == id && neighbors[i].issue_backed {
            assert(neighbors@[i as int].id == id);
            return true;
        }
        i += 1;
    }
    false
}

/// Align one family of a task's relations, and the mirrored edges of its
/// neighbors, with what the remote has. `neighbors` holds every task of
/// `missing_of` and `surplus_of`. Says whether the task's own edges changed.
pub fn reconcile_family(
    me: TaskId,
    relations: &mut Vec<TaskRelation>,
    kind: RelationKind,
    inverse: RelationKind,
    desired: &Vec<TaskId>,
    neighbors: &mut Vec<Neighbor>,
) -> (changed: bool)
    ensures
        final(relations)@ == aligned(me, old(relations)@, kind, desired@, old(neighbors)@),
        changed == realigns(me, old(relations)@, kind, desired@, old(neighbors)@),
        final(neighbors)@.len() == old(neighbors)@.len(),
        forall|i: int|
            0 <= i < old(neighbors)@.len() ==> {
                &&& (#[trigger] final(neighbors)@[i]).id == old(neighbors)@[i].id
                &&& final(neighbors)@[i].issue_backed == old(neighbors)@[i].issue_backed
                &&& final(neighbors)@[i].relations@ == aligned_neighbor(
                    me,
                    old(relations)@,
                    kind,
                    inverse,
                    desired@,
                    old(neighbors)@[i].id,
                    old(neighbors)@[i].issue_backed,
                    old(neighbors)@[i].relations@,
                )
            },
{
    let ghost before = relations@;
    let ghost around = neighbors@;
    let adds = missing_of(me, relations, kind, desired);
    let drops = surplus_of(me, relations, kind, desired);
    let mut changed: bool = adds.len() > 0;
    let mut i: usize = 0;
    assert(adds@.take(0) =~= Seq::empty());
    while i < adds.len()
        invariant
            i <= adds.len(),
            relations@ == add_all(before, kind, adds@.take(i as int)),
        decreases adds.len() - i,
    {
        assert(adds@.take(i as int + 1).drop_last() =~= adds@.take(i as int));
        add_edge(relations, kind, adds[i]);
        i += 1;
    }
    assert(adds@.take(i as int) =~= adds@);
    let ghost grown = relations@;
    let mut j: usize = 0;
    assert(drops@.take(0) =~= Seq::empty());
    while j < drops.len()
        invariant
            j <= drops.len(),
            neighbors@ == around,
            relations@ == drop_all(grown, kind, drops@.take(j as int), around),
            changed == (adds@.len() > 0 || exists|k: int|
                0 <= k < j && backed(around, #[trigger] drops@[k])),
        decreases drops.len() - j,
    {
        assert(drops@.take(j as int + 1).drop_last() =~= drops@.take(j as int));
        if is_backed(neighbors, drops[j]) {
            let _ = remove_edge(relations, kind, drops[j]);
            changed = true;
            assert(backed(around, drops@[j as int]));
        }
        j += 1;
    }
    assert(drops@.take(j as int) =~= drops@);
    let mut k: usize = 0;
    while k < neighbors.len()
        invariant
            k <= neighbors.len(),
            neighbors@.len() == around.len(),
            adds@ == missing(me, before, kind, desired@),
            drops@ == surplus(me, before, kind, desired@),
            forall|i: int|
                0 <= i < k ==> {
                    &&& (#[trigger] neighbors@[i]).id == around[i].id
                    &&& neighbors@[i].issue_backed == around[i].issue_backed
                    &&& neighbors@[i].relations@ == aligned_neighbor(
                        me,
                        before,
                        kind,
                        inverse,
                        desired@,
                        around[i].id,
                        around[i].issue_backed,
                        around[i].relations@,
                    )
                },
            forall|i: int| k <= i < around.len() ==> #[trigger] neighbors@[i] == around[i],
        decreases neighbors.len() - k,
    {
        assert(neighbors@[k as int] == around[k as int]);
        let id = neighbors[k].id;
        let issue_backed = neighbors[k].issue_backed;
        let mut mine = copy_relations(&neighbors[k].relations);
        if holds(&adds, id) {
            add_edge(&mut mine, inverse, me);
        } else if issue_backed && holds(&drops, id) {
            let _ = remove_edge(&mut mine, inverse, me);
        }
        neighbors.set(k, Neighbor { id, issue_backed, relations: mine });
        k += 1;
    }
    changed
}

fn copy_relations(list: &Vec<TaskRelation>) -> (out: Vec<TaskRelation>)
    ensures
        out@ == list@,
{
    let mut out: Vec<TaskRelation> = Vec::new();
    let mut i: usize = 0;
    while i < list.len()
        invariant
            i <= list.len(),
            out@ == list@.take(i as int),
        decreases list.len() - i,
    {
        out.push(list[i]);
        assert(out@ =~= list@.take(i as int + 1));
        i += 1;
    }
    assert(list@.take(i as int) =~= list@);
    out
}

proof fn lemma_with_edge(
    relations: Seq<TaskRelation>,
    kind: RelationKind,
    other: TaskId,
    k: RelationKind,
    o: TaskId,
)
    ensures
        task::has_edge(task::with_edge(relations, kind, other), k, o) <==> task::has_edge(
            relations,
            k,
            o,
        ) || (k == kind && o == other),
{
    let edge = TaskRelation { kind: k, other: o };
    let more = task::with_edge(relations, kind, other);
    if !task::has_edge(relations, kind, other) {
        if relations.contains(edge) {
            let i = choose|i: int| 0 <= i < relations.len() && relations[i] == edge;
            assert(more[i] == edge);
        }
        assert(more[relations.len() as int] == (TaskRelation { kind, other }));
    }
}

proof fn lemma_without_edge(
    relations: Seq<TaskRelation>,
    kind: RelationKind,
    other: TaskId,
    k: RelationKind,
    o: TaskId,
)
    ensures
        task::has_edge(task::without_edge(relations, kind, other), k, o) <==> task::has_edge(
            relations,
            k,
            o,
        ) && !(k == kind && o == other),
{
    seqs::lemma_filter_contains(
        relations,
        |r: TaskRelation| r != (TaskRelation { kind, other }),
        TaskRelation { kind: k, other: o },
    );
}

proof fn lemma_add_all(
    relations: Seq<TaskRelation>,
    kind: RelationKind,
    others: Seq<TaskId>,
    k: RelationKind,
    o: TaskId,
)
    ensures
        task::has_edge(add_all(relations, kind, others), k, o) <==> task::has_edge(relations, k, o)
            || (k == kind && others.contains(o)),
    decreases others.len(),
{
    if others.len() > 0 {
        let rest = others.drop_last();
        lemma_add_all(relations, kind, rest, k, o);
        lemma_with_edge(add_all(relations, kind, rest), kind, others.last(), k, o);
        lemma_last(others, o);
    }
}

proof fn lemma_drop_all(
    relations: Seq<TaskRelation>,
    kind: RelationKind,
    others: Seq<TaskId>,
    neighbors: Seq<Neighbor>,
    k: RelationKind,
    o: TaskId,
)
    ensures
        task::has_edge(drop_all(relations, kind, others, neighbors), k, o) <==> task::has_edge(
            relations,
            k,
            o,
        ) && !(k == kind && others.contains(o) && backed(neighbors, o)),
    decreases others.len(),
{
    if others.len() > 0 {
        let rest = others.drop_last();
        lemma_drop_all(relations, kind, rest, neighbors, k, o);
        lemma_without_edge(
            drop_all(relations, kind, rest, neighbors),
            kind,
            others.last(),
            k,
            o,
        );
        lemma_last(others, o);
    }
}

proof fn lemma_last(others: Seq<TaskId>, o: TaskId)
    requires
        others.len() > 0,
    ensures
        others.contains(o) <==> others.drop_last().contains(o) || others.last() == o,
{
    let rest = others.drop_last();
    if others.contains(o) {
        let i = choose|i: int| 0 <= i < others.len() && others[i] == o;
        if i < rest.len() {
            assert(rest[i] == o);
        }
    }
    if rest.contains(o) {
        let i = choose|i: int| 0 <= i < rest.len() && rest[i] == o;
        assert(others[i] == o);
    }
    assert(others[others.len() - 1] == others.last());
}

proof fn lemma_far_ends(relations: Seq<TaskRelation>, kind: RelationKind, o: TaskId)
    ensures
        far_ends(relations, kind).contains(o) <==> task::has_edge(relations, kind, o),
    decreases relations.len(),
{
    if relations.len() > 0 {
        let rest = relations.drop_last();
        let last = relations.last();
        let edge = TaskRelation { kind, other: o };
        lemma_far_ends(rest, kind, o);
        if relations.contains(edge) {
            let i = choose|i: int| 0 <= i < relations.len() && relations[i] == edge;
            if i < rest.len() {
                assert(rest[i] == edge);
            }
        }
        if rest.contains(edge) {
            let i = choose|i: int| 0 <= i < rest.len() && rest[i] == edge;
            assert(relations[i] == edge);
        }
        if last.kind == kind {
            let ends = far_ends(relations, kind);
            assert(ends.drop_last() =~= far_ends(rest, kind));
            lemma_last(ends, o);
            assert(relations[relations.len() - 1] == last);
        }
    }
}

/// After the alignment the task has an edge to another exactly where the
/// remote has it, or where it had one to a task without an issue, which the
/// remote cannot express. Edges of other kinds are as before.
pub proof fn law_alignment_follows_remote(
    me: TaskId,
    relations: Seq<TaskRelation>,
    kind: RelationKind,
    desired: Seq<TaskId>,
    neighbors: Seq<Neighbor>,
    k: RelationKind,
    o: TaskId,
)
    ensures
        o != me ==> (task::has_edge(aligned(me, relations, kind, desired, neighbors), kind, o)
            <==> desired.contains(o) || (task::has_edge(relations, kind, o) && !backed(
            neighbors,
            o,
        ))),
        k != kind || o == me ==> (task::has_edge(
            aligned(me, relations, kind, desired, neighbors),
            k,
            o,
        ) <==> task::has_edge(relations, k, o)),
{
    let adds = missing(me, relations, kind, desired);
    let drops = surplus(me, relations, kind, desired);
    let grown = add_all(relations, kind, adds);
    seqs::lemma_filter_contains(desired, lacks(me, relations, kind), o);
    seqs::lemma_filter_contains(far_ends(relations, kind), unwanted(me, desired), o);
    lemma_far_ends(relations, kind, o);
    lemma_add_all(relations, kind, adds, kind, o);
    lemma_add_all(relations, kind, adds, k, o);
    lemma_drop_all(grown, kind, drops, neighbors, kind, o);
    lemma_drop_all(grown, kind, drops, neighbors, k, o);
}

/// Aligning twice with the same remote changes nothing the second time.
pub proof fn law_alignment_settles(
    me: TaskId,
    relations: Seq<TaskRelation>,
    kind: RelationKind,
    desired: Seq<TaskId>,
    neighbors: Seq<Neighbor>,
)
    ensures
        !realigns(
            me,
            aligned(me, relations, kind, desired, neighbors),
            kind,
            desired,
            neighbors,
        ),
{
    let after = aligned(me, relations, kind, desired, neighbors);
    let adds = missing(me, after, kind, desired);
    let drops = surplus(me, after, kind, desired);
    if adds.len() > 0 {
        let o = adds[0];
        assert(adds.contains(o));
        seqs::lemma_filter_contains(desired, lacks(me, after, kind), o);
        law_alignment_follows_remote(me, relations, kind, desired, neighbors, kind, o);
    }
    if exists|i: int| 0 <= i < drops.len() && backed(neighbors, #[trigger] drops[i]) {
        let i = choose|i: int| 0 <= i < drops.len() && backed(neighbors, #[trigger] drops[i]);
        let o = drops[i];
        assert(drops.contains(o));
        seqs::lemma_filter_contains(far_ends(after, kind), unwanted(me, desired), o);
        lemma_far_ends(after, kind, o);
        law_alignment_follows_remote(me, relations, kind, desired, neighbors, kind, o);
    }
}

/// Every neighbor is the same task, with or without an issue as before.
pub open spec fn same_backing(a: Seq<Neighbor>, b: Seq<Neighbor>) -> bool {
    a.len() == b.len() && forall|i: int|
        0 <= i < a.len() ==> (#[trigger] a[i]).id == b[i].id && a[i].issue_backed
            == b[i].issue_backed
}

proof fn lemma_same_backing(a: Seq<Neighbor>, b: Seq<Neighbor>, id: TaskId)
    requires
        same_backing(a, b),
    ensures
        backed(a, id) == backed(b, id),
{
    if backed(a, id) {
        let i = choose|i: int| 0 <= i < a.len() && (#[trigger] a[i]).id == id && a[i].issue_backed;
        assert(b[i].id == id);
    }
    if backed(b, id) {
        let i = choose|i: int| 0 <= i < b.len() && (#[trigger] b[i]).id == id && b[i].issue_backed;
        assert(a[i].id == id);
    }
}

proof fn lemma_drop_all_same_backing(
    relations: Seq<TaskRelation>,
    kind: RelationKind,
    others: Seq<TaskId>,
    a: Seq<Neighbor>,
    b: Seq<Neighbor>,
)
    requires
        same_backing(a, b),
    ensures
        drop_all(relations, kind, others, a) == drop_all(relations, kind, others, b),
    decreases others.len(),
{
    if others.len() > 0 {
        lemma_drop_all_same_backing(relations, kind, others.drop_last(), a, b);
        lemma_same_backing(a, b, others.last());
    }
}

/// The task's relations once children and then blockers are aligned.
pub open spec fn aligned_both(
    me: TaskId,
    relations: Seq<TaskRelation>,
    children: Seq<TaskId>,
    blockers: Seq<TaskId>,
    neighbors: Seq<Neighbor>,
) -> Seq<TaskRelation> {
    aligned(
        me,
        aligned(me, relations, RelationKind::ParentOf, children, neighbors),
        RelationKind::BlockedBy,
        blockers,
        neighbors,
    )
}

/// The tasks whose mirrored edges an alignment may touch: for each family what
/// the remote adds, then what it dropped.
pub fn touched_tasks(
    me: TaskId,
    relations: &Vec<TaskRelation>,
    children: &Vec<TaskId>,
    blockers: &Vec<TaskId>,
) -> (out: Vec<TaskId>)
    ensures
        out@ == missing(me, relations@, RelationKind::ParentOf, children@) + surplus(
            me,
            relations@,
            RelationKind::ParentOf,
            children@,
        ) + missing(me, relations@, RelationKind::BlockedBy, blockers@) + surplus(
            me,
            relations@,
            RelationKind::BlockedBy,
            blockers@,
        ),
{
    let mut out = missing_of(me, relations, RelationKind::ParentOf, children);
    let mut dropped = surplus_of(me, relations, RelationKind::ParentOf, children);
    out.append(&mut dropped);
    let mut added = missing_of(me, relations, RelationKind::BlockedBy, blockers);
    out.append(&mut added);
    let mut gone = surplus_of(me, relations, RelationKind::BlockedBy, blockers);
    out.append(&mut gone);
    out
}

/// Align a task's children and blockers, and the mirrored edges of its
/// neighbors, with what the remote has. `neighbors` holds every task of
/// `touched_tasks`. Says whether the task's own edges changed.
pub fn reconcile_relations_inbound(
    me: TaskId,
    relations: &mut Vec<TaskRelation>,
    children: &Vec<TaskId>,
    blockers: &Vec<TaskId>,
    neighbors: &mut Vec<Neighbor>,
) -> (changed: bool)
    ensures
        final(relations)@ == aligned_both(
            me,
            old(relations)@,
            children@,
            blockers@,
            old(neighbors)@,
        ),
        ({
            let mid = aligned(
                me,
                old(relations)@,
                RelationKind::ParentOf,
                children@,
                old(neighbors)@,
            );
            &&& changed == (realigns(
                me,
                old(relations)@,
                RelationKind::ParentOf,
                children@,
                old(neighbors)@,
            ) || realigns(me, mid, RelationKind::BlockedBy, blockers@, old(neighbors)@))
            &&& same_backing(final(neighbors)@, old(neighbors)@)
            &&& forall|i: int|
                0 <= i < old(neighbors)@.len() ==> (#[trigger] final(neighbors)@[i]).relations@
                    == aligned_neighbor(
                    me,
                    mid,
                    RelationKind::BlockedBy,
                    RelationKind::Blocks,
                    blockers@,
                    old(neighbors)@[i].id,
                    old(neighbors)@[i].issue_backed,
                    aligned_neighbor(
                        me,
                        old(relations)@,
                        RelationKind::ParentOf,
                        RelationKind::ChildOf,
                        children@,
                        old(neighbors)@[i].id,
                        old(neighbors)@[i].issue_backed,
                        old(neighbors)@[i].relations@,
                    ),
                )
        }),
{
    let ghost before = relations@;
    let ghost around = neighbors@;
    let first = reconcile_family(
        me,
        relations,
        RelationKind::ParentOf,
        RelationKind::ChildOf,
        children,
        neighbors,
    );
    let ghost mid = relations@;
    let ghost moved = neighbors@;
    let second = reconcile_family(
        me,
        relations,
        RelationKind::BlockedBy,
        RelationKind::Blocks,
        blockers,
        neighbors,
    );
    proof {
        assert(same_backing(moved, around));
        let drops = surplus(me, mid, RelationKind::BlockedBy, blockers@);
        lemma_drop_all_same_backing(
            add_all(
                mid,
                RelationKind::BlockedBy,
                missing(me, mid, RelationKind::BlockedBy, blockers@),
            ),
            RelationKind::BlockedBy,
            drops,
            moved,
            around,
        );
        assert forall|i: int| 0 <= i < drops.len() implies backed(moved, #[trigger] drops[i])
            == backed(around, drops[i]) by {
            lemma_same_backing(moved, around, drops[i]);
        }
        assert forall|i: int| 0 <= i < around.len() implies (#[trigger] neighbors@[i]).id
            == around[i].id && neighbors@[i].issue_backed == around[i].issue_backed by {
            assert(moved[i].id == around[i].id);
        }
        assert forall|i: int| 0 <= i < around.len() implies (
        #[trigger] neighbors@[i]).relations@ == aligned_neighbor(
            me,
            mid,
            RelationKind::BlockedBy,
            RelationKind::Blocks,
            blockers@,
            around[i].id,
            around[i].issue_backed,
            aligned_neighbor(
                me,
                before,
                RelationKind::ParentOf,
                RelationKind::ChildOf,
                children@,
                around[i].id,
                around[i].issue_backed,
                around[i].relations@,
            ),
        ) by {
            assert(moved[i].id == around[i].id);
        }
    }
    first || second
}

/// After a pull the task's children and blockers are those of the remote, but
/// for tasks without an issue, which the remote cannot express; and its edges
/// of every other kind are as before.
pub proof fn law_pull_follows_remote_relations(
    me: TaskId,
    relations: Seq<TaskRelation>,
    children: Seq<TaskId>,
    blockers: Seq<TaskId>,
    neighbors: Seq<Neighbor>,
    k: RelationKind,
    o: TaskId,
)
    requires
        o != me,
    ensures
        ({
            let after = aligned_both(me, relations, children, blockers, neighbors);
            &&& task::has_edge(after, RelationKind::ParentOf, o) <==> children.contains(o) || (
            task::has_edge(relations, RelationKind::ParentOf, o) && !backed(neighbors, o))
            &&& task::has_edge(after, RelationKind::BlockedBy, o) <==> blockers.contains(o) || (
            task::has_edge(relations, RelationKind::BlockedBy, o) && !backed(neighbors, o))
            &&& k != RelationKind::ParentOf && k != RelationKind::BlockedBy ==> task::has_edge(
                after,
                k,
                o,
            ) == task::has_edge(relations, k, o)
        }),
{
    let mid = aligned(me, relations, RelationKind::ParentOf, children, neighbors);
    law_alignment_follows_remote(
        me,
        relations,
        RelationKind::ParentOf,
        children,
        neighbors,
        RelationKind::BlockedBy,
        o,
    );
    law_alignment_follows_remote(
        me,
        relations,
        RelationKind::ParentOf,
        children,
        neighbors,
        k,
        o,
    );
    law_alignment_follows_remote(
        me,
        mid,
        RelationKind::BlockedBy,
        blockers,
        neighbors,
        RelationKind::ParentOf,
        o,
    );
    law_alignment_follows_remote(
        me,
        mid,
        RelationKind::BlockedBy,
        blockers,
        neighbors,
        k,
        o,
    );
}

/// The tasks of the related remote issues that are known locally, in order.
pub open spec fn known(found: Seq<Option<TaskId>>) -> Seq<TaskId>
    decreases found.len(),
{
    if found.len() == 0 {
        Seq::empty()
    } else {
        match found.last() {
            Some(t) => known(found.drop_last()).push(t),
            None => known(found.drop_last()),
        }
    }
}

/// Keep the related issues that have a local task.
pub fn known_tasks(found: &Vec<Option<TaskId>>) -> (out: Vec<TaskId>)
    ensures
        out@ == known(found@),
{
    let mut out: Vec<TaskId> = Vec::new();
    let mut i: usize = 0;
    assert(found@.take(0) =~= Seq::empty());
    while i < found.len()
        invariant
            i <= found.len(),
            out@ == known(found@.take(i as int)),
        decreases found.len() - i,
    {
        assert(found@.take(i as int + 1).drop_last() =~= found@.take(i as int));
        match found[i] {
            Some(t) => {
                out.push(t);
            },
            None => {},
        }
        i += 1;
    }
    assert(found@.take(i as int) =~= found@);
    out
}

/// The mutations owed for the edges of a task that just got its issue: one for
/// each of the first `n` edges whose far end has an issue and whose kind has a
/// remote form.
pub open spec fn backfill(
    me: TaskId,
    relations: Seq<TaskRelation>,
    this: IssueCoords,
    coords: Seq<Option<IssueCoords>>,
    n: int,
) -> Seq<OutboxEntry>
    decreases n,
{
    if n <= 0 {
        Seq::empty()
    } else {
        let before = backfill(me, relations, this, coords, n - 1);
        match coords[n - 1] {
            None => before,
            Some(c) => match enqueue::edge_mutation(relations[n - 1].kind, true, this, c) {
                None => before,
                Some(m) => before.push(OutboxEntry { task_id: me, mutation: m }),
            },
        }
    }
}

/// Plan the mutations owed for the edges of a task that just got its issue.
/// `coords` holds the coordinates of each edge's far end.
pub fn relation_backfill_entries(
    me: TaskId,
    relations: &Vec<TaskRelation>,
    this: &IssueCoords,
    coords: &Vec<Option<IssueCoords>>,
) -> (out: Vec<OutboxEntry>)
    requires
        coords@.len() == relations@.len(),
    ensures
        out@ == backfill(me, relations@, *this, coords@, relations@.len() as int),
{
    let mut out: Vec<OutboxEntry> = Vec::new();
    let mut i: usize = 0;
    while i < relations.len()
        invariant
            i <= relations.len(),
            coords@.len() == relations@.len(),
            out@ == backfill(me, relations@, *this, coords@, i as int),
        decreases relations.len() - i,
    {
        match &coords[i] {
            Some(c) => match relation_mutation(relations[i].kind, true, this, c) {
                Some(m) => {
                    out.push(OutboxEntry { task_id: me, mutation: m });
                },
                None => {},
            },
            None => {},
        }
        i += 1;
    }
    out
}

/// An edge of this kind has a remote form.
spec fn has_form(kind: RelationKind) -> bool {
    kind == RelationKind::ParentOf || kind == RelationKind::ChildOf || kind
        == RelationKind::BlockedBy || kind == RelationKind::Blocks
}

proof fn lemma_backfill_is_picks(
    me: TaskId,
    relations: Seq<TaskRelation>,
    this: IssueCoords,
    coords: Seq<Option<IssueCoords>>,
    n: int,
)
    requires
        n <= relations.len() == coords.len(),
    ensures
        backfill(me, relations, this, coords, n) == seqs::picks(
            n,
            |k: int| coords[k] is Some && has_form(relations[k].kind),
            |k: int|
                OutboxEntry {
                    task_id: me,
                    mutation: enqueue::edge_mutation(
                        relations[k].kind,
                        true,
                        this,
                        coords[k]->0,
                    )->0,
                },
        ),
    decreases n,
{
    if n > 0 {
        lemma_backfill_is_picks(me, relations, this, coords, n - 1);
    }
}

/// A task that just got its issue queues one entry for each of its edges whose
/// far end has an issue and whose kind the remote knows, in the order of the
/// edges: its children and its parent as sub-issues, what it waits for and what
/// waits for it as dependencies.
pub proof fn law_every_edge_is_backfilled(
    me: TaskId,
    relations: Seq<TaskRelation>,
    this: IssueCoords,
    coords: Seq<Option<IssueCoords>>,
    i: int,
)
    requires
        coords.len() == relations.len(),
    ensures
        ({
            let n = relations.len() as int;
            let entries = backfill(me, relations, this, coords, n);
            let owes = |k: int|
                coords[k] is Some && (relations[k].kind == RelationKind::ParentOf
                    || relations[k].kind == RelationKind::ChildOf || relations[k].kind
                    == RelationKind::BlockedBy || relations[k].kind == RelationKind::Blocks);
            let at = seqs::tally(i, owes) as int;
            let there = coords[i]->0;
            &&& entries.len() == seqs::tally(n, owes)
            &&& 0 <= i < n && owes(i) ==> {
                &&& at < entries.len()
                &&& entries[at].task_id == me
                &&& relations[i].kind == RelationKind::ParentOf ==> entries[at].mutation == (
                OutboxMutation::AddSubIssue { parent: this, child: there })
                &&& relations[i].kind == RelationKind::ChildOf ==> entries[at].mutation == (
                OutboxMutation::AddSubIssue { parent: there, child: this })
                &&& relations[i].kind == RelationKind::BlockedBy ==> entries[at].mutation == (
                OutboxMutation::AddBlockedBy { blocked: this, blocker: there })
                &&& relations[i].kind == RelationKind::Blocks ==> entries[at].mutation == (
                OutboxMutation::AddBlockedBy { blocked: there, blocker: this })
            }
        }),
{
    let n = relations.len() as int;
    let owes = |k: int|
        coords[k] is Some && (relations[k].kind == RelationKind::ParentOf || relations[k].kind
            == RelationKind::ChildOf || relations[k].kind == RelationKind::BlockedBy
            || relations[k].kind == RelationKind::Blocks);
    let keep = |k: int| coords[k] is Some && has_form(relations[k].kind);
    let item = |k: int|
        OutboxEntry {
            task_id: me,
            mutation: enqueue::edge_mutation(relations[k].kind, true, this, coords[k]->0)->0,
        };
    lemma_backfill_is_picks(me, relations, this, coords, n);
    seqs::lemma_picks_agree(n, keep, owes, item, item);
    seqs::lemma_picks(n, owes, item);
}

/// Every related issue that has a local task is kept, in order, and nothing
/// else.
pub proof fn law_known_tasks_are_kept(found: Seq<Option<TaskId>>, i: int)
    ensures
        ({
            let has = |k: int| found[k] is Some;
            &&& known(found).len() == seqs::tally(found.len() as int, has)
            &&& 0 <= i < found.len() && has(i) ==> known(found)[seqs::tally(i, has) as int]
                == found[i]->0
        }),
{
    let has = |k: int| found[k] is Some;
    let item = |k: int| found[k]->0;
    lemma_known_is_picks(found);
    seqs::lemma_picks(found.len() as int, has, item);
}

proof fn lemma_known_is_picks(found: Seq<Option<TaskId>>)
    ensures
        known(found) == seqs::picks(
            found.len() as int,
            |k: int| found[k] is Some,
            |k: int| found[k]->0,
        ),
    decreases found.len(),
{
    if found.len() > 0 {
        let front = found.drop_last();
        lemma_known_is_picks(front);
        seqs::lemma_picks_agree(
            front.len() as int,
            |k: int| front[k] is Some,
            |k: int| found[k] is Some,
            |k: int| front[k]->0,
            |k: int| found[k]->0,
        );
    }
}

/// The tasks to load for an alignment: each other task that the remote names
/// and the task has no edge to, in the remote's order, and each other task that
/// it has an edge to and the remote does not name, in its own order.
pub proof fn law_alignment_loads_what_differs(
    me: TaskId,
    relations: Seq<TaskRelation>,
    kind: RelationKind,
    desired: Seq<TaskId>,
    i: int,
)
    ensures
        ({
            let gains = |k: int|
                desired[k] != me && !relations.contains(TaskRelation { kind, other: desired[k] });
            let loses = |k: int|
                relations[k].kind == kind && relations[k].other != me && !desired.contains(
                    relations[k].other,
                );
            &&& missing(me, relations, kind, desired).len() == seqs::tally(
                desired.len() as int,
                gains,
            )
            &&& 0 <= i < desired.len() && gains(i) ==> missing(
                me,
                relations,
                kind,
                desired,
            )[seqs::tally(i, gains) as int] == desired[i]
            &&& surplus(me, relations, kind, desired).len() == seqs::tally(
                relations.len() as int,
                loses,
            )
            &&& 0 <= i < relations.len() && loses(i) ==> surplus(
                me,
                relations,
                kind,
                desired,
            )[seqs::tally(i, loses) as int] == relations[i].other
        }),
{
    let gains = |k: int|
        desired[k] != me && !relations.contains(TaskRelation { kind, other: desired[k] });
    let loses = |k: int|
        relations[k].kind == kind && relations[k].other != me && !desired.contains(
            relations[k].other,
        );
    let keep = lacks(me, relations, kind);
    let to = |k: int| desired[k];
    let far = |k: int| relations[k].other;
    seqs::lemma_filter_is_picks(desired, keep);
    seqs::lemma_picks_agree(desired.len() as int, |k: int| keep(desired[k]), gains, to, to);
    seqs::lemma_picks(desired.len() as int, gains, to);
    lemma_surplus_is_picks(me, relations, kind, desired);
    seqs::lemma_picks(relations.len() as int, loses, far);
}

proof fn lemma_surplus_is_picks(
    me: TaskId,
    relations: Seq<TaskRelation>,
    kind: RelationKind,
    desired: Seq<TaskId>,
)
    ensures
        surplus(me, relations, kind, desired) == seqs::picks(
            relations.len() as int,
            |k: int|
                relations[k].kind == kind && relations[k].other != me && !desired.contains(
                    relations[k].other,
                ),
            |k: int| relations[k].other,
        ),
    decreases relations.len(),
{
    reveal(Seq::filter);
    if relations.len() > 0 {
        let front = relations.drop_last();
        lemma_surplus_is_picks(me, front, kind, desired);
        seqs::lemma_picks_agree(
            front.len() as int,
            |k: int|
                front[k].kind == kind && front[k].other != me && !desired.contains(front[k].other),
            |k: int|
                relations[k].kind == kind && relations[k].other != me && !desired.contains(
                    relations[k].other,
                ),
            |k: int| front[k].other,
            |k: int| relations[k].other,
        );
        if relations.last().kind == kind {
            let ends = far_ends(relations, kind);
            assert(ends.drop_last() =~= far_ends(front, kind));
        }
    }
}

/// An alignment reports a change exactly where the remote names another task
/// that there is no edge to, or does not name one that there is an edge to and
/// that has an issue.
pub proof fn law_change_is_reported(
    me: TaskId,
    relations: Seq<TaskRelation>,
    kind: RelationKind,
    desired: Seq<TaskId>,
    neighbors: Seq<Neighbor>,
)
    ensures
        realigns(me, relations, kind, desired, neighbors) <==> {
            ||| exists|o: TaskId|
                #[trigger] desired.contains(o) && o != me && !relations.contains(
                    TaskRelation { kind, other: o },
                )
            ||| exists|i: int|
                {
                    &&& 0 <= i < neighbors.len()
                    &&& (#[trigger] neighbors[i]).issue_backed
                    &&& neighbors[i].id != me
                    &&& !desired.contains(neighbors[i].id)
                    &&& relations.contains(TaskRelation { kind, other: neighbors[i].id })
                }
        },
{
    let adds = missing(me, relations, kind, desired);
    let drops = surplus(me, relations, kind, desired);
    if adds.len() > 0 {
        let o = adds[0];
        assert(adds.contains(o));
        seqs::lemma_filter_contains(desired, lacks(me, relations, kind), o);
        assert(desired.contains(o));
    }
    if exists|o: TaskId|
        #[trigger] desired.contains(o) && o != me && !relations.contains(
            TaskRelation { kind, other: o },
        ) {
        let o = choose|o: TaskId|
            #[trigger] desired.contains(o) && o != me && !relations.contains(
                TaskRelation { kind, other: o },
            );
        seqs::lemma_filter_contains(desired, lacks(me, relations, kind), o);
        assert(adds.contains(o));
    }
    if exists|i: int| 0 <= i < drops.len() && backed(neighbors, #[trigger] drops[i]) {
        let i = choose|i: int| 0 <= i < drops.len() && backed(neighbors, #[trigger] drops[i]);
        let o = drops[i];
        assert(drops.contains(o));
        seqs::lemma_filter_contains(far_ends(relations, kind), unwanted(me, desired), o);
        lemma_far_ends(relations, kind, o);
        let k = choose|k: int|
            0 <= k < neighbors.len() && (#[trigger] neighbors[k]).id == o
                && neighbors[k].issue_backed;
        assert(neighbors[k].issue_backed);
    }
    if exists|i: int|
        {
            &&& 0 <= i < neighbors.len()
            &&& (#[trigger] neighbors[i]).issue_backed
            &&& neighbors[i].id != me
            &&& !desired.contains(neighbors[i].id)
            &&& relations.contains(TaskRelation { kind, other: neighbors[i].id })
        } {
        let i = choose|i: int|
            {
                &&& 0 <= i < neighbors.len()
                &&& (#[trigger] neighbors[i]).issue_backed
                &&& neighbors[i].id != me
                &&& !desired.contains(neighbors[i].id)
                &&& relations.contains(TaskRelation { kind, other: neighbors[i].id })
            };
        let o = neighbors[i].id;
        lemma_far_ends(relations, kind, o);
        seqs::lemma_filter_contains(far_ends(relations, kind), unwanted(me, desired), o);
        assert(drops.contains(o));
        let k = choose|k: int| 0 <= k < drops.len() && drops[k] == o;
        assert(backed(neighbors, drops[k]));
    }
}

/// A neighbor carries the mirrored edge to a task that gained one to it, loses
/// it to a task that lost one to it, and is left alone otherwise; its edges to
/// other tasks and of other kinds stay.
pub proof fn law_neighbor_mirrors_the_change(
    me: TaskId,
    relations: Seq<TaskRelation>,
    kind: RelationKind,
    inverse: RelationKind,
    desired: Seq<TaskId>,
    id: TaskId,
    issue_backed: bool,
    held: Seq<TaskRelation>,
    edge: TaskRelation,
)
    requires
        id != me,
    ensures
        ({
            let after = aligned_neighbor(
                me,
                relations,
                kind,
                inverse,
                desired,
                id,
                issue_backed,
                held,
            );
            let had = relations.contains(TaskRelation { kind, other: id });
            let back = TaskRelation { kind: inverse, other: me };
            &&& desired.contains(id) && !had ==> after.contains(back)
            &&& !desired.contains(id) && had && issue_backed ==> !after.contains(back)
            &&& (desired.contains(id) && had) || (!desired.contains(id) && !(had && issue_backed))
                ==> after == held
            &&& edge != back ==> after.contains(edge) == held.contains(edge)
        }),
{
    let keep = |r: TaskRelation| r != (TaskRelation { kind: inverse, other: me });
    seqs::lemma_filter_contains(desired, lacks(me, relations, kind), id);
    seqs::lemma_filter_contains(far_ends(relations, kind), unwanted(me, desired), id);
    lemma_far_ends(relations, kind, id);
    task::law_removal_undoes_addition(held, inverse, me);
    seqs::lemma_filter_contains(held, keep, edge);
    let more = held.push(TaskRelation { kind: inverse, other: me });
    if held.contains(edge) {
        let k = choose|k: int| 0 <= k < held.len() && held[k] == edge;
        assert(more[k] == edge);
    }
    if more.contains(edge) && edge != (TaskRelation { kind: inverse, other: me }) {
        let k = choose|k: int| 0 <= k < more.len() && more[k] == edge;
        assert(held[k] == edge);
    }
}

/// The far ends of one kind are those of its edges.
pub proof fn lemma_far_ends_are_picks(relations: Seq<TaskRelation>, kind: RelationKind)
    ensures
        far_ends(relations, kind) == seqs::picks(
            relations.len() as int,
            |k: int| relations[k].kind == kind,
            |k: int| relations[k].other,
        ),
    decreases relations.len(),
{
    if relations.len() > 0 {
        let front = relations.drop_last();
        lemma_far_ends_are_picks(front, kind);
        seqs::lemma_picks_agree(
            front.len() as int,
            |k: int| front[k].kind == kind,
            |k: int| relations[k].kind == kind,
            |k: int| front[k].other,
            |k: int| relations[k].other,
        );
    }
}

/// An alignment never states an edge twice: where the task states each once
/// before, it does after.
pub proof fn law_alignment_states_edges_once(
    me: TaskId,
    relations: Seq<TaskRelation>,
    kind: RelationKind,
    desired: Seq<TaskId>,
    neighbors: Seq<Neighbor>,
)
    requires
        relations.no_duplicates(),
    ensures
        aligned(me, relations, kind, desired, neighbors).no_duplicates(),
{
    let adds = missing(me, relations, kind, desired);
    lemma_add_all_once(relations, kind, adds);
    lemma_drop_all_once(
        add_all(relations, kind, adds),
        kind,
        surplus(me, relations, kind, desired),
        neighbors,
    );
}

proof fn lemma_add_all_once(relations: Seq<TaskRelation>, kind: RelationKind, others: Seq<TaskId>)
    requires
        relations.no_duplicates(),
    ensures
        add_all(relations, kind, others).no_duplicates(),
    decreases others.len(),
{
    if others.len() > 0 {
        let before = add_all(relations, kind, others.drop_last());
        lemma_add_all_once(relations, kind, others.drop_last());
        let edge = TaskRelation { kind, other: others.last() };
        if !before.contains(edge) {
            let more = before.push(edge);
            assert forall|i: int, j: int|
                0 <= i < more.len() && 0 <= j < more.len() && i != j implies more[i]
                != more[j] by {
                if i < before.len() && j < before.len() {
                    assert(before[i] != before[j]);
                }
            }
        }
    }
}

proof fn lemma_drop_all_once(
    relations: Seq<TaskRelation>,
    kind: RelationKind,
    others: Seq<TaskId>,
    neighbors: Seq<Neighbor>,
)
    requires
        relations.no_duplicates(),
    ensures
        drop_all(relations, kind, others, neighbors).no_duplicates(),
    decreases others.len(),
{
    if others.len() > 0 {
        let before = drop_all(relations, kind, others.drop_last(), neighbors);
        lemma_drop_all_once(relations, kind, others.drop_last(), neighbors);
        let other = others.last();
        let keep = |r: TaskRelation| r != (TaskRelation { kind, other });
        let less = before.filter(keep);
        assert forall|i: int, j: int|
            0 <= i < less.len() && 0 <= j < less.len() && i != j implies less[i] != less[j] by {
            let (a, b) = if i < j {
                seqs::lemma_filter_order(before, keep, i, j)
            } else {
                seqs::lemma_filter_order(before, keep, j, i)
            };
            assert(before[a] != before[b]);
        }
    }
}

/// Some task that the remote names lacks its edge, or some task with an issue
/// that it does not name has one.
pub open spec fn differs(
    me: TaskId,
    relations: Seq<TaskRelation>,
    kind: RelationKind,
    desired: Seq<TaskId>,
    neighbors: Seq<Neighbor>,
) -> bool {
    ||| exists|o: TaskId|
        #[trigger] desired.contains(o) && o != me && !relations.contains(
            TaskRelation { kind, other: o },
        )
    ||| exists|i: int|
        {
            &&& 0 <= i < neighbors.len()
            &&& (#[trigger] neighbors[i]).issue_backed
            &&& neighbors[i].id != me
            &&& !desired.contains(neighbors[i].id)
            &&& relations.contains(TaskRelation { kind, other: neighbors[i].id })
        }
}

/// A pull of relations leaves each neighbor with the mirror of what the task
/// gained or lost, and with all its other edges; it reports a change exactly
/// where the children or the blockers differ from the remote's.
pub proof fn law_pull_of_relations_is_mutual(
    me: TaskId,
    relations: &mut Vec<TaskRelation>,
    children: &Vec<TaskId>,
    blockers: &Vec<TaskId>,
    neighbors: &mut Vec<Neighbor>,
    changed: bool,
    i: int,
    r: TaskRelation,
)
    requires
        call_ensures(
            reconcile_relations_inbound,
            (me, relations, children, blockers, neighbors),
            changed,
        ),
        0 <= i < old(neighbors)@.len(),
        old(neighbors)@[i].id != me,
    ensures
        ({
            let had = old(relations)@;
            let id = old(neighbors)@[i].id;
            let held = old(neighbors)@[i].relations@;
            let now = final(neighbors)@[i].relations@;
            let child = TaskRelation { kind: RelationKind::ChildOf, other: me };
            let blocks = TaskRelation { kind: RelationKind::Blocks, other: me };
            let under = had.contains(TaskRelation { kind: RelationKind::ParentOf, other: id });
            let waits = had.contains(TaskRelation { kind: RelationKind::BlockedBy, other: id });
            let issue = old(neighbors)@[i].issue_backed;
            &&& final(neighbors)@.len() == old(neighbors)@.len()
            &&& final(neighbors)@[i].id == id
            &&& children@.contains(id) && !under ==> now.contains(child)
            &&& !children@.contains(id) && under && issue ==> !now.contains(child)
            &&& blockers@.contains(id) && !waits ==> now.contains(blocks)
            &&& !blockers@.contains(id) && waits && issue ==> !now.contains(blocks)
            &&& r != child && r != blocks ==> now.contains(r) == held.contains(r)
            &&& changed <==> differs(
                me,
                had,
                RelationKind::ParentOf,
                children@,
                old(neighbors)@,
            ) || differs(me, had, RelationKind::BlockedBy, blockers@, old(neighbors)@)
        }),
{
    let had = old(relations)@;
    let around = old(neighbors)@;
    let id = around[i].id;
    let held = around[i].relations@;
    let child = TaskRelation { kind: RelationKind::ChildOf, other: me };
    let blocks = TaskRelation { kind: RelationKind::Blocks, other: me };
    let mid = aligned(me, had, RelationKind::ParentOf, children@, around);
    let between = aligned_neighbor(
        me,
        had,
        RelationKind::ParentOf,
        RelationKind::ChildOf,
        children@,
        id,
        around[i].issue_backed,
        held,
    );
    assert forall|x: TaskRelation|
        #![trigger mid.contains(x)]
        x.kind == RelationKind::BlockedBy implies mid.contains(x) == had.contains(x) by {
        law_alignment_follows_remote(
            me,
            had,
            RelationKind::ParentOf,
            children@,
            around,
            RelationKind::BlockedBy,
            x.other,
        );
        assert(x == (TaskRelation { kind: RelationKind::BlockedBy, other: x.other }));
    }
    assert(final(neighbors)@[i].id == id);
    let edges = seq![child, blocks, r];
    assert forall|k: int| 0 <= k < 3 implies {
        let e = #[trigger] edges[k];
        &&& e != child ==> between.contains(e) == held.contains(e)
        &&& e != blocks ==> final(neighbors)@[i].relations@.contains(e) == between.contains(e)
    } by {
        law_neighbor_mirrors_the_change(
            me,
            had,
            RelationKind::ParentOf,
            RelationKind::ChildOf,
            children@,
            id,
            around[i].issue_backed,
            held,
            edges[k],
        );
        law_neighbor_mirrors_the_change(
            me,
            mid,
            RelationKind::BlockedBy,
            RelationKind::Blocks,
            blockers@,
            id,
            around[i].issue_backed,
            between,
            edges[k],
        );
    }
    law_neighbor_mirrors_the_change(
        me,
        had,
        RelationKind::ParentOf,
        RelationKind::ChildOf,
        children@,
        id,
        around[i].issue_backed,
        held,
        child,
    );
    law_neighbor_mirrors_the_change(
        me,
        mid,
        RelationKind::BlockedBy,
        RelationKind::Blocks,
        blockers@,
        id,
        around[i].issue_backed,
        between,
        blocks,
    );
    assert(edges[0] == child && edges[1] == blocks && edges[2] == r);
    law_change_is_reported(me, had, RelationKind::ParentOf, children@, around);
    law_change_is_reported(me, mid, RelationKind::BlockedBy, blockers@, around);
    lemma_differs_alike(me, had, mid, blockers@, around);
}

proof fn lemma_differs_alike(
    me: TaskId,
    a: Seq<TaskRelation>,
    b: Seq<TaskRelation>,
    desired: Seq<TaskId>,
    neighbors: Seq<Neighbor>,
)
    requires
        forall|x: TaskRelation|
            #![trigger b.contains(x)]
            x.kind == RelationKind::BlockedBy ==> b.contains(x) == a.contains(x),
    ensures
        differs(me, a, RelationKind::BlockedBy, desired, neighbors) == differs(
            me,
            b,
            RelationKind::BlockedBy,
            desired,
            neighbors,
        ),
{
    let kind = RelationKind::BlockedBy;
    assert forall|o: TaskId| #[trigger] desired.contains(o) implies a.contains(
        TaskRelation { kind, other: o },
    ) == b.contains(TaskRelation { kind, other: o }) by {}
    assert forall|i: int| 0 <= i < neighbors.len() implies a.contains(
        TaskRelation { kind, other: (#[trigger] neighbors[i]).id },
    ) == b.contains(TaskRelation { kind, other: neighbors[i].id }) by {}
}

/// Every other task that the remote names without an edge to it, or that there is
/// an edge to without the remote naming it, is loaded for a pull, and no other
/// is.
pub proof fn law_pull_loads_every_touched_task(
    me: TaskId,
    relations: &Vec<TaskRelation>,
    children: &Vec<TaskId>,
    blockers: &Vec<TaskId>,
    out: Vec<TaskId>,
    o: TaskId,
)
    requires
        call_ensures(touched_tasks, (me, relations, children, blockers), out),
    ensures
        ({
            let child = relations@.contains(
                TaskRelation { kind: RelationKind::ParentOf, other: o },
            );
            let blocks = relations@.contains(
                TaskRelation { kind: RelationKind::BlockedBy, other: o },
            );
            out@.contains(o) <==> o != me && (child != children@.contains(o) || blocks
                != blockers@.contains(o))
        }),
{
    let a = missing(me, relations@, RelationKind::ParentOf, children@);
    let b = surplus(me, relations@, RelationKind::ParentOf, children@);
    let c = missing(me, relations@, RelationKind::BlockedBy, blockers@);
    let d = surplus(me, relations@, RelationKind::BlockedBy, blockers@);
    lemma_touched(me, relations@, RelationKind::ParentOf, children@, o);
    lemma_touched(me, relations@, RelationKind::BlockedBy, blockers@, o);
    lemma_contains_concat(a, b, o);
    lemma_contains_concat(a + b, c, o);
    lemma_contains_concat(a + b + c, d, o);
}

proof fn lemma_touched(
    me: TaskId,
    relations: Seq<TaskRelation>,
    kind: RelationKind,
    desired: Seq<TaskId>,
    o: TaskId,
)
    ensures
        missing(me, relations, kind, desired).contains(o) <==> o != me && desired.contains(o)
            && !relations.contains(TaskRelation { kind, other: o }),
        surplus(me, relations, kind, desired).contains(o) <==> o != me && !desired.contains(o)
            && relations.contains(TaskRelation { kind, other: o }),
{
    seqs::lemma_filter_contains(desired, lacks(me, relations, kind), o);
    seqs::lemma_filter_contains(far_ends(relations, kind), unwanted(me, desired), o);
    lemma_far_ends(relations, kind, o);
}

proof fn lemma_contains_concat(a: Seq<TaskId>, b: Seq<TaskId>, o: TaskId)
    ensures
        (a + b).contains(o) <==> a.contains(o) || b.contains(o),
{
    let all = a + b;
    if a.contains(o) {
        let k = choose|k: int| 0 <= k < a.len() && a[k] == o;
        assert(all[k] == o);
    }
    if b.contains(o) {
        let k = choose|k: int| 0 <= k < b.len() && b[k] == o;
        assert(all[a.len() + k] == o);
    }
    if all.contains(o) {
        let k = choose|k: int| 0 <= k < all.len() && all[k] == o;
        if k < a.len() {
            assert(a[k] == o);
        } else {
            assert(b[k - a.len()] == o);
        }
    }
}

} // verus!
