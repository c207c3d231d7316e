//! Keeping blocking and hierarchy free of cycles.

use crate::model::ids::TaskId;
use crate::model::task::{RelationKind, TaskRelation};
use vstd::prelude::*;

verus! {

/// One family of directed relations: an edge of kind `forward` leads upstream
/// from the task that holds it, one of kind `inverse` leads upstream to it.
#[derive(Clone, Copy, Debug, PartialEq, Eq, Structural)]
pub struct Axis {
    pub forward: RelationKind,
    pub inverse: RelationKind,
    /// The task that a new edge puts downstream.
    pub lower: TaskId,
    /// The task that it puts upstream.
    pub upper: TaskId,
}

/// What a task contributes to the graph of relations.
#[derive(Debug, PartialEq, Eq)]
pub struct RelationRow {
    pub id: TaskId,
    pub relations: Vec<TaskRelation>,
}

/// Relation `r` of task `t` puts `to` immediately upstream of `from`.
pub open spec fn states_edge(
    t: TaskId,
    r: TaskRelation,
    axis_forward: RelationKind,
    axis_inverse: RelationKind,
    from: TaskId,
    to: TaskId,
) -> bool {
    if r.kind == axis_forward {
        t == from && r.other == to
    } else {
        r.kind == axis_inverse && r.other == from && t == to
    }
}

/// Some stored relation, of either direction, puts `to` immediately upstream
/// of `from`.
pub open spec fn upstream_edge(
    rows: Seq<RelationRow>,
    forward: RelationKind,
    inverse: RelationKind,
    from: TaskId,
    to: TaskId,
) -> bool {
    exists|i: int, j: int|
        0 <= i < rows.len() && 0 <= j < rows[i].relations@.len() && #[trigger] states_edge(
            rows[i].id,
            rows[i].relations@[j],
            forward,
            inverse,
            from,
            to,
        )
}

/// The edges of one family, each from a task to one immediately upstream.
pub open spec fn family(
    rows: Seq<RelationRow>,
    forward: RelationKind,
    inverse: RelationKind,
) -> Set<(TaskId, TaskId)> {
    Set::new(|e: (TaskId, TaskId)| upstream_edge(rows, forward, inverse, e.0, e.1))
}

/// The edge is there.
pub open spec fn stands(edges: Set<(TaskId, TaskId)>, from: TaskId, to: TaskId) -> bool {
    edges.contains((from, to))
}

/// Each step of the path is an edge.
pub open spec fn is_path(edges: Set<(TaskId, TaskId)>, path: Seq<TaskId>) -> bool {
    path.len() >= 1 && forall|i: int|
        0 <= i < path.len() - 1 ==> stands(edges, #[trigger] path[i], path[i + 1])
}

/// A path of at least one edge leads from `from` to `to`.
pub open spec fn reaches(edges: Set<(TaskId, TaskId)>, from: TaskId, to: TaskId) -> bool {
    exists|path: Seq<TaskId>|
        #[trigger] is_path(edges, path) && path.len() >= 2 && path.first() == from && path.last()
            == to
}

/// No task is upstream of itself.
pub open spec fn acyclic(edges: Set<(TaskId, TaskId)>) -> bool {
    forall|t: TaskId| !(#[trigger] reaches(edges, t, t))
}

/// For a directed kind, its family and which end of the new edge goes
/// downstream: a blocked task below its blocker, a child below its parent.
pub open spec fn axis_of(kind: RelationKind, a: TaskId, b: TaskId) -> Option<Axis> {
    match kind {
        RelationKind::BlockedBy => Some(
            Axis {
                forward: RelationKind::BlockedBy,
                inverse: RelationKind::Blocks,
                lower: a,
                upper: b,
            },
        ),
        RelationKind::Blocks => Some(
            Axis {
                forward: RelationKind::BlockedBy,
                inverse: RelationKind::Blocks,
                lower: b,
                upper: a,
            },
        ),
        RelationKind::ChildOf => Some(
            Axis {
                forward: RelationKind::ChildOf,
                inverse: RelationKind::ParentOf,
                lower: a,
                upper: b,
            },
        ),
        RelationKind::ParentOf => Some(
            Axis {
                forward: RelationKind::ChildOf,
                inverse: RelationKind::ParentOf,
                lower: b,
                upper: a,
            },
        ),
        RelationKind::RelatedTo | RelationKind::Duplicates => None,
    }
}

/// The family that an edge of `kind` from `a` to `b` belongs to; symmetric
/// kinds have none.
pub fn cycle_axis(kind: RelationKind, a: TaskId, b: TaskId) -> (out: Option<Axis>)
    ensures
        out == axis_of(kind, a, b),
{
    match kind {
        RelationKind::BlockedBy => Some(
            Axis {
                forward: RelationKind::BlockedBy,
                inverse: RelationKind::Blocks,
                lower: a,
                upper: b,
            },
        ),
        RelationKind::Blocks => Some(
            Axis {
                forward: RelationKind::BlockedBy,
                inverse: RelationKind::Blocks,
                lower: b,
                upper: a,
            },
        ),
        RelationKind::ChildOf => Some(
            Axis {
                forward: RelationKind::ChildOf,
                inverse: RelationKind::ParentOf,
                lower: a,
                upper: b,
            },
        ),
        RelationKind::ParentOf => Some(
            Axis {
                forward: RelationKind::ChildOf,
                inverse: RelationKind::ParentOf,
                lower: b,
                upper: a,
            },
        ),
        RelationKind::RelatedTo | RelationKind::Duplicates => None,
    }
}

/// An edge stated from either end is on the same family with the same ends.
pub proof fn law_axis_is_the_same_from_both_ends(kind: RelationKind, a: TaskId, b: TaskId)
    ensures
        axis_of(kind, a, b) == axis_of(kind.mirrored(), b, a),
{
}

/// The edges of one family that the stored relations state.
pub fn upstream_edges(
    rows: &Vec<RelationRow>,
    forward: RelationKind,
    inverse: RelationKind,
) -> (out: Vec<(TaskId, TaskId)>)
    ensures
        out@.to_set() == family(rows@, forward, inverse),
{
    let mut out: Vec<(TaskId, TaskId)> = Vec::new();
    let mut i: usize = 0;
    while i < rows.len()
        invariant
            i <= rows.len(),
            forall|from: TaskId, to: TaskId|
                #[trigger] out@.contains((from, to)) ==> upstream_edge(
                    rows@,
                    forward,
                    inverse,
                    from,
                    to,
                ),
            forall|a: int, b: int, from: TaskId, to: TaskId|
                0 <= a < i && 0 <= b < rows@[a].relations@.len() && #[trigger] states_edge(
                    rows@[a].id,
                    rows@[a].relations@[b],
                    forward,
                    inverse,
                    from,
                    to,
                ) ==> out@.contains((from, to)),
        decreases rows.len() - i,
    {
        let mut j: usize = 0;
        while j < rows[i].relations.len()
            invariant
                i < rows.len(),
                j <= rows@[i as int].relations@.len(),
                forall|from: TaskId, to: TaskId|
                    #[trigger] out@.contains((from, to)) ==> upstream_edge(
                        rows@,
                        forward,
                        inverse,
                        from,
                        to,
                    ),
                forall|a: int, b: int, from: TaskId, to: TaskId|
                    (0 <= a < i && 0 <= b < rows@[a].relations@.len() || a == i && 0 <= b < j)
                        && #[trigger] states_edge(
                        rows@[a].id,
                        rows@[a].relations@[b],
                        forward,
                        inverse,
                        from,
                        to,
                    ) ==> out@.contains((from, to)),
            decreases rows@[i as int].relations@.len() - j,
        {
            let t: TaskId = rows[i].id;
            let r: TaskRelation = rows[i].relations[j];
            let ghost before = out@;
            if r.kind == forward {
                out.push((t, r.other));
            } else if r.kind == inverse {
                out.push((r.other, t));
            }
            proof {
                assert forall|from: TaskId, to: TaskId| before.contains((from, to)) implies out@.contains((from, to)) by {
                    let k = choose|k: int| 0 <= k < before.len() && before[k] == (from, to);
                    assert(out@[k] == (from, to));
                }
                assert forall|from: TaskId, to: TaskId| #[trigger]
                    out@.contains((from, to)) implies upstream_edge(
                    rows@,
                    forward,
                    inverse,
                    from,
                    to,
                ) by {
                    let k = choose|k: int| 0 <= k < out@.len() && out@[k] == (from, to);
                    if k < before.len() {
                        assert(before[k] == (from, to));
                        assert(before.contains((from, to)));
                    } else {
                        assert(states_edge(
                            rows@[i as int].id,
                            rows@[i as int].relations@[j as int],
                            forward,
                            inverse,
                            from,
                            to,
                        ));
                    }
                }
                assert forall|from: TaskId, to: TaskId|
                    states_edge(t, r, forward, inverse, from, to) implies out@.contains((from, to)) by {
                    assert(out@[before.len() as int] == (from, to));
                }
            }
            j += 1;
        }
        i += 1;
    }
    proof {
        assert forall|from: TaskId, to: TaskId|
            upstream_edge(rows@, forward, inverse, from, to) implies #[trigger] out@.contains((from, to)) by {
            let (a, b) = choose|a: int, b: int|
                0 <= a < rows@.len() && 0 <= b < rows@[a].relations@.len()
                    && #[trigger] states_edge(
                    rows@[a].id,
                    rows@[a].relations@[b],
                    forward,
                    inverse,
                    from,
                    to,
                );
            assert(states_edge(
                rows@[a].id,
                rows@[a].relations@[b],
                forward,
                inverse,
                from,
                to,
            ));
        }
        assert(out@.to_set() =~= family(rows@, forward, inverse));
    }
    out
}

fn listed(list: &Vec<TaskId>, id: TaskId) -> (yes: bool)
    ensures
        yes == list@.contains(id),
{
    let mut i: usize = 0;
    while i < list.len()
        invariant
            i <= list.len(),
            forall|k: int| 0 <= k < i ==> list@[k] != id,
        decreases list.len() - i,
    {
        if list[i] == id {
            assert(list@[i as int] == id);
            return true;
        }
        i += 1;
    }
    false
}

/// The ends of the edges, and one task more.
pub open spec fn universe(edges: Seq<(TaskId, TaskId)>, y: TaskId) -> Set<TaskId> {
    edges.map_values(|e: (TaskId, TaskId)| e.1).to_set().insert(y)
}

proof fn lemma_universe(edges: Seq<(TaskId, TaskId)>, y: TaskId, visited: Seq<TaskId>)
    requires
        visited.no_duplicates(),
        forall|k: int| 0 <= k < visited.len() ==> universe(edges, y).contains(#[trigger] visited[k]),
    ensures
        visited.len() <= edges.len() + 1,
{
    let ends = edges.map_values(|e: (TaskId, TaskId)| e.1);
    vstd::seq_lib::seq_to_set_is_finite(ends);
    vstd::seq_lib::seq_to_set_is_finite(visited);
    ends.lemma_cardinality_of_set();
    visited.unique_seq_to_set();
    assert(visited.to_set().subset_of(universe(edges, y)));
    vstd::set_lib::lemma_len_subset(visited.to_set(), universe(edges, y));
}

proof fn lemma_reaches_step(edges: Set<(TaskId, TaskId)>, y: TaskId, n: TaskId, p: TaskId)
    requires
        n == y || reaches(edges, y, n),
        stands(edges, n, p),
    ensures
        reaches(edges, y, p),
{
    if n == y {
        let path = seq![y, p];
        assert(is_path(edges, path));
        assert(path.last() == p);
    } else {
        let path = choose|path: Seq<TaskId>|
            #[trigger] is_path(edges, path) && path.len() >= 2 && path.first() == y && path.last()
                == n;
        let longer = path.push(p);
        assert forall|i: int| 0 <= i < longer.len() - 1 implies stands(
            edges,
            #[trigger] longer[i],
            longer[i + 1],
        ) by {
            if i < path.len() - 1 {
                assert(stands(edges, path[i], path[i + 1]));
            }
        }
        assert(is_path(edges, longer));
        assert(longer.first() == y && longer.last() == p);
    }
}

/// A set closed under edges that holds the start of a path holds all of it.
proof fn lemma_closed(
    edges: Set<(TaskId, TaskId)>,
    visited: Seq<TaskId>,
    path: Seq<TaskId>,
    i: int,
)
    requires
        is_path(edges, path),
        visited.contains(path.first()),
        forall|n: TaskId, p: TaskId|
            visited.contains(n) && #[trigger] stands(edges, n, p) ==> visited.contains(p),
        0 <= i < path.len(),
    ensures
        visited.contains(path[i]),
    decreases i,
{
    if i > 0 {
        lemma_closed(edges, visited, path, i - 1);
        assert(stands(edges, path[i - 1], path[i]));
    }
}

/// Whether `y` reaches `x` along the edges.
pub fn is_reachable(edges: &Vec<(TaskId, TaskId)>, y: TaskId, x: TaskId) -> (yes: bool)
    ensures
        yes == reaches(edges@.to_set(), y, x),
{
    let mut stack: Vec<TaskId> = Vec::new();
    stack.push(y);
    let mut visited: Vec<TaskId> = Vec::new();
    assert(stack@[0] == y);
    proof {
        assert(forall|n: TaskId| stack@.contains(n) ==> n == y);
    }
    while stack.len() > 0
        invariant
            visited@.no_duplicates(),
            visited@.contains(y) || stack@.contains(y),
            forall|n: TaskId|
                #[trigger] visited@.contains(n) || stack@.contains(n) ==> universe(
                    edges@,
                    y,
                ).contains(n) && (n == y || reaches(edges@.to_set(), y, n)),
            forall|n: TaskId, p: TaskId|
                visited@.contains(n) && #[trigger] stands(edges@.to_set(), n, p) ==> p != x && (
                visited@.contains(p) || stack@.contains(p)),
        decreases edges@.len() + 1 - visited@.len(), stack@.len(),
    {
        let ghost stack0 = stack@;
        let ghost visited0 = visited@;
        let n: TaskId = match stack.pop() {
            Some(n) => n,
            None => {
                return false;
            },
        };
        proof {
            assert(stack0.contains(n)) by {
                assert(stack0[stack0.len() - 1] == n);
            }
            assert forall|m: TaskId| stack0.contains(m) implies stack@.contains(m) || m == n by {
                let k = choose|k: int| 0 <= k < stack0.len() && stack0[k] == m;
                if k < stack@.len() {
                    assert(stack@[k] == m);
                }
            }
            assert forall|m: TaskId| stack@.contains(m) implies stack0.contains(m) by {
                let k = choose|k: int| 0 <= k < stack@.len() && stack@[k] == m;
                assert(stack0[k] == m);
            }
        }
        if listed(&visited, n) {
            assert forall|m: TaskId| #[trigger]
                visited@.contains(m) || stack@.contains(m) implies universe(edges@, y).contains(m)
                && (m == y || reaches(edges@.to_set(), y, m)) by {
                assert(visited0.contains(m) || stack0.contains(m));
            }
            continue ;
        }
        assert(universe(edges@, y).contains(n) && (n == y || reaches(edges@.to_set(), y, n))) by {
            assert(visited0.contains(n) || stack0.contains(n));
        }
        visited.push(n);
        proof {
            assert(visited@.contains(n)) by {
                assert(visited@[visited0.len() as int] == n);
            }
            assert forall|m: TaskId| visited0.contains(m) implies visited@.contains(m) by {
                let k = choose|k: int| 0 <= k < visited0.len() && visited0[k] == m;
                assert(visited@[k] == m);
            }
            assert forall|m: TaskId| visited@.contains(m) implies visited0.contains(m) || m
                == n by {
                let k = choose|k: int| 0 <= k < visited@.len() && visited@[k] == m;
                if k < visited0.len() {
                    assert(visited0[k] == m);
                }
            }
            assert(visited@.no_duplicates());
            assert forall|k: int| 0 <= k < visited@.len() implies universe(edges@, y).contains(
                #[trigger] visited@[k],
            ) by {
                let m = visited@[k];
                assert(visited@.contains(m));
                if m != n {
                    assert(visited0.contains(m));
                }
            }
            lemma_universe(edges@, y, visited@);
        }
        let ghost stack1 = stack@;
        let mut i: usize = 0;
        while i < edges.len()
            invariant
                i <= edges.len(),
                n == y || reaches(edges@.to_set(), y, n),
                visited@.contains(n),
                forall|m: TaskId| stack1.contains(m) ==> stack@.contains(m),
                forall|m: TaskId|
                    #[trigger] stack@.contains(m) ==> stack1.contains(m) || (universe(
                        edges@,
                        y,
                    ).contains(m) && reaches(edges@.to_set(), y, m)),
                forall|k: int|
                    0 <= k < i && (#[trigger] edges@[k]).0 == n ==> edges@[k].1 != x
                        && stack@.contains(edges@[k].1),
            decreases edges.len() - i,
        {
            let (from, to) = edges[i];
            if from == n {
                proof {
                    assert(edges@[i as int] == (n, to));
                    assert(stands(edges@.to_set(), n, to));
                    lemma_reaches_step(edges@.to_set(), y, n, to);
                    let ends = edges@.map_values(|e: (TaskId, TaskId)| e.1);
                    assert(ends[i as int] == to);
                    assert(ends.contains(to));
                }
                if to == x {
                    return true;
                }
                let ghost before = stack@;
                stack.push(to);
                proof {
                    assert(stack@[before.len() as int] == to);
                    assert forall|m: TaskId| before.contains(m) implies stack@.contains(m) by {
                        let k = choose|k: int| 0 <= k < before.len() && before[k] == m;
                        assert(stack@[k] == m);
                    }
                    assert forall|m: TaskId| #[trigger] stack@.contains(m) implies before.contains(
                        m,
                    ) || m == to by {
                        let k = choose|k: int| 0 <= k < stack@.len() && stack@[k] == m;
                        if k < before.len() {
                            assert(before[k] == m);
                        }
                    }
                }
            }
            i += 1;
        }
        proof {
            assert forall|m: TaskId, p: TaskId|
                visited@.contains(m) && #[trigger] stands(edges@.to_set(), m, p) implies p != x && (
            visited@.contains(p) || stack@.contains(p)) by {
                if m == n {
                    let k = choose|k: int| 0 <= k < edges@.len() && edges@[k] == (n, p);
                    assert(edges@[k].0 == n);
                } else {
                    assert(visited0.contains(m));
                    assert(visited0.contains(p) || stack0.contains(p));
                }
            }
            assert forall|m: TaskId| #[trigger]
                visited@.contains(m) || stack@.contains(m) implies universe(edges@, y).contains(m)
                && (m == y || reaches(edges@.to_set(), y, m)) by {
                if m != n && (visited0.contains(m) || stack1.contains(m)) {
                    assert(visited0.contains(m) || stack0.contains(m));
                }
            }
        }
    }
    proof {
        if reaches(edges@.to_set(), y, x) {
            let path = choose|path: Seq<TaskId>|
                #[trigger] is_path(edges@.to_set(), path) && path.len() >= 2 && path.first() == y
                    && path.last() == x;
            assert forall|n: TaskId, p: TaskId|
                visited@.contains(n) && #[trigger] stands(edges@.to_set(), n, p) implies visited@.contains(
                p,
            ) by {}
            lemma_closed(edges@.to_set(), visited@, path, path.len() - 2);
            assert(stands(edges@.to_set(), path[path.len() - 2], path[path.len() - 2 + 1]));
        }
    }
    false
}

/// Whether an edge from `lower` to `upper` would close a cycle: whether
/// `upper` already reaches `lower` going upstream, by relations stored at
/// either end.
pub fn would_create_cycle(rows: &Vec<RelationRow>, axis: Axis) -> (yes: bool)
    ensures
        yes == reaches(family(rows@, axis.forward, axis.inverse), axis.upper, axis.lower),
{
    let edges = upstream_edges(rows, axis.forward, axis.inverse);
    is_reachable(&edges, axis.upper, axis.lower)
}

proof fn lemma_more_edges_reach_more(
    edges: Set<(TaskId, TaskId)>,
    more: Set<(TaskId, TaskId)>,
    from: TaskId,
    to: TaskId,
)
    requires
        edges.subset_of(more),
        reaches(edges, from, to),
    ensures
        reaches(more, from, to),
{
    let path = choose|path: Seq<TaskId>|
        #[trigger] is_path(edges, path) && path.len() >= 2 && path.first() == from && path.last()
            == to;
    assert(is_path(more, path));
}

/// Of a path from `v` that ends with a use of the edge from `x` to `y` or uses
/// it nowhere, the part before the first use avoids it.
proof fn lemma_up_to_first_use(
    edges: Set<(TaskId, TaskId)>,
    x: TaskId,
    y: TaskId,
    path: Seq<TaskId>,
)
    requires
        is_path(edges.insert((x, y)), path),
        path.len() >= 2,
    ensures
        reaches(edges, path.first(), path.last()) || path.first() == x || reaches(
            edges,
            path.first(),
            x,
        ),
    decreases path.len(),
{
    let all = edges.insert((x, y));
    let v = path.first();
    assert(stands(all, path[0], path[1]));
    if path[0] == x {
    } else if path.len() == 2 {
        assert(stands(edges, path[0], path[1]));
        assert(is_path(edges, path));
    } else {
        let shorter = path.drop_last();
        assert forall|i: int| 0 <= i < shorter.len() - 1 implies stands(
            all,
            #[trigger] shorter[i],
            shorter[i + 1],
        ) by {
            assert(stands(all, path[i], path[i + 1]));
        }
        lemma_up_to_first_use(edges, x, y, shorter);
        if reaches(edges, v, x) {
        } else {
            let n = path.len() - 2;
            assert(shorter.last() == path[n]);
            assert(stands(all, path[n], path[n + 1]));
            assert(path[n] != x);
            assert(stands(edges, path[n], path[n + 1]));
            lemma_reaches_step(edges, v, path[n], path.last());
        }
    }
}

/// Of a path, the part after the last use of the edge from `x` to `y` avoids
/// it.
proof fn lemma_after_last_use(
    edges: Set<(TaskId, TaskId)>,
    x: TaskId,
    y: TaskId,
    path: Seq<TaskId>,
)
    requires
        is_path(edges.insert((x, y)), path),
        path.len() >= 2,
    ensures
        reaches(edges, path.first(), path.last()) || path.last() == y || reaches(
            edges,
            y,
            path.last(),
        ),
    decreases path.len(),
{
    let all = edges.insert((x, y));
    let n = path.len() - 2;
    assert(stands(all, path[n], path[n + 1]));
    if path.last() == y {
    } else {
        assert(stands(edges, path[n], path.last()));
        if path.len() == 2 {
            assert(is_path(edges, path));
        } else {
            let shorter = path.drop_last();
            assert forall|i: int| 0 <= i < shorter.len() - 1 implies stands(
                all,
                #[trigger] shorter[i],
                shorter[i + 1],
            ) by {
                assert(stands(all, path[i], path[i + 1]));
            }
            lemma_after_last_use(edges, x, y, shorter);
            if reaches(edges, path.first(), path[n]) {
                lemma_reaches_step(edges, path.first(), path[n], path.last());
            } else {
                lemma_reaches_step(edges, y, path[n], path.last());
            }
        }
    }
}

proof fn lemma_reaches_through(
    edges: Set<(TaskId, TaskId)>,
    from: TaskId,
    via: TaskId,
    to: TaskId,
)
    requires
        reaches(edges, from, via),
        reaches(edges, via, to),
    ensures
        reaches(edges, from, to),
{
    let a = choose|path: Seq<TaskId>|
        #[trigger] is_path(edges, path) && path.len() >= 2 && path.first() == from && path.last()
            == via;
    let b = choose|path: Seq<TaskId>|
        #[trigger] is_path(edges, path) && path.len() >= 2 && path.first() == via && path.last()
            == to;
    let joined = a.drop_last() + b;
    assert forall|i: int| 0 <= i < joined.len() - 1 implies stands(
        edges,
        #[trigger] joined[i],
        joined[i + 1],
    ) by {
        let m = a.len() - 1;
        if i < m {
            assert(stands(edges, a[i], a[i + 1]));
        } else {
            assert(stands(edges, b[i - m], b[i - m + 1]));
        }
    }
    assert(is_path(edges, joined));
    assert(joined.first() == from && joined.last() == to);
}

/// The guard is exact: among edges without a cycle, a new one between two
/// tasks closes a cycle exactly where its upper end already reaches its lower
/// end.
pub proof fn law_guard_is_exact(edges: Set<(TaskId, TaskId)>, lower: TaskId, upper: TaskId)
    requires
        acyclic(edges),
        lower != upper,
    ensures
        acyclic(edges.insert((lower, upper))) <==> !reaches(edges, upper, lower),
{
    let all = edges.insert((lower, upper));
    if reaches(edges, upper, lower) {
        lemma_more_edges_reach_more(edges, all, upper, lower);
        assert(stands(all, lower, upper));
        lemma_reaches_step(all, upper, lower, upper);
        assert(reaches(all, upper, upper));
    } else {
        assert forall|t: TaskId| !(#[trigger] reaches(all, t, t)) by {
            if reaches(all, t, t) {
                let path = choose|path: Seq<TaskId>|
                    #[trigger] is_path(all, path) && path.len() >= 2 && path.first() == t
                        && path.last() == t;
                lemma_up_to_first_use(edges, lower, upper, path);
                lemma_after_last_use(edges, lower, upper, path);
                if t != upper && t != lower {
                    lemma_reaches_through(edges, upper, t, lower);
                }
            }
        }
    }
}

/// An edge of a family is stated by either end: by the lower task, with the
/// forward kind, or by the upper one, with the inverse kind. Nothing else states
/// one.
pub proof fn law_either_end_states_an_edge(
    rows: Seq<RelationRow>,
    forward: RelationKind,
    inverse: RelationKind,
    from: TaskId,
    to: TaskId,
)
    requires
        forward != inverse,
    ensures
        family(rows, forward, inverse).contains((from, to)) <==> exists|i: int|
            {
                &&& 0 <= i < rows.len()
                &&& {
                    ||| (#[trigger] rows[i]).id == from && rows[i].relations@.contains(
                        TaskRelation { kind: forward, other: to },
                    )
                    ||| rows[i].id == to && rows[i].relations@.contains(
                        TaskRelation { kind: inverse, other: from },
                    )
                }
            },
{
    let down = TaskRelation { kind: forward, other: to };
    let up = TaskRelation { kind: inverse, other: from };
    if upstream_edge(rows, forward, inverse, from, to) {
        let (i, j) = choose|i: int, j: int|
            0 <= i < rows.len() && 0 <= j < rows[i].relations@.len() && #[trigger] states_edge(
                rows[i].id,
                rows[i].relations@[j],
                forward,
                inverse,
                from,
                to,
            );
        assert(rows[i].relations@.contains(rows[i].relations@[j]));
        assert(rows[i].relations@[j] == down || rows[i].relations@[j] == up);
    }
    if exists|i: int|
        {
            &&& 0 <= i < rows.len()
            &&& {
                ||| (#[trigger] rows[i]).id == from && rows[i].relations@.contains(down)
                ||| rows[i].id == to && rows[i].relations@.contains(up)
            }
        } {
        let i = choose|i: int|
            {
                &&& 0 <= i < rows.len()
                &&& {
                    ||| (#[trigger] rows[i]).id == from && rows[i].relations@.contains(down)
                    ||| rows[i].id == to && rows[i].relations@.contains(up)
                }
            };
        if rows[i].id == from && rows[i].relations@.contains(down) {
            let j = choose|j: int|
                0 <= j < rows[i].relations@.len() && rows[i].relations@[j] == down;
            assert(states_edge(rows[i].id, rows[i].relations@[j], forward, inverse, from, to));
        } else {
            let j = choose|j: int|
                0 <= j < rows[i].relations@.len() && rows[i].relations@[j] == up;
            assert(states_edge(rows[i].id, rows[i].relations@[j], forward, inverse, from, to));
        }
    }
}

/// A task reaches what is immediately upstream of it and whatever that reaches,
/// and nothing else.
pub proof fn law_reaching_follows_the_edges(
    edges: Set<(TaskId, TaskId)>,
    from: TaskId,
    to: TaskId,
)
    ensures
        reaches(edges, from, to) <==> edges.contains((from, to)) || exists|via: TaskId|
            edges.contains((from, via)) && #[trigger] reaches(edges, via, to),
{
    if edges.contains((from, to)) {
        let path = seq![from, to];
        assert(stands(edges, path[0], path[1]));
        assert(is_path(edges, path));
        assert(path.first() == from && path.last() == to);
    }
    if exists|via: TaskId| edges.contains((from, via)) && #[trigger] reaches(edges, via, to) {
        let via = choose|via: TaskId|
            edges.contains((from, via)) && #[trigger] reaches(edges, via, to);
        let step = seq![from, via];
        assert(stands(edges, step[0], step[1]));
        assert(is_path(edges, step));
        assert(step.first() == from && step.last() == via);
        lemma_reaches_through(edges, from, via, to);
    }
    if reaches(edges, from, to) {
        let path = choose|path: Seq<TaskId>|
            #[trigger] is_path(edges, path) && path.len() >= 2 && path.first() == from
                && path.last() == to;
        assert(stands(edges, path[0], path[1]));
        if path.len() > 2 {
            let rest = path.drop_first();
            assert forall|i: int| 0 <= i < rest.len() - 1 implies stands(
                edges,
                #[trigger] rest[i],
                rest[i + 1],
            ) by {
                assert(stands(edges, path[i + 1], path[i + 2]));
            }
            assert(is_path(edges, rest));
            assert(rest.first() == path[1] && rest.last() == to);
            assert(reaches(edges, path[1], to));
        }
    }
}

/// A blocked task goes below its blocker and a child below its parent, from
/// whichever end the edge is stated; the other kinds have no direction.
pub proof fn law_edges_lead_upstream(a: TaskId, b: TaskId)
    ensures
        axis_of(RelationKind::BlockedBy, a, b) == Some(
            Axis {
                forward: RelationKind::BlockedBy,
                inverse: RelationKind::Blocks,
                lower: a,
                upper: b,
            },
        ),
        axis_of(RelationKind::Blocks, a, b) == axis_of(RelationKind::BlockedBy, b, a),
        axis_of(RelationKind::ChildOf, a, b) == Some(
            Axis {
                forward: RelationKind::ChildOf,
                inverse: RelationKind::ParentOf,
                lower: a,
                upper: b,
            },
        ),
        axis_of(RelationKind::ParentOf, a, b) == axis_of(RelationKind::ChildOf, b, a),
        axis_of(RelationKind::RelatedTo, a, b) is None,
        axis_of(RelationKind::Duplicates, a, b) is None,
{
}

} // verus!
