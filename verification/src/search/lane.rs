//! Rankings: ordering by weight with ties by task id, and the lanes that feed
//! reciprocal-rank fusion.
//!
//! A weight stands for whatever a lane counts or scores, as an integer whose
//! order is the order of the scores. For a fused score, which is a finite
//! non-negative double, that integer is its bit pattern.

use crate::model::ids::TaskId;
use crate::seqs;
use vstd::prelude::*;
use vstd::relations::*;

verus! {

/// A task with the weight it is ordered by.
#[derive(Clone, Copy, Debug, PartialEq, Eq, Structural)]
pub struct Weighted {
    pub task_id: TaskId,
    pub weight: u128,
}

/// A task's 1-based place in one lane.
#[derive(Clone, Copy, Debug, PartialEq, Eq, Structural)]
pub struct RankEntry {
    pub task_id: TaskId,
    pub rank: usize,
}

/// `a` may stand before `b`: more weight, or as much and no greater task id.
pub open spec fn precedes(a: Weighted, b: Weighted) -> bool {
    a.weight > b.weight || (a.weight == b.weight && a.task_id.0 <= b.task_id.0)
}

/// The entries by weight, greatest first, ties by task id ascending.
pub open spec fn ranked(s: Seq<Weighted>) -> Seq<Weighted> {
    s.sort_by(|a: Weighted, b: Weighted| precedes(a, b))
}

pub open spec fn tasks(s: Seq<Weighted>) -> Seq<TaskId> {
    s.map_values(|w: Weighted| w.task_id)
}

proof fn lemma_precedes_is_total()
    ensures
        total_ordering(|a: Weighted, b: Weighted| precedes(a, b)),
{
}

/// The ranking holds the same entries, and of any two of them the heavier
/// stands first; of two as heavy, the one with the lower task id.
pub proof fn law_ties_break_by_task_id(s: Seq<Weighted>, i: int, j: int)
    requires
        0 <= i < j < ranked(s).len(),
    ensures
        ranked(s).to_multiset() == s.to_multiset(),
        precedes(ranked(s)[i], ranked(s)[j]),
        ranked(s)[i].weight >= ranked(s)[j].weight,
        ranked(s)[i].weight == ranked(s)[j].weight ==> ranked(s)[i].task_id.0 <= ranked(
            s,
        )[j].task_id.0,
{
    let le = |a: Weighted, b: Weighted| precedes(a, b);
    lemma_precedes_is_total();
    s.lemma_sort_by_ensures(le);
    assert(le(ranked(s)[i], ranked(s)[j]));
}

/// Sort by weight, greatest first, ties by task id ascending.
pub fn sort_weighted(input: &Vec<Weighted>) -> (out: Vec<Weighted>)
    ensures
        out@ == ranked(input@),
{
    let ghost le = |a: Weighted, b: Weighted| precedes(a, b);
    let mut out: Vec<Weighted> = Vec::new();
    let mut i: usize = 0;
    assert(input@.take(0) =~= Seq::<Weighted>::empty());
    while i < input.len()
        invariant
            i <= input.len(),
            le == (|a: Weighted, b: Weighted| precedes(a, b)),
            sorted_by(out@, le),
            out@.to_multiset() == input@.take(i as int).to_multiset(),
        decreases input.len() - i,
    {
        let w: Weighted = input[i];
        let mut j: usize = 0;
        while j < out.len() && (out[j].weight > w.weight || (out[j].weight == w.weight
            && out[j].task_id.0 <= w.task_id.0))
            invariant
                j <= out.len(),
                forall|k: int| 0 <= k < j ==> precedes(#[trigger] out@[k], w),
            decreases out.len() - j,
        {
            j += 1;
        }
        proof {
            broadcast use vstd::seq_lib::group_to_multiset_ensures;

            let longer = input@.take(i as int + 1);
            assert(longer =~= input@.take(i as int).push(w));
            seqs::lemma_insert_multiset(out@, j as int, w);
            assert(longer.to_multiset() =~= input@.take(i as int).to_multiset().insert(w));
            let grown = out@.insert(j as int, w);
            assert forall|p: int, q: int| 0 <= p < q < grown.len() implies #[trigger] le(
                grown[p],
                grown[q],
            ) by {
                let a = if p < j {
                    p
                } else {
                    p - 1
                };
                let b = if q < j {
                    q
                } else {
                    q - 1
                };
                if p != j && q != j {
                    assert(le(out@[a], out@[b]));
                }
                if p == j {
                    assert(precedes(w, out@[j as int]));
                    if b > j {
                        assert(le(out@[j as int], out@[b]));
                    }
                }
            }
        }
        out.insert(j, w);
        i += 1;
    }
    proof {
        assert(input@.take(i as int) =~= input@);
        lemma_precedes_is_total();
        input@.lemma_sort_by_ensures(le);
        vstd::seq_lib::lemma_sorted_unique(out@, ranked(input@), le);
    }
    out
}

/// The tasks of fused scores, greatest score first, ties by task id ascending.
pub fn order_fused(scores: &Vec<Weighted>) -> (out: Vec<TaskId>)
    ensures
        out@ == tasks(ranked(scores@)),
{
    let sorted = sort_weighted(scores);
    tasks_of(&sorted)
}

/// The tasks of a list of weights.
pub fn tasks_of(list: &Vec<Weighted>) -> (out: Vec<TaskId>)
    ensures
        out@ == tasks(list@),
{
    let mut out: Vec<TaskId> = Vec::new();
    let mut i: usize = 0;
    while i < list.len()
        invariant
            i <= list.len(),
            out@ == tasks(list@).take(i as int),
        decreases list.len() - i,
    {
        out.push(list[i].task_id);
        assert(out@ =~= tasks(list@).take(i as int + 1));
        i += 1;
    }
    assert(tasks(list@).take(i as int) =~= tasks(list@));
    out
}

/// Places 1, 2, ... in the order of the list.
pub open spec fn places(list: Seq<TaskId>) -> Seq<RankEntry> {
    Seq::new(list.len(), |i: int| RankEntry { task_id: list[i], rank: (i + 1) as usize })
}

/// Give each task its 1-based place.
pub fn place_all(list: &Vec<TaskId>) -> (out: Vec<RankEntry>)
    ensures
        out@ == places(list@),
{
    let mut out: Vec<RankEntry> = Vec::new();
    let mut i: usize = 0;
    while i < list.len()
        invariant
            i <= list.len(),
            out@ == places(list@).take(i as int),
        decreases list.len() - i,
    {
        out.push(RankEntry { task_id: list[i], rank: i + 1 });
        assert(out@ =~= places(list@).take(i as int + 1));
        i += 1;
    }
    assert(places(list@).take(i as int) =~= places(list@));
    out
}

/// Every task of a list has its place: the first is first, and each next one
/// comes one later.
pub proof fn law_places_count_from_one(list: Seq<TaskId>, i: int)
    requires
        0 <= i < list.len() <= usize::MAX,
    ensures
        places(list).len() == list.len(),
        places(list)[i].task_id == list[i],
        places(list)[i].rank as int == i + 1,
{
}

} // verus!
