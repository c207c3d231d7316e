//! From lane rankings to an ordered, explained result list.

use super::lane::{self, order_fused, RankEntry, Weighted};
use super::literal::{Evidence, MatchedSourceKind, TaskLiteral};
use super::query_mode::QueryMode;
use crate::model::ids::{TaskId, WorkspaceId};
use crate::seqs;
use vstd::prelude::*;

verus! {

/// One task of the lexical lane, with the chunk that matched.
#[derive(Clone, Debug, PartialEq, Eq)]
pub struct LexicalRank {
    pub task_id: TaskId,
    pub rank: usize,
    pub evidence: Evidence,
}

/// What a result shows of its task.
#[derive(Clone, Debug, PartialEq, Eq)]
pub struct TaskIdentity {
    pub display_id: String,
    pub workspace_id: WorkspaceId,
    pub workspace_name: String,
    pub title: String,
}

/// Which lanes a result came from.
#[derive(Clone, Copy, Debug, PartialEq, Eq)]
pub struct SearchMatch {
    pub literal: Option<bool>,
    pub lexical_rank: Option<u64>,
    pub semantic_rank: Option<u64>,
}

#[derive(Clone, Debug, PartialEq, Eq)]
pub struct SearchResult {
    pub rank: u64,
    pub task_id: TaskId,
    pub identity: TaskIdentity,
    pub matched: SearchMatch,
    pub matched_source: Evidence,
}

/// The places of a lane, where the last entry of a task is the one that
/// counts.
pub open spec fn latest_places(list: Seq<RankEntry>, n: int) -> Seq<RankEntry>
    decreases n,
{
    if n <= 0 {
        Seq::empty()
    } else if forall|j: int|
        n - 1 < j < list.len() ==> (#[trigger] list[j]).task_id != list[n - 1].task_id {
        latest_places(list, n - 1).push(list[n - 1])
    } else {
        latest_places(list, n - 1)
    }
}

/// The places that the lexical lane names.
pub open spec fn lexical_places(lexical: Seq<LexicalRank>) -> Seq<RankEntry> {
    lexical.map_values(|l: LexicalRank| RankEntry { task_id: l.task_id, rank: l.rank })
}

/// A lane, where it ranks any task.
pub open spec fn nonempty_lane(lane: Seq<RankEntry>) -> Seq<Seq<RankEntry>> {
    if lane.len() > 0 {
        seq![lane]
    } else {
        Seq::empty()
    }
}

/// The lanes handed to fusion: lexical, literal occurrence, semantic, each
/// only where it ranks any task.
pub open spec fn lanes_of(
    lexical: Seq<LexicalRank>,
    occurrence: Seq<RankEntry>,
    semantic: Seq<TaskId>,
) -> Seq<Seq<RankEntry>> {
    nonempty_lane(latest_places(lexical_places(lexical), lexical.len() as int)) + nonempty_lane(
        occurrence,
    ) + nonempty_lane(latest_places(lane::places(semantic), semantic.len() as int))
}

/// The entries of a lane that count.
fn latest_of(list: &Vec<RankEntry>) -> (out: Vec<RankEntry>)
    ensures
        out@ == latest_places(list@, list@.len() as int),
{
    let mut out: Vec<RankEntry> = Vec::new();
    let mut i: usize = 0;
    while i < list.len()
        invariant
            i <= list.len(),
            out@ == latest_places(list@, i as int),
        decreases list.len() - i,
    {
        let mut j: usize = i + 1;
        while j < list.len() && list[j].task_id != list[i].task_id
            invariant
                i < j <= list.len(),
                forall|k: int|
                    i < k < j ==> (#[trigger] list@[k]).task_id != list@[i as int].task_id,
            decreases list.len() - j,
        {
            j += 1;
        }
        if j == list.len() {
            out.push(list[i]);
        } else {
            assert(list@[j as int].task_id == list@[i as int].task_id);
        }
        i += 1;
    }
    out
}

/// The contents of a list of lanes.
pub open spec fn lane_views(lanes: Seq<Vec<RankEntry>>) -> Seq<Seq<RankEntry>> {
    lanes.map_values(|l: Vec<RankEntry>| l@)
}

/// Collect the lanes to fuse. The occurrence lane comes from
/// `literal_occurrence_ranking`.
pub fn collect_lanes(
    lexical: &Vec<LexicalRank>,
    occurrence: &Vec<RankEntry>,
    semantic: &Vec<TaskId>,
) -> (out: Vec<Vec<RankEntry>>)
    ensures
        lane_views(out@) == lanes_of(lexical@, occurrence@, semantic@),
{
    let mut named: Vec<RankEntry> = Vec::new();
    let mut i: usize = 0;
    while i < lexical.len()
        invariant
            i <= lexical.len(),
            named@ == lexical_places(lexical@).take(i as int),
        decreases lexical.len() - i,
    {
        named.push(RankEntry { task_id: lexical[i].task_id, rank: lexical[i].rank });
        assert(named@ =~= lexical_places(lexical@).take(i as int + 1));
        i += 1;
    }
    assert(lexical_places(lexical@).take(i as int) =~= lexical_places(lexical@));
    let first = latest_of(&named);
    let mut second: Vec<RankEntry> = Vec::new();
    let mut k: usize = 0;
    while k < occurrence.len()
        invariant
            k <= occurrence.len(),
            second@ == occurrence@.take(k as int),
        decreases occurrence.len() - k,
    {
        second.push(occurrence[k]);
        assert(second@ =~= occurrence@.take(k as int + 1));
        k += 1;
    }
    assert(occurrence@.take(k as int) =~= occurrence@);
    let placed = lane::place_all(semantic);
    let third = latest_of(&placed);
    let mut out: Vec<Vec<RankEntry>> = Vec::new();
    if first.len() > 0 {
        out.push(first);
    }
    assert(lane_views(out@) =~= nonempty_lane(first@));
    if second.len() > 0 {
        out.push(second);
    }
    assert(lane_views(out@) =~= nonempty_lane(first@) + nonempty_lane(second@));
    if third.len() > 0 {
        out.push(third);
    }
    assert(lane_views(out@) =~= nonempty_lane(first@) + nonempty_lane(second@) + nonempty_lane(
        third@,
    ));
    out
}

/// What the literal lane found for `t`: its last entry.
pub open spec fn literal_for(list: Seq<TaskLiteral>, t: TaskId) -> Option<TaskLiteral>
    decreases list.len(),
{
    if list.len() == 0 {
        None
    } else if list.last().task_id == t {
        Some(list.last())
    } else {
        literal_for(list.drop_last(), t)
    }
}

/// The lexical entry for `t`: its last.
pub open spec fn lexical_for(list: Seq<LexicalRank>, t: TaskId) -> Option<LexicalRank>
    decreases list.len(),
{
    if list.len() == 0 {
        None
    } else if list.last().task_id == t {
        Some(list.last())
    } else {
        lexical_for(list.drop_last(), t)
    }
}

/// The 1-based place of `t` in the semantic lane: its last.
pub open spec fn semantic_for(list: Seq<TaskId>, t: TaskId) -> Option<u64>
    decreases list.len(),
{
    if list.len() == 0 {
        None
    } else if list.last() == t {
        Some(list.len() as u64)
    } else {
        semantic_for(list.drop_last(), t)
    }
}

/// Find the literal-lane entry of a task.
pub fn find_literal(list: &Vec<TaskLiteral>, t: TaskId) -> (out: Option<&TaskLiteral>)
    ensures
        match out {
            Some(l) => literal_for(list@, t) == Some(*l),
            None => literal_for(list@, t) is None,
        },
{
    let mut n: usize = list.len();
    assert(list@.take(n as int) =~= list@);
    while n > 0
        invariant
            n <= list.len(),
            literal_for(list@, t) == literal_for(list@.take(n as int), t),
        decreases n,
    {
        assert(list@.take(n as int).drop_last() =~= list@.take(n - 1));
        if list[n - 1].task_id == t {
            return Some(&list[n - 1]);
        }
        n -= 1;
    }
    None
}

/// Find the lexical-lane entry of a task.
pub fn find_lexical(list: &Vec<LexicalRank>, t: TaskId) -> (out: Option<&LexicalRank>)
    ensures
        match out {
            Some(l) => lexical_for(list@, t) == Some(*l),
            None => lexical_for(list@, t) is None,
        },
{
    let mut n: usize = list.len();
    assert(list@.take(n as int) =~= list@);
    while n > 0
        invariant
            n <= list.len(),
            lexical_for(list@, t) == lexical_for(list@.take(n as int), t),
        decreases n,
    {
        assert(list@.take(n as int).drop_last() =~= list@.take(n - 1));
        if list[n - 1].task_id == t {
            return Some(&list[n - 1]);
        }
        n -= 1;
    }
    None
}

/// Find a task's place in the semantic lane.
pub fn find_semantic(list: &Vec<TaskId>, t: TaskId) -> (out: Option<u64>)
    ensures
        out == semantic_for(list@, t),
{
    let mut n: usize = list.len();
    assert(list@.take(n as int) =~= list@);
    while n > 0
        invariant
            n <= list.len(),
            semantic_for(list@, t) == semantic_for(list@.take(n as int), t),
        decreases n,
    {
        assert(list@.take(n as int).drop_last() =~= list@.take(n - 1));
        if list[n - 1] == t {
            return Some(n as u64);
        }
        n -= 1;
    }
    None
}

/// In exact mode a task that holds the query verbatim goes ahead; in
/// identifier mode, also one that holds every identifier-shaped token.
pub open spec fn goes_ahead(list: Seq<TaskLiteral>, mode: QueryMode, t: TaskId) -> bool {
    literal_for(list, t) matches Some(l) && match mode {
        QueryMode::Exact => l.full_present,
        QueryMode::Identifier => l.full_present || l.all_tokens_present,
        QueryMode::Natural => false,
    }
}

/// The tasks that go ahead, then the others, each in the order given.
pub open spec fn promoted(order: Seq<TaskId>, list: Seq<TaskLiteral>, mode: QueryMode) -> Seq<
    TaskId,
> {
    order.filter(|t: TaskId| goes_ahead(list, mode, t)) + order.filter(
        |t: TaskId| !goes_ahead(list, mode, t),
    )
}

/// At most the first `limit` tasks.
pub open spec fn at_most(order: Seq<TaskId>, limit: int) -> Seq<TaskId> {
    if order.len() <= limit {
        order
    } else {
        order.take(limit)
    }
}

/// The tasks to show, best first.
pub open spec fn shown_tasks(
    scores: Seq<Weighted>,
    literal: Seq<TaskLiteral>,
    mode: QueryMode,
    limit: int,
) -> Seq<TaskId> {
    at_most(promoted(lane::tasks(lane::ranked(scores)), literal, mode), limit)
}

/// Whether `t` goes ahead.
fn is_ahead(list: &Vec<TaskLiteral>, mode: QueryMode, t: TaskId) -> (yes: bool)
    ensures
        yes == goes_ahead(list@, mode, t),
{
    match find_literal(list, t) {
        None => false,
        Some(l) => match mode {
            QueryMode::Exact => l.full_present,
            QueryMode::Identifier => l.full_present || l.all_tokens_present,
            QueryMode::Natural => false,
        },
    }
}

/// Move the tasks that go ahead to the front.
pub fn promote_literal(order: &Vec<TaskId>, list: &Vec<TaskLiteral>, mode: QueryMode) -> (out: Vec<
    TaskId,
>)
    ensures
        out@ == promoted(order@, list@, mode),
{
    let ghost ahead = |t: TaskId| goes_ahead(list@, mode, t);
    let ghost behind = |t: TaskId| !goes_ahead(list@, mode, t);
    let mut front: Vec<TaskId> = Vec::new();
    let mut back: Vec<TaskId> = Vec::new();
    let mut i: usize = 0;
    proof {
        reveal(Seq::filter);
    }
    assert(order@.take(0) =~= Seq::empty());
    assert(front@ =~= order@.take(0).filter(ahead));
    assert(back@ =~= order@.take(0).filter(behind));
    while i < order.len()
        invariant
            i <= order.len(),
            ahead == (|t: TaskId| goes_ahead(list@, mode, t)),
            behind == (|t: TaskId| !goes_ahead(list@, mode, t)),
            front@ == order@.take(i as int).filter(ahead),
            back@ == order@.take(i as int).filter(behind),
        decreases order.len() - i,
    {
        let t: TaskId = order[i];
        proof {
            reveal(Seq::filter);
            assert(order@.take(i as int + 1).drop_last() =~= order@.take(i as int));
        }
        if is_ahead(list, mode, t) {
            front.push(t);
        } else {
            back.push(t);
        }
        i += 1;
    }
    assert(order@.take(i as int) =~= order@);
    front.append(&mut back);
    front
}

/// The tasks to show, best first: by fused score with ties by task id, literal
/// matches moved ahead where the mode asks for it, at most `limit` of them.
pub fn rank_results(
    scores: &Vec<Weighted>,
    literal: &Vec<TaskLiteral>,
    mode: QueryMode,
    limit: usize,
) -> (out: Vec<TaskId>)
    ensures
        out@ == shown_tasks(scores@, literal@, mode, limit as int),
{
    let order = order_fused(scores);
    let mut out = promote_literal(&order, literal, mode);
    out.truncate(limit);
    assert(out@ =~= shown_tasks(scores@, literal@, mode, limit as int));
    out
}

/// A task that goes ahead never stands behind one that does not.
pub proof fn law_literal_matches_lead(
    order: Seq<TaskId>,
    list: Seq<TaskLiteral>,
    mode: QueryMode,
    i: int,
    j: int,
)
    requires
        0 <= i <= j < promoted(order, list, mode).len(),
        goes_ahead(list, mode, promoted(order, list, mode)[j]),
    ensures
        goes_ahead(list, mode, promoted(order, list, mode)[i]),
{
    let ahead = |t: TaskId| goes_ahead(list, mode, t);
    let behind = |t: TaskId| !goes_ahead(list, mode, t);
    seqs::lemma_filter_all(order, ahead);
    seqs::lemma_filter_all(order, behind);
    let front = order.filter(ahead);
    let back = order.filter(behind);
    if j >= front.len() {
        assert(promoted(order, list, mode)[j] == back[j - front.len()]);
        assert(behind(back[j - front.len()]));
    }
    assert(promoted(order, list, mode)[i] == front[i]);
    assert(ahead(front[i]));
}

/// A copy of an identity.
pub fn clone_identity(i: &TaskIdentity) -> (out: TaskIdentity)
    ensures
        out == *i,
{
    TaskIdentity {
        display_id: i.display_id.clone(),
        workspace_id: i.workspace_id,
        workspace_name: i.workspace_name.clone(),
        title: i.title.clone(),
    }
}

fn clone_evidence(e: &Evidence) -> (out: Evidence)
    ensures
        out == *e,
{
    Evidence {
        kind: e.kind,
        remote_comment_id: match &e.remote_comment_id {
            Some(x) => Some(x.clone()),
            None => None,
        },
        excerpt: e.excerpt.clone(),
    }
}

/// The evidence of a result: the literal hit, else the lexical chunk, else the
/// title.
pub open spec fn evidence_of(
    lit: Option<TaskLiteral>,
    lex: Option<LexicalRank>,
    title: String,
) -> Evidence {
    if lit is Some && lit->0.contributed {
        lit->0.evidence
    } else if lex is Some {
        lex->0.evidence
    } else {
        Evidence { kind: MatchedSourceKind::Core, remote_comment_id: None, excerpt: title }
    }
}

/// Choose the evidence of a result.
pub fn evidence(
    lit: Option<&TaskLiteral>,
    lex: Option<&LexicalRank>,
    title: &String,
) -> (out: Evidence)
    ensures
        out == evidence_of(
            match lit {
                Some(l) => Some(*l),
                None => None,
            },
            match lex {
                Some(l) => Some(*l),
                None => None,
            },
            *title,
        ),
{
    match lit {
        Some(l) => {
            if l.contributed {
                return clone_evidence(&l.evidence);
            }
        },
        None => {},
    }
    match lex {
        Some(l) => clone_evidence(&l.evidence),
        None => Evidence {
            kind: MatchedSourceKind::Core,
            remote_comment_id: None,
            excerpt: title.clone(),
        },
    }
}

/// The result shown for a task at place `idx`, counted from 0.
pub open spec fn result_of(
    idx: int,
    t: TaskId,
    identity: TaskIdentity,
    literal: Seq<TaskLiteral>,
    lexical: Seq<LexicalRank>,
    semantic: Seq<TaskId>,
) -> SearchResult {
    let lit = literal_for(literal, t);
    let lex = lexical_for(lexical, t);
    SearchResult {
        rank: (idx + 1) as u64,
        task_id: t,
        identity,
        matched: SearchMatch {
            literal: if lit is Some && lit->0.contributed {
                Some(true)
            } else {
                None
            },
            lexical_rank: match lex {
                Some(l) => Some(l.rank as u64),
                None => None,
            },
            semantic_rank: semantic_for(semantic, t),
        },
        matched_source: evidence_of(lit, lex, identity.title),
    }
}

/// Build the result shown for a task.
pub fn build_result(
    idx: usize,
    t: TaskId,
    identity: TaskIdentity,
    literal: &Vec<TaskLiteral>,
    lexical: &Vec<LexicalRank>,
    semantic: &Vec<TaskId>,
) -> (out: SearchResult)
    requires
        idx < usize::MAX,
    ensures
        out == result_of(idx as int, t, identity, literal@, lexical@, semantic@),
{
    let lit = find_literal(literal, t);
    let lex = find_lexical(lexical, t);
    let matched_source = evidence(lit, lex, &identity.title);
    let matched = SearchMatch {
        literal: match lit {
            Some(l) => if l.contributed {
                Some(true)
            } else {
                None
            },
            None => None,
        },
        lexical_rank: match lex {
            Some(l) => Some(l.rank as u64),
            None => None,
        },
        semantic_rank: find_semantic(semantic, t),
    };
    SearchResult { rank: (idx + 1) as u64, task_id: t, identity, matched, matched_source }
}

/// Entry `q` of the literal lane is the last one for `t`.
pub open spec fn last_literal(list: Seq<TaskLiteral>, t: TaskId, q: int) -> bool {
    &&& 0 <= q < list.len()
    &&& list[q].task_id == t
    &&& forall|k: int| q < k < list.len() ==> (#[trigger] list[k]).task_id != t
}

/// Entry `q` of the lexical lane is the last one for `t`.
pub open spec fn last_lexical(list: Seq<LexicalRank>, t: TaskId, q: int) -> bool {
    &&& 0 <= q < list.len()
    &&& list[q].task_id == t
    &&& forall|k: int| q < k < list.len() ==> (#[trigger] list[k]).task_id != t
}

/// Place `q` of the semantic lane is the last one that `t` has.
pub open spec fn last_semantic(list: Seq<TaskId>, t: TaskId, q: int) -> bool {
    &&& 0 <= q < list.len()
    &&& list[q] == t
    &&& forall|k: int| q < k < list.len() ==> #[trigger] list[k] != t
}

/// Where a task has entries in the literal lane, the last of them counts; a
/// task without any has none.
pub proof fn law_last_literal_counts(list: Seq<TaskLiteral>, t: TaskId, q: int)
    ensures
        last_literal(list, t, q) ==> literal_for(list, t) == Some(list[q]),
        (forall|k: int| 0 <= k < list.len() ==> (#[trigger] list[k]).task_id != t)
            ==> literal_for(list, t) is None,
    decreases list.len(),
{
    if list.len() > 0 {
        let front = list.drop_last();
        law_last_literal_counts(front, t, q);
        if last_literal(list, t, q) && q < front.len() {
            assert(list[list.len() - 1].task_id != t);
            assert forall|k: int| q < k < front.len() implies (#[trigger] front[k]).task_id
                != t by {
                assert(list[k].task_id != t);
            }
            assert(last_literal(front, t, q));
        }
        if forall|k: int| 0 <= k < list.len() ==> (#[trigger] list[k]).task_id != t {
            assert(list[list.len() - 1].task_id != t);
            assert forall|k: int| 0 <= k < front.len() implies (#[trigger] front[k]).task_id
                != t by {
                assert(list[k].task_id != t);
            }
        }
    }
}

/// Where a task has entries in the lexical lane, the last of them counts; a
/// task without any has none.
pub proof fn law_last_lexical_counts(list: Seq<LexicalRank>, t: TaskId, q: int)
    ensures
        last_lexical(list, t, q) ==> lexical_for(list, t) == Some(list[q]),
        (forall|k: int| 0 <= k < list.len() ==> (#[trigger] list[k]).task_id != t)
            ==> lexical_for(list, t) is None,
    decreases list.len(),
{
    if list.len() > 0 {
        let front = list.drop_last();
        law_last_lexical_counts(front, t, q);
        if last_lexical(list, t, q) && q < front.len() {
            assert(list[list.len() - 1].task_id != t);
            assert forall|k: int| q < k < front.len() implies (#[trigger] front[k]).task_id
                != t by {
                assert(list[k].task_id != t);
            }
            assert(last_lexical(front, t, q));
        }
        if forall|k: int| 0 <= k < list.len() ==> (#[trigger] list[k]).task_id != t {
            assert(list[list.len() - 1].task_id != t);
            assert forall|k: int| 0 <= k < front.len() implies (#[trigger] front[k]).task_id
                != t by {
                assert(list[k].task_id != t);
            }
        }
    }
}

/// A task's place in the semantic lane is its last one there, counted from 1;
/// a task that is not there has none.
pub proof fn law_last_semantic_counts(list: Seq<TaskId>, t: TaskId, q: int)
    requires
        list.len() <= u64::MAX,
    ensures
        last_semantic(list, t, q) ==> (semantic_for(list, t) matches Some(n) && n as int == q + 1),
        !list.contains(t) ==> semantic_for(list, t) is None,
    decreases list.len(),
{
    if list.len() > 0 {
        let front = list.drop_last();
        law_last_semantic_counts(front, t, q);
        assert(list.contains(list[list.len() - 1]));
        if last_semantic(list, t, q) && q < front.len() {
            assert(list[list.len() - 1] != t);
            assert forall|k: int| q < k < front.len() implies #[trigger] front[k] != t by {
                assert(list[k] != t);
            }
            assert(last_semantic(front, t, q));
        }
        if front.contains(t) {
            let k = choose|k: int| 0 <= k < front.len() && front[k] == t;
            assert(list[k] == t);
        }
    }
}

proof fn lemma_literal_source(list: Seq<TaskLiteral>, t: TaskId)
    requires
        literal_for(list, t) is Some,
    ensures
        exists|q: int| #[trigger] last_literal(list, t, q) && list[q] == literal_for(list, t)->0,
    decreases list.len(),
{
    let front = list.drop_last();
    if list.last().task_id == t {
        assert(last_literal(list, t, list.len() - 1));
    } else {
        lemma_literal_source(front, t);
        let q = choose|q: int|
            #[trigger] last_literal(front, t, q) && front[q] == literal_for(front, t)->0;
        assert forall|k: int| q < k < list.len() implies (#[trigger] list[k]).task_id != t by {
            if k < front.len() {
                assert(front[k].task_id != t);
            }
        }
        assert(last_literal(list, t, q));
    }
}

/// The task's literal entry says that it holds the query verbatim, or, in
/// identifier mode, every identifier-shaped token of it.
pub open spec fn holds_query(list: Seq<TaskLiteral>, mode: QueryMode, t: TaskId) -> bool {
    exists|q: int|
        #[trigger] last_literal(list, t, q) && (list[q].full_present || (mode
            == QueryMode::Identifier && list[q].all_tokens_present))
}

proof fn lemma_goes_ahead(list: Seq<TaskLiteral>, mode: QueryMode, t: TaskId)
    ensures
        mode != QueryMode::Natural ==> goes_ahead(list, mode, t) == holds_query(list, mode, t),
        mode == QueryMode::Natural ==> !goes_ahead(list, mode, t),
{
    if literal_for(list, t) is Some {
        lemma_literal_source(list, t);
    }
    if holds_query(list, mode, t) {
        let q = choose|q: int|
            #[trigger] last_literal(list, t, q) && (list[q].full_present || (mode
                == QueryMode::Identifier && list[q].all_tokens_present));
        law_last_literal_counts(list, t, q);
    }
}

/// Of two shown tasks in identifier mode, if the later one holds the query
/// verbatim or every identifier-shaped token of it, so does the earlier one;
/// in exact mode the same holds of the query verbatim alone.
pub proof fn law_matches_are_shown_first(
    scores: Seq<Weighted>,
    literal: Seq<TaskLiteral>,
    mode: QueryMode,
    limit: int,
    i: int,
    j: int,
    q: int,
)
    requires
        limit >= 0,
        0 <= i < j < shown_tasks(scores, literal, mode, limit).len(),
        last_literal(literal, shown_tasks(scores, literal, mode, limit)[j], q),
    ensures
        mode == QueryMode::Exact && literal[q].full_present ==> exists|p: int|
            #[trigger] last_literal(literal, shown_tasks(scores, literal, mode, limit)[i], p)
                && literal[p].full_present,
        mode == QueryMode::Identifier && (literal[q].full_present
            || literal[q].all_tokens_present) ==> exists|p: int|
            #[trigger] last_literal(literal, shown_tasks(scores, literal, mode, limit)[i], p) && (
            literal[p].full_present || literal[p].all_tokens_present),
{
    let shown = shown_tasks(scores, literal, mode, limit);
    let order = lane::tasks(lane::ranked(scores));
    lemma_goes_ahead(literal, mode, shown[i]);
    lemma_goes_ahead(literal, mode, shown[j]);
    assert(shown[i] == promoted(order, literal, mode)[i]);
    assert(shown[j] == promoted(order, literal, mode)[j]);
    if goes_ahead(literal, mode, shown[j]) {
        law_literal_matches_lead(order, literal, mode, i, j);
    }
}

/// Of two shown tasks that both hold the query, or both do not, the one with
/// the greater fused score stands first, and of two with the same score the one
/// with the lower id. In natural mode that holds of any two.
pub proof fn law_shown_by_score(
    scores: Seq<Weighted>,
    literal: Seq<TaskLiteral>,
    mode: QueryMode,
    limit: int,
    i: int,
    j: int,
)
    requires
        limit >= 0,
        0 <= i < j < shown_tasks(scores, literal, mode, limit).len(),
        mode == QueryMode::Natural || holds_query(
            literal,
            mode,
            shown_tasks(scores, literal, mode, limit)[i],
        ) == holds_query(literal, mode, shown_tasks(scores, literal, mode, limit)[j]),
    ensures
        exists|x: int, y: int|
            {
                &&& 0 <= x < scores.len()
                &&& 0 <= y < scores.len()
                &&& (#[trigger] scores[x]).task_id == shown_tasks(scores, literal, mode, limit)[i]
                &&& (#[trigger] scores[y]).task_id == shown_tasks(scores, literal, mode, limit)[j]
                &&& scores[x].weight > scores[y].weight || (scores[x].weight == scores[y].weight
                    && scores[x].task_id.0 <= scores[y].task_id.0)
            },
{
    broadcast use vstd::seq_lib::group_to_multiset_ensures;

    let shown = shown_tasks(scores, literal, mode, limit);
    let sorted = lane::ranked(scores);
    let order = lane::tasks(sorted);
    let ahead = |t: TaskId| goes_ahead(literal, mode, t);
    let behind = |t: TaskId| !goes_ahead(literal, mode, t);
    let front = order.filter(ahead);
    let back = order.filter(behind);
    let all = promoted(order, literal, mode);
    assert(all == front + back);
    assert(shown[i] == all[i] && shown[j] == all[j]);
    lemma_goes_ahead(literal, mode, shown[i]);
    lemma_goes_ahead(literal, mode, shown[j]);
    seqs::lemma_filter_all(order, ahead);
    seqs::lemma_filter_all(order, behind);
    assert(i < front.len() ==> ahead(front[i]));
    assert(i >= front.len() ==> behind(back[i - front.len()]));
    assert(j < front.len() ==> ahead(front[j]));
    assert(j >= front.len() ==> behind(back[j - front.len()]));
    let (a, b) = if j < front.len() {
        seqs::lemma_filter_order(order, ahead, i, j)
    } else {
        seqs::lemma_filter_order(order, behind, i - front.len(), j - front.len())
    };
    assert(order[a] == shown[i] && order[b] == shown[j]);
    lane::law_ties_break_by_task_id(scores, a, b);
    assert(sorted.contains(sorted[a]) && sorted.contains(sorted[b]));
    assert(scores.to_multiset().count(sorted[a]) > 0);
    assert(scores.to_multiset().count(sorted[b]) > 0);
    assert(scores.contains(sorted[a]) && scores.contains(sorted[b]));
    let x = choose|x: int| 0 <= x < scores.len() && scores[x] == sorted[a];
    let y = choose|y: int| 0 <= y < scores.len() && scores[y] == sorted[b];
    assert(scores[x].task_id == shown[i] && scores[y].task_id == shown[j]);
}

/// Every scored task has its place, and a limit cuts the list off behind it:
/// what is shown are the first tasks of what would be shown without it.
pub proof fn law_limit_cuts_the_ranking_off(
    scores: Seq<Weighted>,
    literal: Seq<TaskLiteral>,
    mode: QueryMode,
    limit: int,
)
    requires
        limit >= 0,
    ensures
        shown_tasks(scores, literal, mode, scores.len() as int).to_multiset() == scores.map_values(
            |w: Weighted| w.task_id,
        ).to_multiset(),
        shown_tasks(scores, literal, mode, limit) == shown_tasks(
            scores,
            literal,
            mode,
            scores.len() as int,
        ).take(
            if limit < scores.len() {
                limit
            } else {
                scores.len() as int
            },
        ),
        limit >= scores.len() ==> shown_tasks(scores, literal, mode, limit).len() == scores.len(),
        limit < scores.len() ==> shown_tasks(scores, literal, mode, limit).len() == limit,
{
    broadcast use vstd::seq_lib::group_to_multiset_ensures;

    let le = |a: Weighted, b: Weighted| lane::precedes(a, b);
    let id = |w: Weighted| w.task_id;
    let sorted = lane::ranked(scores);
    let order = lane::tasks(sorted);
    scores.lemma_sort_by_ensures(le);
    assert(sorted.len() == sorted.to_multiset().len());
    assert(scores.len() == scores.to_multiset().len());
    assert(order =~= sorted.map_values(id));
    seqs::lemma_map_multiset(sorted, scores, id);
    seqs::lemma_filter_partition(
        order,
        |t: TaskId| goes_ahead(literal, mode, t),
        |t: TaskId| !goes_ahead(literal, mode, t),
    );
    let full = shown_tasks(scores, literal, mode, scores.len() as int);
    assert(full.take(full.len() as int) =~= full);
}

/// Of each lane the last entry of a task counts, with its place there; the
/// entries that count stand in their order, and a lane without any is left out.
pub proof fn law_lanes_hold_last_places(
    lexical: Seq<LexicalRank>,
    occurrence: Seq<RankEntry>,
    semantic: Seq<TaskId>,
    q: int,
)
    requires
        semantic.len() <= usize::MAX,
    ensures
        ({
            let lanes = lanes_of(lexical, occurrence, semantic);
            let counts = |i: int| last_lexical(lexical, lexical[i].task_id, i);
            let stays = |i: int| last_semantic(semantic, semantic[i], i);
            let before: int = if lexical.len() > 0 {
                1
            } else {
                0
            };
            let behind: int = if occurrence.len() > 0 {
                before + 1
            } else {
                before
            };
            &&& lanes.len() == if semantic.len() > 0 {
                behind + 1
            } else {
                behind
            }
            &&& lexical.len() > 0 ==> lanes[0].len() == seqs::tally(lexical.len() as int, counts)
            &&& 0 <= q < lexical.len() && counts(q) ==> lanes[0][seqs::tally(q, counts) as int]
                == (RankEntry { task_id: lexical[q].task_id, rank: lexical[q].rank })
            &&& occurrence.len() > 0 ==> lanes[before] == occurrence
            &&& semantic.len() > 0 ==> lanes[behind].len() == seqs::tally(
                semantic.len() as int,
                stays,
            )
            &&& 0 <= q < semantic.len() && stays(q) ==> {
                &&& lanes[behind][seqs::tally(q, stays) as int].task_id == semantic[q]
                &&& lanes[behind][seqs::tally(q, stays) as int].rank as int == q + 1
            }
        }),
{
    let first = lexical_places(lexical);
    let third = lane::places(semantic);
    let counts = |i: int| last_lexical(lexical, lexical[i].task_id, i);
    let stays = |i: int| last_semantic(semantic, semantic[i], i);
    lemma_latest_is_picks(first, first.len() as int);
    lemma_latest_is_picks(third, third.len() as int);
    let a = |i: int| latest(first, i);
    let b = |i: int| latest(third, i);
    let f = |i: int| first[i];
    let g = |i: int| third[i];
    assert forall|i: int| 0 <= i < first.len() implies #[trigger] a(i) == counts(i) by {
        if counts(i) {
            assert forall|k: int| i < k < first.len() implies (#[trigger] first[k]).task_id
                != first[i].task_id by {
                assert(lexical[k].task_id != lexical[i].task_id);
            }
        }
        if a(i) {
            assert forall|k: int| i < k < lexical.len() implies (#[trigger] lexical[k]).task_id
                != lexical[i].task_id by {
                assert(first[k].task_id != first[i].task_id);
            }
        }
    }
    assert forall|i: int| 0 <= i < third.len() implies #[trigger] b(i) == stays(i) by {
        if stays(i) {
            assert forall|k: int| i < k < third.len() implies (#[trigger] third[k]).task_id
                != third[i].task_id by {
                assert(semantic[k] != semantic[i]);
            }
        }
        if b(i) {
            assert forall|k: int| i < k < semantic.len() implies #[trigger] semantic[k]
                != semantic[i] by {
                assert(third[k].task_id != third[i].task_id);
            }
        }
    }
    seqs::lemma_picks_agree(first.len() as int, a, counts, f, f);
    seqs::lemma_picks_agree(third.len() as int, b, stays, g, g);
    seqs::lemma_picks(first.len() as int, counts, f);
    seqs::lemma_picks(third.len() as int, stays, g);
    if lexical.len() > 0 {
        assert(counts(lexical.len() - 1));
        seqs::lemma_tally_grows(lexical.len() - 1, lexical.len() as int, counts);
    }
    if semantic.len() > 0 {
        assert(stays(semantic.len() - 1));
        seqs::lemma_tally_grows(semantic.len() - 1, semantic.len() as int, stays);
    }
}

/// No later entry is for the same task.
spec fn latest(list: Seq<RankEntry>, i: int) -> bool {
    forall|j: int| i < j < list.len() ==> (#[trigger] list[j]).task_id != list[i].task_id
}

proof fn lemma_latest_is_picks(list: Seq<RankEntry>, n: int)
    requires
        n <= list.len(),
    ensures
        latest_places(list, n) == seqs::picks(n, |i: int| latest(list, i), |i: int| list[i]),
    decreases n,
{
    if n > 0 {
        lemma_latest_is_picks(list, n - 1);
    }
}

/// A result says where it came from: its place in the list, whether the literal
/// lane has it, and its last place in the other lanes. It is shown with the
/// literal match, else with the lexical chunk, else with the title.
pub proof fn law_result_tells_its_lanes(
    idx: int,
    t: TaskId,
    identity: TaskIdentity,
    literal: Seq<TaskLiteral>,
    lexical: Seq<LexicalRank>,
    semantic: Seq<TaskId>,
    q: int,
)
    requires
        0 <= idx < u64::MAX,
        semantic.len() <= u64::MAX,
    ensures
        ({
            let r = result_of(idx, t, identity, literal, lexical, semantic);
            let hit = exists|k: int| #[trigger] last_literal(literal, t, k)
                && literal[k].contributed;
            let ranked = exists|k: int| 0 <= k < lexical.len() && (#[trigger] lexical[k]).task_id
                == t;
            &&& r.rank as int == idx + 1
            &&& r.task_id == t
            &&& r.identity == identity
            &&& r.matched.literal == if hit {
                Some(true)
            } else {
                None
            }
            &&& last_literal(literal, t, q) && literal[q].contributed ==> r.matched_source
                == literal[q].evidence
            &&& last_lexical(lexical, t, q) ==> (r.matched.lexical_rank matches Some(n) && n as int
                == lexical[q].rank)
            &&& !ranked ==> r.matched.lexical_rank is None
            &&& !hit && last_lexical(lexical, t, q) ==> r.matched_source == lexical[q].evidence
            &&& !hit && !ranked ==> {
                &&& r.matched_source.kind == MatchedSourceKind::Core
                &&& r.matched_source.remote_comment_id is None
                &&& r.matched_source.excerpt == identity.title
            }
            &&& last_semantic(semantic, t, q) ==> (r.matched.semantic_rank matches Some(n)
                && n as int == q + 1)
            &&& !semantic.contains(t) ==> r.matched.semantic_rank is None
        }),
{
    law_last_literal_counts(literal, t, q);
    law_last_lexical_counts(lexical, t, q);
    law_last_semantic_counts(semantic, t, q);
    if literal_for(literal, t) is Some {
        lemma_literal_source(literal, t);
    }
    if exists|k: int| #[trigger] last_literal(literal, t, k) && literal[k].contributed {
        let k = choose|k: int| #[trigger] last_literal(literal, t, k) && literal[k].contributed;
        law_last_literal_counts(literal, t, k);
    }
}

/// A literal match is never hidden behind what does not match: in exact and
/// identifier mode, of the tasks that are scored, one that holds the query is
/// left out by the limit only where every task shown holds it too.
pub proof fn law_matches_are_cut_off_last(
    scores: Seq<Weighted>,
    literal: Seq<TaskLiteral>,
    mode: QueryMode,
    limit: int,
    i: int,
    j: int,
)
    requires
        mode != QueryMode::Natural,
        0 <= i < limit <= j < scores.len(),
        holds_query(
            literal,
            mode,
            shown_tasks(scores, literal, mode, scores.len() as int)[j],
        ),
    ensures
        shown_tasks(scores, literal, mode, limit).len() == limit,
        holds_query(literal, mode, shown_tasks(scores, literal, mode, limit)[i]),
{
    let n = scores.len() as int;
    let full = shown_tasks(scores, literal, mode, n);
    law_limit_cuts_the_ranking_off(scores, literal, mode, limit);
    law_limit_cuts_the_ranking_off(scores, literal, mode, n);
    let q = choose|q: int|
        #[trigger] last_literal(literal, full[j], q) && (literal[q].full_present || (mode
            == QueryMode::Identifier && literal[q].all_tokens_present));
    law_matches_are_shown_first(scores, literal, mode, n, i, j, q);
}

} // verus!
