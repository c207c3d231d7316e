//! The raw-text literal lane: how often, and where, a query stands in a task.

use super::chunker::{CommentTextRow, TaskTextRow};
use super::fold::{self, excerpt, find_literal_spans};
use super::lane::{self, place_all, sort_weighted, tasks_of, RankEntry, Weighted};
use super::query_mode::{self, identifier_tokens, QueryMode};
use crate::model::ids::TaskId;
use crate::seqs;
use crate::text;
use vstd::prelude::*;

verus! {

/// Most bytes of raw text that an excerpt shows, unless its match alone is
/// longer.
pub const EXCERPT_LIMIT: usize = 200;

/// Where the evidence of a match was found.
#[derive(Clone, Copy, Debug, PartialEq, Eq, Structural)]
pub enum MatchedSourceKind {
    Core,
    Comment,
}

/// What the literal lane found for one task.
#[derive(Clone, Debug, PartialEq, Eq)]
pub struct TaskLiteral {
    pub task_id: TaskId,
    pub contributed: bool,
    pub full_present: bool,
    pub all_tokens_present: bool,
    pub occurrence: u128,
    pub evidence: Evidence,
}

/// Evidence of a match: its kind, the comment it stands in, and an excerpt.
#[derive(Clone, Debug, PartialEq, Eq)]
pub struct Evidence {
    pub kind: MatchedSourceKind,
    pub remote_comment_id: Option<String>,
    pub excerpt: String,
}

/// One searched column of a task.
#[derive(Clone, Debug, PartialEq, Eq)]
pub struct Column {
    pub text: String,
    pub kind: MatchedSourceKind,
    pub remote_comment_id: Option<String>,
}

/// A column of the task's own text.
pub open spec fn core_column(text: String) -> Column {
    Column { text, kind: MatchedSourceKind::Core, remote_comment_id: None }
}

/// The column of one comment.
pub open spec fn comment_column(c: CommentTextRow) -> Column {
    Column {
        text: c.body,
        kind: MatchedSourceKind::Comment,
        remote_comment_id: c.remote_comment_id,
    }
}

/// The columns of the comments that are not empty, in order.
pub open spec fn comment_columns(comments: Seq<CommentTextRow>) -> Seq<Column> {
    comments.filter(|c: CommentTextRow| c.body@.len() > 0).map_values(
        |c: CommentTextRow| comment_column(c),
    )
}

/// The columns of a task: title and body are core, each comment that is not
/// empty is its own.
pub open spec fn columns_of(row: TaskTextRow) -> Seq<Column> {
    seq![core_column(row.title), core_column(row.body)] + comment_columns(row.comments@)
}

/// How often `needle` stands in the first `n` columns.
pub open spec fn occurrences(cols: Seq<Column>, needle: Seq<char>, n: int) -> nat
    decreases n,
{
    if n <= 0 {
        0
    } else {
        occurrences(cols, needle, n - 1) + fold::literal_spans(cols[n - 1].text@, needle).len()
    }
}

/// `needle` stands in some column.
pub open spec fn stands_in(cols: Seq<Column>, needle: Seq<char>) -> bool {
    exists|k: int|
        0 <= k < cols.len() && fold::literal_spans((#[trigger] cols[k]).text@, needle).len() > 0
}

/// `k` is the first column that `needle` stands in.
pub open spec fn first_hit(cols: Seq<Column>, needle: Seq<char>, k: int) -> bool {
    &&& 0 <= k < cols.len()
    &&& fold::literal_spans(cols[k].text@, needle).len() > 0
    &&& forall|m: int|
        0 <= m < k ==> fold::literal_spans((#[trigger] cols[m]).text@, needle).len() == 0
}

/// `e` shows the first match in column `c`.
pub open spec fn shows(e: Evidence, c: Column, needle: Seq<char>) -> bool {
    let span = fold::literal_spans(c.text@, needle)[0];
    &&& e.kind == c.kind
    &&& e.remote_comment_id == c.remote_comment_id
    &&& e.excerpt@ == fold::excerpt_text(c.text@, span.0, span.1, EXCERPT_LIMIT as int)
}

/// Every identifier-shaped token of `query` stands in some column, and there
/// is at least one.
pub open spec fn all_tokens_stand(cols: Seq<Column>, query: Seq<char>) -> bool {
    let tokens = query_mode::identifier_words(query);
    tokens.len() > 0 && forall|t: int|
        0 <= t < tokens.len() ==> stands_in(cols, #[trigger] tokens[t])
}

/// `lit` is what the literal lane finds of `query` in `row`.
pub open spec fn finds(lit: TaskLiteral, row: TaskTextRow, query: Seq<char>, mode: QueryMode) -> bool {
    let cols = columns_of(row);
    &&& lit.task_id == row.task_id
    &&& lit.occurrence == occurrences(cols, query, cols.len() as int)
    &&& lit.full_present == stands_in(cols, query)
    &&& lit.all_tokens_present == (mode == QueryMode::Identifier && all_tokens_stand(cols, query))
    &&& lit.contributed == (lit.full_present || lit.all_tokens_present)
    &&& if lit.full_present {
        exists|k: int| #[trigger] first_hit(cols, query, k) && shows(lit.evidence, cols[k], query)
    } else {
        &&& lit.evidence.kind == MatchedSourceKind::Core
        &&& lit.evidence.remote_comment_id is None
        &&& lit.evidence.excerpt == row.title
    }
}

fn clone_opt(s: &Option<String>) -> (out: Option<String>)
    ensures
        out == *s,
{
    match s {
        Some(x) => Some(x.clone()),
        None => None,
    }
}

/// A task's searched columns: title, body, then each comment that is not empty.
pub fn columns(row: &TaskTextRow) -> (out: Vec<Column>)
    ensures
        out@ == columns_of(*row),
{
    let mut out: Vec<Column> = Vec::new();
    out.push(
        Column { text: row.title.clone(), kind: MatchedSourceKind::Core, remote_comment_id: None },
    );
    out.push(
        Column { text: row.body.clone(), kind: MatchedSourceKind::Core, remote_comment_id: None },
    );
    let ghost core = out@;
    let mut i: usize = 0;
    proof {
        reveal(Seq::filter);
        assert(core =~= seq![core_column(row.title), core_column(row.body)]);
        assert(core + comment_columns(row.comments@.take(0)) =~= core);
    }
    while i < row.comments.len()
        invariant
            i <= row.comments.len(),
            out@ == core + comment_columns(row.comments@.take(i as int)),
        decreases row.comments.len() - i,
    {
        let ghost seen = row.comments@.take(i as int);
        let ghost longer = row.comments@.take(i as int + 1);
        let ghost before = comment_columns(seen);
        proof {
            reveal(Seq::filter);
            assert(longer.drop_last() =~= seen);
            assert(longer.last() == row.comments@[i as int]);
        }
        if !row.comments[i].body.as_str().is_empty() {
            out.push(
                Column {
                    text: row.comments[i].body.clone(),
                    kind: MatchedSourceKind::Comment,
                    remote_comment_id: clone_opt(&row.comments[i].remote_comment_id),
                },
            );
            assert(comment_columns(longer) =~= before.push(comment_column(row.comments@[i as int])));
            assert(out@ =~= core + comment_columns(longer));
        }
        i += 1;
    }
    assert(row.comments@.take(i as int) =~= row.comments@);
    out
}

/// The number of matches in one column and the evidence of the first.
fn scan_column(c: &Column, needle: &str) -> (out: (usize, Option<Evidence>))
    ensures
        out.0 == fold::literal_spans(c.text@, needle@).len(),
        out.1 is Some <==> out.0 > 0,
        out.1 matches Some(e) ==> shows(e, *c, needle@),
{
    let spans = find_literal_spans(c.text.as_str(), needle);
    assert(fold::span_pairs(spans@).len() == spans@.len());
    if spans.len() == 0 {
        return (0, None);
    }
    assert(fold::span_pairs(spans@)[0] == (spans@[0].start as int, spans@[0].end as int));
    let text = excerpt(c.text.as_str(), &spans[0], EXCERPT_LIMIT);
    let e = Evidence {
        kind: c.kind,
        remote_comment_id: clone_opt(&c.remote_comment_id),
        excerpt: text,
    };
    (spans.len(), Some(e))
}

/// Whether `needle` stands in some column.
fn stands_in_any(cols: &Vec<Column>, needle: &str) -> (yes: bool)
    ensures
        yes == stands_in(cols@, needle@),
{
    let mut k: usize = 0;
    while k < cols.len()
        invariant
            k <= cols.len(),
            forall|m: int|
                0 <= m < k ==> fold::literal_spans((#[trigger] cols@[m]).text@, needle@).len() == 0,
        decreases cols.len() - k,
    {
        let spans = find_literal_spans(cols[k].text.as_str(), needle);
        assert(fold::span_pairs(spans@).len() == spans@.len());
        if spans.len() > 0 {
            assert(fold::literal_spans(cols@[k as int].text@, needle@).len() > 0);
            return true;
        }
        k += 1;
    }
    false
}

/// Whether every identifier-shaped token of `query` stands in some column.
fn tokens_all_stand(cols: &Vec<Column>, query: &str) -> (yes: bool)
    ensures
        yes == all_tokens_stand(cols@, query@),
{
    let tokens = identifier_tokens(query);
    let ghost words = query_mode::identifier_words(query@);
    assert(text::views(tokens@).len() == tokens@.len());
    if tokens.len() == 0 {
        return false;
    }
    let mut t: usize = 0;
    while t < tokens.len()
        invariant
            t <= tokens.len(),
            tokens@.len() > 0,
            words == text::views(tokens@),
            words == query_mode::identifier_words(query@),
            forall|m: int| 0 <= m < t ==> stands_in(cols@, #[trigger] words[m]),
        decreases tokens.len() - t,
    {
        assert(words[t as int] == tokens@[t as int]@);
        if !stands_in_any(cols, tokens[t].as_str()) {
            assert(!stands_in(cols@, words[t as int]));
            return false;
        }
        t += 1;
    }
    true
}

proof fn lemma_occurrences(cols: Seq<Column>, needle: Seq<char>, n: int)
    requires
        0 <= n <= cols.len(),
    ensures
        occurrences(cols, needle, n) > 0 <==> exists|k: int|
            0 <= k < n && fold::literal_spans((#[trigger] cols[k]).text@, needle).len() > 0,
    decreases n,
{
    if n > 0 {
        lemma_occurrences(cols, needle, n - 1);
        if occurrences(cols, needle, n - 1) > 0 {
            let k = choose|k: int|
                0 <= k < n - 1 && fold::literal_spans((#[trigger] cols[k]).text@, needle).len() > 0;
            assert(fold::literal_spans(cols[k].text@, needle).len() > 0);
        }
        if exists|k: int|
            0 <= k < n && fold::literal_spans((#[trigger] cols[k]).text@, needle).len() > 0 {
            let k = choose|k: int|
                0 <= k < n && fold::literal_spans((#[trigger] cols[k]).text@, needle).len() > 0;
            assert(k < n - 1 || k == n - 1);
        } else {
            assert(!(fold::literal_spans(cols[n - 1].text@, needle).len() > 0));
        }
    }
}

/// Scan one task for `query`.
pub fn scan_row(row: &TaskTextRow, query: &str, mode: QueryMode) -> (out: TaskLiteral)
    ensures
        finds(out, *row, query@, mode),
{
    let cols = columns(row);
    let mut occurrence: u128 = 0;
    let mut best: Option<Evidence> = None;
    let mut k: usize = 0;
    while k < cols.len()
        invariant
            k <= cols.len(),
            occurrence == occurrences(cols@, query@, k as int),
            occurrence <= k * usize::MAX,
            best is None ==> occurrence == 0 && forall|m: int|
                0 <= m < k ==> fold::literal_spans((#[trigger] cols@[m]).text@, query@).len() == 0,
            best matches Some(e) ==> exists|m: int|
                #[trigger] first_hit(cols@, query@, m) && shows(e, cols@[m], query@),
        decreases cols.len() - k,
    {
        let (count, shown) = scan_column(&cols[k], query);
        proof {
            let n = k as int;
            assert(n * usize::MAX + count <= (n + 1) * usize::MAX) by (nonlinear_arith)
                requires
                    0 <= count <= usize::MAX,
                    0 <= n,
            ;
            assert((n + 1) * usize::MAX <= u128::MAX) by (nonlinear_arith)
                requires
                    0 <= n < usize::MAX,
                    usize::MAX <= 0xFFFF_FFFF_FFFF_FFFF,
            ;
        }
        occurrence += count as u128;
        if best.is_none() {
            if count > 0 {
                assert(first_hit(cols@, query@, k as int));
            }
            best = shown;
        }
        k += 1;
    }
    proof {
        lemma_occurrences(cols@, query@, cols@.len() as int);
    }
    let full_present: bool = occurrence > 0;
    let all_tokens_present: bool = if mode == QueryMode::Identifier {
        tokens_all_stand(&cols, query)
    } else {
        false
    };
    let contributed: bool = full_present || all_tokens_present;
    let evidence = match best {
        Some(e) => {
            assert(full_present) by {
                let m = choose|m: int|
                    #[trigger] first_hit(cols@, query@, m) && shows(e, cols@[m], query@);
                assert(fold::literal_spans(cols@[m].text@, query@).len() > 0);
            }
            e
        },
        None => Evidence {
            kind: MatchedSourceKind::Core,
            remote_comment_id: None,
            excerpt: row.title.clone(),
        },
    };
    TaskLiteral {
        task_id: row.task_id,
        contributed,
        full_present,
        all_tokens_present,
        occurrence,
        evidence,
    }
}

/// Scan every task for `query`.
pub fn literal_lane(rows: &Vec<TaskTextRow>, query: &str, mode: QueryMode) -> (out: Vec<TaskLiteral>)
    ensures
        out@.len() == rows@.len(),
        forall|i: int|
            0 <= i < rows@.len() ==> finds(#[trigger] out@[i], rows@[i], query@, mode),
{
    let mut out: Vec<TaskLiteral> = Vec::new();
    let mut i: usize = 0;
    while i < rows.len()
        invariant
            i <= rows.len(),
            out@.len() == i,
            forall|k: int| 0 <= k < i ==> finds(#[trigger] out@[k], rows@[k], query@, mode),
        decreases rows.len() - i,
    {
        out.push(scan_row(&rows[i], query, mode));
        i += 1;
    }
    out
}

/// No later entry is for the same task.
pub open spec fn current(list: Seq<TaskLiteral>, i: int) -> bool {
    forall|j: int| i < j < list.len() ==> (#[trigger] list[j]).task_id != list[i].task_id
}

/// Entry `i` is the one that counts for its task, and it matched.
pub open spec fn counts(list: Seq<TaskLiteral>, i: int) -> bool {
    0 <= i < list.len() && current(list, i) && list[i].occurrence > 0
}

pub open spec fn weight_of(l: TaskLiteral) -> Weighted {
    Weighted { task_id: l.task_id, weight: l.occurrence }
}

/// The weights of the entries below `n` that count, in order.
pub open spec fn matching(list: Seq<TaskLiteral>, n: int) -> Seq<Weighted>
    decreases n,
{
    if n <= 0 {
        Seq::empty()
    } else if counts(list, n - 1) {
        matching(list, n - 1).push(weight_of(list[n - 1]))
    } else {
        matching(list, n - 1)
    }
}

/// The tasks that hold the query, placed by how often they do.
pub open spec fn occurrence_places(list: Seq<TaskLiteral>) -> Seq<RankEntry> {
    lane::places(lane::tasks(lane::ranked(matching(list, list.len() as int))))
}

/// Whether no later entry is for the same task.
fn is_current(list: &Vec<TaskLiteral>, i: usize) -> (yes: bool)
    requires
        i < list.len(),
    ensures
        yes == current(list@, i as int),
{
    let mut j: usize = i + 1;
    while j < list.len()
        invariant
            i < j <= list.len(),
            forall|k: int|
                i < k < j ==> (#[trigger] list@[k]).task_id != list@[i as int].task_id,
        decreases list.len() - j,
    {
        if list[j].task_id == list[i].task_id {
            return false;
        }
        j += 1;
    }
    true
}

/// Rank the tasks that hold the query by how often they do, most first, ties
/// by task id. Where a task has several entries the last one counts.
pub fn literal_occurrence_ranking(list: &Vec<TaskLiteral>) -> (out: Vec<RankEntry>)
    ensures
        out@ == occurrence_places(list@),
{
    let mut weights: Vec<Weighted> = Vec::new();
    let mut i: usize = 0;
    while i < list.len()
        invariant
            i <= list.len(),
            weights@ == matching(list@, i as int),
        decreases list.len() - i,
    {
        if list[i].occurrence > 0 && is_current(list, i) {
            weights.push(Weighted { task_id: list[i].task_id, weight: list[i].occurrence });
        }
        i += 1;
    }
    let sorted = sort_weighted(&weights);
    let ids = tasks_of(&sorted);
    place_all(&ids)
}

/// `needle` has a span in `raw`.
spec fn hit(raw: Seq<char>, needle: Seq<char>) -> bool {
    fold::literal_spans(raw, needle).len() > 0
}

proof fn lemma_empty_text(needle: Seq<char>)
    ensures
        fold::literal_spans(Seq::<char>::empty(), needle).len() == 0,
{
}

proof fn lemma_comment_columns(comments: Seq<CommentTextRow>)
    ensures
        comment_columns(comments).len() == seqs::tally(
            comments.len() as int,
            |i: int| comments[i].body@.len() > 0,
        ),
        forall|i: int|
            0 <= i < comments.len() && (#[trigger] comments[i]).body@.len() > 0 ==> ({
                let at = seqs::tally(i, |k: int| comments[k].body@.len() > 0) as int;
                at < comment_columns(comments).len() && comment_columns(comments)[at]
                    == comment_column(comments[i])
            }),
{
    let keep = |c: CommentTextRow| c.body@.len() > 0;
    let at = |i: int| keep(comments[i]);
    let own = |i: int| comments[i].body@.len() > 0;
    let item = |i: int| comments[i];
    seqs::lemma_filter_is_picks(comments, keep);
    seqs::lemma_picks_agree(comments.len() as int, at, own, item, item);
    seqs::lemma_picks(comments.len() as int, own, item);
    assert forall|i: int|
        0 <= i < comments.len() && (#[trigger] comments[i]).body@.len() > 0 implies ({
        let at = seqs::tally(i, own) as int;
        at < comment_columns(comments).len() && comment_columns(comments)[at] == comment_column(
            comments[i],
        )
    }) by {
        assert(own(i));
    }
}

/// A column of a task is its title, its body or a comment of it, and each of
/// them that is not empty has its column.
proof fn lemma_stands_in(row: TaskTextRow, needle: Seq<char>)
    ensures
        stands_in(columns_of(row), needle) <==> hit(row.title@, needle) || hit(row.body@, needle)
            || exists|c: int|
            0 <= c < row.comments@.len() && hit((#[trigger] row.comments@[c]).body@, needle),
{
    let cols = columns_of(row);
    let comments = row.comments@;
    let own = |i: int| comments[i].body@.len() > 0;
    lemma_comment_columns(comments);
    assert(cols[0] == core_column(row.title));
    assert(cols[1] == core_column(row.body));
    if stands_in(cols, needle) {
        let k = choose|k: int|
            0 <= k < cols.len() && fold::literal_spans((#[trigger] cols[k]).text@, needle).len()
                > 0;
        if k >= 2 {
            let i = lemma_column_source(comments, k - 2);
            assert(hit(comments[i].body@, needle));
        }
    }
    if hit(row.title@, needle) {
        assert(fold::literal_spans(cols[0].text@, needle).len() > 0);
    }
    if hit(row.body@, needle) {
        assert(fold::literal_spans(cols[1].text@, needle).len() > 0);
    }
    if exists|c: int|
        0 <= c < row.comments@.len() && hit((#[trigger] row.comments@[c]).body@, needle) {
        let c = choose|c: int|
            0 <= c < row.comments@.len() && hit((#[trigger] row.comments@[c]).body@, needle);
        lemma_comment_has_text(comments[c].body@, needle);
        let at = seqs::tally(c, own) as int;
        assert(comment_columns(comments)[at] == comment_column(comments[c]));
        assert(cols[at + 2] == comment_column(comments[c]));
        assert(fold::literal_spans(cols[at + 2].text@, needle).len() > 0);
    }
}

proof fn lemma_comment_has_text(body: Seq<char>, needle: Seq<char>)
    requires
        hit(body, needle),
    ensures
        body.len() > 0,
{
    if body.len() == 0 {
        assert(body =~= Seq::empty());
        lemma_empty_text(needle);
    }
}

/// The comment that a column came from.
proof fn lemma_column_source(comments: Seq<CommentTextRow>, k: int) -> (i: int)
    requires
        0 <= k < comment_columns(comments).len(),
    ensures
        0 <= i < comments.len(),
        comments[i].body@.len() > 0,
        seqs::tally(i, |j: int| comments[j].body@.len() > 0) == k,
        comment_columns(comments)[k] == comment_column(comments[i]),
{
    let keep = |c: CommentTextRow| c.body@.len() > 0;
    let at = |i: int| keep(comments[i]);
    let own = |i: int| comments[i].body@.len() > 0;
    let item = |i: int| comments[i];
    seqs::lemma_filter_is_picks(comments, keep);
    seqs::lemma_picks_agree(comments.len() as int, at, own, item, item);
    seqs::lemma_picks_source(comments.len() as int, own, item, k)
}

/// A task holds the query where its title, its body or any of its comments
/// does; it holds every identifier-shaped token where each stands in one of
/// them, and there is at least one. Either makes it a match.
pub proof fn law_literal_reads_every_text(
    lit: TaskLiteral,
    row: TaskTextRow,
    query: Seq<char>,
    mode: QueryMode,
)
    requires
        finds(lit, row, query, mode),
    ensures
        lit.task_id == row.task_id,
        lit.full_present <==> {
            ||| fold::literal_spans(row.title@, query).len() > 0
            ||| fold::literal_spans(row.body@, query).len() > 0
            ||| exists|c: int|
                0 <= c < row.comments@.len() && fold::literal_spans(
                    (#[trigger] row.comments@[c]).body@,
                    query,
                ).len() > 0
        },
        lit.all_tokens_present <==> {
            &&& mode == QueryMode::Identifier
            &&& query_mode::identifier_words(query).len() > 0
            &&& forall|t: int|
                0 <= t < query_mode::identifier_words(query).len() ==> {
                    let token = #[trigger] query_mode::identifier_words(query)[t];
                    ||| fold::literal_spans(row.title@, token).len() > 0
                    ||| fold::literal_spans(row.body@, token).len() > 0
                    ||| exists|c: int|
                        0 <= c < row.comments@.len() && fold::literal_spans(
                            (#[trigger] row.comments@[c]).body@,
                            token,
                        ).len() > 0
                }
        },
        lit.contributed <==> lit.full_present || lit.all_tokens_present,
{
    let cols = columns_of(row);
    let tokens = query_mode::identifier_words(query);
    lemma_stands_in(row, query);
    assert forall|t: int| 0 <= t < tokens.len() implies stands_in(cols, #[trigger] tokens[t]) == (
    hit(row.title@, tokens[t]) || hit(row.body@, tokens[t]) || exists|c: int|
        0 <= c < row.comments@.len() && hit((#[trigger] row.comments@[c]).body@, tokens[t])) by {
        lemma_stands_in(row, tokens[t]);
    }
}

/// A match is shown where it first stands: in the title, else in the body, else
/// in the first comment that holds it, with an excerpt around the first span
/// there. A task that does not hold the query verbatim is shown by its title.
pub proof fn law_evidence_is_the_first_hit(
    lit: TaskLiteral,
    row: TaskTextRow,
    query: Seq<char>,
    mode: QueryMode,
    c: int,
)
    requires
        finds(lit, row, query, mode),
    ensures
        ({
            let in_title = fold::literal_spans(row.title@, query);
            let in_body = fold::literal_spans(row.body@, query);
            let in_comment = fold::literal_spans(row.comments@[c].body@, query);
            &&& in_title.len() > 0 ==> {
                &&& lit.evidence.kind == MatchedSourceKind::Core
                &&& lit.evidence.remote_comment_id is None
                &&& lit.evidence.excerpt@ == fold::excerpt_text(
                    row.title@,
                    in_title[0].0,
                    in_title[0].1,
                    200,
                )
            }
            &&& in_title.len() == 0 && in_body.len() > 0 ==> {
                &&& lit.evidence.kind == MatchedSourceKind::Core
                &&& lit.evidence.remote_comment_id is None
                &&& lit.evidence.excerpt@ == fold::excerpt_text(
                    row.body@,
                    in_body[0].0,
                    in_body[0].1,
                    200,
                )
            }
            &&& in_title.len() == 0 && in_body.len() == 0 && 0 <= c < row.comments@.len()
                && in_comment.len() > 0 && (forall|k: int|
                0 <= k < c ==> fold::literal_spans((#[trigger] row.comments@[k]).body@, query).len()
                    == 0) ==> {
                &&& lit.evidence.kind == MatchedSourceKind::Comment
                &&& lit.evidence.remote_comment_id == row.comments@[c].remote_comment_id
                &&& lit.evidence.excerpt@ == fold::excerpt_text(
                    row.comments@[c].body@,
                    in_comment[0].0,
                    in_comment[0].1,
                    200,
                )
            }
            &&& in_title.len() == 0 && in_body.len() == 0 && (forall|k: int|
                0 <= k < row.comments@.len() ==> fold::literal_spans(
                    (#[trigger] row.comments@[k]).body@,
                    query,
                ).len() == 0) ==> {
                &&& lit.evidence.kind == MatchedSourceKind::Core
                &&& lit.evidence.remote_comment_id is None
                &&& lit.evidence.excerpt == row.title
            }
        }),
{
    let cols = columns_of(row);
    let comments = row.comments@;
    let own = |i: int| comments[i].body@.len() > 0;
    lemma_stands_in(row, query);
    lemma_comment_columns(comments);
    assert(cols[0] == core_column(row.title));
    assert(cols[1] == core_column(row.body));
    if lit.full_present {
        let k = choose|k: int|
            #[trigger] first_hit(cols, query, k) && shows(lit.evidence, cols[k], query);
        assert(fold::literal_spans(cols[k].text@, query).len() > 0);
        if hit(row.title@, query) {
            assert(k == 0) by {
                if k > 0 {
                    assert(fold::literal_spans(cols[0].text@, query).len() == 0);
                }
            }
        } else if hit(row.body@, query) {
            assert(k == 1) by {
                if k > 1 {
                    assert(fold::literal_spans(cols[1].text@, query).len() == 0);
                }
            }
        } else {
            assert(k >= 2);
            let i = lemma_column_source(comments, k - 2);
            assert(cols[k] == comment_column(comments[i]));
            if 0 <= c < comments.len() && hit(comments[c].body@, query) && (forall|k: int|
                0 <= k < c ==> fold::literal_spans((#[trigger] comments[k]).body@, query).len()
                    == 0) {
                assert(i >= c);
                if i > c {
                    lemma_comment_has_text(comments[c].body@, query);
                    let at = seqs::tally(c, own) as int;
                    assert(own(c));
                    seqs::lemma_tally_grows(c, i, own);
                    assert(cols[at + 2] == comment_column(comments[c]));
                    assert(fold::literal_spans(cols[at + 2].text@, query).len() == 0);
                }
            }
        }
    }
}

proof fn lemma_occurrences_agree(a: Seq<Column>, b: Seq<Column>, needle: Seq<char>, n: int)
    requires
        n <= a.len(),
        n <= b.len(),
        forall|i: int| 0 <= i < n ==> a[i] == b[i],
    ensures
        occurrences(a, needle, n) == occurrences(b, needle, n),
    decreases n,
{
    if n > 0 {
        lemma_occurrences_agree(a, b, needle, n - 1);
    }
}

/// The matches of a task add up: those in its title, in its body, and in each
/// of its comments.
pub proof fn law_occurrences_add_up(
    lit: TaskLiteral,
    longer: TaskLiteral,
    row: TaskTextRow,
    more: TaskTextRow,
    c: CommentTextRow,
    query: Seq<char>,
    mode: QueryMode,
)
    requires
        finds(lit, row, query, mode),
        finds(longer, more, query, mode),
        more.title == row.title,
        more.body == row.body,
        more.comments@ == row.comments@.push(c),
    ensures
        row.comments@.len() == 0 ==> lit.occurrence == fold::literal_spans(row.title@, query).len()
            + fold::literal_spans(row.body@, query).len(),
        longer.occurrence == lit.occurrence + fold::literal_spans(c.body@, query).len(),
{
    reveal(Seq::filter);
    let a = columns_of(row);
    let b = columns_of(more);
    let n = a.len() as int;
    assert(a[0] == core_column(row.title) && a[1] == core_column(row.body));
    assert(more.comments@.drop_last() =~= row.comments@);
    if row.comments@.len() == 0 {
        assert(comment_columns(row.comments@).len() == 0);
        assert(occurrences(a, query, 0) == 0);
        assert(occurrences(a, query, 1) == fold::literal_spans(row.title@, query).len());
    }
    if c.body@.len() > 0 {
        assert(comment_columns(more.comments@) =~= comment_columns(row.comments@).push(
            comment_column(c),
        ));
        assert(b =~= a.push(comment_column(c)));
        lemma_occurrences_agree(a, b, query, n);
    } else {
        assert(c.body@ =~= Seq::empty());
        lemma_empty_text(query);
        assert(b =~= a);
    }
}

proof fn lemma_matching_is_picks(list: Seq<TaskLiteral>, n: int)
    ensures
        matching(list, n) == seqs::picks(
            n,
            |i: int| counts(list, i),
            |i: int| weight_of(list[i]),
        ),
    decreases n,
{
    if n > 0 {
        lemma_matching_is_picks(list, n - 1);
    }
}

/// The tasks that hold the query are ranked by how often they do, most first,
/// and of two with as many the one with the lower id. Each has one place, where
/// its last entry counts, and a task without a match has none.
pub proof fn law_most_occurrences_first(list: Seq<TaskLiteral>, i: int, j: int, q: int)
    requires
        list.len() <= usize::MAX,
    ensures
        ({
            let places = occurrence_places(list);
            let ranks = |k: int|
                list[k].occurrence > 0 && forall|m: int|
                    k < m < list.len() ==> (#[trigger] list[m]).task_id != list[k].task_id;
            &&& places.len() == seqs::tally(list.len() as int, ranks)
            &&& 0 <= q < list.len() && ranks(q) ==> exists|x: int|
                0 <= x < places.len() && (#[trigger] places[x]).task_id == list[q].task_id
            &&& 0 <= i < places.len() ==> places[i].rank as int == i + 1
            &&& 0 <= i < j < places.len() ==> exists|x: int, y: int|
                {
                    &&& 0 <= x < list.len()
                    &&& 0 <= y < list.len()
                    &&& ranks(x)
                    &&& ranks(y)
                    &&& (#[trigger] list[x]).task_id == places[i].task_id
                    &&& (#[trigger] list[y]).task_id == places[j].task_id
                    &&& list[x].occurrence > list[y].occurrence || (list[x].occurrence
                        == list[y].occurrence && list[x].task_id.0 <= list[y].task_id.0)
                }
            &&& 0 <= i < places.len() ==> exists|x: int|
                0 <= x < list.len() && ranks(x) && (#[trigger] list[x]).task_id
                    == places[i].task_id
        }),
{
    broadcast use vstd::seq_lib::group_to_multiset_ensures;

    let n = list.len() as int;
    let places = occurrence_places(list);
    let ranks = |k: int|
        list[k].occurrence > 0 && forall|m: int|
            k < m < list.len() ==> (#[trigger] list[m]).task_id != list[k].task_id;
    let keep = |k: int| counts(list, k);
    let item = |k: int| weight_of(list[k]);
    let weights = matching(list, n);
    let sorted = lane::ranked(weights);
    let le = |a: Weighted, b: Weighted| lane::precedes(a, b);
    lemma_matching_is_picks(list, n);
    assert forall|k: int| 0 <= k < n implies #[trigger] keep(k) == ranks(k) by {}
    seqs::lemma_picks_agree(n, keep, ranks, item, item);
    seqs::lemma_picks(n, ranks, item);
    weights.lemma_sort_by_ensures(le);
    assert(sorted.len() == sorted.to_multiset().len());
    assert(weights.len() == weights.to_multiset().len());
    lemma_tally_bound(n, ranks);
    if 0 <= q < n && ranks(q) {
        let at = seqs::tally(q, ranks) as int;
        assert(weights[at] == weight_of(list[q]));
        assert(weights.contains(weights[at]));
        assert(weights.to_multiset().count(weights[at]) > 0);
        assert(sorted.to_multiset().count(weights[at]) > 0);
        assert(sorted.contains(weights[at]));
        let x = choose|x: int| 0 <= x < sorted.len() && sorted[x] == weights[at];
        assert(places[x].task_id == list[q].task_id);
    }
    if 0 <= i < places.len() {
        let x = lemma_place_source(list, i);
        assert(keep(x));
        if i < j < places.len() {
            let y = lemma_place_source(list, j);
            assert(keep(y));
            lane::law_ties_break_by_task_id(weights, i, j);
            assert(ranks(x) && ranks(y));
            assert(list[x].task_id == places[i].task_id && list[y].task_id == places[j].task_id);
        }
    }
}

proof fn lemma_tally_bound(n: int, keep: spec_fn(int) -> bool)
    requires
        n >= 0,
    ensures
        seqs::tally(n, keep) <= n,
    decreases n,
{
    seqs::lemma_tally_finite(n, keep);
    if n > 0 {
        lemma_tally_bound(n - 1, keep);
    }
}

/// The entry behind a place.
proof fn lemma_place_source(list: Seq<TaskLiteral>, i: int) -> (x: int)
    requires
        0 <= i < occurrence_places(list).len(),
    ensures
        counts(list, x),
        lane::ranked(matching(list, list.len() as int))[i] == weight_of(list[x]),
        occurrence_places(list)[i].task_id == list[x].task_id,
{
    broadcast use vstd::seq_lib::group_to_multiset_ensures;

    let n = list.len() as int;
    let weights = matching(list, n);
    let sorted = lane::ranked(weights);
    let le = |a: Weighted, b: Weighted| lane::precedes(a, b);
    weights.lemma_sort_by_ensures(le);
    assert(sorted.contains(sorted[i]));
    assert(sorted.to_multiset().count(sorted[i]) > 0);
    assert(weights.to_multiset().count(sorted[i]) > 0);
    assert(weights.contains(sorted[i]));
    let k = choose|k: int| 0 <= k < weights.len() && weights[k] == sorted[i];
    lemma_matching_is_picks(list, n);
    seqs::lemma_picks_source(n, |i: int| counts(list, i), |i: int| weight_of(list[i]), k)
}

} // verus!
