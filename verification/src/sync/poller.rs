//! Polling project boards for changed items.

use crate::model::ids::{TaskId, Timestamp};
use crate::model::task::Task;
use crate::seqs;
use vstd::prelude::*;

verus! {

/// One second, in nanoseconds.
pub const POLL_MARGIN_NANOS: i128 = 1_000_000_000;

/// The outcome of one poll over all boards.
#[derive(Clone, Copy, Debug, PartialEq, Eq, Structural)]
pub struct PollReport {
    /// Boards polled.
    pub projects_polled: usize,
    /// Items returned by all of them.
    pub items_seen: usize,
    /// Items that a local task mirrors.
    pub items_matched: usize,
    /// Items without a local task.
    pub items_unmatched: usize,
    /// Boards whose page was cut short.
    pub partial_projects: usize,
}

impl Default for PollReport {
    fn default() -> (out: Self)
        ensures
            out == (PollReport {
                projects_polled: 0,
                items_seen: 0,
                items_matched: 0,
                items_unmatched: 0,
                partial_projects: 0,
            }),
    {
        PollReport {
            projects_polled: 0,
            items_seen: 0,
            items_matched: 0,
            items_unmatched: 0,
            partial_projects: 0,
        }
    }
}

/// What the poller reads of a polled item.
#[derive(Debug, PartialEq, Eq)]
pub struct RemoteProjectItem {
    pub item_node_id: String,
    pub updated_at: Timestamp,
}

/// A page of changed items. `truncated` says that the board holds more.
#[derive(Debug, PartialEq, Eq)]
pub struct PollPage {
    pub items: Vec<RemoteProjectItem>,
    pub truncated: bool,
}

/// A board item and the task that mirrors it.
#[derive(Debug, PartialEq, Eq)]
pub struct ItemIndexEntry {
    pub item_node_id: String,
    pub task_id: TaskId,
}

/// The tasks that are on a board, by item, in order.
pub open spec fn indexed(tasks: Seq<Task>) -> Seq<ItemIndexEntry>
    decreases tasks.len(),
{
    if tasks.len() == 0 {
        Seq::empty()
    } else {
        let before = indexed(tasks.drop_last());
        match tasks.last().project_item_id {
            Some(item) => before.push(
                ItemIndexEntry { item_node_id: item, task_id: tasks.last().id },
            ),
            None => before,
        }
    }
}

/// The task that mirrors an item: of several, the last.
pub open spec fn task_for(index: Seq<ItemIndexEntry>, item: Seq<char>) -> Option<TaskId>
    decreases index.len(),
{
    if index.len() == 0 {
        None
    } else if index.last().item_node_id@ == item {
        Some(index.last().task_id)
    } else {
        task_for(index.drop_last(), item)
    }
}

/// Index the tasks that are on a board by their item.
pub fn index_tasks_by_item_id(tasks: &Vec<Task>) -> (out: Vec<ItemIndexEntry>)
    ensures
        out@ == indexed(tasks@),
{
    let mut out: Vec<ItemIndexEntry> = Vec::new();
    let mut i: usize = 0;
    assert(tasks@.take(0) =~= Seq::empty());
    while i < tasks.len()
        invariant
            i <= tasks.len(),
            out@ == indexed(tasks@.take(i as int)),
        decreases tasks.len() - i,
    {
        assert(tasks@.take(i as int + 1).drop_last() =~= tasks@.take(i as int));
        match &tasks[i].project_item_id {
            Some(item) => {
                out.push(ItemIndexEntry { item_node_id: item.clone(), task_id: tasks[i].id });
            },
            None => {},
        }
        i += 1;
    }
    assert(tasks@.take(i as int) =~= tasks@);
    out
}

/// The task that mirrors an item.
pub fn find_task(index: &Vec<ItemIndexEntry>, item: &String) -> (out: Option<TaskId>)
    ensures
        out == task_for(index@, item@),
{
    let mut n: usize = index.len();
    assert(index@.take(n as int) =~= index@);
    while n > 0
        invariant
            n <= index.len(),
            task_for(index@, item@) == task_for(index@.take(n as int), item@),
        decreases n,
    {
        assert(index@.take(n as int).drop_last() =~= index@.take(n - 1));
        if index[n - 1].item_node_id == *item {
            return Some(index[n - 1].task_id);
        }
        n -= 1;
    }
    None
}

/// The newest of `since` and the first `n` items' times.
pub open spec fn newest(items: Seq<RemoteProjectItem>, since: Timestamp, n: int) -> Timestamp
    decreases n,
{
    if n <= 0 {
        since
    } else {
        let before = newest(items, since, n - 1);
        if items[n - 1].updated_at.0 > before.0 {
            items[n - 1].updated_at
        } else {
            before
        }
    }
}

/// How many of the first `n` items a local task mirrors.
pub open spec fn matched(
    items: Seq<RemoteProjectItem>,
    index: Seq<ItemIndexEntry>,
    n: int,
) -> int
    decreases n,
{
    if n <= 0 {
        0
    } else {
        matched(items, index, n - 1) + if task_for(index, items[n - 1].item_node_id@) is Some {
            1int
        } else {
            0int
        }
    }
}

/// The watermark after a page. A page that was cut short leaves it as it is.
/// A complete page moves it to one second before its newest item, and never
/// back.
pub open spec fn next_watermark(
    since: Timestamp,
    items: Seq<RemoteProjectItem>,
    truncated: bool,
) -> Timestamp {
    let top = newest(items, since, items.len() as int);
    if !truncated && top.0 - POLL_MARGIN_NANOS > since.0 {
        Timestamp((top.0 - POLL_MARGIN_NANOS) as i128)
    } else {
        since
    }
}

/// The report once a board's page was read.
pub open spec fn after_page(
    report: PollReport,
    page: PollPage,
    index: Seq<ItemIndexEntry>,
) -> PollReport {
    let n = page.items@.len() as int;
    PollReport {
        projects_polled: (report.projects_polled + 1) as usize,
        items_seen: (report.items_seen + n) as usize,
        items_matched: (report.items_matched + matched(page.items@, index, n)) as usize,
        items_unmatched: (report.items_unmatched + n - matched(page.items@, index, n)) as usize,
        partial_projects: (report.partial_projects + if page.truncated {
            1int
        } else {
            0int
        }) as usize,
    }
}

/// The counts that the report adds up stay within range with this page.
pub open spec fn counts_fit(report: PollReport, items: int) -> bool {
    &&& report.projects_polled < usize::MAX
    &&& report.items_seen + items <= usize::MAX
    &&& report.items_matched + items <= usize::MAX
    &&& report.items_unmatched + items <= usize::MAX
    &&& report.partial_projects < usize::MAX
}

/// A board could not be polled: it is counted and nothing else changes.
pub fn on_poll_failed(report: &mut PollReport)
    requires
        old(report).projects_polled < usize::MAX,
    ensures
        *final(report) == (PollReport {
            projects_polled: (old(report).projects_polled + 1) as usize,
            ..*old(report)
        }),
{
    report.projects_polled += 1;
}

proof fn lemma_matched_bound(items: Seq<RemoteProjectItem>, index: Seq<ItemIndexEntry>, n: int)
    requires
        0 <= n,
    ensures
        0 <= matched(items, index, n) <= n,
    decreases n,
{
    if n > 0 {
        lemma_matched_bound(items, index, n - 1);
    }
}

/// Count one polled item: a local task mirrors it, or none does.
pub fn reconcile_item(
    index: &Vec<ItemIndexEntry>,
    item: &RemoteProjectItem,
    report: &mut PollReport,
) -> (out: Option<TaskId>)
    requires
        old(report).items_matched < usize::MAX,
        old(report).items_unmatched < usize::MAX,
    ensures
        out == task_for(index@, item.item_node_id@),
        out is Some ==> *final(report) == (PollReport {
            items_matched: (old(report).items_matched + 1) as usize,
            ..*old(report)
        }),
        out is None ==> *final(report) == (PollReport {
            items_unmatched: (old(report).items_unmatched + 1) as usize,
            ..*old(report)
        }),
{
    let found = find_task(index, &item.item_node_id);
    if found.is_some() {
        report.items_matched += 1;
    } else {
        report.items_unmatched += 1;
    }
    found
}

/// A board's page was read: count its items and settle the watermark.
pub fn on_page(
    report: &mut PollReport,
    page: &PollPage,
    index: &Vec<ItemIndexEntry>,
    since: Timestamp,
) -> (watermark: Timestamp)
    requires
        counts_fit(*old(report), page.items@.len() as int),
    ensures
        *final(report) == after_page(*old(report), *page, index@),
        watermark == next_watermark(since, page.items@, page.truncated),
{
    let ghost before = *report;
    report.projects_polled += 1;
    report.items_seen += page.items.len();
    let mut max_seen: Timestamp = since;
    let mut i: usize = 0;
    while i < page.items.len()
        invariant
            i <= page.items.len(),
            counts_fit(before, page.items@.len() as int),
            max_seen == newest(page.items@, since, i as int),
            max_seen.0 >= since.0,
            *report == (PollReport {
                projects_polled: (before.projects_polled + 1) as usize,
                items_seen: (before.items_seen + page.items@.len()) as usize,
                items_matched: (before.items_matched + matched(
                    page.items@,
                    index@,
                    i as int,
                )) as usize,
                items_unmatched: (before.items_unmatched + i - matched(
                    page.items@,
                    index@,
                    i as int,
                )) as usize,
                partial_projects: before.partial_projects,
            }),
        decreases page.items.len() - i,
    {
        proof {
            lemma_matched_bound(page.items@, index@, i as int);
        }
        if page.items[i].updated_at.0 > max_seen.0 {
            max_seen = page.items[i].updated_at;
        }
        let _ = reconcile_item(index, &page.items[i], report);
        i += 1;
    }
    proof {
        lemma_matched_bound(page.items@, index@, i as int);
    }
    if page.truncated {
        report.partial_projects += 1;
        since
    } else if max_seen.0 > since.0 && max_seen.0 >= i128::MIN + POLL_MARGIN_NANOS && max_seen.0
        - POLL_MARGIN_NANOS > since.0 {
        Timestamp(max_seen.0 - POLL_MARGIN_NANOS)
    } else {
        since
    }
}

/// The watermark never moves back, and never past what was seen: whatever was
/// updated less than a second before the newest item is polled again.
pub proof fn law_watermark_only_advances(
    since: Timestamp,
    items: Seq<RemoteProjectItem>,
    truncated: bool,
)
    ensures
        next_watermark(since, items, truncated).0 >= since.0,
        truncated ==> next_watermark(since, items, truncated) == since,
        next_watermark(since, items, truncated) != since ==> next_watermark(
            since,
            items,
            truncated,
        ).0 + POLL_MARGIN_NANOS == newest(items, since, items.len() as int).0,
        items.len() == 0 ==> next_watermark(since, items, truncated) == since,
{
}

/// Every item is counted once, as matched or as unmatched.
pub proof fn law_every_item_is_counted(
    report: PollReport,
    page: PollPage,
    index: Seq<ItemIndexEntry>,
)
    requires
        counts_fit(report, page.items@.len() as int),
        report.items_seen == report.items_matched + report.items_unmatched,
    ensures
        after_page(report, page, index).items_seen == after_page(report, page, index).items_matched
            + after_page(report, page, index).items_unmatched,
{
    lemma_matched_bound(page.items@, index, page.items@.len() as int);
}

proof fn lemma_indexed_is_picks(tasks: Seq<Task>)
    ensures
        indexed(tasks) == seqs::picks(
            tasks.len() as int,
            |k: int| tasks[k].project_item_id is Some,
            |k: int|
                ItemIndexEntry { item_node_id: tasks[k].project_item_id->0, task_id: tasks[k].id },
        ),
    decreases tasks.len(),
{
    if tasks.len() > 0 {
        let front = tasks.drop_last();
        lemma_indexed_is_picks(front);
        seqs::lemma_picks_agree(
            front.len() as int,
            |k: int| front[k].project_item_id is Some,
            |k: int| tasks[k].project_item_id is Some,
            |k: int|
                ItemIndexEntry { item_node_id: front[k].project_item_id->0, task_id: front[k].id },
            |k: int|
                ItemIndexEntry { item_node_id: tasks[k].project_item_id->0, task_id: tasks[k].id },
        );
    }
}

/// Every task that is on a board is indexed under its item, in order, and no
/// other is.
pub proof fn law_every_board_task_is_indexed(tasks: Seq<Task>, i: int)
    ensures
        ({
            let on_board = |k: int| tasks[k].project_item_id is Some;
            let at = seqs::tally(i, on_board) as int;
            &&& indexed(tasks).len() == seqs::tally(tasks.len() as int, on_board)
            &&& 0 <= i < tasks.len() && on_board(i) ==> {
                &&& at < indexed(tasks).len()
                &&& indexed(tasks)[at].item_node_id == tasks[i].project_item_id->0
                &&& indexed(tasks)[at].task_id == tasks[i].id
            }
        }),
{
    let on_board = |k: int| tasks[k].project_item_id is Some;
    let item = |k: int|
        ItemIndexEntry { item_node_id: tasks[k].project_item_id->0, task_id: tasks[k].id };
    lemma_indexed_is_picks(tasks);
    seqs::lemma_picks(tasks.len() as int, on_board, item);
}

/// An item is that of the last task indexed under it; an item that no task is
/// indexed under has none.
pub proof fn law_last_indexed_task_counts(index: Seq<ItemIndexEntry>, item: Seq<char>, q: int)
    ensures
        0 <= q < index.len() && index[q].item_node_id@ == item && (forall|k: int|
            q < k < index.len() ==> (#[trigger] index[k]).item_node_id@ != item) ==> task_for(
            index,
            item,
        ) == Some(index[q].task_id),
        task_for(index, item) is Some <==> exists|k: int|
            0 <= k < index.len() && (#[trigger] index[k]).item_node_id@ == item,
    decreases index.len(),
{
    if index.len() > 0 {
        let front = index.drop_last();
        law_last_indexed_task_counts(front, item, q);
        if 0 <= q < front.len() && index[q].item_node_id@ == item && (forall|k: int|
            q < k < index.len() ==> (#[trigger] index[k]).item_node_id@ != item) {
            assert(index[index.len() - 1].item_node_id@ != item);
            assert forall|k: int| q < k < front.len() implies (#[trigger] front[k]).item_node_id@
                != item by {
                assert(index[k].item_node_id@ != item);
            }
            assert(front[q] == index[q]);
        }
        if exists|k: int| 0 <= k < front.len() && (#[trigger] front[k]).item_node_id@ == item {
            let k = choose|k: int|
                0 <= k < front.len() && (#[trigger] front[k]).item_node_id@ == item;
            assert(index[k].item_node_id@ == item);
        }
        if exists|k: int| 0 <= k < index.len() && (#[trigger] index[k]).item_node_id@ == item {
            let k = choose|k: int|
                0 <= k < index.len() && (#[trigger] index[k]).item_node_id@ == item;
            if k < front.len() {
                assert(front[k].item_node_id@ == item);
            }
        }
    }
}

proof fn lemma_newest(items: Seq<RemoteProjectItem>, since: Timestamp, n: int)
    requires
        0 <= n <= items.len(),
    ensures
        newest(items, since, n).0 >= since.0,
        forall|i: int|
            0 <= i < n ==> newest(items, since, n).0 >= (#[trigger] items[i]).updated_at.0,
        newest(items, since, n) == since || exists|i: int|
            0 <= i < n && (#[trigger] items[i]).updated_at == newest(items, since, n),
    decreases n,
{
    if n > 0 {
        lemma_newest(items, since, n - 1);
        let before = newest(items, since, n - 1);
        if items[n - 1].updated_at.0 > before.0 {
            assert(items[n - 1].updated_at == newest(items, since, n));
        }
    }
}

/// A complete page moves the watermark to a second before its newest item,
/// where that lies past the present one; nothing else moves it.
pub proof fn law_watermark_follows_the_newest_item(
    since: Timestamp,
    items: Seq<RemoteProjectItem>,
    truncated: bool,
    i: int,
)
    requires
        0 <= i < items.len(),
        forall|k: int|
            0 <= k < items.len() ==> (#[trigger] items[k]).updated_at.0 <= items[i].updated_at.0,
    ensures
        !truncated && items[i].updated_at.0 - 1_000_000_000 > since.0 ==> next_watermark(
            since,
            items,
            truncated,
        ).0 == items[i].updated_at.0 - 1_000_000_000,
        truncated || items[i].updated_at.0 - 1_000_000_000 <= since.0 ==> next_watermark(
            since,
            items,
            truncated,
        ) == since,
{
    lemma_newest(items, since, items.len() as int);
    let top = newest(items, since, items.len() as int);
    assert(top.0 >= items[i].updated_at.0);
}

/// A page counts its board once, all its items as seen, those that a task is
/// indexed under as matched and the others as unmatched, and the board as
/// partial where it was cut short.
pub proof fn law_page_adds_its_counts(
    report: PollReport,
    page: PollPage,
    index: Seq<ItemIndexEntry>,
)
    requires
        counts_fit(report, page.items@.len() as int),
    ensures
        ({
            let after = after_page(report, page, index);
            let n = page.items@.len() as int;
            let mirrored = |i: int|
                exists|k: int|
                    0 <= k < index.len() && (#[trigger] index[k]).item_node_id@
                        == page.items@[i].item_node_id@;
            &&& after.projects_polled == report.projects_polled + 1
            &&& after.items_seen == report.items_seen + n
            &&& after.items_matched == report.items_matched + seqs::tally(n, mirrored)
            &&& after.items_unmatched == report.items_unmatched + n - seqs::tally(n, mirrored)
            &&& after.partial_projects == report.partial_projects + if page.truncated {
                1int
            } else {
                0int
            }
        }),
{
    let n = page.items@.len() as int;
    let mirrored = |i: int|
        exists|k: int|
            0 <= k < index.len() && (#[trigger] index[k]).item_node_id@
                == page.items@[i].item_node_id@;
    lemma_matched_bound(page.items@, index, n);
    lemma_matched_is_tally(page.items@, index, n);
    let found = |i: int| task_for(index, page.items@[i].item_node_id@) is Some;
    assert forall|i: int| 0 <= i < n implies #[trigger] found(i) == mirrored(i) by {
        law_last_indexed_task_counts(index, page.items@[i].item_node_id@, 0);
    }
    seqs::lemma_tally_agrees(n, found, mirrored);
}

proof fn lemma_matched_is_tally(items: Seq<RemoteProjectItem>, index: Seq<ItemIndexEntry>, n: int)
    ensures
        matched(items, index, n) == seqs::tally(
            n,
            |i: int| task_for(index, items[i].item_node_id@) is Some,
        ),
    decreases n,
{
    seqs::lemma_tally_finite(n, |i: int| task_for(index, items[i].item_node_id@) is Some);
    if n > 0 {
        lemma_matched_is_tally(items, index, n - 1);
    }
}

/// A board that cannot be polled is counted and changes nothing else.
pub proof fn law_failed_board_is_counted_alone(failed: &mut PollReport)
    requires
        call_ensures(on_poll_failed, (failed,), ()),
        old(failed).projects_polled < usize::MAX,
    ensures
        final(failed).projects_polled == old(failed).projects_polled + 1,
        final(failed).items_seen == old(failed).items_seen,
        final(failed).items_matched == old(failed).items_matched,
        final(failed).items_unmatched == old(failed).items_unmatched,
        final(failed).partial_projects == old(failed).partial_projects,
{
}

/// An item belongs to the last task indexed under it and is counted as matched;
/// an item that no task is indexed under is counted as unmatched.
pub proof fn law_item_is_matched_by_its_task(
    index: &Vec<ItemIndexEntry>,
    item: &RemoteProjectItem,
    report: &mut PollReport,
    out: Option<TaskId>,
    q: int,
)
    requires
        call_ensures(reconcile_item, (index, item, report), out),
        old(report).items_matched < usize::MAX,
        old(report).items_unmatched < usize::MAX,
    ensures
        0 <= q < index@.len() && index@[q].item_node_id@ == item.item_node_id@ && (forall|k: int|
            q < k < index@.len() ==> (#[trigger] index@[k]).item_node_id@ != item.item_node_id@)
            ==> out == Some(index@[q].task_id),
        out is Some <==> exists|k: int|
            0 <= k < index@.len() && (#[trigger] index@[k]).item_node_id@ == item.item_node_id@,
        out is Some ==> final(report).items_matched == old(report).items_matched + 1
            && final(report).items_unmatched == old(report).items_unmatched,
        out is None ==> final(report).items_unmatched == old(report).items_unmatched + 1
            && final(report).items_matched == old(report).items_matched,
        final(report).items_seen == old(report).items_seen,
{
    law_last_indexed_task_counts(index@, item.item_node_id@, q);
}

} // verus!
