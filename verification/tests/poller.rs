use repo_link::model::ids::{TaskId, Timestamp, WorkspaceId};
use repo_link::model::task::{Lifecycle, RemoteRef, SyncState, Task};
use repo_link::sync::poller::{
    index_tasks_by_item_id, on_page, PollPage, PollReport, RemoteProjectItem,
};

const SECOND: i128 = 1_000_000_000;

fn task(id: u128, title: &str) -> Task {
    Task {
        id: TaskId(id),
        workspace_id: WorkspaceId(77),
        repo_id: None,
        filing_repo_id: None,
        hash: String::new(),
        title: title.into(),
        body: String::new(),
        priority: "medium".into(),
        assignees: Vec::new(),
        lifecycle: Lifecycle::Open,
        sync: SyncState::LocalOnly,
        remote: None,
        project_item_id: None,
        project_status_option_id: None,
        relations: Vec::new(),
        comments: Vec::new(),
        baseline: None,
        created_at: Timestamp(1),
        updated_at: Timestamp(2),
    }
}

fn item(id: &str, at: i128) -> RemoteProjectItem {
    RemoteProjectItem {
        item_node_id: id.into(),
        updated_at: Timestamp(at),
    }
}

/// Poll projects whose pages are given, each from `since` on; returns the
/// report and the watermarks.
fn poll_once(
    tasks: &Vec<Task>,
    pages: Vec<PollPage>,
    since: Timestamp,
) -> (PollReport, Vec<Timestamp>) {
    let index = index_tasks_by_item_id(tasks);
    let mut report = PollReport::default();
    let marks = pages
        .iter()
        .map(|page| on_page(&mut report, page, &index, since))
        .collect();
    (report, marks)
}

fn page(items: Vec<RemoteProjectItem>, truncated: bool) -> PollPage {
    PollPage { items, truncated }
}

#[test]
fn poll_once_reconciles_a_matched_item() {
    let mut t = task(1, "mirror");
    t.sync = SyncState::Synced;
    t.remote = Some(RemoteRef {
        provider: "github".into(),
        remote_id: "1".into(),
        node_id: None,
    });
    t.project_item_id = Some("PVTI_42".into());
    let (report, _) = poll_once(
        &vec![t],
        vec![page(vec![item("PVTI_42", 50 * SECOND)], false)],
        Timestamp(0),
    );
    assert_eq!(report.projects_polled, 1);
    assert_eq!(report.items_seen, 1);
    assert_eq!(report.items_matched, 1);
    assert_eq!(report.items_unmatched, 0);
    assert_eq!(report.partial_projects, 0);
}

#[test]
fn poll_once_skips_item_with_no_local_task() {
    let mut t = task(1, "mirror");
    t.project_item_id = Some("PVTI_known".into());
    let items = vec![item("PVTI_known", SECOND), item("PVTI_orphan", SECOND)];
    let (report, _) = poll_once(&vec![t], vec![page(items, false)], Timestamp(0));
    assert_eq!(report.items_seen, 2);
    assert_eq!(report.items_matched, 1);
    assert_eq!(report.items_unmatched, 1);
}

#[test]
fn poll_once_treats_truncated_page_as_partial() {
    let (report, marks) = poll_once(
        &Vec::new(),
        vec![page(vec![item("PVTI_0", 90 * SECOND)], true)],
        Timestamp(0),
    );
    assert_eq!(report.partial_projects, 1);
    assert_eq!(report.items_seen, 1);
    assert_eq!(marks[0], Timestamp(0));
}

#[test]
fn poll_once_advances_watermark_with_one_second_margin() {
    let seen_at = 90 * SECOND;
    let (report, marks) = poll_once(
        &Vec::new(),
        vec![page(vec![item("PVTI_m", seen_at)], false)],
        Timestamp(0),
    );
    assert_eq!(report.partial_projects, 0);
    assert_eq!(marks[0], Timestamp(seen_at - SECOND));
    assert!(marks[0].0 < seen_at);
}

#[test]
fn poll_once_empty_complete_page_does_not_regress_watermark() {
    let seeded = Timestamp(90 * SECOND);
    let (report, marks) = poll_once(&Vec::new(), vec![page(Vec::new(), false)], seeded);
    assert_eq!(report.partial_projects, 0);
    assert_eq!(report.items_seen, 0);
    assert_eq!(marks[0], seeded);
}

#[test]
fn poll_once_advance_is_clamped_to_not_drop_below_since() {
    let since = Timestamp(90 * SECOND);
    let (_, marks) = poll_once(
        &Vec::new(),
        vec![page(vec![item("PVTI_c", since.0 + SECOND)], false)],
        since,
    );
    assert_eq!(marks[0], since);
}

#[test]
fn poll_once_with_no_projects_is_inert() {
    let (report, marks) = poll_once(&Vec::new(), Vec::new(), Timestamp(0));
    assert_eq!(report, PollReport::default());
    assert!(marks.is_empty());
}
