use repo_link::model::ids::{TaskId, Timestamp, WorkspaceId};
use repo_link::model::outbox::{IssueCoords, OutboxMutation};
use repo_link::model::project::{Project, StatusMapping, StatusOption};
use repo_link::model::task::{Baseline, Lifecycle, RemoteRef, SyncState, Task};
use repo_link::sync::backoff::{retry_at, BackoffSchedule};
use repo_link::sync::drain::{DrainPass, DrainStep};
use repo_link::sync::drainer::{record_item, ApplyRun, ApplyStep};
use repo_link::sync::enqueue::plan_mutations;
use repo_link::sync::mirror::{
    assignees_equal, MirrorPatch, RemoteStateReason, RemoteTaskUpdate,
};
use std::time::Duration;

#[derive(Clone, Copy, Debug, PartialEq, Eq)]
enum Status {
    Pending,
    Succeeded,
    Failed,
}

struct Row {
    task_id: TaskId,
    mutation: OutboxMutation,
    status: Status,
    attempts: u32,
    next_attempt_at: Option<Timestamp>,
}

/// Everything a queue is drained against, held in memory.
struct World {
    rows: Vec<Row>,
    tasks: Vec<Task>,
    board: Option<Project>,
    backoff: BackoffSchedule,
    now: Timestamp,
    /// How many of the next remote updates fail.
    failing: u32,
    updates: Vec<RemoteTaskUpdate>,
    /// The mutations sent as queued, in order.
    sent: Vec<OutboxMutation>,
    /// Draft contents sent.
    drafts: Vec<(String, String, String)>,
    minted_item: String,
    minted_issue: (String, u64),
    /// The tasks of the applied entries, in order.
    applied: Vec<OutboxMutation>,
}

fn test_backoff(max_attempts: u32) -> BackoffSchedule {
    BackoffSchedule::new(vec![Duration::from_secs(60)], max_attempts)
}

fn world(max_attempts: u32) -> World {
    World {
        rows: Vec::new(),
        tasks: Vec::new(),
        board: None,
        backoff: test_backoff(max_attempts),
        now: Timestamp(1_000),
        failing: 0,
        updates: Vec::new(),
        sent: Vec::new(),
        drafts: Vec::new(),
        minted_item: "PVTI_new".into(),
        minted_issue: ("I_converted_42".into(), 42),
        applied: Vec::new(),
    }
}

fn draft(id: u128, title: &str) -> Task {
    Task {
        id: TaskId(id),
        workspace_id: WorkspaceId(77),
        repo_id: None,
        filing_repo_id: None,
        hash: String::new(),
        title: title.into(),
        body: String::new(),
        priority: "medium".into(),
        assignees: Vec::new(),
        lifecycle: Lifecycle::Open,
        sync: SyncState::LocalOnly,
        remote: None,
        project_item_id: None,
        project_status_option_id: None,
        relations: Vec::new(),
        comments: Vec::new(),
        baseline: None,
        created_at: Timestamp(1),
        updated_at: Timestamp(2),
    }
}

fn issue(number: &str, node: Option<&str>) -> RemoteRef {
    RemoteRef {
        provider: "github".into(),
        remote_id: number.into(),
        node_id: node.map(str::to_string),
    }
}

fn baseline_of(t: &Task) -> Baseline {
    Baseline {
        title: t.title.clone(),
        body: t.body.clone(),
        assignees: t.assignees.clone(),
        lifecycle: t.lifecycle,
    }
}

/// A promoted task: its fields are its baseline.
fn promoted(id: u128, title: &str, remote: RemoteRef) -> Task {
    let mut t = draft(id, title);
    t.remote = Some(remote);
    t.sync = SyncState::Synced;
    t.baseline = Some(baseline_of(&t));
    t
}

/// A promoted task whose title was edited once.
fn seed_issue_task(w: &mut World, id: u128, remote_id: &str) -> Task {
    let mut t = promoted(id, &format!("task {remote_id}"), issue(remote_id, None));
    t.title = format!("{remote_id}-edited");
    t.sync = SyncState::DirtyLocal;
    w.tasks.push(t.clone());
    t
}

/// A mirror that was imported from issue 0.
fn imported(id: u128, title: &str, body: &str) -> Task {
    let mut t = draft(id, title);
    t.body = body.into();
    t.remote = Some(issue("0", None));
    t.sync = SyncState::Synced;
    t.baseline = Some(baseline_of(&t));
    t
}

fn project_with_options() -> Project {
    let option = |id: &str, name: &str, ordinal: u32| StatusOption {
        option_id: id.into(),
        name: name.into(),
        ordinal,
    };
    Project {
        id: "PVT_kwHO_test".into(),
        status_field_id: "PVTSSF_field".into(),
        status_options: vec![
            option("o_backlog", "Backlog", 0),
            option("o_wip", "In progress", 1),
            option("o_done", "Done", 2),
        ],
        status_mappings: vec![
            StatusMapping {
                is_open: true,
                option_id: "o_backlog".into(),
            },
            StatusMapping {
                is_open: false,
                option_id: "o_done".into(),
            },
        ],
    }
}

fn diff(t: &Task) -> MirrorPatch {
    match &t.baseline {
        None => MirrorPatch {
            title: Some(t.title.clone()),
            body: Some(t.body.clone()),
            status: Some(t.lifecycle),
            assignees: Some(t.assignees.clone()),
        },
        Some(b) => MirrorPatch {
            title: (t.title != b.title).then_some(t.title.clone()),
            body: (t.body != b.body).then_some(t.body.clone()),
            status: (t.lifecycle != b.lifecycle).then_some(t.lifecycle),
            assignees: (!assignees_equal(&t.assignees, &b.assignees))
                .then_some(t.assignees.clone()),
        },
    }
}

/// Advance the patched fields of the baseline, and no others.
fn confirm(t: &mut Task, p: &MirrorPatch) {
    let mut b = t.baseline.clone().unwrap();
    if let Some(x) = &p.title {
        b.title = x.clone();
    }
    if let Some(x) = &p.body {
        b.body = x.clone();
    }
    if let Some(x) = p.status {
        b.lifecycle = x;
    }
    if let Some(x) = &p.assignees {
        b.assignees = x.clone();
    }
    t.baseline = Some(b);
    t.sync = SyncState::Synced;
}

impl World {
    fn task(&mut self, id: TaskId) -> &mut Task {
        self.tasks.iter_mut().find(|t| t.id == id).unwrap()
    }

    fn get(&self, id: u128) -> Task {
        self.tasks.iter().find(|t| t.id == TaskId(id)).unwrap().clone()
    }

    fn enqueue(&mut self, id: u128, mutation: OutboxMutation) {
        self.rows.push(Row {
            task_id: TaskId(id),
            mutation,
            status: Status::Pending,
            attempts: 0,
            next_attempt_at: None,
        });
    }

    /// The oldest pending row of a task, where its window has come.
    fn claim(&self) -> Option<usize> {
        (0..self.rows.len()).find(|&i| {
            let r = &self.rows[i];
            r.status == Status::Pending
                && r.next_attempt_at.map_or(true, |at| at.0 <= self.now.0)
                && !self.rows[..i]
                    .iter()
                    .any(|e| e.task_id == r.task_id && e.status == Status::Pending)
        })
    }

    fn drain_once(&mut self) -> usize {
        let mut pass = DrainPass::start();
        let mut i = 0;
        loop {
            match &pass.step {
                DrainStep::Claim => {
                    let found = self.claim();
                    i = found.unwrap_or(0);
                    pass.on_claimed(found.map(|k| self.rows[k].attempts));
                }
                DrainStep::Apply => {
                    let (id, mutation) = (self.rows[i].task_id, self.rows[i].mutation.clone());
                    let landed = self.apply(id, &mutation);
                    pass.on_applied(landed, &self.backoff);
                }
                DrainStep::MarkSucceeded => {
                    self.rows[i].status = Status::Succeeded;
                    self.applied.push(self.rows[i].mutation.clone());
                    pass.on_recorded();
                }
                DrainStep::Reschedule { delay } => {
                    self.rows[i].attempts += 1;
                    self.rows[i].next_attempt_at = retry_at(self.now, *delay);
                    pass.on_recorded();
                }
                DrainStep::MarkFailed => {
                    self.rows[i].status = Status::Failed;
                    pass.on_recorded();
                }
                DrainStep::Done => return pass.succeeded,
            }
        }
    }

    /// Apply one mutation; says whether it landed.
    fn apply(&mut self, id: TaskId, mutation: &OutboxMutation) -> bool {
        let mut run = ApplyRun::start(mutation.clone());
        let mut patch = None;
        loop {
            match &run.step {
                ApplyStep::LoadTask => {
                    let t = self.task(id).clone();
                    run.on_task(&t);
                }
                ApplyStep::Diff => {
                    let found = diff(self.task(id));
                    run.on_diff(&found);
                    patch = Some(found);
                }
                ApplyStep::Push(update) => {
                    if self.failing > 0 {
                        self.failing -= 1;
                        return false;
                    }
                    self.updates.push(RemoteTaskUpdate {
                        canonical_repo: update.canonical_repo.clone(),
                        remote_id: update.remote_id.clone(),
                        title: update.title.clone(),
                        body: update.body.clone(),
                        closed: update.closed,
                        state_reason: update.state_reason,
                        assignees: update.assignees.clone(),
                    });
                    run.on_pushed();
                }
                ApplyStep::Confirm => {
                    confirm(self.task(id), patch.as_ref().unwrap());
                    run.on_finished();
                }
                ApplyStep::Send => {
                    self.sent.push(mutation.clone());
                    match mutation {
                        OutboxMutation::AddItem { .. }
                        | OutboxMutation::CreateDraftIssue { .. } => {
                            run.on_item(self.minted_item.clone())
                        }
                        OutboxMutation::ConvertDraftToIssue { .. } => {
                            let current = self.task(id).remote.clone();
                            let (node, number) = self.minted_issue.clone();
                            run.on_converted(node, number, &current);
                        }
                        _ => run.on_sent(),
                    }
                }
                ApplyStep::SendDraft {
                    item_node_id,
                    title,
                    body,
                } => {
                    self.drafts
                        .push((item_node_id.clone(), title.clone(), body.clone()));
                    run.on_finished();
                }
                ApplyStep::CheckBoard { .. } => run.on_board(self.board.as_ref().map(|p| &p.id)),
                ApplyStep::WriteBackItem { item_id } => {
                    let item_id = item_id.clone();
                    record_item(self.task(id), &item_id);
                    run.on_item_recorded();
                }
                ApplyStep::FollowUp { .. } => {
                    let open = self.task(id).lifecycle.is_open();
                    run.on_follow_up(self.board.as_ref(), open);
                }
                ApplyStep::Enqueue(m) => {
                    let m = m.clone();
                    self.enqueue(id.0, m);
                    run.on_finished();
                }
                ApplyStep::WriteBackRemote(r) => {
                    self.task(id).remote = Some(r.clone());
                    run.on_remote_recorded();
                }
                ApplyStep::Done => return true,
            }
        }
    }

    fn sent_of(&self, kind: &str) -> usize {
        self.sent.iter().filter(|m| m.kind() == kind).count()
    }

    /// The column that the card was moved to.
    fn moved_to(&self) -> Option<String> {
        self.sent.iter().find_map(|m| match m {
            OutboxMutation::SetProjectStatus { option_id, .. } => Some(option_id.clone()),
            _ => None,
        })
    }
}

fn update_of(remote_id: &str, title: Option<&str>, body: Option<&str>) -> OutboxMutation {
    OutboxMutation::UpdateRemote {
        canonical_repo: "github.com/o/r".into(),
        remote_id: remote_id.into(),
        title: title.map(str::to_string),
        body: body.map(str::to_string),
        closed: None,
    }
}

fn convert_into(item: &str, repo: &str) -> OutboxMutation {
    OutboxMutation::ConvertDraftToIssue {
        item_node_id: item.into(),
        repo_node_id: repo.into(),
    }
}

fn coords(n: &str) -> IssueCoords {
    IssueCoords {
        canonical: "github.com/o/r".into(),
        remote_id: n.into(),
    }
}

#[test]
fn drain_success_marks_succeeded_and_calls_provider_with_state() {
    let mut w = world(5);
    seed_issue_task(&mut w, 1, "1");
    w.task(TaskId(1)).lifecycle = Lifecycle::Completed;
    w.enqueue(1, update_of("1", Some("t"), Some("b")));
    assert_eq!(w.drain_once(), 1);
    assert_eq!(w.updates.len(), 1);
    assert_eq!(w.updates[0].closed, Some(true));
    assert_eq!(w.updates[0].state_reason, Some(RemoteStateReason::Completed));
    assert_eq!(w.rows[0].status, Status::Succeeded);
}

#[test]
fn drain_update_remote_rebaselines_on_success_rfc0003_d5() {
    let mut w = world(5);
    let pre = seed_issue_task(&mut w, 1, "1");
    let before = pre.baseline.clone().unwrap();
    assert_eq!(before.title, "task 1");
    assert_eq!(pre.sync, SyncState::DirtyLocal);
    assert_eq!(pre.title, "1-edited");
    w.enqueue(1, update_of("1", None, None));
    assert_eq!(w.drain_once(), 1);
    assert_eq!(w.updates.len(), 1);
    assert_eq!(w.updates[0].title.as_deref(), Some("1-edited"));
    assert_eq!(w.updates[0].remote_id, "1");
    let post = w.get(1);
    assert_eq!(post.sync, SyncState::Synced);
    let after = post.baseline.clone().unwrap();
    assert_eq!(after.title, "1-edited");
    assert_eq!(after.body, before.body);
    assert_eq!(after.lifecycle, before.lifecycle);
    assert_eq!(after.assignees, before.assignees);
    assert!(diff(&post).is_empty());
    assert_eq!(w.rows[0].status, Status::Succeeded);
}

#[test]
fn drain_update_remote_empty_patch_confirms_without_pushing() {
    let mut w = world(5);
    let mut t = promoted(7, "task 7", issue("7", None));
    t.sync = SyncState::Staged;
    assert!(diff(&t).is_empty());
    w.tasks.push(t.clone());
    w.enqueue(7, update_of("7", None, None));
    assert_eq!(w.drain_once(), 1);
    assert!(w.updates.is_empty());
    let post = w.get(7);
    assert_eq!(post.sync, SyncState::Synced);
    assert_eq!(post.baseline, t.baseline);
    assert_eq!(w.rows[0].status, Status::Succeeded);
}

#[test]
fn drain_add_sub_issue_calls_provider() {
    let mut w = world(5);
    seed_issue_task(&mut w, 1, "10");
    w.enqueue(
        1,
        OutboxMutation::AddSubIssue {
            parent: coords("10"),
            child: coords("20"),
        },
    );
    assert_eq!(w.drain_once(), 1);
    assert_eq!(w.sent.len(), 1);
    assert_eq!(w.sent[0].kind(), "add_sub_issue");
    match &w.sent[0] {
        OutboxMutation::AddSubIssue { parent, child } => {
            assert_eq!(parent.remote_id, "10");
            assert_eq!(child.remote_id, "20");
        }
        other => panic!("{other:?}"),
    }
    assert_eq!(w.rows[0].status, Status::Succeeded);
}

#[test]
fn drain_add_blocked_by_calls_provider() {
    let mut w = world(5);
    seed_issue_task(&mut w, 1, "10");
    w.enqueue(
        1,
        OutboxMutation::AddBlockedBy {
            blocked: coords("10"),
            blocker: coords("20"),
        },
    );
    assert_eq!(w.drain_once(), 1);
    assert_eq!(w.sent.len(), 1);
    assert_eq!(w.sent[0].kind(), "add_blocked_by");
    match &w.sent[0] {
        OutboxMutation::AddBlockedBy { blocked, blocker } => {
            assert_eq!(blocked.remote_id, "10");
            assert_eq!(blocker.remote_id, "20");
        }
        other => panic!("{other:?}"),
    }
    assert_eq!(w.rows[0].status, Status::Succeeded);
}

#[test]
fn provider_err_under_cap_reschedules_with_backoff() {
    let mut w = world(5);
    seed_issue_task(&mut w, 1, "1");
    w.failing = 1;
    w.enqueue(1, update_of("1", None, None));
    let before = w.now;
    w.drain_once();
    assert_eq!(w.rows[0].status, Status::Pending);
    assert_eq!(w.rows[0].attempts, 1);
    let next = w.rows[0].next_attempt_at.unwrap();
    assert!(next.0 >= before.0 + 60 * 1_000_000_000);
}

#[test]
fn provider_err_at_cap_dead_letters() {
    let mut w = world(1);
    seed_issue_task(&mut w, 1, "1");
    w.failing = 1;
    w.enqueue(1, update_of("1", None, None));
    w.drain_once();
    let dead: Vec<&Row> = w.rows.iter().filter(|r| r.status == Status::Failed).collect();
    assert_eq!(dead.len(), 1);
}

#[test]
fn per_task_fifo_drains_in_enqueue_order() {
    let mut w = world(5);
    seed_issue_task(&mut w, 1, "1");
    for remote_id in ["r-started", "r-edited", "r-completed"] {
        w.enqueue(1, update_of(remote_id, None, None));
    }
    assert_eq!(w.drain_once(), 3);
    // The first update settles the drift; the other two send nothing.
    let sent: Vec<&str> = w.updates.iter().map(|u| u.remote_id.as_str()).collect();
    assert_eq!(sent, vec!["r-started"]);
    assert!(w.rows.iter().all(|r| r.status == Status::Succeeded));
    let order: Vec<String> = w
        .applied
        .iter()
        .map(|m| match m {
            OutboxMutation::UpdateRemote { remote_id, .. } => remote_id.clone(),
            other => panic!("{other:?}"),
        })
        .collect();
    assert_eq!(order, vec!["r-started", "r-edited", "r-completed"]);
}

#[test]
fn failed_head_on_task_a_does_not_block_task_b() {
    let mut w = world(5);
    seed_issue_task(&mut w, 1, "1");
    seed_issue_task(&mut w, 2, "2");
    w.failing = 1;
    w.enqueue(1, update_of("1", None, Some("a")));
    w.enqueue(2, update_of("2", None, Some("b")));
    assert_eq!(w.drain_once(), 1);
    assert_eq!(w.updates.len(), 1);
    assert_eq!(w.updates[0].remote_id, "2");
    assert_eq!(w.rows[0].status, Status::Pending);
    assert_eq!(w.rows[1].status, Status::Succeeded);
}

#[test]
fn add_item_writes_project_item_id_and_enqueues_set_status() {
    let mut w = world(5);
    w.board = Some(project_with_options());
    w.tasks.push(promoted(1, "attach me", issue("9", Some("I_9"))));
    w.enqueue(
        1,
        OutboxMutation::AddItem {
            project_node_id: "PVT_kwHO_test".into(),
            issue_node_id: "I_9".into(),
        },
    );
    w.drain_once();
    assert_eq!(w.get(1).project_item_id.as_deref(), Some("PVTI_new"));
    assert_eq!(w.sent_of("add_item"), 1);
    assert_eq!(w.moved_to().as_deref(), Some("o_backlog"));
}

#[test]
fn add_item_after_detach_does_not_set_project_item_id() {
    let mut w = world(5);
    w.tasks.push(promoted(1, "attach me", issue("9", Some("I_9"))));
    w.enqueue(
        1,
        OutboxMutation::AddItem {
            project_node_id: "PVT_kwHO_test".into(),
            issue_node_id: "I_9".into(),
        },
    );
    assert_eq!(w.drain_once(), 1);
    assert_eq!(w.get(1).project_item_id, None);
    assert_eq!(w.sent_of("add_item"), 1);
    assert_eq!(w.moved_to(), None);
    assert_eq!(w.rows[0].status, Status::Succeeded);
}

#[test]
fn convert_draft_to_issue_writes_issue_node_id_and_number() {
    let mut w = world(5);
    let mut t = imported(1, "draft", "body");
    t.project_item_id = Some("PVTI_draft".into());
    w.tasks.push(t);
    w.enqueue(1, convert_into("PVTI_draft", "github.com/o/r"));
    w.drain_once();
    let remote = w.get(1).remote.unwrap();
    assert_eq!(remote.node_id.as_deref(), Some("I_converted_42"));
    assert_eq!(remote.remote_id, "42");
}

#[test]
fn convert_write_back_never_yields_empty_remote_id_for_update_remote() {
    let mut w = world(5);
    w.minted_issue = ("I_converted_7".into(), 7);
    let mut t = imported(1, "draft", "body");
    t.project_item_id = Some("PVTI_draft".into());
    w.tasks.push(t);
    w.enqueue(1, convert_into("PVTI_draft", "github.com/o/r"));
    w.drain_once();
    let planned = plan_mutations(&w.get(1), None, Some("github.com/o/r"), true);
    let number = planned
        .iter()
        .find_map(|m| match m {
            OutboxMutation::UpdateRemote { remote_id, .. } => Some(remote_id.clone()),
            _ => None,
        })
        .unwrap();
    assert_eq!(number, "7");
}

#[test]
fn backed_off_head_blocks_its_tail_same_task() {
    let mut w = world(5);
    seed_issue_task(&mut w, 1, "1");
    w.failing = 1;
    w.enqueue(1, update_of("1", None, Some("head")));
    w.enqueue(1, update_of("1", None, Some("tail")));
    assert_eq!(w.drain_once(), 0);
    assert!(w.updates.is_empty());
    assert_eq!(w.rows[0].status, Status::Pending);
    assert_eq!(w.rows[0].attempts, 1);
    assert!(w.rows[0].next_attempt_at.is_some());
    assert_eq!(w.rows[1].status, Status::Pending);
    assert_eq!(w.rows[1].attempts, 0);
}

#[test]
fn update_remote_pushes_live_task_title_body_not_payload_snapshot() {
    let mut w = world(5);
    seed_issue_task(&mut w, 1, "1");
    w.task(TaskId(1)).title = "LIVE TITLE".into();
    w.task(TaskId(1)).body = "live body".into();
    w.enqueue(1, update_of("1", Some("stale title"), Some("stale body")));
    w.drain_once();
    assert_eq!(w.updates.len(), 1);
    assert_eq!(w.updates[0].title.as_deref(), Some("LIVE TITLE"));
    assert_eq!(w.updates[0].body.as_deref(), Some("live body"));
}

#[test]
fn drain_update_remote_sends_only_changed_fields() {
    let mut w = world(5);
    let mut t = promoted(1, "original", issue("1", None));
    t.title = "renamed".into();
    t.sync = SyncState::DirtyLocal;
    w.tasks.push(t);
    w.enqueue(1, update_of("1", None, None));
    w.drain_once();
    assert_eq!(w.updates.len(), 1);
    let u = &w.updates[0];
    assert_eq!(u.title.as_deref(), Some("renamed"));
    assert_eq!(u.body, None);
    assert_eq!(u.closed, None);
    assert_eq!(u.state_reason, None);
    assert_eq!(u.assignees, None);
}

#[test]
fn drainer_rerederives_assignees_from_live_task() {
    let mut w = world(5);
    seed_issue_task(&mut w, 1, "1");
    w.task(TaskId(1)).assignees = vec!["carol".into()];
    w.enqueue(1, update_of("1", None, None));
    w.drain_once();
    assert_eq!(w.updates.len(), 1);
    let u = &w.updates[0];
    assert_eq!(u.assignees.as_deref(), Some(&["carol".to_string()][..]));
    assert_eq!(u.title.as_deref(), Some("1-edited"));
    assert_eq!(u.body, None);
    assert_eq!(u.closed, None);
    assert_eq!(u.state_reason, None);
}

#[test]
fn drain_update_remote_skips_provider_when_patch_empty() {
    let mut w = world(5);
    let t = promoted(1, "task 1", issue("1", None));
    w.tasks.push(t.clone());
    w.enqueue(1, update_of("1", None, None));
    w.drain_once();
    assert!(w.updates.is_empty());
    assert_eq!(w.rows[0].status, Status::Succeeded);
    let post = w.get(1);
    assert_eq!(post.sync, SyncState::Synced);
    assert_eq!(post.baseline, t.baseline);
}

#[test]
fn update_draft_issue_pushes_live_task_title_body_not_payload_snapshot() {
    let mut w = world(5);
    let mut t = imported(1, "stale title", "stale body");
    t.project_item_id = Some("PVTI_draft".into());
    t.title = "LIVE DRAFT TITLE".into();
    t.body = "live draft body".into();
    w.tasks.push(t);
    w.enqueue(
        1,
        OutboxMutation::UpdateDraftIssue {
            item_node_id: "PVTI_draft".into(),
            title: Some("stale title".into()),
            body: Some("stale body".into()),
        },
    );
    w.drain_once();
    assert_eq!(
        w.drafts,
        vec![(
            "PVTI_draft".to_string(),
            "LIVE DRAFT TITLE".to_string(),
            "live draft body".to_string()
        )]
    );
}

#[test]
fn reopened_update_remote_drains_with_closed_false() {
    let mut w = world(5);
    seed_issue_task(&mut w, 1, "1");
    w.task(TaskId(1)).lifecycle = Lifecycle::Reopened;
    w.enqueue(1, update_of("1", None, None));
    w.drain_once();
    assert_eq!(w.updates.len(), 1);
    assert_eq!(w.updates[0].closed, Some(false));
    assert_eq!(w.updates[0].state_reason, Some(RemoteStateReason::Reopened));
}

fn new_draft() -> Task {
    let mut t = imported(1, "new draft", "draft body");
    t.remote = None;
    t
}

fn create_draft() -> OutboxMutation {
    OutboxMutation::CreateDraftIssue {
        project_node_id: "PVT_kwHO_test".into(),
        title: "new draft".into(),
        body: "draft body".into(),
    }
}

#[test]
fn create_draft_issue_writes_item_id_and_enqueues_set_status() {
    let mut w = world(5);
    w.board = Some(project_with_options());
    w.minted_item = "PVTI_draft_new".into();
    w.tasks.push(new_draft());
    w.enqueue(1, create_draft());
    w.drain_once();
    assert_eq!(w.get(1).project_item_id.as_deref(), Some("PVTI_draft_new"));
    assert_eq!(w.sent_of("create_draft_issue"), 1);
    assert_eq!(w.moved_to().as_deref(), Some("o_backlog"));
}

#[test]
fn create_draft_replay_does_not_mint_a_second_draft() {
    let mut w = world(5);
    w.board = Some(project_with_options());
    w.minted_item = "PVTI_draft_new".into();
    w.tasks.push(new_draft());
    w.enqueue(1, create_draft());
    w.drain_once();
    w.enqueue(1, create_draft());
    w.drain_once();
    assert_eq!(w.sent_of("create_draft_issue"), 1);
}

#[test]
fn convert_draft_replay_does_not_reconvert() {
    let mut w = world(5);
    let mut t = imported(1, "draft", "body");
    t.project_item_id = Some("PVTI_draft".into());
    w.tasks.push(t);
    for _ in 0..2 {
        w.enqueue(1, convert_into("PVTI_draft", "github.com/o/r"));
        w.drain_once();
    }
    assert_eq!(w.sent_of("convert_draft_to_issue"), 1);
}

#[test]
fn update_remote_cross_filed_targets_filing_repo_not_logical_repo() {
    let mut w = world(5);
    seed_issue_task(&mut w, 1, "42");
    w.enqueue(
        1,
        OutboxMutation::UpdateRemote {
            canonical_repo: "github.com/org/filing-repo".into(),
            remote_id: "42".into(),
            title: None,
            body: None,
            closed: None,
        },
    );
    assert_eq!(w.drain_once(), 1);
    assert_eq!(w.updates.len(), 1);
    assert_eq!(w.updates[0].canonical_repo, "github.com/org/filing-repo");
}

#[test]
fn convert_draft_to_issue_cross_filed_uses_entry_repo_node_id() {
    let mut w = world(5);
    w.minted_issue = ("I_converted_cross".into(), 99);
    let mut t = imported(1, "draft", "body");
    t.project_item_id = Some("PVTI_cross_filed_draft".into());
    w.tasks.push(t);
    w.enqueue(1, convert_into("PVTI_cross_filed_draft", "R_kgDOfiling"));
    w.drain_once();
    let repo = w
        .sent
        .iter()
        .find_map(|m| match m {
            OutboxMutation::ConvertDraftToIssue { repo_node_id, .. } => Some(repo_node_id.clone()),
            _ => None,
        })
        .unwrap();
    assert_eq!(repo, "R_kgDOfiling");
    let remote = w.get(1).remote.unwrap();
    assert_eq!(remote.node_id.as_deref(), Some("I_converted_cross"));
    assert_eq!(remote.remote_id, "99");
}

#[test]
fn pass_resolves_each_entry_before_the_next() {
    let backoff = test_backoff(2);
    let mut pass = DrainPass::start();
    pass.on_claimed(Some(0));
    assert_eq!(pass.step, DrainStep::Apply);
    pass.on_applied(true, &backoff);
    assert_eq!(pass.step, DrainStep::MarkSucceeded);
    assert_eq!(pass.succeeded, 0);
    pass.on_recorded();
    assert_eq!((pass.succeeded, &pass.step), (1, &DrainStep::Claim));
    pass.on_claimed(Some(0));
    pass.on_applied(false, &backoff);
    assert_eq!(
        pass.step,
        DrainStep::Reschedule {
            delay: Duration::from_secs(60)
        }
    );
    pass.on_recorded();
    pass.on_claimed(Some(1));
    pass.on_applied(false, &backoff);
    assert_eq!(pass.step, DrainStep::MarkFailed);
    pass.on_recorded();
    pass.on_claimed(None);
    assert_eq!((pass.succeeded, &pass.step), (1, &DrainStep::Done));
}
