use repo_link::model::error::{DomainError, PortError};
use repo_link::model::ids::{RepoId, TaskId, Timestamp, WorkspaceId};
use repo_link::model::names::SyncDecision;
use repo_link::model::outbox::{IssueCoords, OutboxMutation};
use repo_link::model::project::{Project, StatusMapping, StatusOption};
use repo_link::model::task::{
    Baseline, Lifecycle, RelationKind, RemoteRef, SyncState, Task, TaskComment, TaskRelation,
};
use repo_link::sync::backoff::{retry_at, BackoffSchedule, Failure};
use repo_link::sync::drainer::{record_item, ApplyRun, ApplyStep};
use repo_link::sync::error::SyncError;
use repo_link::sync::link::{Link, LinkStep};
use repo_link::sync::mirror::{MirrorPatch, RemoteTaskSnapshot};
use repo_link::sync::poller::{
    index_tasks_by_item_id, on_page, on_poll_failed, PollPage, PollReport, RemoteProjectItem,
};
use repo_link::sync::promote::{PromoteStep, Promotion};
use repo_link::sync::pull::{refresh_target, Pull, PullStep, RefreshOutcome};
use repo_link::sync::push::{Push, PushStep};
use repo_link::sync::relations::{
    known_tasks, reconcile_family, reconcile_relations_inbound, touched_tasks, Neighbor,
};
use std::time::Duration;

fn task(id: u128) -> Task {
    Task {
        id: TaskId(id),
        workspace_id: WorkspaceId(77),
        repo_id: None,
        filing_repo_id: None,
        hash: String::new(),
        title: "t".into(),
        body: "b".into(),
        priority: "medium".into(),
        assignees: Vec::new(),
        lifecycle: Lifecycle::Open,
        sync: SyncState::LocalOnly,
        remote: None,
        project_item_id: None,
        project_status_option_id: None,
        relations: Vec::new(),
        comments: Vec::new(),
        baseline: None,
        created_at: Timestamp(1),
        updated_at: Timestamp(2),
    }
}

fn issue(number: &str) -> Option<RemoteRef> {
    Some(RemoteRef {
        provider: "github".into(),
        remote_id: number.into(),
        node_id: None,
    })
}

fn synced(id: u128) -> Task {
    Task {
        sync: SyncState::Synced,
        remote: issue("100"),
        baseline: Some(Baseline {
            title: "t".into(),
            body: "b".into(),
            assignees: Vec::new(),
            lifecycle: Lifecycle::Open,
        }),
        ..task(id)
    }
}

fn snap(title: &str, closed: bool) -> RemoteTaskSnapshot {
    RemoteTaskSnapshot {
        remote_id: "100".into(),
        node_id: Some("I_1".into()),
        title: title.into(),
        body: "b".into(),
        closed,
        assignees: Vec::new(),
    }
}

fn no_patch() -> MirrorPatch {
    MirrorPatch {
        title: None,
        body: None,
        status: None,
        assignees: None,
    }
}

fn board() -> Project {
    Project {
        id: "P".into(),
        status_field_id: "F".into(),
        status_options: vec![StatusOption {
            option_id: "o1".into(),
            name: "Todo".into(),
            ordinal: 0,
        }],
        status_mappings: vec![StatusMapping {
            is_open: true,
            option_id: "o1".into(),
        }],
    }
}

fn ok<T, E: std::fmt::Debug>(r: Result<T, E>) -> T {
    match r {
        Ok(v) => v,
        Err(e) => panic!("{e:?}"),
    }
}

fn err<T, E>(r: Result<T, E>) -> E {
    match r {
        Ok(_) => panic!("refusal expected"),
        Err(e) => e,
    }
}

// ---------- backoff ----------

#[test]
fn standard_schedule_waits_and_gives_up() {
    let b = BackoffSchedule::standard();
    assert_eq!(b.max_attempts(), 5);
    assert_eq!(b.delay_for(1), Duration::from_secs(5));
    assert_eq!(b.delay_for(2), Duration::from_secs(30));
    assert_eq!(b.delay_for(3), Duration::from_secs(120));
    assert_eq!(b.delay_for(4), Duration::from_secs(600));
    assert_eq!(b.delay_for(9), Duration::from_secs(600));
    assert_eq!(b.delay_for(0), Duration::from_secs(5));
    assert_eq!(
        b.on_failure(0),
        Failure::Retry {
            delay: Duration::from_secs(5)
        }
    );
    assert_eq!(b.on_failure(4), Failure::DeadLetter);
}

#[test]
fn schedule_of_ones_own_tries_at_least_once() {
    let b = BackoffSchedule::new(Vec::new(), 0);
    assert_eq!(b.max_attempts(), 1);
    assert_eq!(b.delay_for(3), Duration::from_secs(0));
    assert_eq!(b.on_failure(0), Failure::DeadLetter);
}

#[test]
fn retry_is_counted_from_the_failure() {
    assert_eq!(
        retry_at(Timestamp(1_000), Duration::from_secs(5)),
        Some(Timestamp(5_000_001_000))
    );
    assert_eq!(
        retry_at(Timestamp(0), Duration::new(1, 7)),
        Some(Timestamp(1_000_000_007))
    );
    // Longer than the host library can hold: no delay at all.
    assert_eq!(
        retry_at(Timestamp(9), Duration::from_secs(u64::MAX)),
        Some(Timestamp(9))
    );
}

// ---------- drainer ----------

fn update_remote() -> OutboxMutation {
    OutboxMutation::UpdateRemote {
        canonical_repo: "github.com/f/r".into(),
        remote_id: "100".into(),
        title: Some("stale".into()),
        body: None,
        closed: None,
    }
}

#[test]
fn update_sends_only_the_live_changes_to_the_filing_repo() {
    let mut run = ApplyRun::start(update_remote());
    assert_eq!(run.step, ApplyStep::LoadTask);
    let t = Task {
        sync: SyncState::DirtyLocal,
        ..synced(1)
    };
    run.on_task(&t);
    assert_eq!(run.step, ApplyStep::Diff);
    run.on_diff(&MirrorPatch {
        status: Some(Lifecycle::Reopened),
        ..no_patch()
    });
    match &run.step {
        ApplyStep::Push(u) => {
            assert_eq!(u.canonical_repo, "github.com/f/r");
            assert_eq!(u.title, None);
            assert_eq!(u.closed, Some(false));
        }
        other => panic!("{other:?}"),
    }
    run.on_pushed();
    assert_eq!(run.step, ApplyStep::Confirm);
    run.on_finished();
    assert_eq!(run.step, ApplyStep::Done);
}

#[test]
fn empty_patch_confirms_without_pushing() {
    let mut run = ApplyRun::start(update_remote());
    run.on_task(&Task {
        sync: SyncState::Staged,
        ..synced(1)
    });
    run.on_diff(&no_patch());
    assert_eq!(run.step, ApplyStep::Confirm);
    let mut settled = ApplyRun::start(update_remote());
    settled.on_task(&synced(1));
    assert_eq!(settled.step, ApplyStep::Done);
}

#[test]
fn attached_item_is_recorded_and_moved() {
    let mut run = ApplyRun::start(OutboxMutation::AddItem {
        project_node_id: "P".into(),
        issue_node_id: "N".into(),
    });
    assert_eq!(run.step, ApplyStep::Send);
    run.on_item("I".into());
    run.on_board(Some(&"P".to_string()));
    assert_eq!(
        run.step,
        ApplyStep::WriteBackItem {
            item_id: "I".into()
        }
    );
    run.on_item_recorded();
    run.on_follow_up(Some(&board()), true);
    match &run.step {
        ApplyStep::Enqueue(OutboxMutation::SetProjectStatus {
            item_node_id,
            option_id,
            ..
        }) => {
            assert_eq!(item_node_id, "I");
            assert_eq!(option_id, "o1");
        }
        other => panic!("{other:?}"),
    }
    run.on_finished();
    assert_eq!(run.step, ApplyStep::Done);
}

#[test]
fn item_of_a_board_that_was_left_is_not_recorded() {
    let mut run = ApplyRun::start(OutboxMutation::AddItem {
        project_node_id: "P".into(),
        issue_node_id: "N".into(),
    });
    run.on_item("I".into());
    run.on_board(None);
    assert_eq!(run.step, ApplyStep::Done);
}

#[test]
fn replayed_draft_is_not_minted_again() {
    let draft = OutboxMutation::CreateDraftIssue {
        project_node_id: "P".into(),
        title: "t".into(),
        body: "b".into(),
    };
    let mut run = ApplyRun::start(draft);
    run.on_task(&Task {
        project_item_id: Some("I".into()),
        ..synced(1)
    });
    assert_eq!(
        run.step,
        ApplyStep::FollowUp {
            item_id: "I".into()
        }
    );
}

#[test]
fn replayed_conversion_is_not_repeated() {
    let convert = || OutboxMutation::ConvertDraftToIssue {
        item_node_id: "I".into(),
        repo_node_id: "github.com/f/r".into(),
    };
    let mut replay = ApplyRun::start(convert());
    let mut t = synced(1);
    if let Some(r) = &mut t.remote {
        r.node_id = Some("N".into());
    }
    replay.on_task(&t);
    assert_eq!(replay.step, ApplyStep::Done);

    let mut first = ApplyRun::start(convert());
    first.on_task(&task(1));
    assert_eq!(first.step, ApplyStep::Send);
    first.on_converted("N2".into(), 17, &None);
    match &first.step {
        ApplyStep::WriteBackRemote(r) => {
            assert_eq!(r.provider, "github");
            assert_eq!(r.remote_id, "17");
            assert_eq!(r.node_id.as_deref(), Some("N2"));
        }
        other => panic!("{other:?}"),
    }
    first.on_remote_recorded();
    assert_eq!(first.step, ApplyStep::Done);
}

#[test]
fn draft_content_is_the_live_one() {
    let mut run = ApplyRun::start(OutboxMutation::UpdateDraftIssue {
        item_node_id: "I".into(),
        title: Some("stale".into()),
        body: None,
    });
    run.on_task(&Task {
        title: "live".into(),
        ..task(1)
    });
    assert_eq!(
        run.step,
        ApplyStep::SendDraft {
            item_node_id: "I".into(),
            title: "live".into(),
            body: "b".into(),
        }
    );
}

#[test]
fn relation_mutations_are_sent_as_queued() {
    let c = |n: &str| IssueCoords {
        canonical: "c".into(),
        remote_id: n.into(),
    };
    let mut run = ApplyRun::start(OutboxMutation::AddSubIssue {
        parent: c("1"),
        child: c("2"),
    });
    assert_eq!(run.step, ApplyStep::Send);
    run.on_sent();
    assert_eq!(run.step, ApplyStep::Done);
}

#[test]
fn recording_the_same_item_changes_nothing() {
    let mut t = task(1);
    assert!(record_item(&mut t, &"I".to_string()));
    assert!(!record_item(&mut t, &"I".to_string()));
    assert_eq!(t.project_item_id.as_deref(), Some("I"));
}

// ---------- poller ----------

fn item(id: &str, at: i128) -> RemoteProjectItem {
    RemoteProjectItem {
        item_node_id: id.into(),
        updated_at: Timestamp(at),
    }
}

const SECOND: i128 = 1_000_000_000;

#[test]
fn page_is_counted_and_the_watermark_keeps_a_second() {
    let tasks = vec![Task {
        project_item_id: Some("I".into()),
        ..task(1)
    }];
    let index = index_tasks_by_item_id(&tasks);
    let mut report = PollReport::default();
    let page = PollPage {
        items: vec![item("I", 50 * SECOND), item("J", 60 * SECOND)],
        truncated: false,
    };
    let mark = on_page(&mut report, &page, &index, Timestamp(10 * SECOND));
    assert_eq!(mark, Timestamp(59 * SECOND));
    assert_eq!(report.projects_polled, 1);
    assert_eq!(report.items_seen, 2);
    assert_eq!(report.items_matched, 1);
    assert_eq!(report.items_unmatched, 1);
    assert_eq!(report.partial_projects, 0);
}

#[test]
fn truncated_and_empty_pages_leave_the_watermark() {
    let since = Timestamp(10 * SECOND);
    let mut report = PollReport::default();
    let cut = PollPage {
        items: vec![item("I", 90 * SECOND)],
        truncated: true,
    };
    assert_eq!(on_page(&mut report, &cut, &Vec::new(), since), since);
    assert_eq!(report.partial_projects, 1);
    let empty = PollPage {
        items: Vec::new(),
        truncated: false,
    };
    assert_eq!(on_page(&mut report, &empty, &Vec::new(), since), since);
    let close = PollPage {
        items: vec![item("I", 10 * SECOND + 5)],
        truncated: false,
    };
    assert_eq!(on_page(&mut report, &close, &Vec::new(), since), since);
    on_poll_failed(&mut report);
    assert_eq!(report.projects_polled, 4);
}

// ---------- promote ----------

#[test]
fn promotion_settles_filing_before_it_creates() {
    let mut t = task(1);
    t.repo_id = Some(RepoId(5));
    t.assignees = vec!["alice".into()];
    t.relations = vec![TaskRelation {
        kind: RelationKind::ChildOf,
        other: TaskId(2),
    }];
    let mut p = ok(Promotion::start(t));
    assert_eq!(p.step, PromoteStep::Stage);
    let staged = Task {
        sync: SyncState::Staged,
        relations: p.task.relations.clone(),
        assignees: p.task.assignees.clone(),
        repo_id: Some(RepoId(5)),
        ..task(1)
    };
    ok(p.on_staged(staged));
    p.on_filing(Some(RepoId(9)), Some(RepoId(5)));
    assert_eq!(p.step, PromoteStep::RecordFiling(Some(RepoId(9))));
    let recorded = Task {
        sync: SyncState::Staged,
        filing_repo_id: Some(RepoId(9)),
        relations: p.task.relations.clone(),
        assignees: p.task.assignees.clone(),
        ..task(1)
    };
    p.on_filing_recorded(recorded);
    ok(p.on_address(None, None));
    assert_eq!(p.step, PromoteStep::ReadOrigin(RepoId(9)));
    p.on_origin("github.com/d/r".into());
    match &p.step {
        PromoteStep::Create(c) => {
            assert_eq!(c.canonical_repo, "github.com/d/r");
            assert_eq!(c.title, "t");
            assert_eq!(c.assignees, vec!["alice".to_string()]);
        }
        other => panic!("{other:?}"),
    }
    p.on_created("100".into(), Some("N".into()));
    match &p.step {
        PromoteStep::Adopt { remote, .. } => assert_eq!(remote.provider, "github"),
        other => panic!("{other:?}"),
    }
    let adopted = Task {
        relations: p.task.relations.clone(),
        ..synced(1)
    };
    p.on_adopted(adopted);
    p.on_neighbors(&vec![Some(IssueCoords {
        canonical: "github.com/d/r".into(),
        remote_id: "7".into(),
    })]);
    match &p.step {
        PromoteStep::Save(entries) => {
            assert_eq!(entries.len(), 1);
            assert_eq!(entries[0].mutation.kind(), "add_sub_issue");
        }
        other => panic!("{other:?}"),
    }
    let s = p.on_saved();
    assert_eq!(s.previous_state, "local_only");
    assert_eq!(s.decision, "push_local");
}

#[test]
fn promotion_is_refused_where_it_cannot_go_on() {
    assert_eq!(
        err(Promotion::start(synced(1))),
        SyncError::Domain(DomainError::Transition(
            "cannot promote from sync=Synced".into()
        ))
    );
    let archived = Task {
        lifecycle: Lifecycle::NotPlanned,
        ..task(1)
    };
    assert_eq!(err(Promotion::start(archived)), SyncError::Archived);
    let staged = Task {
        sync: SyncState::Staged,
        ..task(1)
    };
    let mut p = ok(Promotion::start(staged));
    p.on_filing(None, None);
    assert_eq!(p.step, PromoteStep::RecordFiling(None));
    p.on_filing_recorded(task(1));
    assert_eq!(err(p.on_address(None, None)), SyncError::NoRepo);
}

// ---------- push ----------

fn pending(id: &str) -> TaskComment {
    TaskComment {
        local_id: Some(id.into()),
        remote_id: None,
        author: "me".into(),
        body: format!("comment {id}"),
        created_at: Timestamp(3),
    }
}

#[test]
fn push_sends_changes_then_comments() {
    let t = Task {
        sync: SyncState::DirtyLocal,
        comments: vec![pending("c1")],
        ..synced(1)
    };
    let mut p = ok(Push::start(t, "github.com/o/r".into()));
    p.on_diff(&MirrorPatch {
        title: Some("new".into()),
        ..no_patch()
    });
    match &p.step {
        PushStep::Update(u) => {
            assert_eq!(u.title.as_deref(), Some("new"));
            assert_eq!(u.body, None);
            assert_eq!(u.remote_id, "100");
        }
        other => panic!("{other:?}"),
    }
    p.on_updated();
    let confirmed = Task {
        comments: vec![pending("c1")],
        ..synced(1)
    };
    p.on_confirmed(confirmed);
    match &p.step {
        PushStep::Comments(list) => assert_eq!(list[0].body, "comment c1"),
        other => panic!("{other:?}"),
    }
    p.on_comments();
    let s = p.finish();
    assert_eq!(s.decision, "push_local");
    assert_eq!(s.previous_state, "dirty_local");
}

#[test]
fn comments_alone_are_pushed_from_a_clean_task() {
    let t = Task {
        comments: vec![pending("c1")],
        ..synced(1)
    };
    let mut p = ok(Push::start(t, "github.com/o/r".into()));
    assert!(matches!(p.step, PushStep::Comments(_)));
    p.on_comments();
    assert_eq!(p.finish().decision, "noop");
}

#[test]
fn push_with_nothing_to_push_is_refused() {
    assert_eq!(
        err(Push::start(synced(1), "c".into())),
        SyncError::Domain(DomainError::Transition(
            "cannot push from sync=Synced with no pending comments".into()
        ))
    );
    assert_eq!(err(Push::start(task(1), "c".into())), SyncError::NoRemote);
}

#[test]
fn unchanged_fields_are_not_sent() {
    let t = Task {
        sync: SyncState::DirtyLocal,
        ..synced(1)
    };
    let mut p = ok(Push::start(t, "c".into()));
    p.on_diff(&no_patch());
    assert_eq!(p.step, PushStep::Confirm);
    p.on_confirmed(synced(1));
    assert_eq!(p.step, PushStep::Done);
}

// ---------- pull ----------

#[test]
fn pull_keeps_the_local_state_before_it_overwrites() {
    let mut p = ok(Pull::start(synced(1)));
    ok(p.on_address("github.com/o/r".into()));
    assert_eq!(
        p.step,
        PullStep::Fetch {
            canonical: "github.com/o/r".into(),
            remote_id: "100".into()
        }
    );
    p.on_fetched(snap("remote title", true));
    assert_eq!(
        p.step,
        PullStep::Decide {
            remote_changed: true
        }
    );
    p.on_decided(SyncDecision::PullRemote);
    assert_eq!(p.step, PullStep::SaveBefore);
    p.on_saved_before();
    assert_eq!(p.step, PullStep::MarkDirtyRemote);
    p.on_marked(Task {
        sync: SyncState::DirtyRemote,
        ..synced(1)
    });
    assert_eq!(p.task.title, "remote title");
    assert_eq!(p.task.lifecycle, Lifecycle::Completed);
    let confirmed = Task {
        title: "remote title".into(),
        lifecycle: Lifecycle::Completed,
        ..synced(1)
    };
    p.on_confirmed(confirmed);
    assert_eq!(p.task.sync, SyncState::Synced);
    p.on_saved();
    p.on_comments();
    p.on_relations(Vec::new());
    assert_eq!(p.step, PullStep::CacheNodeId("I_1".into()));
    p.on_node_id_cached();
    assert_eq!(ok(p.finish("ref".into())).decision, "pull_remote");
}

#[test]
fn pulling_the_same_issue_again_is_no_drift() {
    let mut p = ok(Pull::start(synced(1)));
    ok(p.on_address("c".into()));
    p.on_fetched(snap("remote title", true));
    p.on_decided(SyncDecision::PullRemote);
    p.on_saved_before();
    p.on_marked(Task {
        sync: SyncState::DirtyRemote,
        ..synced(1)
    });
    // What confirming returns decides neither the fields nor the baseline.
    p.on_confirmed(Task {
        sync: SyncState::DirtyRemote,
        updated_at: Timestamp(9),
        ..synced(1)
    });
    p.on_saved();
    p.on_comments();
    p.on_relations(Vec::new());
    p.on_node_id_cached();
    let pulled = p.task.clone();
    assert_eq!(ok(p.finish("ref".into())).new_state, "synced");
    assert_eq!(pulled.title, "remote title");
    assert_eq!(pulled.lifecycle, Lifecycle::Completed);
    assert_eq!(pulled.updated_at, Timestamp(9));
    assert_eq!(pulled.baseline.as_ref().unwrap().title, "remote title");
    let mut again = ok(Pull::start(pulled));
    ok(again.on_address("c".into()));
    again.on_fetched(snap("remote title", true));
    assert_eq!(
        again.step,
        PullStep::Decide {
            remote_changed: false
        }
    );
}

#[test]
fn unrelated_activity_is_no_drift_but_comments_follow() {
    let mut p = ok(Pull::start(synced(1)));
    ok(p.on_address("c".into()));
    p.on_fetched(snap("t", false));
    assert_eq!(
        p.step,
        PullStep::Decide {
            remote_changed: false
        }
    );
    p.on_decided(SyncDecision::Noop);
    assert_eq!(p.step, PullStep::Comments);
    p.on_comments();
    assert_eq!(p.step, PullStep::Relations);
}

#[test]
fn conflict_is_reported_after_everything_was_mirrored() {
    let mut p = ok(Pull::start(synced(1)));
    ok(p.on_address("c".into()));
    p.on_fetched(snap("other", false));
    p.on_decided(SyncDecision::RequireManualMerge);
    assert_eq!(p.step, PullStep::MarkConflicted);
    p.on_conflicted(Task {
        sync: SyncState::Conflict,
        ..synced(1)
    });
    p.on_saved();
    assert_eq!(p.step, PullStep::Comments);
    p.on_comments();
    p.on_relations(Vec::new());
    p.on_node_id_cached();
    assert_eq!(
        err(p.finish("rpl-abc".into())),
        SyncError::ManualMerge("rpl-abc".into())
    );
}

#[test]
fn pull_refuses_archived_and_unfiled_tasks() {
    let archived = Task {
        lifecycle: Lifecycle::NotPlanned,
        ..synced(1)
    };
    assert_eq!(err(Pull::start(archived)), SyncError::Archived);
    let mut p = ok(Pull::start(task(1)));
    assert_eq!(err(p.on_address("c".into())), SyncError::NoRemote);
}

#[test]
fn refresh_observes_issues_only() {
    assert_eq!(refresh_target(&synced(1)), Ok("100".to_string()));
    assert_eq!(
        refresh_target(&task(1)),
        Err(RefreshOutcome::NotIssueBacked)
    );
}

// ---------- relations ----------

fn neighbor(id: u128, backed: bool, relations: Vec<TaskRelation>) -> Neighbor {
    Neighbor {
        id: TaskId(id),
        issue_backed: backed,
        relations,
    }
}

fn edge(kind: RelationKind, other: u128) -> TaskRelation {
    TaskRelation {
        kind,
        other: TaskId(other),
    }
}

#[test]
fn inbound_edges_follow_the_remote() {
    let me = TaskId(1);
    let mut mine = vec![
        edge(RelationKind::BlockedBy, 2),
        edge(RelationKind::BlockedBy, 4),
    ];
    let mut neighbors = vec![
        neighbor(2, true, vec![edge(RelationKind::Blocks, 1)]),
        neighbor(3, true, Vec::new()),
        neighbor(4, false, vec![edge(RelationKind::Blocks, 1)]),
    ];
    let changed = reconcile_family(
        me,
        &mut mine,
        RelationKind::BlockedBy,
        RelationKind::Blocks,
        &vec![TaskId(3)],
        &mut neighbors,
    );
    assert!(changed);
    // 2 is gone from the remote, 3 is new, 4 has no issue and stays.
    assert!(!mine.contains(&edge(RelationKind::BlockedBy, 2)));
    assert!(mine.contains(&edge(RelationKind::BlockedBy, 3)));
    assert!(mine.contains(&edge(RelationKind::BlockedBy, 4)));
    assert!(neighbors[0].relations.is_empty());
    assert_eq!(neighbors[1].relations, vec![edge(RelationKind::Blocks, 1)]);
    let again = reconcile_family(
        me,
        &mut mine,
        RelationKind::BlockedBy,
        RelationKind::Blocks,
        &vec![TaskId(3)],
        &mut neighbors,
    );
    assert!(!again);
}

#[test]
fn pull_aligns_children_and_blockers() {
    let me = TaskId(1);
    let mut mine = vec![
        edge(RelationKind::ParentOf, 2),
        edge(RelationKind::RelatedTo, 9),
    ];
    let (children, blockers) = (vec![TaskId(3)], vec![TaskId(2)]);
    assert_eq!(
        touched_tasks(me, &mine, &children, &blockers),
        vec![TaskId(3), TaskId(2), TaskId(2)]
    );
    let mut neighbors = vec![
        neighbor(3, true, Vec::new()),
        neighbor(2, true, vec![edge(RelationKind::ChildOf, 1)]),
    ];
    assert!(reconcile_relations_inbound(
        me,
        &mut mine,
        &children,
        &blockers,
        &mut neighbors
    ));
    assert_eq!(
        mine,
        vec![
            edge(RelationKind::RelatedTo, 9),
            edge(RelationKind::ParentOf, 3),
            edge(RelationKind::BlockedBy, 2),
        ]
    );
    assert_eq!(neighbors[0].relations, vec![edge(RelationKind::ChildOf, 1)]);
    assert_eq!(neighbors[1].relations, vec![edge(RelationKind::Blocks, 1)]);
}

#[test]
fn unknown_issues_are_left_out() {
    assert_eq!(
        known_tasks(&vec![Some(TaskId(1)), None, Some(TaskId(3))]),
        vec![TaskId(1), TaskId(3)]
    );
}

// ---------- link ----------

#[test]
fn link_to_the_same_issue_changes_nothing() {
    let mut l = Link::start(synced(1), "github.com/o/r".into(), "100".into(), false);
    assert_eq!(l.step, LinkStep::ReadCanonical);
    l.on_canonical(Some("github.com/o/r".into()));
    assert_eq!(l.step, LinkStep::Done);
    assert_eq!(l.finish().new_state, "synced");
}

#[test]
fn bare_link_becomes_a_conflict_and_drops_comments() {
    let mut l = Link::start(synced(1), "github.com/o2/r2".into(), "7".into(), false);
    assert_eq!(l.step, LinkStep::FindBinding);
    ok(l.on_binding(Some(RepoId(3))));
    assert_eq!(l.step, LinkStep::ProbeTarget);
    ok(l.on_probed(Ok(())));
    match &l.step {
        LinkStep::LinkTask {
            instance,
            remote,
            conflict,
        } => {
            assert_eq!(*instance, RepoId(3));
            assert_eq!(remote.remote_id, "7");
            assert!(*conflict);
        }
        other => panic!("{other:?}"),
    }
    l.on_linked(Task {
        sync: SyncState::Conflict,
        ..synced(1)
    });
    assert_eq!(l.step, LinkStep::Save);
    l.on_saved();
    assert_eq!(l.step, LinkStep::ClearComments);
    l.on_comments();
    assert_eq!(l.finish().new_state, "conflict");
}

#[test]
fn bare_link_to_a_moved_issue_is_noted() {
    let mut l = Link::start(synced(1), "github.com/o2/r2".into(), "7".into(), false);
    ok(l.on_binding(Some(RepoId(3))));
    ok(l.on_probed(Err(PortError::IssueMoved {
        to_canonical: "github.com/o3/r3".into(),
        to_remote_id: "8".into(),
    })));
    assert_eq!(
        l.note.as_deref(),
        Some(
            "github.com/o2/r2#7 301-redirects to github.com/o3/r3#8; linked source URL as requested"
        )
    );
    let mut gone = Link::start(synced(1), "github.com/o2/r2".into(), "7".into(), false);
    ok(gone.on_binding(Some(RepoId(3))));
    assert_eq!(
        err(gone.on_probed(Err(PortError::NotFound("x".into())))),
        SyncError::Port(PortError::NotFound("x".into()))
    );
}

#[test]
fn relink_follows_the_redirect_only() {
    let mut l = Link::start(synced(1), "github.com/o2/r2".into(), "7".into(), true);
    ok(l.on_binding(Some(RepoId(3))));
    assert_eq!(l.step, LinkStep::ReadCurrent);
    l.on_current("github.com/o/r".into());
    ok(l.on_target(Some(("github.com/o2/r2".into(), "7".into()))));
    assert_eq!(l.step, LinkStep::FetchTarget);
    l.on_fetched(snap("moved title", false));
    assert_eq!(l.task.title, "moved title");
    l.on_linked(synced(1));
    assert_eq!(l.step, LinkStep::FetchComments);
    assert_eq!(l.task.title, "moved title");
    assert_eq!(l.task.repo_id, Some(RepoId(3)));
    assert_eq!(l.task.remote.as_ref().unwrap().remote_id, "7");
    assert_eq!(l.task.sync, SyncState::Synced);
    assert_eq!(l.task.baseline.as_ref().unwrap().title, "moved title");
    l.on_comments_fetched();
    l.on_saved();
    assert_eq!(l.step, LinkStep::ReplaceComments);

    let mut other = Link::start(synced(1), "github.com/o2/r2".into(), "7".into(), true);
    ok(other.on_binding(Some(RepoId(3))));
    other.on_current("github.com/o/r".into());
    match err(other.on_target(Some(("github.com/x/y".into(), "9".into())))) {
        SyncError::Domain(DomainError::Validation(m)) => assert_eq!(
            m,
            "--relink target github.com/o2/r2#7 does not match GitHub's redirect target github.com/x/y#9"
        ),
        e => panic!("{e:?}"),
    }
    match err(other.on_target(None)) {
        SyncError::Domain(DomainError::Validation(m)) => assert_eq!(
            m,
            "--relink requires the current remote github.com/o/r#100 to redirect; it does not"
        ),
        e => panic!("{e:?}"),
    }
}

#[test]
fn relink_refuses_dirty_tasks_and_unattached_repos() {
    let dirty = Task {
        sync: SyncState::DirtyLocal,
        ..synced(1)
    };
    let mut l = Link::start(dirty, "github.com/o2/r2".into(), "7".into(), true);
    assert!(matches!(
        err(l.on_binding(Some(RepoId(3)))),
        SyncError::Domain(DomainError::Validation(_))
    ));
    let mut l = Link::start(synced(1), "github.com/o2/r2".into(), "7".into(), false);
    match err(l.on_binding(None)) {
        SyncError::Domain(DomainError::Validation(m)) => {
            assert!(m.starts_with("repo github.com/o2/r2 is not attached"))
        }
        e => panic!("{e:?}"),
    }
}
