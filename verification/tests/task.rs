use repo_link::model::error::{DomainError, PortError};
use repo_link::model::ids::{RepoId, TaskId, Timestamp, WorkspaceId};
use repo_link::model::outbox::{IssueCoords, OutboxMutation};
use repo_link::model::project::{Project, StatusMapping, StatusOption, Workspace};
use repo_link::model::task::{
    add_edge, edge_stands, remove_edge, Lifecycle, RelationKind, RemoteRef, SyncState, Task,
    TaskComment, TaskRelation,
};
use repo_link::task::clear::{ClearRelations, ClearStep};
use repo_link::task::cycle::{cycle_axis, would_create_cycle, RelationRow};
use repo_link::task::dto::{
    assemble_task_display_id, blocked_by, cached_project_status, overlay, task_to_dto,
};
use repo_link::task::error::ServiceError;
use repo_link::task::mint::{Mint, MAX_HASH_LEN, MIN_HASH_LEN};
use repo_link::task::relate::{
    parse_kind, AddRelation, AddStep, RelationCmd, RemoveRelation, RemoveStep,
};
use repo_link::task::request::{check_comment, list_filter};
use repo_link::task::resolve::{split_query, Resolve, ResolveStep};
use repo_link::task::rollback::{rollback, TaskSnapshot};
use repo_link::task::transition::{after_transition, MirrorPlan, MirrorStep};
use repo_link::task::update::{Update, UpdateStep};

fn task(id: u128) -> Task {
    Task {
        id: TaskId(id),
        workspace_id: WorkspaceId(77),
        repo_id: None,
        filing_repo_id: None,
        hash: String::new(),
        title: "t".into(),
        body: "b".into(),
        priority: "medium".into(),
        assignees: Vec::new(),
        lifecycle: Lifecycle::Open,
        sync: SyncState::LocalOnly,
        remote: None,
        project_item_id: None,
        project_status_option_id: None,
        relations: Vec::new(),
        comments: Vec::new(),
        baseline: None,
        created_at: Timestamp(1),
        updated_at: Timestamp(2),
    }
}

fn ok<T, E: std::fmt::Debug>(r: Result<T, E>) -> T {
    match r {
        Ok(v) => v,
        Err(e) => panic!("{e:?}"),
    }
}

fn err<T, E>(r: Result<T, E>) -> E {
    match r {
        Ok(_) => panic!("refusal expected"),
        Err(e) => e,
    }
}

fn edge(kind: RelationKind, other: u128) -> TaskRelation {
    TaskRelation {
        kind,
        other: TaskId(other),
    }
}

fn row(id: u128, relations: Vec<TaskRelation>) -> RelationRow {
    RelationRow {
        id: TaskId(id),
        relations,
    }
}

fn cmd() -> RelationCmd {
    RelationCmd {
        task_id: "aaa".into(),
        kind: "blocked_by".into(),
        other: "bbb".into(),
    }
}

fn at(n: &str) -> Option<IssueCoords> {
    Some(IssueCoords {
        canonical: "github.com/o/r".into(),
        remote_id: n.into(),
    })
}

fn mirror(id: u128) -> Task {
    Task {
        sync: SyncState::Synced,
        remote: Some(RemoteRef {
            provider: "github".into(),
            remote_id: "42".into(),
            node_id: Some("N".into()),
        }),
        ..task(id)
    }
}

fn board() -> Project {
    Project {
        id: "P".into(),
        status_field_id: "F".into(),
        status_options: vec![StatusOption {
            option_id: "o1".into(),
            name: "Todo".into(),
            ordinal: 0,
        }],
        status_mappings: vec![
            StatusMapping {
                is_open: true,
                option_id: "o1".into(),
            },
            StatusMapping {
                is_open: false,
                option_id: "o2".into(),
            },
        ],
    }
}

fn workspace(project: Option<&str>, filing: Option<u128>) -> Workspace {
    Workspace {
        id: WorkspaceId(77),
        project_id: project.map(str::to_string),
        filing_repo_id: filing.map(RepoId),
    }
}

// ---------- cycles ----------

fn closes(rows: &Vec<RelationRow>, kind: RelationKind, a: u128, b: u128) -> bool {
    match cycle_axis(kind, TaskId(a), TaskId(b)) {
        Some(axis) => would_create_cycle(rows, axis),
        None => false,
    }
}

#[test]
fn direct_cycle_is_seen_from_both_ends() {
    let rows = vec![
        row(1, vec![edge(RelationKind::BlockedBy, 2)]),
        row(2, vec![edge(RelationKind::Blocks, 1)]),
    ];
    assert!(closes(&rows, RelationKind::BlockedBy, 2, 1));
    assert!(closes(&rows, RelationKind::Blocks, 1, 2));
    assert!(!closes(&rows, RelationKind::BlockedBy, 1, 2));
    assert!(!closes(&rows, RelationKind::ChildOf, 2, 1));
}

#[test]
fn longer_cycle_is_seen_on_the_hierarchy() {
    let rows = vec![
        row(1, vec![edge(RelationKind::ParentOf, 2)]),
        row(2, vec![edge(RelationKind::ChildOf, 1), edge(RelationKind::ParentOf, 3)]),
        row(3, vec![edge(RelationKind::ChildOf, 2)]),
    ];
    assert!(closes(&rows, RelationKind::ParentOf, 3, 1));
    assert!(closes(&rows, RelationKind::ChildOf, 1, 3));
    assert!(!closes(&rows, RelationKind::BlockedBy, 1, 3));
}

#[test]
fn one_sided_edges_are_walked() {
    let forward_only = vec![row(1, vec![edge(RelationKind::BlockedBy, 2)]), row(2, vec![])];
    assert!(closes(&forward_only, RelationKind::BlockedBy, 2, 1));
    let inverse_only = vec![row(1, vec![]), row(2, vec![edge(RelationKind::Blocks, 1)])];
    assert!(closes(&inverse_only, RelationKind::BlockedBy, 2, 1));
}

#[test]
fn symmetric_kinds_have_no_axis() {
    assert_eq!(cycle_axis(RelationKind::RelatedTo, TaskId(1), TaskId(2)), None);
    assert_eq!(cycle_axis(RelationKind::Duplicates, TaskId(1), TaskId(2)), None);
}

#[test]
fn existing_cycle_ends_the_walk() {
    let rows = vec![
        row(1, vec![edge(RelationKind::BlockedBy, 2)]),
        row(2, vec![edge(RelationKind::BlockedBy, 1)]),
        row(3, vec![]),
    ];
    assert!(!closes(&rows, RelationKind::BlockedBy, 3, 1));
}

// ---------- relations ----------

#[test]
fn self_relations_are_refused() {
    assert_eq!(
        err(AddRelation::start(cmd(), RelationKind::RelatedTo, task(1), task(1))),
        ServiceError::SelfRelation
    );
    assert_eq!(
        err(RemoveRelation::start(RelationKind::Blocks, task(1), task(1))),
        ServiceError::SelfRelation
    );
}

#[test]
fn symmetric_kind_is_mirrored_as_itself() {
    let a = ok(AddRelation::start(cmd(), RelationKind::RelatedTo, task(1), task(2)));
    assert_eq!(a.t.relations, vec![edge(RelationKind::RelatedTo, 2)]);
    assert_eq!(a.other.relations, vec![edge(RelationKind::RelatedTo, 1)]);
    assert_eq!(a.step, AddStep::ReadCoords);
}

#[test]
fn dependency_is_planned_from_the_blocked_end() {
    let a = ok(AddRelation::start(cmd(), RelationKind::BlockedBy, mirror(1), mirror(2)));
    assert!(matches!(a.step, AddStep::CheckCycle(_)));
    let mut a = ok(a.on_rows(&vec![row(1, vec![]), row(2, vec![])]));
    assert_eq!(a.t.relations, vec![edge(RelationKind::BlockedBy, 2)]);
    assert_eq!(a.other.relations, vec![edge(RelationKind::Blocks, 1)]);
    a.on_coords(&at("10"), &at("20"));
    match &a.step {
        AddStep::Save(entries) => {
            assert_eq!(entries.len(), 1);
            assert_eq!(entries[0].task_id, TaskId(1));
            assert_eq!(
                entries[0].mutation,
                OutboxMutation::AddBlockedBy {
                    blocked: at("10").unwrap(),
                    blocker: at("20").unwrap(),
                }
            );
        }
        other => panic!("{other:?}"),
    }
}

#[test]
fn refused_cycle_names_the_request() {
    let a = ok(AddRelation::start(cmd(), RelationKind::BlockedBy, task(1), task(2)));
    let rows = vec![row(2, vec![edge(RelationKind::BlockedBy, 1)])];
    assert_eq!(
        err(a.on_rows(&rows)),
        ServiceError::RelationCycle {
            kind: "blocked_by".into(),
            from: "aaa".into(),
            to: "bbb".into(),
        }
    );
}

#[test]
fn standing_edge_plans_nothing() {
    let t = Task {
        relations: vec![edge(RelationKind::RelatedTo, 2)],
        ..mirror(1)
    };
    let a = ok(AddRelation::start(cmd(), RelationKind::RelatedTo, t, mirror(2)));
    assert_eq!(a.t.relations.len(), 1);
    assert_eq!(a.step, AddStep::Save(Vec::new()));
}

#[test]
fn relation_is_planned_between_issues_only() {
    let started = || {
        let a = ok(AddRelation::start(cmd(), RelationKind::BlockedBy, mirror(1), task(2)));
        ok(a.on_rows(&vec![row(1, vec![]), row(2, vec![])]))
    };
    let mut none = started();
    none.on_coords(&at("10"), &None);
    assert_eq!(none.step, AddStep::Save(Vec::new()));
    let mut both = started();
    both.on_coords(&at("10"), &at("20"));
    match &both.step {
        AddStep::Save(entries) => assert_eq!(entries.len(), 1),
        other => panic!("{other:?}"),
    }
}

#[test]
fn removal_is_planned_by_what_stood() {
    let t = Task {
        relations: vec![edge(RelationKind::Blocks, 2), edge(RelationKind::Blocks, 3)],
        ..task(1)
    };
    let other = Task {
        relations: vec![edge(RelationKind::BlockedBy, 1)],
        ..task(2)
    };
    let mut r = ok(RemoveRelation::start(RelationKind::Blocks, t, other));
    assert_eq!(r.t.relations, vec![edge(RelationKind::Blocks, 3)]);
    assert!(r.other.relations.is_empty());
    assert!(r.t_changed && r.other_changed);
    r.on_coords(&at("10"), &at("20"));
    match &r.step {
        RemoveStep::Save(entries) => {
            assert_eq!(entries[0].mutation.kind(), "remove_blocked_by")
        }
        other => panic!("{other:?}"),
    }
    let absent = ok(RemoveRelation::start(RelationKind::Blocks, task(1), task(2)));
    assert_eq!(absent.step, RemoveStep::Unchanged);
    let half = Task {
        relations: vec![edge(RelationKind::BlockedBy, 1)],
        ..task(2)
    };
    let one_sided = ok(RemoveRelation::start(RelationKind::Blocks, task(1), half));
    assert_eq!(one_sided.step, RemoveStep::Save(Vec::new()));
    assert!(!one_sided.t_changed && one_sided.other_changed);
}

#[test]
fn clearing_reads_each_end_once() {
    let t = Task {
        relations: vec![
            edge(RelationKind::ParentOf, 2),
            edge(RelationKind::RelatedTo, 3),
            edge(RelationKind::Blocks, 2),
            edge(RelationKind::RelatedTo, 1),
        ],
        ..mirror(1)
    };
    let mut c = ClearRelations::start(t);
    assert!(c.t.relations.is_empty());
    assert_eq!(c.next(), ClearStep::Load(TaskId(2)));
    let two = Task {
        relations: vec![
            edge(RelationKind::ChildOf, 1),
            edge(RelationKind::BlockedBy, 1),
            edge(RelationKind::BlockedBy, 9),
        ],
        ..mirror(2)
    };
    c.on_far_end(two, at("20"));
    assert_eq!(c.next(), ClearStep::Load(TaskId(3)));
    c.on_far_end(task(3), None);
    assert_eq!(c.next(), ClearStep::ReadCoords);
    let done = c.finish(&at("10"));
    assert_eq!(done.others.len(), 1);
    assert_eq!(done.others[0].relations, vec![edge(RelationKind::BlockedBy, 9)]);
    // One removal for each edge with a remote form whose far end has an issue.
    let kinds: Vec<&str> = done.entries.iter().map(|e| e.mutation.kind()).collect();
    assert_eq!(kinds, vec!["remove_sub_issue", "remove_blocked_by"]);
    assert!(done.entries.iter().all(|e| e.task_id == TaskId(1)));
}

#[test]
fn clearing_a_task_without_relations_saves_nothing() {
    assert_eq!(ClearRelations::start(task(1)).next(), ClearStep::Unchanged);
}

#[test]
fn removing_a_new_edge_gives_the_relations_back() {
    let before = vec![edge(RelationKind::Blocks, 2), edge(RelationKind::Blocks, 2)];
    let mut relations = before.clone();
    add_edge(&mut relations, RelationKind::RelatedTo, TaskId(3));
    add_edge(&mut relations, RelationKind::RelatedTo, TaskId(3));
    assert_eq!(relations.len(), 3);
    assert!(edge_stands(&relations, RelationKind::RelatedTo, TaskId(3)));
    assert!(remove_edge(&mut relations, RelationKind::RelatedTo, TaskId(3)));
    assert_eq!(relations, before);
    assert!(!remove_edge(&mut relations, RelationKind::RelatedTo, TaskId(3)));
    assert!(remove_edge(&mut relations, RelationKind::Blocks, TaskId(2)));
    assert!(relations.is_empty());
}

#[test]
fn edge_is_on_one_axis_from_both_ends() {
    for k in [
        RelationKind::ParentOf,
        RelationKind::ChildOf,
        RelationKind::BlockedBy,
        RelationKind::Blocks,
    ] {
        assert_eq!(
            cycle_axis(k, TaskId(1), TaskId(2)),
            cycle_axis(k.inverse(), TaskId(2), TaskId(1))
        );
    }
}

#[test]
fn relation_kind_is_read_from_its_name() {
    assert_eq!(parse_kind(&"child_of".to_string()), Ok(RelationKind::ChildOf));
    assert_eq!(
        parse_kind(&"sibling".to_string()),
        Err(ServiceError::BadEnum {
            field: "kind",
            value: "sibling".into()
        })
    );
}

// ---------- transitions ----------

#[test]
fn local_transition_plans_nothing() {
    let p = after_transition(task(1), Timestamp(0)).unwrap();
    assert_eq!(p.step, MirrorStep::Save(Vec::new()));
    assert!(after_transition(task(1), Timestamp(2)).is_none());
}

fn entries_of(p: MirrorPlan) -> Vec<OutboxMutation> {
    match p.step {
        MirrorStep::Save(entries) => entries.into_iter().map(|e| e.mutation).collect(),
        other => panic!("{other:?}"),
    }
}

#[test]
fn lifecycle_project_mirror_moves_the_card_and_updates_the_issue() {
    let t = Task {
        project_item_id: Some("I".into()),
        filing_repo_id: Some(RepoId(4)),
        lifecycle: Lifecycle::Completed,
        ..mirror(1)
    };
    let mut p = after_transition(t, Timestamp(0)).unwrap();
    assert_eq!(p.step, MirrorStep::ReadWorkspace);
    p.on_workspace(workspace(Some("P"), Some(9)));
    assert_eq!(p.step, MirrorStep::ReadProject("P".into()));
    p.on_project(board());
    // Already on the board and recorded: never resolved again.
    assert_eq!(p.step, MirrorStep::ResolveAddress);
    p.on_address(Some(RepoId(9)), None);
    assert_eq!(p.step, MirrorStep::ReadOrigin(RepoId(4)));
    p.on_origin("github.com/f/r".into());
    let m = entries_of(p);
    assert_eq!(m[0].kind(), "update_remote");
    match &m[1] {
        OutboxMutation::SetProjectStatus { option_id, .. } => assert_eq!(option_id, "o2"),
        other => panic!("{other:?}"),
    }
}

#[test]
fn first_filing_takes_the_default() {
    let t = Task {
        sync: SyncState::Synced,
        ..task(1)
    };
    let mut p = MirrorPlan::start(t, false);
    p.on_workspace(workspace(Some("P"), Some(9)));
    p.on_project(board());
    assert_eq!(p.step, MirrorStep::RecordFiling(Some(RepoId(9))));
    p.on_filing_recorded(Task {
        sync: SyncState::Synced,
        filing_repo_id: Some(RepoId(9)),
        ..task(1)
    });
    p.on_address(Some(RepoId(9)), None);
    p.on_origin("github.com/d/r".into());
    assert_eq!(entries_of(p)[0].kind(), "create_draft_issue");
}

#[test]
fn first_filing_falls_back_to_the_logical_repo() {
    let t = Task {
        repo_id: Some(RepoId(5)),
        ..mirror(1)
    };
    let mut p = MirrorPlan::start(t, false);
    p.on_workspace(workspace(Some("P"), None));
    p.on_project(board());
    assert_eq!(p.step, MirrorStep::ReadLogical(RepoId(5)));
    p.on_logical(RepoId(50));
    assert_eq!(p.step, MirrorStep::RecordFiling(Some(RepoId(50))));
}

#[test]
fn first_filing_may_stay_open() {
    let t = Task {
        sync: SyncState::Synced,
        ..task(1)
    };
    let mut p = MirrorPlan::start(t, false);
    p.on_workspace(workspace(Some("P"), None));
    p.on_project(board());
    assert_eq!(p.step, MirrorStep::RecordFiling(None));
    p.on_filing_recorded(Task {
        sync: SyncState::Synced,
        ..task(1)
    });
    p.on_address(None, None);
    assert_eq!(entries_of(p)[0].kind(), "create_draft_issue");
}

// ---------- updates ----------

fn orphan_draft() -> Task {
    Task {
        sync: SyncState::Synced,
        project_item_id: Some("I".into()),
        ..task(1)
    }
}

#[test]
fn edit_is_planned_before_the_conversion() {
    let mut u = Update::start(orphan_draft());
    assert!(u.was_orphan_draft);
    u.on_edited(Task {
        repo_id: Some(RepoId(5)),
        title: "new".into(),
        sync: SyncState::DirtyLocal,
        ..orphan_draft()
    });
    assert_eq!(u.step, UpdateStep::ReadWorkspace);
    u.on_workspace(None);
    assert_eq!(
        u.step,
        UpdateStep::ReadLogical {
            workspace_default: None,
            repo: RepoId(5)
        }
    );
    u.on_logical(RepoId(50));
    assert_eq!(u.step, UpdateStep::RecordFiling(RepoId(50)));
    u.on_filing_recorded(Task {
        repo_id: Some(RepoId(5)),
        filing_repo_id: Some(RepoId(50)),
        title: "new".into(),
        sync: SyncState::DirtyLocal,
        ..orphan_draft()
    });
    assert_eq!(u.step, UpdateStep::ResolveAddress);
    u.on_address(None, Some(RepoId(50)));
    assert_eq!(u.step, UpdateStep::ReadOrigin(RepoId(50)));
    u.on_origin("github.com/o/r".into());
    match &u.step {
        UpdateStep::Save(entries) => {
            assert_eq!(entries.len(), 2);
            assert_eq!(
                entries[0].mutation,
                OutboxMutation::UpdateDraftIssue {
                    item_node_id: "I".into(),
                    title: Some("new".into()),
                    body: Some("b".into()),
                }
            );
            assert_eq!(
                entries[1].mutation,
                OutboxMutation::ConvertDraftToIssue {
                    item_node_id: "I".into(),
                    repo_node_id: "github.com/o/r".into(),
                }
            );
        }
        other => panic!("{other:?}"),
    }
}

#[test]
fn conversion_goes_into_the_default() {
    let mut u = Update::start(orphan_draft());
    u.on_edited(orphan_draft());
    u.on_workspace(Some(RepoId(9)));
    assert_eq!(u.step, UpdateStep::RecordFiling(RepoId(9)));
    u.on_filing_recorded(Task {
        filing_repo_id: Some(RepoId(9)),
        ..orphan_draft()
    });
    u.on_address(Some(RepoId(9)), None);
    u.on_origin("github.com/d/r".into());
    match &u.step {
        UpdateStep::Save(entries) => {
            assert_eq!(entries.len(), 1);
            assert_eq!(entries[0].mutation.kind(), "convert_draft_to_issue");
        }
        other => panic!("{other:?}"),
    }
}

#[test]
fn recorded_filing_is_not_looked_up() {
    let recorded = || Task {
        filing_repo_id: Some(RepoId(9)),
        ..orphan_draft()
    };
    let mut u = Update::start(recorded());
    u.on_edited(recorded());
    assert_eq!(u.step, UpdateStep::Save(Vec::new()));
}

#[test]
fn edit_that_leaves_the_sync_state_plans_nothing() {
    let mut u = Update::start(mirror(1));
    u.on_edited(Task {
        priority: "high".into(),
        ..mirror(1)
    });
    assert_eq!(u.step, UpdateStep::Save(Vec::new()));
}

#[test]
fn edited_mirror_is_planned_with_its_content() {
    let mut u = Update::start(mirror(1));
    u.on_edited(Task {
        title: "new".into(),
        sync: SyncState::DirtyLocal,
        ..mirror(1)
    });
    assert_eq!(u.step, UpdateStep::Mirror);
    let p = u.into_mirror();
    assert!(p.content_changed);
    assert_eq!(p.step, MirrorStep::ReadWorkspace);
}

#[test]
fn orphan_draft_without_any_filing_stays_a_draft() {
    let mut u = Update::start(orphan_draft());
    u.on_edited(orphan_draft());
    u.on_workspace(None);
    assert_eq!(u.step, UpdateStep::Save(Vec::new()));
}

// ---------- resolving ----------

#[test]
fn query_splits_at_its_last_hyphen() {
    assert_eq!(split_query("rpl-3jj"), (Some("rpl".into()), "3jj".into()));
    assert_eq!(split_query("ab--cde"), (Some("ab-".into()), "cde".into()));
    assert_eq!(split_query("3jj"), (None, "3jj".into()));
    assert_eq!(split_query("-x"), (Some(String::new()), "x".into()));
}

#[test]
fn malformed_parts_are_named() {
    let mut r = Resolve::start("A1-cde".into(), None);
    assert_eq!(
        err(r.on_shape(true, false)),
        ServiceError::BadId("\"A1-cde\" has a malformed repo prefix \"A1\"".into())
    );
    let mut r = Resolve::start("rpl-\"X".into(), None);
    assert_eq!(
        err(r.on_shape(false, true)),
        ServiceError::BadId(
            "\"rpl-\\\"X\" is not a task UUID, bare hash, or prefix-hash composite".into()
        )
    );
}

#[test]
fn bare_hash_is_found() {
    let by_id = Resolve::start("any".into(), Some(TaskId(4)));
    assert_eq!(by_id.step, ResolveStep::Get(TaskId(4)));
    let mut r = Resolve::start("cde".into(), None);
    ok(r.on_shape(true, true));
    assert_eq!(r.step, ResolveStep::Find);
    ok(r.on_found(Some(&task(1))));
    assert_eq!(r.step, ResolveStep::Found);
}

#[test]
fn shown_id_is_found_again() {
    let t = Task {
        repo_id: Some(RepoId(5)),
        hash: "cde".into(),
        ..task(1)
    };
    let shown = assemble_task_display_id(&t, Some("rpl"));
    let mut r = Resolve::start(shown, None);
    assert_eq!(r.hash, "cde");
    ok(r.on_shape(true, true));
    ok(r.on_found(Some(&t)));
    assert_eq!(r.step, ResolveStep::ReadPrefix(RepoId(5)));
    ok(r.on_prefix("rpl".into()));
    assert_eq!(r.step, ResolveStep::Found);
}

#[test]
fn mismatched_prefix_and_unknown_hash_are_refused() {
    let mut r = Resolve::start("abc-cde".into(), None);
    ok(r.on_shape(true, true));
    let t = Task {
        repo_id: Some(RepoId(5)),
        ..task(1)
    };
    ok(r.on_found(Some(&t)));
    let e = err(r.on_prefix("rpl".into()));
    assert_eq!(
        e,
        ServiceError::PrefixMismatch {
            input_prefix: "abc".into(),
            actual_prefix: "rpl".into(),
            hash: "cde".into(),
        }
    );
    assert_eq!(
        e.message().as_deref(),
        Some("prefix mismatch: input 'abc-cde' but task cde lives under prefix 'rpl'")
    );
    let mut unbound = Resolve::start("abc-cde".into(), None);
    ok(unbound.on_shape(true, true));
    assert!(matches!(
        err(unbound.on_found(Some(&task(1)))),
        ServiceError::PrefixMismatch { .. }
    ));
    let mut missing = Resolve::start("cde".into(), None);
    ok(missing.on_shape(true, true));
    assert_eq!(
        err(missing.on_found(None)),
        ServiceError::Port(PortError::NotFound("task hash \"cde\"".into()))
    );
}

// ---------- minting ----------

fn taken() -> PortError {
    PortError::Conflict {
        target: "tasks.hash".into(),
    }
}

#[test]
fn each_length_is_tried_eight_times() {
    let mut m = Mint::new();
    let mut lengths = vec![m.length];
    let last = loop {
        match m.on_save_failed(taken()) {
            Ok(()) => lengths.push(m.length),
            Err(e) => break e,
        }
    };
    for n in MIN_HASH_LEN..=MAX_HASH_LEN {
        assert_eq!(lengths.iter().filter(|l| **l == n).count(), 8);
    }
    assert_eq!(lengths.len(), 48);
    assert_eq!(
        last,
        ServiceError::Port(PortError::Backend(
            "could not mint unique task hash at any length up to 8".into()
        ))
    );
}

#[test]
fn other_failures_end_the_mint() {
    let mut m = Mint::new();
    assert_eq!(
        err(m.on_save_failed(PortError::Backend("disk".into()))),
        ServiceError::Port(PortError::Backend("disk".into()))
    );
    let other = PortError::Conflict {
        target: "tasks.id".into(),
    };
    assert!(m.on_save_failed(other).is_err());
}

// ---------- requests ----------

#[test]
fn status_names_are_read() {
    let f = |s: Option<&str>| {
        list_filter(None, None, &s.map(str::to_string), &None).map(|f| f.is_open)
    };
    assert_eq!(f(None), Ok(Some(true)));
    assert_eq!(f(Some("open")), Ok(Some(true)));
    assert_eq!(f(Some("closed")), Ok(Some(false)));
    assert_eq!(f(Some("all")), Ok(None));
    assert_eq!(
        f(Some("done")),
        Err(ServiceError::BadEnum {
            field: "status",
            value: "done".into()
        })
    );
}

#[test]
fn filters_are_read_apart() {
    let f = ok(list_filter(
        Some(WorkspaceId(1)),
        Some(RepoId(2)),
        &Some("closed".into()),
        &Some("dirty_local".into()),
    ));
    assert_eq!(f.workspace_id, Some(WorkspaceId(1)));
    assert_eq!(f.repo_id, Some(RepoId(2)));
    assert_eq!(f.is_open, Some(false));
    assert_eq!(f.sync_state, Some(SyncState::DirtyLocal));
    let e = err(list_filter(None, None, &None, &Some("clean".into())));
    assert_eq!(
        e.message().as_deref(),
        Some("invalid enum value for sync_state: clean")
    );
}

#[test]
fn blank_comments_are_refused() {
    assert_eq!(check_comment("hi"), Ok(()));
    assert_eq!(
        check_comment(" \u{3000}\n"),
        Err(ServiceError::Domain(DomainError::Validation(
            "comment body must not be empty".into()
        )))
    );
}

// ---------- rollback ----------

fn snapshot(recorded: bool) -> TaskSnapshot {
    TaskSnapshot {
        version: 1,
        title: "original".into(),
        body: "old".into(),
        lifecycle: Lifecycle::Completed,
        sync_state: SyncState::LocalOnly,
        priority: "low".into(),
        assignees: vec!["alice".into()],
        remote: None,
        repo_id: None,
        repo_id_recorded: recorded,
        filing_repo_id: Some(RepoId(1)),
    }
}

#[test]
fn rollback_takes_the_fields_of_the_snapshot() {
    let t = Task {
        repo_id: Some(RepoId(5)),
        title: "edited".into(),
        ..mirror(1)
    };
    let back = rollback(t, snapshot(false));
    assert_eq!(back.title, "original");
    assert_eq!(back.lifecycle, Lifecycle::Completed);
    assert_eq!(back.remote, None);
    assert_eq!(back.assignees, vec!["alice".to_string()]);
    // What the binding was is unknown, so the present one stays.
    assert_eq!(back.repo_id, Some(RepoId(5)));
}

#[test]
fn recorded_absence_is_restored() {
    let t = Task {
        repo_id: Some(RepoId(5)),
        ..mirror(1)
    };
    assert_eq!(rollback(t, snapshot(true)).repo_id, None);
}

#[test]
fn rollback_leaves_the_filing() {
    let t = Task {
        filing_repo_id: Some(RepoId(9)),
        ..mirror(1)
    };
    assert_eq!(rollback(t, snapshot(true)).filing_repo_id, Some(RepoId(9)));
}

// ---------- listing ----------

#[test]
fn task_dto_json_omits_filing_repo_id_and_keeps_repo_id() {
    let logical = RepoId(0xabc);
    let t = Task {
        repo_id: Some(logical),
        filing_repo_id: Some(RepoId(0xdef)),
        title: "guard the boundary".into(),
        ..task(1)
    };
    let dto = task_to_dto(&t, Some("rpl"));
    let shown = format!("{dto:?}");
    assert!(
        !shown.contains("filing_repo_id") && !shown.contains(&RepoId(0xdef).to_text()),
        "where the issue is filed must not be shown"
    );
    assert_eq!(
        dto.repo_id.as_deref(),
        Some(logical.to_text().as_str()),
        "the logical repo is still shown"
    );
}

#[test]
fn display_id_falls_back_to_hash_and_uuid() {
    let t = Task {
        hash: "3jj".into(),
        ..task(0x10)
    };
    assert_eq!(assemble_task_display_id(&t, Some("rpl")), "rpl-3jj");
    assert_eq!(assemble_task_display_id(&t, Some("")), "3jj");
    assert_eq!(assemble_task_display_id(&t, None), "3jj");
    assert_eq!(
        assemble_task_display_id(&task(0x10), Some("rpl")),
        "00000000-0000-0000-0000-000000000010"
    );
}

#[test]
fn dto_shows_the_task() {
    let t = Task {
        lifecycle: Lifecycle::Reopened,
        relations: vec![edge(RelationKind::BlockedBy, 2), edge(RelationKind::ParentOf, 3)],
        comments: vec![TaskComment {
            local_id: Some("l".into()),
            remote_id: None,
            author: "me".into(),
            body: "hello".into(),
            created_at: Timestamp(3),
        }],
        ..mirror(1)
    };
    let mut d = task_to_dto(&t, None);
    assert!(d.is_open);
    assert_eq!(d.state_reason.as_deref(), Some("reopened"));
    assert_eq!(d.sync_state, "synced");
    assert_eq!(d.priority, "medium");
    assert_eq!(d.relations[1].kind, "parent_of");
    assert_eq!(d.relations[1].other, TaskId(3).to_text());
    assert_eq!(d.blocked_by, vec![TaskId(2).to_text()]);
    assert_eq!(d.comments[0].body, "hello");
    assert_eq!(d.project_status, None);
    assert_eq!(blocked_by(&t), vec![TaskId(2)]);
    overlay(
        &mut d,
        vec!["rpl-two".into(), "rpl-three".into()],
        vec!["rpl-two".into()],
        Some("Todo".into()),
    );
    assert_eq!(d.relations[0].other, "rpl-two");
    assert_eq!(d.relations[0].kind, "blocked_by");
    assert_eq!(d.blocked_by, vec!["rpl-two".to_string()]);
    assert_eq!(d.project_status.as_deref(), Some("Todo"));
}

#[test]
fn cached_column_is_named() {
    let t = Task {
        project_status_option_id: Some("o1".into()),
        ..task(1)
    };
    assert_eq!(cached_project_status(&t, Some(&board())).as_deref(), Some("Todo"));
    assert_eq!(cached_project_status(&t, None), None);
    assert_eq!(cached_project_status(&task(1), Some(&board())), None);
    let stale = Task {
        project_status_option_id: Some("gone".into()),
        ..task(1)
    };
    assert_eq!(cached_project_status(&stale, Some(&board())), None);
}
