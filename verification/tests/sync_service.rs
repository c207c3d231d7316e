use repo_link::model::error::{DomainError, PortError};
use repo_link::model::ids::{RepoId, TaskId, Timestamp, WorkspaceId};
use repo_link::model::names::SyncDecision;
use repo_link::model::outbox::{IssueCoords, OutboxEntry, OutboxMutation};
use repo_link::model::project::Workspace;
use repo_link::model::task::{
    add_edge, Baseline, Lifecycle, RelationKind, RemoteRef, SyncState, Task, TaskComment,
    TaskRelation,
};
use repo_link::sync::error::SyncError;
use repo_link::sync::filing::{
    chain_step, end_address, filing_origin, relation_remote_coords,
};
use repo_link::sync::link::{Link, LinkStep};
use repo_link::sync::mirror::{
    assignees_equal, inbound_mirrors_baseline, MirrorPatch, RemoteStateReason, RemoteTaskSnapshot,
    RemoteTaskUpdate,
};
use repo_link::sync::promote::{PromoteStep, Promotion};
use repo_link::sync::pull::{refresh_target, Pull, PullStep, RefreshOutcome};
use repo_link::sync::push::{Push, PushStep};
use repo_link::sync::relations::{
    known_tasks, reconcile_relations_inbound, touched_tasks, Neighbor,
};
use repo_link::sync::summary::SyncSummaryDto;

const WS: WorkspaceId = WorkspaceId(77);

struct Snap {
    remote_id: String,
    node_id: Option<String>,
    title: String,
    body: String,
    closed: bool,
    assignees: Vec<String>,
}

/// Stores and remote host of the sync operations, held in memory.
struct World {
    tasks: Vec<Task>,
    /// The workspace row, while there is one.
    workspace: Option<Workspace>,
    /// Repository instances with their origins.
    instances: Vec<(RepoId, RepoId)>,
    /// Origins with their canonical URLs.
    origins: Vec<(RepoId, String)>,
    queued: Vec<OutboxEntry>,
    stamped: Vec<TaskId>,
    created: Option<(String, String)>,
    updated: Option<RemoteTaskUpdate>,
    fetched_at: Option<String>,
    fetch: Option<Snap>,
    fetch_moved: Option<(String, String)>,
    move_target: Option<(String, String)>,
    comments: Vec<TaskComment>,
    posted: Vec<String>,
    sub_issues: Vec<(String, String)>,
    blocked_by: Vec<(String, String)>,
}

fn draft(id: u128, repo: Option<RepoId>, title: &str) -> Task {
    Task {
        id: TaskId(id),
        workspace_id: WS,
        repo_id: repo,
        filing_repo_id: None,
        hash: String::new(),
        title: title.into(),
        body: String::new(),
        priority: "medium".into(),
        assignees: Vec::new(),
        lifecycle: Lifecycle::Open,
        sync: SyncState::LocalOnly,
        remote: None,
        project_item_id: None,
        project_status_option_id: None,
        relations: Vec::new(),
        comments: Vec::new(),
        baseline: None,
        created_at: Timestamp(1),
        updated_at: Timestamp(2),
    }
}

fn baseline_of(t: &Task) -> Option<Baseline> {
    Some(Baseline {
        title: t.title.clone(),
        body: t.body.clone(),
        assignees: t.assignees.clone(),
        lifecycle: t.lifecycle,
    })
}

fn issue(number: &str) -> RemoteRef {
    RemoteRef {
        provider: "github".into(),
        remote_id: number.into(),
        node_id: None,
    }
}

fn diff(t: &Task) -> MirrorPatch {
    let b = t.baseline.clone().unwrap();
    MirrorPatch {
        title: (t.title != b.title).then_some(t.title.clone()),
        body: (t.body != b.body).then_some(t.body.clone()),
        status: (t.lifecycle != b.lifecycle).then_some(t.lifecycle),
        assignees: (!assignees_equal(&t.assignees, &b.assignees)).then_some(t.assignees.clone()),
    }
}

fn confirm_fields(t: &mut Task, p: &MirrorPatch) {
    let mut b = t.baseline.clone().unwrap();
    if let Some(x) = &p.title {
        b.title = x.clone();
    }
    if let Some(x) = &p.body {
        b.body = x.clone();
    }
    if let Some(x) = p.status {
        b.lifecycle = x;
    }
    if let Some(x) = &p.assignees {
        b.assignees = x.clone();
    }
    t.baseline = Some(b);
    t.sync = SyncState::Synced;
}

/// The decision under which conflicts are merged by hand.
fn decide(sync: SyncState, remote_changed: bool) -> SyncDecision {
    match (sync, remote_changed) {
        (SyncState::LocalOnly, _) => SyncDecision::Noop,
        (SyncState::DirtyLocal | SyncState::Staged, false) => SyncDecision::PushLocal,
        (SyncState::DirtyLocal | SyncState::Staged, true) => SyncDecision::RequireManualMerge,
        (_, true) => SyncDecision::PullRemote,
        (_, false) => SyncDecision::Noop,
    }
}

fn comment(remote_id: &str, author: &str, body: &str) -> TaskComment {
    TaskComment {
        local_id: None,
        remote_id: Some(remote_id.into()),
        author: author.into(),
        body: body.into(),
        created_at: Timestamp(3),
    }
}

type Out<T> = Result<T, SyncError>;

impl World {
    fn task(&mut self, id: u128) -> &mut Task {
        self.tasks.iter_mut().find(|t| t.id == TaskId(id)).unwrap()
    }

    fn get(&self, id: u128) -> Task {
        self.tasks.iter().find(|t| t.id == TaskId(id)).unwrap().clone()
    }

    fn save(&mut self, t: &Task) {
        match self.tasks.iter_mut().find(|o| o.id == t.id) {
            Some(row) => *row = t.clone(),
            None => self.tasks.push(t.clone()),
        }
    }

    fn workspace_default(&self) -> Result<Option<RepoId>, PortError> {
        match &self.workspace {
            Some(w) => Ok(w.filing_repo_id),
            None => Err(PortError::NotFound("workspace".into())),
        }
    }

    fn origin_of(&self, repo: RepoId) -> Result<Option<RepoId>, PortError> {
        match self.instances.iter().find(|(i, _)| *i == repo) {
            Some((_, o)) => Ok(Some(*o)),
            None => Err(PortError::NotFound("repo".into())),
        }
    }

    fn url(&self, origin: RepoId) -> Out<String> {
        match self.origins.iter().find(|(o, _)| *o == origin) {
            Some((_, u)) => Ok(u.clone()),
            None => Err(SyncError::Port(PortError::NotFound("origin".into()))),
        }
    }

    fn logical(&self, t: &Task) -> Out<Option<RepoId>> {
        match t.repo_id {
            Some(r) => chain_step(self.origin_of(r)).map_err(SyncError::Port),
            None => Ok(None),
        }
    }

    fn address(&self, t: &Task) -> Out<String> {
        let default = chain_step(self.workspace_default()).map_err(SyncError::Port)?;
        self.url(filing_origin(t.filing_repo_id, default, self.logical(t)?)?)
    }

    fn end(&self, t: &Task) -> Out<Option<IssueCoords>> {
        let canonical = match end_address(t, self.workspace.as_ref(), self.logical(t)?) {
            Some(origin) => Some(self.url(origin)?),
            None => None,
        };
        Ok(relation_remote_coords(&t.remote, canonical))
    }

    fn logical_canonical(&self, t: &Task) -> Out<String> {
        let repo = t.repo_id.ok_or(SyncError::NoRepo)?;
        let origin = self.origin_of(repo).map_err(SyncError::Port)?.unwrap();
        self.url(origin)
    }

    fn find_binding(&self, canonical: &str) -> Option<(RepoId, RepoId)> {
        let (origin, _) = self.origins.iter().find(|(_, u)| u == canonical)?;
        self.instances.iter().find(|(_, o)| o == origin).copied()
    }

    fn unbind(&mut self, instance: RepoId) {
        let origin = self.origin_of(instance).unwrap().unwrap();
        self.instances.retain(|(i, _)| *i != instance);
        self.origins.retain(|(o, _)| *o != origin);
    }

    fn fetch(&mut self, canonical: &str) -> Result<RemoteTaskSnapshot, PortError> {
        self.fetched_at = Some(canonical.into());
        if let Some((to_canonical, to_remote_id)) = self.fetch_moved.take() {
            return Err(PortError::IssueMoved {
                to_canonical,
                to_remote_id,
            });
        }
        match &self.fetch {
            Some(s) => Ok(RemoteTaskSnapshot {
                remote_id: s.remote_id.clone(),
                node_id: s.node_id.clone(),
                title: s.title.clone(),
                body: s.body.clone(),
                closed: s.closed,
                assignees: s.assignees.clone(),
            }),
            None => Err(PortError::NotFound("no fetch fixture".into())),
        }
    }

    fn promote(&mut self, id: u128) -> Out<SyncSummaryDto> {
        let mut p = Promotion::start(self.get(id))?;
        loop {
            match &p.step {
                PromoteStep::Stage => {
                    let mut t = p.task.clone();
                    t.sync = SyncState::Staged;
                    p.on_staged(t)?;
                }
                PromoteStep::ResolveFiling => {
                    let default = self.workspace_default().map_err(SyncError::Port)?;
                    let logical = self.logical(&p.task)?;
                    p.on_filing(default, logical);
                }
                PromoteStep::RecordFiling(filing) => {
                    let mut t = p.task.clone();
                    t.filing_repo_id = *filing;
                    p.on_filing_recorded(t);
                }
                PromoteStep::ResolveAddress => {
                    let default = chain_step(self.workspace_default()).map_err(SyncError::Port)?;
                    let logical = self.logical(&p.task)?;
                    p.on_address(default, logical)?;
                }
                PromoteStep::ReadOrigin(origin) => {
                    let url = self.url(*origin)?;
                    p.on_origin(url);
                }
                PromoteStep::Create(c) => {
                    self.created = Some((c.canonical_repo.clone(), c.title.clone()));
                    p.on_created("100".into(), Some("I_kwDOfake100".into()));
                }
                PromoteStep::Adopt { remote, .. } => {
                    let mut t = p.task.clone();
                    t.remote = Some(remote.clone());
                    t.sync = SyncState::Synced;
                    t.baseline = baseline_of(&t);
                    p.on_adopted(t);
                }
                PromoteStep::Neighbors(_) => {
                    let mut coords = Vec::new();
                    for r in &p.task.relations {
                        coords.push(self.end(&self.get(r.other.0))?);
                    }
                    p.on_neighbors(&coords);
                }
                PromoteStep::Save(entries) => {
                    self.queued.extend(entries.iter().cloned());
                    self.save(&p.task);
                    return Ok(p.on_saved());
                }
            }
        }
    }

    fn push(&mut self, id: u128) -> Out<SyncSummaryDto> {
        let t = self.get(id);
        let canonical = self.address(&t)?;
        let mut p = Push::start(t, canonical)?;
        let mut patch = None;
        loop {
            match &p.step {
                PushStep::Diff => {
                    let found = diff(&p.task);
                    p.on_diff(&found);
                    patch = Some(found);
                }
                PushStep::Update(u) => {
                    self.updated = Some(RemoteTaskUpdate {
                        canonical_repo: u.canonical_repo.clone(),
                        remote_id: u.remote_id.clone(),
                        title: u.title.clone(),
                        body: u.body.clone(),
                        closed: u.closed,
                        state_reason: u.state_reason,
                        assignees: u.assignees.clone(),
                    });
                    p.on_updated();
                }
                PushStep::Confirm => {
                    let mut t = p.task.clone();
                    confirm_fields(&mut t, patch.as_ref().unwrap());
                    self.save(&t);
                    p.on_confirmed(t);
                }
                PushStep::Comments(list) => {
                    for c in list {
                        self.posted.push(c.body.clone());
                        let name = format!("c{}", self.posted.len());
                        for own in &mut self.task(id).comments {
                            if own.local_id.as_ref() == Some(&c.local_id) {
                                own.remote_id = Some(name.clone());
                            }
                        }
                    }
                    p.on_comments();
                }
                PushStep::Done => return Ok(p.finish()),
            }
        }
    }

    fn known(&self, related: &[(String, String)]) -> Vec<TaskId> {
        let found = related
            .iter()
            .map(|(canonical, number)| {
                let (_, origin) = self.find_binding(canonical)?;
                self.tasks
                    .iter()
                    .find(|t| {
                        t.filing_repo_id == Some(origin)
                            && t.remote.as_ref().map(|r| &r.remote_id) == Some(number)
                    })
                    .map(|t| t.id)
            })
            .collect();
        known_tasks(&found)
    }

    fn align(&mut self, t: &mut Task) {
        let children = self.known(&self.sub_issues);
        let blockers = self.known(&self.blocked_by);
        let mut ids = touched_tasks(t.id, &t.relations, &children, &blockers);
        ids.sort_by_key(|i| i.0);
        ids.dedup();
        let mut neighbors: Vec<Neighbor> = ids
            .iter()
            .map(|i| {
                let n = self.get(i.0);
                Neighbor {
                    id: n.id,
                    issue_backed: n.remote.is_some(),
                    relations: n.relations,
                }
            })
            .collect();
        if reconcile_relations_inbound(
            t.id,
            &mut t.relations,
            &children,
            &blockers,
            &mut neighbors,
        ) {
            for n in neighbors {
                self.task(n.id.0).relations = n.relations;
            }
            self.task(t.id.0).relations = t.relations.clone();
        }
    }

    fn pull(&mut self, id: u128) -> Out<SyncSummaryDto> {
        let mut p = Pull::start(self.get(id))?;
        loop {
            match &p.step {
                PullStep::Address => {
                    let canonical = self.address(&p.task)?;
                    p.on_address(canonical)?;
                }
                PullStep::Fetch { canonical, .. } => {
                    let canonical = canonical.clone();
                    let snap = self.fetch(&canonical).map_err(SyncError::Port)?;
                    p.on_fetched(snap);
                }
                PullStep::Decide { remote_changed } => {
                    let decision = decide(p.task.sync, *remote_changed);
                    p.on_decided(decision);
                }
                PullStep::SaveBefore => {
                    self.save(&p.task);
                    p.on_saved_before();
                }
                PullStep::MarkDirtyRemote => {
                    let mut t = p.task.clone();
                    t.sync = SyncState::DirtyRemote;
                    p.on_marked(t);
                }
                PullStep::Confirm => {
                    let mut t = p.task.clone();
                    t.sync = SyncState::Synced;
                    t.baseline = baseline_of(&t);
                    p.on_confirmed(t);
                }
                PullStep::MarkConflicted => {
                    let mut t = p.task.clone();
                    t.sync = SyncState::Conflict;
                    p.on_conflicted(t);
                }
                PullStep::SavePulled | PullStep::SaveConflicted => {
                    self.save(&p.task);
                    p.on_saved();
                }
                PullStep::Comments => {
                    let comments = self.comments.clone();
                    self.task(id).comments = comments;
                    p.on_comments();
                }
                PullStep::Relations => {
                    let mut t = p.task.clone();
                    self.align(&mut t);
                    p.on_relations(t.relations);
                }
                PullStep::CacheNodeId(node) => {
                    let node = node.clone();
                    if let Some(r) = &mut self.task(id).remote {
                        r.node_id = Some(node);
                    }
                    p.on_node_id_cached();
                }
                PullStep::Done => return p.finish("ref".into()),
            }
        }
    }

    fn refresh(&mut self, id: u128) -> Out<RefreshOutcome> {
        let t = self.get(id);
        if let Err(outcome) = refresh_target(&t) {
            return Ok(outcome);
        }
        let canonical = self.address(&t)?;
        self.fetch(&canonical).map_err(SyncError::Port)?;
        self.stamped.push(t.id);
        Ok(RefreshOutcome::Stamped)
    }

    fn link(&mut self, id: u128, canonical: &str, remote_id: &str, relink: bool) -> Out<SyncSummaryDto> {
        let mut l = Link::start(self.get(id), canonical.into(), remote_id.into(), relink);
        loop {
            match &l.step {
                LinkStep::ReadCanonical => {
                    let current = self.logical_canonical(&l.task).ok();
                    l.on_canonical(current);
                }
                LinkStep::FindBinding => {
                    let found = self.find_binding(canonical).map(|(i, _)| i);
                    l.on_binding(found)?;
                }
                LinkStep::ReadCurrent => {
                    let current = self.logical_canonical(&l.task)?;
                    l.on_current(current);
                }
                LinkStep::DiscoverTarget { .. } => l.on_target(self.move_target.clone())?,
                LinkStep::FetchTarget => {
                    let snap = self.fetch(canonical).map_err(SyncError::Port)?;
                    l.on_fetched(snap);
                }
                LinkStep::ProbeTarget => {
                    let reply = self.fetch(canonical).map(|_| ());
                    l.on_probed(reply)?;
                }
                LinkStep::LinkTask {
                    instance,
                    remote,
                    conflict,
                } => {
                    let mut t = l.task.clone();
                    t.repo_id = Some(*instance);
                    t.remote = Some(remote.clone());
                    t.sync = if *conflict {
                        SyncState::Conflict
                    } else {
                        SyncState::Synced
                    };
                    if !*conflict {
                        t.baseline = baseline_of(&t);
                    }
                    l.on_linked(t);
                }
                LinkStep::FetchComments => l.on_comments_fetched(),
                LinkStep::Save => {
                    self.save(&l.task);
                    l.on_saved();
                }
                LinkStep::ReplaceComments => {
                    let comments = self.comments.clone();
                    self.task(id).comments = comments;
                    l.on_comments();
                }
                LinkStep::ClearComments => {
                    self.task(id).comments = Vec::new();
                    l.on_comments();
                }
                LinkStep::Done => return Ok(l.finish()),
            }
        }
    }

    fn set_fetch(&mut self, remote_id: &str, like: &Task) {
        self.fetch = Some(Snap {
            remote_id: remote_id.into(),
            node_id: None,
            title: like.title.clone(),
            body: like.body.clone(),
            closed: false,
            assignees: like.assignees.clone(),
        });
    }

    fn remote(&mut self) -> &mut Snap {
        self.fetch.as_mut().unwrap()
    }

    fn edit(&mut self, id: u128) -> &mut Task {
        let t = self.task(id);
        t.sync = SyncState::DirtyLocal;
        t
    }
}

fn ok<T, E: std::fmt::Debug>(r: Result<T, E>) -> T {
    match r {
        Ok(v) => v,
        Err(e) => panic!("{e:?}"),
    }
}

fn err<T, E>(r: Result<T, E>) -> E {
    match r {
        Ok(_) => panic!("refusal expected"),
        Err(e) => e,
    }
}

const REPO: RepoId = RepoId(10);
const ORIGIN: RepoId = RepoId(11);

/// A workspace with one repository and one local task in it.
fn setup() -> World {
    World {
        tasks: vec![draft(1, Some(REPO), "ship it")],
        workspace: Some(Workspace {
            id: WS,
            project_id: None,
            filing_repo_id: None,
        }),
        instances: vec![(REPO, ORIGIN)],
        origins: vec![(ORIGIN, "github.com/o/r".into())],
        queued: Vec::new(),
        stamped: Vec::new(),
        created: None,
        updated: None,
        fetched_at: None,
        fetch: None,
        fetch_moved: None,
        move_target: None,
        comments: Vec::new(),
        posted: Vec::new(),
        sub_issues: Vec::new(),
        blocked_by: Vec::new(),
    }
}

fn promoted() -> World {
    let mut w = setup();
    ok(w.promote(1));
    w
}

/// A promoted task filed in the one repository.
fn seed_promoted(w: &mut World, id: u128, remote_id: &str) {
    let mut t = draft(id, Some(REPO), &format!("issue {remote_id}"));
    t.remote = Some(issue(remote_id));
    t.sync = SyncState::Synced;
    t.filing_repo_id = Some(ORIGIN);
    t.baseline = baseline_of(&t);
    w.save(&t);
}

fn edge(kind: RelationKind, other: u128) -> TaskRelation {
    TaskRelation {
        kind,
        other: TaskId(other),
    }
}

#[test]
fn promote_backfills_existing_relation_to_issue_backed_neighbor() {
    let mut w = setup();
    seed_promoted(&mut w, 2, "200");
    let mut child = draft(3, Some(REPO), "child");
    add_edge(&mut child.relations, RelationKind::ChildOf, TaskId(2));
    w.save(&child);
    ok(w.promote(3));
    assert_eq!(w.queued.len(), 1);
    match &w.queued[0].mutation {
        OutboxMutation::AddSubIssue { parent, child } => {
            assert_eq!(parent.remote_id, "200");
            assert_eq!(child.remote_id, "100");
        }
        other => panic!("{other:?}"),
    }
}

#[test]
fn promote_skips_relation_to_local_only_neighbor() {
    let mut w = setup();
    w.save(&draft(2, Some(REPO), "neighbor"));
    let mut t = draft(3, Some(REPO), "t");
    add_edge(&mut t.relations, RelationKind::BlockedBy, TaskId(2));
    w.save(&t);
    ok(w.promote(3));
    assert!(w.queued.is_empty());
}

#[test]
fn pull_reconciles_inbound_sub_issue_and_dependency() {
    let mut w = setup();
    for (id, number) in [(1, "100"), (2, "200"), (3, "300")] {
        seed_promoted(&mut w, id, number);
    }
    let like = w.get(1);
    w.set_fetch("100", &like);
    w.sub_issues = vec![("github.com/o/r".into(), "200".into())];
    w.blocked_by = vec![("github.com/o/r".into(), "300".into())];
    ok(w.pull(1));
    let back = w.get(1).relations;
    assert!(back.contains(&edge(RelationKind::ParentOf, 2)));
    assert!(back.contains(&edge(RelationKind::BlockedBy, 3)));
    assert!(w.get(2).relations.contains(&edge(RelationKind::ChildOf, 1)));
    assert!(w.queued.is_empty());
}

#[test]
fn pull_drops_local_edge_the_remote_removed() {
    let mut w = setup();
    seed_promoted(&mut w, 1, "100");
    seed_promoted(&mut w, 2, "200");
    add_edge(&mut w.task(1).relations, RelationKind::ParentOf, TaskId(2));
    add_edge(&mut w.task(2).relations, RelationKind::ChildOf, TaskId(1));
    let like = w.get(1);
    w.set_fetch("100", &like);
    ok(w.pull(1));
    assert!(!w.get(1).relations.iter().any(|r| r.kind == RelationKind::ParentOf));
}

#[test]
fn promote_creates_remote_and_marks_pushed() {
    let mut w = setup();
    let s = ok(w.promote(1));
    assert_eq!(s.previous_state, "local_only");
    assert_eq!(s.new_state, "synced");
    let remote = s.remote.unwrap();
    assert_eq!(remote.provider, "github");
    assert_eq!(remote.remote_id, "100");
    assert_eq!(w.created.as_ref().unwrap().1, "ship it");
    assert_eq!(
        w.get(1).remote.unwrap().node_id.as_deref(),
        Some("I_kwDOfake100")
    );
}

#[test]
fn promote_records_filing_repo_as_logical_with_no_default() {
    let w = promoted();
    assert_eq!(w.get(1).filing_repo_id, Some(ORIGIN));
    assert_eq!(w.created.as_ref().unwrap().0, "github.com/o/r");
}

/// A workspace that files by default in a repository of its own, and a task of
/// another one whose issue stands there.
fn saga() -> World {
    let mut w = setup();
    w.instances = vec![(RepoId(20), RepoId(21)), (RepoId(30), RepoId(31))];
    w.origins = vec![
        (RepoId(21), "github.com/o/filing".into()),
        (RepoId(31), "github.com/o/code".into()),
    ];
    if let Some(ws) = &mut w.workspace {
        ws.filing_repo_id = Some(RepoId(21));
    }
    let mut t = draft(1, Some(RepoId(30)), "saga: add a thing");
    t.remote = Some(issue("1409"));
    w.save(&t);
    w
}

#[test]
fn promote_orphan_with_workspace_default_files_in_default_repo() {
    let mut w = saga();
    w.save(&draft(2, None, "orphan"));
    ok(w.promote(2));
    let saved = w.get(2);
    assert_eq!(saved.repo_id, None);
    assert_eq!(saved.filing_repo_id, Some(RepoId(21)));
    assert_eq!(w.created.as_ref().unwrap().0, "github.com/o/filing");
}

#[test]
fn pull_with_workspace_default_resolves_through_chain() {
    let mut w = saga();
    let like = w.get(1);
    w.set_fetch("1409", &like);
    let s = ok(w.pull(1));
    assert_eq!(w.fetched_at.as_deref(), Some("github.com/o/filing"));
    assert_eq!(s.decision, "noop");
}

#[test]
fn push_with_workspace_default_targets_the_default_repo() {
    let mut w = saga();
    ok(w.promote(1));
    assert_eq!(w.get(1).filing_repo_id, Some(RepoId(21)));
    w.edit(1).title = "saga: add a thing (revised)".into();
    ok(w.push(1));
    assert_eq!(w.updated.unwrap().canonical_repo, "github.com/o/filing");
}

#[test]
fn promote_requires_repo_binding() {
    let mut w = setup();
    w.save(&draft(2, None, "rogue"));
    assert_eq!(err(w.promote(2)), SyncError::NoRepo);
}

#[test]
fn push_after_local_edit_marks_synced() {
    let mut w = promoted();
    w.edit(1).body = "revised".into();
    let s = ok(w.push(1));
    assert_eq!(s.previous_state, "dirty_local");
    assert_eq!(s.new_state, "synced");
    let u = w.updated.unwrap();
    assert_eq!(u.remote_id, "100");
    assert_eq!(u.body.as_deref(), Some("revised"));
}

#[test]
fn push_sends_only_changed_fields() {
    let mut w = promoted();
    w.edit(1).title = "renamed".into();
    ok(w.push(1));
    let u = w.updated.unwrap();
    assert_eq!(u.remote_id, "100");
    assert_eq!(u.title.as_deref(), Some("renamed"));
    assert_eq!(u.body, None);
    assert_eq!(u.closed, None);
    assert_eq!(u.state_reason, None);
    assert_eq!(u.assignees, None);
}

#[test]
fn push_skips_remote_call_when_no_field_changed() {
    let mut w = promoted();
    w.edit(1);
    let s = ok(w.push(1));
    assert_eq!(s.decision, "push_local");
    assert_eq!(s.new_state, "synced");
    assert!(w.updated.is_none());
}

#[test]
fn push_sends_changed_assignee() {
    let mut w = promoted();
    w.edit(1).assignees = vec!["alice".into()];
    ok(w.push(1));
    let u = w.updated.unwrap();
    assert_eq!(u.remote_id, "100");
    assert_eq!(u.assignees.as_deref(), Some(&["alice".to_string()][..]));
    assert_eq!(u.title, None);
    assert_eq!(u.body, None);
    assert_eq!(u.closed, None);
    assert_eq!(u.state_reason, None);
}

#[test]
fn push_does_not_publish_on_pure_assignee_reorder() {
    let mut w = promoted();
    w.task(1).assignees = vec!["alice".into(), "bob".into()];
    let t = w.get(1);
    w.task(1).baseline = baseline_of(&t);
    w.edit(1).assignees = vec!["bob".into(), "alice".into()];
    ok(w.push(1));
    assert!(w.updated.is_none());
    let after = w.get(1);
    assert_eq!(after.sync, SyncState::Synced);
    assert_eq!(after.assignees, vec!["bob".to_string(), "alice".to_string()]);
}

#[test]
fn push_with_empty_assignees_sends_explicit_clear() {
    let mut w = promoted();
    w.edit(1).assignees = vec!["alice".into()];
    ok(w.push(1));
    w.updated = None;
    w.edit(1).assignees = Vec::new();
    ok(w.push(1));
    let u = w.updated.unwrap();
    assert_eq!(u.assignees.as_deref(), Some(&[][..]));
    assert_eq!(u.title, None);
    assert_eq!(u.body, None);
    assert_eq!(u.closed, None);
    assert_eq!(u.state_reason, None);
}

#[test]
fn push_uses_confirm_synced_fields_per_field_baseline() {
    let mut w = promoted();
    let before = w.get(1).baseline.unwrap();
    w.edit(1).title = "renamed".into();
    ok(w.push(1));
    let post = w.get(1);
    assert_eq!(post.sync, SyncState::Synced);
    let after = post.baseline.clone().unwrap();
    assert_eq!(after.title, "renamed");
    assert_eq!(after.body, before.body);
    assert_eq!(after.lifecycle, before.lifecycle);
    assert_eq!(after.assignees, before.assignees);
    assert!(diff(&post).is_empty());
}

#[test]
fn pull_applies_remote_snapshot_when_newer() {
    let mut w = promoted();
    w.fetch = Some(Snap {
        remote_id: "100".into(),
        node_id: None,
        title: "new title".into(),
        body: "remote body".into(),
        closed: false,
        assignees: vec!["bob".into()],
    });
    let s = ok(w.pull(1));
    assert_eq!(s.decision, "pull_remote");
    let after = w.get(1);
    assert_eq!(after.title, "new title");
    assert_eq!(after.body, "remote body");
    assert_eq!(after.assignees, vec!["bob".to_string()]);
    assert_eq!(after.sync, SyncState::Synced);
}

fn assert_inbound_set_matches_baseline(t: &Task) {
    assert!(inbound_mirrors_baseline(
        &t.title,
        &t.body,
        &t.assignees,
        !t.lifecycle.is_open(),
        t.baseline.as_ref().unwrap(),
    ));
}

#[test]
fn pull_copy_back_uses_the_same_inbound_set_as_remote_mirrors_baseline() {
    let mut w = promoted();
    w.fetch = Some(Snap {
        remote_id: "100".into(),
        node_id: None,
        title: "different title".into(),
        body: "remote body".into(),
        closed: true,
        assignees: vec!["bob".into()],
    });
    let s = ok(w.pull(1));
    assert_eq!(s.decision, "pull_remote");
    let after = w.get(1);
    assert_eq!(after.title, "different title");
    assert_eq!(after.body, "remote body");
    assert_eq!(after.assignees, vec!["bob".to_string()]);
    assert_eq!(after.lifecycle, Lifecycle::Completed);
    assert!(!after.lifecycle.is_open());
    assert_inbound_set_matches_baseline(&after);
    assert_eq!(after.sync, SyncState::Synced);
}

#[test]
fn pull_adopts_remote_close_and_is_idempotent() {
    let mut w = promoted();
    let before = w.get(1);
    assert!(before.lifecycle.is_open());
    w.set_fetch("100", &before);
    w.remote().closed = true;
    assert_eq!(ok(w.pull(1)).decision, "pull_remote");
    let after = w.get(1);
    assert_eq!(after.lifecycle, Lifecycle::Completed);
    assert_eq!(after.sync, SyncState::Synced);
    assert_eq!(ok(w.pull(1)).decision, "noop");
}

#[test]
fn pull_reopens_a_locally_closed_task() {
    let mut w = promoted();
    let before = w.get(1);
    w.set_fetch("100", &before);
    w.remote().closed = true;
    ok(w.pull(1));
    assert_eq!(w.get(1).lifecycle, Lifecycle::Completed);
    w.remote().closed = false;
    assert_eq!(ok(w.pull(1)).decision, "pull_remote");
    let after = w.get(1);
    assert_eq!(after.lifecycle, Lifecycle::Reopened);
    assert!(after.lifecycle.is_open());
    assert_eq!(after.sync, SyncState::Synced);
}

#[test]
fn refresh_stamps_synced_at_on_success() {
    let mut w = promoted();
    let before = w.get(1);
    w.set_fetch("100", &before);
    assert_eq!(ok(w.refresh(1)), RefreshOutcome::Stamped);
    assert_eq!(w.stamped, vec![TaskId(1)]);
    let after = w.get(1);
    assert_eq!(after.title, before.title);
    assert_eq!(after.sync, before.sync);
}

#[test]
fn refresh_propagates_fetch_error_and_does_not_stamp() {
    let mut w = promoted();
    err(w.refresh(1));
    assert!(w.stamped.is_empty());
}

#[test]
fn refresh_skips_a_task_with_no_issue() {
    let mut w = setup();
    assert_eq!(ok(w.refresh(1)), RefreshOutcome::NotIssueBacked);
}

#[test]
fn refresh_propagates_issue_moved() {
    let mut w = promoted();
    w.fetch_moved = Some(("github.com/o2/r2".into(), "1506".into()));
    assert!(matches!(
        err(w.refresh(1)),
        SyncError::Port(PortError::IssueMoved { .. })
    ));
    assert!(w.stamped.is_empty());
}

#[test]
fn pull_backfills_missing_remote_node_id_on_noop() {
    let mut w = promoted();
    w.task(1).remote.as_mut().unwrap().node_id = None;
    let t = w.get(1);
    w.set_fetch("100", &t);
    w.remote().node_id = Some("I_kwDObackfilled".into());
    assert_eq!(ok(w.pull(1)).decision, "noop");
    let saved = w.get(1);
    assert_eq!(
        saved.remote.unwrap().node_id.as_deref(),
        Some("I_kwDObackfilled")
    );
    assert_eq!(saved.sync, SyncState::Synced);
}

#[test]
fn push_archived_task_closes_remote_with_not_planned() {
    let mut w = promoted();
    w.edit(1).lifecycle = Lifecycle::NotPlanned;
    let s = ok(w.push(1));
    assert_eq!(s.new_state, "synced");
    let u = w.updated.unwrap();
    assert_eq!(u.remote_id, "100");
    assert_eq!(u.closed, Some(true));
    assert_eq!(u.state_reason, Some(RemoteStateReason::NotPlanned));
}

#[test]
fn pull_noop_when_remote_unchanged() {
    let mut w = promoted();
    let before = w.get(1);
    w.set_fetch("100", &before);
    assert_eq!(ok(w.pull(1)).decision, "noop");
}

#[test]
fn pull_is_noop_when_only_updated_at_bumps() {
    // When the issue was last touched is not part of what is read of it.
    let mut w = promoted();
    let before = w.get(1);
    w.set_fetch("100", &before);
    assert_eq!(ok(w.pull(1)).decision, "noop");
    assert_eq!(w.get(1).sync, SyncState::Synced);
}

#[test]
fn pull_errors_when_filing_binding_is_gone() {
    let mut w = promoted();
    w.unbind(REPO);
    assert!(matches!(
        err(w.pull(1)),
        SyncError::Port(PortError::NotFound(_))
    ));
    assert_eq!(w.get(1).sync, SyncState::Synced);
}

#[test]
fn pull_falls_through_chain_when_workspace_row_is_deleted() {
    let mut w = promoted();
    w.workspace = None;
    let t = w.get(1);
    w.set_fetch("100", &t);
    ok(w.pull(1));
    assert_eq!(w.fetched_at.as_deref(), Some("github.com/o/r"));
}

#[test]
fn pull_hard_fails_when_neither_filing_nor_logical_resolves() {
    let mut w = promoted();
    w.instances.push((RepoId(40), RepoId(41)));
    w.origins.push((RepoId(41), "github.com/o/other".into()));
    w.task(1).repo_id = Some(RepoId(40));
    w.task(1).filing_repo_id = Some(RepoId(40));
    w.unbind(RepoId(40));
    assert!(matches!(
        err(w.pull(1)),
        SyncError::Port(PortError::NotFound(_))
    ));
}

#[test]
fn pull_is_noop_when_remote_assignees_are_reordered() {
    let mut w = promoted();
    w.task(1).assignees = vec!["alice".into(), "bob".into()];
    let t = w.get(1);
    w.task(1).baseline = baseline_of(&t);
    w.set_fetch("100", &t);
    w.remote().assignees = vec!["bob".into(), "alice".into()];
    assert_eq!(ok(w.pull(1)).decision, "noop");
}

#[test]
fn pull_is_noop_on_remote_comment_only_activity_but_still_mirrors_the_comment() {
    let mut w = promoted();
    let before = w.get(1);
    w.set_fetch("100", &before);
    w.comments = vec![comment("42", "octocat", "from remote")];
    assert_eq!(ok(w.pull(1)).decision, "noop");
    let after = w.get(1);
    assert_eq!(after.comments.len(), 1);
    assert_eq!(after.comments[0].body, "from remote");
}

#[test]
fn pull_mirrors_comments_even_on_manual_merge_conflict() {
    let mut w = promoted();
    w.edit(1).body = "local edit".into();
    w.fetch = Some(Snap {
        remote_id: "100".into(),
        node_id: None,
        title: "remote title".into(),
        body: "remote body".into(),
        closed: false,
        assignees: Vec::new(),
    });
    w.comments = vec![comment("7", "octocat", "ping")];
    assert!(matches!(err(w.pull(1)), SyncError::ManualMerge(_)));
    let after = w.get(1);
    assert_eq!(after.sync, SyncState::Conflict);
    assert_eq!(after.comments.len(), 1);
    assert_eq!(after.comments[0].body, "ping");
}

fn pending(body: &str) -> TaskComment {
    TaskComment {
        local_id: Some("l1".into()),
        remote_id: None,
        author: "me".into(),
        body: body.into(),
        created_at: Timestamp(3),
    }
}

#[test]
fn push_drains_pending_comments_on_synced_task() {
    let mut w = promoted();
    w.task(1).comments.push(pending("hello world"));
    assert_eq!(w.get(1).sync, SyncState::Synced);
    let s = ok(w.push(1));
    assert_eq!(s.decision, "noop");
    assert_eq!(s.new_state, "synced");
    assert_eq!(w.posted, vec!["hello world".to_string()]);
    assert!(w.updated.is_none());
    let after = w.get(1);
    assert_eq!(after.comments.len(), 1);
    assert!(after.comments[0].remote_id.is_some());
}

#[test]
fn push_drains_comments_and_snapshot_when_dirty() {
    let mut w = promoted();
    w.edit(1).body = "revised".into();
    w.task(1).comments.push(pending("also a comment"));
    let s = ok(w.push(1));
    assert_eq!(s.decision, "push_local");
    assert_eq!(s.new_state, "synced");
    assert_eq!(w.updated.as_ref().unwrap().body.as_deref(), Some("revised"));
    assert_eq!(w.posted, vec!["also a comment".to_string()]);
    assert!(w.get(1).comments.iter().all(|c| c.remote_id.is_some()));
}

#[test]
fn push_errors_when_clean_and_no_pending_comments() {
    let mut w = promoted();
    assert_eq!(w.get(1).sync, SyncState::Synced);
    assert!(matches!(err(w.push(1)), SyncError::Domain(_)));
}

/// A promoted task, and a second repository to move it to.
fn two_repos() -> World {
    let mut w = promoted();
    w.instances.push((RepoId(50), RepoId(51)));
    w.origins.push((RepoId(51), "github.com/o2/r2".into()));
    w
}

#[test]
fn link_bare_flips_synced_to_conflict_and_drops_synced_comments() {
    let mut w = two_repos();
    w.task(1).comments = vec![comment("old", "x", "stale")];
    w.fetch = Some(Snap {
        remote_id: "999".into(),
        node_id: None,
        title: "irrelevant".into(),
        body: "irrelevant".into(),
        closed: false,
        assignees: Vec::new(),
    });
    let s = ok(w.link(1, "github.com/o2/r2", "999", false));
    assert_eq!(s.decision, "linked");
    assert_eq!(s.new_state, "conflict");
    let after = w.get(1);
    assert_eq!(after.sync, SyncState::Conflict);
    assert_eq!(after.remote.unwrap().remote_id, "999");
    assert!(after.comments.is_empty());
}

#[test]
fn link_relink_verified_keeps_synced_and_rewrites_baseline() {
    let mut w = two_repos();
    w.move_target = Some(("github.com/o2/r2".into(), "1506".into()));
    w.fetch = Some(Snap {
        remote_id: "1506".into(),
        node_id: Some("I_kwDOtransferred1506".into()),
        title: "transferred title".into(),
        body: "transferred body".into(),
        closed: false,
        assignees: vec!["alice".into()],
    });
    let s = ok(w.link(1, "github.com/o2/r2", "1506", true));
    assert_eq!(s.decision, "relinked");
    assert_eq!(s.new_state, "synced");
    let after = w.get(1);
    assert_eq!(after.title, "transferred title");
    assert_eq!(after.sync, SyncState::Synced);
    let remote = after.remote.unwrap();
    assert_eq!(remote.remote_id, "1506");
    assert_eq!(remote.node_id.as_deref(), Some("I_kwDOtransferred1506"));
}

#[test]
fn relink_copy_back_uses_the_same_inbound_set_as_remote_mirrors_baseline() {
    let mut w = two_repos();
    w.move_target = Some(("github.com/o2/r2".into(), "1506".into()));
    w.fetch = Some(Snap {
        remote_id: "1506".into(),
        node_id: Some("I_kwDOrelink1506".into()),
        title: "relinked title".into(),
        body: "relinked body".into(),
        closed: true,
        assignees: vec!["alice".into(), "carol".into()],
    });
    let s = ok(w.link(1, "github.com/o2/r2", "1506", true));
    assert_eq!(s.decision, "relinked");
    let after = w.get(1);
    assert_eq!(after.title, "relinked title");
    assert_eq!(after.body, "relinked body");
    assert_eq!(after.assignees, vec!["alice".to_string(), "carol".to_string()]);
    assert_eq!(after.lifecycle, Lifecycle::Completed);
    assert_inbound_set_matches_baseline(&after);
}

#[test]
fn link_relink_target_mismatch_errors() {
    let mut w = two_repos();
    w.move_target = Some(("github.com/o3/r3".into(), "777".into()));
    assert!(matches!(
        err(w.link(1, "github.com/o2/r2", "1506", true)),
        SyncError::Domain(_)
    ));
}

#[test]
fn link_relink_refuses_when_task_is_dirty_local() {
    let mut w = two_repos();
    w.edit(1).body = "local edit at risk".into();
    w.move_target = Some(("github.com/o2/r2".into(), "1506".into()));
    assert!(matches!(
        err(w.link(1, "github.com/o2/r2", "1506", true)),
        SyncError::Domain(_)
    ));
    let after = w.get(1);
    assert_eq!(after.body, "local edit at risk");
    assert_eq!(after.sync, SyncState::DirtyLocal);
}

#[test]
fn link_errors_when_target_binding_missing() {
    let mut w = setup();
    assert!(matches!(
        err(w.link(1, "github.com/never/attached", "1", false)),
        SyncError::Domain(DomainError::Validation(_))
    ));
}

#[test]
fn link_bare_to_source_side_url_succeeds_with_note() {
    let mut w = promoted();
    w.fetch_moved = Some(("github.com/o2/r2".into(), "1506".into()));
    let s = ok(w.link(1, "github.com/o/r", "5788", false));
    assert_eq!(s.decision, "linked");
    assert_eq!(s.new_state, "conflict");
    let note = s.note.unwrap();
    assert!(note.contains("5788"));
    assert!(note.contains("1506"));
    assert_eq!(w.get(1).remote.unwrap().remote_id, "5788");
}
