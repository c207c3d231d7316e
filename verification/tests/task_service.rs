use repo_link::model::error::PortError;
use repo_link::model::ids::{RepoId, TaskId, Timestamp, WorkspaceId};
use repo_link::model::outbox::{IssueCoords, OutboxEntry, OutboxMutation};
use repo_link::model::project::{Project, StatusMapping, StatusOption, Workspace};
use repo_link::model::task::{
    add_edge, Baseline, Lifecycle, RelationKind, RemoteRef, SyncState, Task,
};
use repo_link::sync::filing::{chain_step, relation_remote_coords, resolve_filing_repo};
use repo_link::sync::mirror::assignees_equal;
use repo_link::task::clear::{ClearRelations, ClearStep};
use repo_link::task::cycle::RelationRow;
use repo_link::task::dto::{
    assemble_task_display_id, blocked_by, cached_project_status, overlay, task_to_dto, TaskDto,
};
use repo_link::task::error::ServiceError;
use repo_link::task::mint::Mint;
use repo_link::task::relate::{
    parse_kind, AddRelation, AddStep, RelationCmd, RemoveRelation, RemoveStep,
};
use repo_link::task::request::list_filter;
use repo_link::task::resolve::{Resolve, ResolveStep};
use repo_link::task::rollback::{rollback, TaskSnapshot};
use repo_link::task::transition::{after_transition, MirrorPlan, MirrorStep};
use repo_link::task::update::{Update, UpdateStep};

const WS: WorkspaceId = WorkspaceId(77);

struct Repo {
    instance: RepoId,
    origin: RepoId,
    canonical: String,
    prefix: String,
}

/// Stores of the task operations, held in memory.
struct World {
    tasks: Vec<Task>,
    /// Every saved state of a task, oldest first.
    history: Vec<Task>,
    queued: Vec<OutboxEntry>,
    workspace: Workspace,
    projects: Vec<Project>,
    repos: Vec<Repo>,
    next: u128,
    clock: i128,
}

#[derive(Default)]
struct Edit {
    title: Option<String>,
    body: Option<String>,
    priority: Option<String>,
    assignees: Option<Vec<String>>,
    repo_id: Option<RepoId>,
}

type Out<T> = Result<T, ServiceError>;

fn ok<T, E: std::fmt::Debug>(r: Result<T, E>) -> T {
    match r {
        Ok(v) => v,
        Err(e) => panic!("{e:?}"),
    }
}

fn err<T, E>(r: Result<T, E>) -> E {
    match r {
        Ok(_) => panic!("refusal expected"),
        Err(e) => e,
    }
}

fn world() -> World {
    World {
        tasks: Vec::new(),
        history: Vec::new(),
        queued: Vec::new(),
        workspace: Workspace {
            id: WS,
            project_id: None,
            filing_repo_id: None,
        },
        projects: Vec::new(),
        repos: Vec::new(),
        next: 1,
        clock: 10,
    }
}

fn test_project(id: &str) -> Project {
    let option = |id: &str, name: &str, ordinal: u32| StatusOption {
        option_id: id.into(),
        name: name.into(),
        ordinal,
    };
    let mapping = |is_open: bool, id: &str| StatusMapping {
        is_open,
        option_id: id.into(),
    };
    Project {
        id: id.into(),
        status_field_id: "PVTSSF_field".into(),
        status_options: vec![
            option("o_backlog", "Backlog", 0),
            option("o_wip", "In progress", 1),
            option("o_done", "Done", 2),
        ],
        status_mappings: vec![mapping(true, "o_wip"), mapping(false, "o_done")],
    }
}

fn baseline_of(t: &Task) -> Option<Baseline> {
    Some(Baseline {
        title: t.title.clone(),
        body: t.body.clone(),
        assignees: t.assignees.clone(),
        lifecycle: t.lifecycle,
    })
}

/// Whether the task is dirty follows from its baseline.
fn reconcile(t: &mut Task) {
    if t.sync != SyncState::Synced && t.sync != SyncState::DirtyLocal {
        return;
    }
    if let Some(b) = &t.baseline {
        let same = t.title == b.title
            && t.body == b.body
            && t.lifecycle == b.lifecycle
            && assignees_equal(&t.assignees, &b.assignees);
        t.sync = if same {
            SyncState::Synced
        } else {
            SyncState::DirtyLocal
        };
    }
}

fn parse_task_id(s: &str) -> Option<TaskId> {
    if s.len() != 36 {
        return None;
    }
    u128::from_str_radix(&s.replace('-', ""), 16).ok().map(TaskId)
}

fn is_valid_hash(s: &str) -> bool {
    (3..=8).contains(&s.len()) && s.chars().all(|c| c.is_ascii_lowercase() || c.is_ascii_digit())
}

fn is_valid_prefix(s: &str) -> bool {
    !s.is_empty() && s.chars().all(|c| c.is_ascii_lowercase())
}

impl World {
    fn bind(&mut self, name: &str, prefix: &str) -> (RepoId, RepoId) {
        let n = 100 + 2 * self.repos.len() as u128;
        self.repos.push(Repo {
            instance: RepoId(n),
            origin: RepoId(n + 1),
            canonical: format!("github.com/o/{name}"),
            prefix: prefix.into(),
        });
        (RepoId(n), RepoId(n + 1))
    }

    fn attach_board(&mut self, id: &str) {
        self.projects.push(test_project(id));
        self.workspace.project_id = Some(id.into());
    }

    fn repo(&self, instance: RepoId) -> Out<&Repo> {
        self.repos
            .iter()
            .find(|r| r.instance == instance)
            .ok_or(ServiceError::Port(PortError::NotFound("repo".into())))
    }

    fn url(&self, origin: RepoId) -> String {
        let found = self.repos.iter().find(|r| r.origin == origin);
        found.unwrap().canonical.clone()
    }

    fn project(&self, id: &str) -> Project {
        self.projects.iter().find(|p| p.id == id).unwrap().clone()
    }

    fn get(&self, id: TaskId) -> Task {
        self.tasks.iter().find(|t| t.id == id).unwrap().clone()
    }

    fn save(&mut self, t: &Task) {
        match self.tasks.iter_mut().find(|o| o.id == t.id) {
            Some(row) => *row = t.clone(),
            None => self.tasks.push(t.clone()),
        }
        self.history.push(t.clone());
    }

    fn kinds(&self) -> Vec<&'static str> {
        self.queued.iter().map(|e| e.mutation.kind()).collect()
    }

    fn now(&mut self) -> Timestamp {
        self.clock += 1;
        Timestamp(self.clock)
    }

    fn new_draft(&mut self, repo: Option<RepoId>, title: &str) -> Task {
        let id = TaskId(self.next);
        self.next += 1;
        let now = self.now();
        Task {
            id,
            workspace_id: WS,
            repo_id: repo,
            filing_repo_id: None,
            hash: String::new(),
            title: title.into(),
            body: String::new(),
            priority: "p2".into(),
            assignees: Vec::new(),
            lifecycle: Lifecycle::Open,
            sync: SyncState::LocalOnly,
            remote: None,
            project_item_id: None,
            project_status_option_id: None,
            relations: Vec::new(),
            comments: Vec::new(),
            baseline: None,
            created_at: now,
            updated_at: now,
        }
    }

    fn save_minted(&mut self, t: &mut Task) {
        let mint = Mint::new();
        t.hash = format!("h{:0width$}", t.id.0, width = mint.length - 1);
        self.save(t);
    }

    fn create(&mut self, repo: Option<RepoId>, title: &str) -> TaskDto {
        let mut t = self.new_draft(repo, title);
        self.save_minted(&mut t);
        self.dto(&t)
    }

    /// A mirror that is synced with an issue.
    fn imported(&mut self, number: &str, title: &str, body: &str) -> Task {
        let mut t = self.new_draft(None, title);
        t.body = body.into();
        t.remote = Some(RemoteRef {
            provider: "github".into(),
            remote_id: number.into(),
            node_id: None,
        });
        t.sync = SyncState::Synced;
        t.baseline = baseline_of(&t);
        t
    }

    /// A mirror of issue 7 in the workspace.
    fn issue_mirror(&mut self, repo: Option<RepoId>, node: Option<&str>, item: Option<&str>) -> Task {
        let mut t = self.imported("7", "mirror", "");
        t.repo_id = repo;
        t.remote.as_mut().unwrap().node_id = node.map(str::to_string);
        t.project_item_id = item.map(str::to_string);
        self.save(&t);
        t
    }

    fn addressable(&mut self, repo: RepoId, number: &str) -> TaskId {
        let mut t = self.imported(number, "m", "");
        t.repo_id = Some(repo);
        self.save(&t);
        t.id
    }

    /// A board draft without an issue and without a repository.
    fn orphan_draft(&mut self, title: &str, body: &str, item: Option<&str>) -> TaskId {
        let mut t = self.imported("0", title, body);
        t.remote = None;
        t.project_item_id = item.map(str::to_string);
        self.save(&t);
        t.id
    }

    fn prefix_for(&self, t: &Task) -> Option<String> {
        t.repo_id.and_then(|r| self.repo(r).ok().map(|r| r.prefix.clone()))
    }

    fn display(&self, id: TaskId) -> String {
        let t = self.get(id);
        assemble_task_display_id(&t, self.prefix_for(&t).as_deref())
    }

    fn dto(&self, t: &Task) -> TaskDto {
        let mut dto = task_to_dto(t, self.prefix_for(t).as_deref());
        let others = t.relations.iter().map(|r| self.display(r.other)).collect();
        let blocking = blocked_by(t).into_iter().map(|id| self.display(id)).collect();
        let board = self.workspace.project_id.as_ref().map(|id| self.project(id));
        overlay(
            &mut dto,
            others,
            blocking,
            cached_project_status(t, board.as_ref()),
        );
        dto
    }

    fn resolve(&self, query: &str) -> Out<Task> {
        let mut r = Resolve::start(query.into(), parse_task_id(query));
        let mut found = None;
        loop {
            match r.step {
                ResolveStep::Get(id) => return Ok(self.get(id)),
                ResolveStep::CheckShape => {
                    let prefix = r.prefix.as_deref().map_or(true, is_valid_prefix);
                    let hash = is_valid_hash(&r.hash);
                    r.on_shape(hash, prefix)?;
                }
                ResolveStep::Find => {
                    found = self.tasks.iter().find(|t| t.hash == r.hash);
                    r.on_found(found)?;
                }
                ResolveStep::ReadPrefix(repo) => {
                    let prefix = self.repo(repo)?.prefix.clone();
                    r.on_prefix(prefix)?;
                }
                ResolveStep::Found => return Ok(found.unwrap().clone()),
            }
        }
    }

    fn show(&self, query: &str) -> TaskDto {
        self.dto(&ok(self.resolve(query)))
    }

    fn logical(&self, t: &Task) -> Option<RepoId> {
        let lookup = match t.repo_id {
            Some(r) => match self.repo(r) {
                Ok(v) => Ok(Some(v.origin)),
                Err(_) => Err(PortError::NotFound("repo".into())),
            },
            None => Ok(None),
        };
        ok(chain_step(lookup))
    }

    fn coords(&self, t: &Task) -> Option<IssueCoords> {
        let filing = resolve_filing_repo(
            t.filing_repo_id,
            self.workspace.filing_repo_id,
            self.logical(t),
        );
        relation_remote_coords(&t.remote, filing.map(|o| self.url(o)))
    }

    fn plan_and_save(&mut self, plan: MirrorPlan) -> Task {
        let mut p = plan;
        loop {
            match &p.step {
                MirrorStep::ReadWorkspace => p.on_workspace(self.workspace.clone()),
                MirrorStep::ReadProject(id) => {
                    let project = self.project(id);
                    p.on_project(project);
                }
                MirrorStep::ReadLogical(repo) => {
                    let origin = ok(self.repo(*repo)).origin;
                    p.on_logical(origin);
                }
                MirrorStep::RecordFiling(filing) => {
                    let mut t = p.task.clone();
                    t.filing_repo_id = *filing;
                    p.on_filing_recorded(t);
                }
                MirrorStep::ResolveAddress => {
                    let logical = self.logical(&p.task);
                    p.on_address(self.workspace.filing_repo_id, logical);
                }
                MirrorStep::ReadOrigin(origin) => {
                    let url = self.url(*origin);
                    p.on_origin(url);
                }
                MirrorStep::Save(entries) => {
                    self.queued.extend(entries.iter().cloned());
                    self.save(&p.task);
                    return p.task;
                }
            }
        }
    }

    fn update(&mut self, id: TaskId, edit: Edit) -> TaskDto {
        let before = self.get(id);
        let mut t = before.clone();
        if let Some(x) = edit.title {
            t.title = x;
        }
        if let Some(x) = edit.body {
            t.body = x;
        }
        if let Some(x) = edit.priority {
            t.priority = x;
        }
        if let Some(x) = edit.assignees {
            t.assignees = x;
        }
        if edit.repo_id.is_some() {
            t.repo_id = edit.repo_id;
        }
        reconcile(&mut t);
        let mut u = Update::start(before);
        u.on_edited(t);
        loop {
            match &u.step {
                UpdateStep::Edit => unreachable!(),
                UpdateStep::ReadWorkspace => u.on_workspace(self.workspace.filing_repo_id),
                UpdateStep::ReadLogical { repo, .. } => {
                    let origin = ok(self.repo(*repo)).origin;
                    u.on_logical(origin);
                }
                UpdateStep::RecordFiling(filing) => {
                    let mut t = u.task.clone();
                    t.filing_repo_id = Some(*filing);
                    u.on_filing_recorded(t);
                }
                UpdateStep::ResolveAddress => {
                    let logical = self.logical(&u.task);
                    u.on_address(self.workspace.filing_repo_id, logical);
                }
                UpdateStep::ReadOrigin(origin) => {
                    let url = self.url(*origin);
                    u.on_origin(url);
                }
                UpdateStep::Mirror => {
                    let t = self.plan_and_save(u.into_mirror());
                    return self.dto(&t);
                }
                UpdateStep::Save(entries) => {
                    self.queued.extend(entries.iter().cloned());
                    self.save(&u.task);
                    return self.dto(&u.task);
                }
            }
        }
    }

    /// Move a task to a lifecycle; one it is in already changes nothing.
    fn transition(&mut self, id: TaskId, to: Lifecycle) -> TaskDto {
        let mut t = self.get(id);
        let before = t.updated_at;
        if t.lifecycle != to {
            t.lifecycle = to;
            t.updated_at = self.now();
            reconcile(&mut t);
        }
        match after_transition(t, before) {
            Some(plan) => {
                let t = self.plan_and_save(plan);
                self.dto(&t)
            }
            None => self.dto(&self.get(id)),
        }
    }

    /// Open tasks are started already.
    fn start(&mut self, id: TaskId) -> TaskDto {
        let to = self.get(id).lifecycle;
        self.transition(id, if to.is_open() { to } else { Lifecycle::Reopened })
    }

    fn reopen(&mut self, id: TaskId) -> TaskDto {
        self.transition(id, Lifecycle::Reopened)
    }

    fn complete(&mut self, id: TaskId) -> TaskDto {
        self.transition(id, Lifecycle::Completed)
    }

    fn archive(&mut self, id: TaskId) -> TaskDto {
        self.transition(id, Lifecycle::NotPlanned)
    }

    fn relate(&mut self, task: &str, kind: &str, other: &str) -> Out<TaskDto> {
        let cmd = RelationCmd {
            task_id: task.into(),
            kind: kind.into(),
            other: other.into(),
        };
        let kind = parse_kind(&cmd.kind)?;
        let (t, far) = (self.resolve(task)?, self.resolve(other)?);
        let mut a = AddRelation::start(cmd, kind, t, far)?;
        loop {
            match &a.step {
                AddStep::CheckCycle(_) => {
                    let rows = self
                        .tasks
                        .iter()
                        .map(|t| RelationRow {
                            id: t.id,
                            relations: t.relations.clone(),
                        })
                        .collect();
                    a = a.on_rows(&rows)?;
                }
                AddStep::ReadCoords => {
                    let (this, far) = (self.coords(&a.t), self.coords(&a.other));
                    a.on_coords(&this, &far);
                }
                AddStep::Save(entries) => {
                    self.queued.extend(entries.iter().cloned());
                    self.save(&a.t);
                    self.save(&a.other);
                    return Ok(self.dto(&a.t));
                }
            }
        }
    }

    fn unrelate(&mut self, task: &str, kind: &str, other: &str) -> TaskDto {
        let kind = ok(parse_kind(&kind.to_string()));
        let (t, far) = (ok(self.resolve(task)), ok(self.resolve(other)));
        let mut r = ok(RemoveRelation::start(kind, t, far));
        loop {
            match &r.step {
                RemoveStep::ReadCoords => {
                    let (this, far) = (self.coords(&r.t), self.coords(&r.other));
                    r.on_coords(&this, &far);
                }
                RemoveStep::Save(entries) => {
                    self.queued.extend(entries.iter().cloned());
                    if r.t_changed {
                        self.save(&r.t);
                    }
                    if r.other_changed {
                        self.save(&r.other);
                    }
                    return self.dto(&r.t);
                }
                RemoveStep::Unchanged => return self.dto(&r.t),
            }
        }
    }

    fn clear(&mut self, task: &str) -> TaskDto {
        let mut c = ClearRelations::start(ok(self.resolve(task)));
        loop {
            match c.next() {
                ClearStep::Unchanged => return self.dto(&c.t),
                ClearStep::Load(id) => {
                    let other = self.get(id);
                    let coords = self.coords(&other);
                    c.on_far_end(other, coords);
                }
                ClearStep::ReadCoords => {
                    let this = self.coords(&c.t);
                    let done = c.finish(&this);
                    self.queued.extend(done.entries.iter().cloned());
                    self.save(&done.t);
                    for o in &done.others {
                        self.save(o);
                    }
                    return self.dto(&done.t);
                }
            }
        }
    }

    fn list(&self, status: Option<&str>, sync: Option<&str>) -> Vec<TaskDto> {
        let f = ok(list_filter(
            None,
            None,
            &status.map(str::to_string),
            &sync.map(str::to_string),
        ));
        self.tasks
            .iter()
            .filter(|t| f.is_open.map_or(true, |o| t.lifecycle.is_open() == o))
            .filter(|t| f.sync_state.map_or(true, |s| t.sync == s))
            .map(|t| self.dto(t))
            .collect()
    }

    /// Go back to the state that was saved as the given version.
    fn roll_back(&mut self, id: TaskId, version: u64) -> TaskDto {
        let states: Vec<&Task> = self.history.iter().filter(|t| t.id == id).collect();
        let s = states[version as usize - 1];
        let snapshot = TaskSnapshot {
            version,
            title: s.title.clone(),
            body: s.body.clone(),
            lifecycle: s.lifecycle,
            sync_state: s.sync,
            priority: s.priority.clone(),
            assignees: s.assignees.clone(),
            remote: s.remote.clone(),
            repo_id: s.repo_id,
            repo_id_recorded: true,
            filing_repo_id: s.filing_repo_id,
        };
        let mut back = rollback(self.get(id), snapshot);
        reconcile(&mut back);
        self.save(&back);
        self.dto(&back)
    }

    fn make_tasks(&mut self, titles: &[&str]) -> Vec<String> {
        titles.iter().map(|t| self.create(None, t).id).collect()
    }
}

#[test]
fn import_mirror_persists_synced_task_with_minted_hash() {
    let mut w = world();
    let mut t = w.imported("123", "imported issue", "from gh");
    t.assignees = vec!["alice".into()];
    w.save_minted(&mut t);
    let dto = w.dto(&t);
    assert_eq!(dto.sync_state, "synced");
    assert!(dto.is_open);
    assert_eq!(dto.state_reason, None);
    assert_eq!(dto.remote.as_ref().unwrap().remote_id, "123");
    assert_eq!(dto.assignees, vec!["alice".to_string()]);
    assert!(!dto.id.is_empty());
    assert_eq!(w.show(&dto.id).remote.unwrap().remote_id, "123");
}

#[test]
fn create_show_and_update_task() {
    let mut w = world();
    let mut t = w.new_draft(None, "ship it");
    t.body = "with feeling".into();
    t.priority = "p1".into();
    w.save_minted(&mut t);
    let dto = w.dto(&t);
    assert!(dto.is_open);
    assert_eq!(dto.state_reason, None);
    assert_eq!(dto.sync_state, "local_only");
    assert_eq!(dto.priority, "p1");
    let updated = w.update(
        t.id,
        Edit {
            title: Some("ship it well".into()),
            priority: Some("p0".into()),
            assignees: Some(vec!["alice".into()]),
            ..Edit::default()
        },
    );
    assert_eq!(updated.title, "ship it well");
    assert_eq!(updated.priority, "p0");
    assert_eq!(updated.assignees, vec!["alice".to_string()]);
}

#[test]
fn list_filters_independently_by_status_and_sync_state() {
    let mut w = world();
    w.create(None, "a");
    let b = w.create(None, "b");
    let mut staged = ok(w.resolve(&b.id));
    staged.sync = SyncState::Staged;
    w.save(&staged);
    assert_eq!(w.list(Some("open"), None).len(), 2);
    assert_eq!(w.list(None, Some("local_only")).len(), 1);
    assert_eq!(w.list(None, Some("staged")).len(), 1);
}

#[test]
fn list_defaults_to_open_and_all_opts_into_closed() {
    let mut w = world();
    let keep = w.create(None, "open");
    let done = w.create(None, "done");
    let id = ok(w.resolve(&done.id)).id;
    w.complete(id);
    let default = w.list(None, None);
    assert_eq!(default.len(), 1);
    assert_eq!(default[0].id, keep.id);
    assert_eq!(w.list(Some("all"), None).len(), 2);
    let closed = w.list(Some("closed"), None);
    assert_eq!(closed.len(), 1);
    assert_eq!(closed[0].id, done.id);
}

#[test]
fn add_relation_persists_to_repo() {
    let mut w = world();
    let ids = w.make_tasks(&["a", "b"]);
    let updated = ok(w.relate(&ids[0], "blocked_by", &ids[1]));
    assert_eq!(updated.relations.len(), 1);
    assert_eq!(updated.relations[0].kind, "blocked_by");
    assert_eq!(updated.relations[0].other, ids[1]);
    let other = w.show(&ids[1]);
    assert_eq!(other.relations.len(), 1);
    assert_eq!(other.relations[0].kind, "blocks");
    assert_eq!(other.relations[0].other, ids[0]);
}

#[test]
fn add_relation_symmetric_kind_mirrors_same_kind() {
    let mut w = world();
    let ids = w.make_tasks(&["a", "b"]);
    ok(w.relate(&ids[0], "related_to", &ids[1]));
    let other = w.show(&ids[1]);
    assert_eq!(other.relations.len(), 1);
    assert_eq!(other.relations[0].kind, "related_to");
    assert_eq!(other.relations[0].other, ids[0]);
}

#[test]
fn add_relation_rejects_self() {
    let mut w = world();
    let ids = w.make_tasks(&["a"]);
    assert_eq!(
        err(w.relate(&ids[0], "related_to", &ids[0])),
        ServiceError::SelfRelation
    );
}

#[test]
fn add_relation_rejects_direct_cycle() {
    let mut w = world();
    let ids = w.make_tasks(&["a", "b"]);
    ok(w.relate(&ids[0], "blocked_by", &ids[1]));
    assert!(matches!(
        err(w.relate(&ids[1], "blocked_by", &ids[0])),
        ServiceError::RelationCycle { .. }
    ));
}

#[test]
fn add_relation_rejects_transitive_cycle_across_axes() {
    let mut w = world();
    let ids = w.make_tasks(&["a", "b", "c"]);
    ok(w.relate(&ids[0], "blocked_by", &ids[1]));
    ok(w.relate(&ids[1], "blocked_by", &ids[2]));
    assert!(matches!(
        err(w.relate(&ids[2], "blocked_by", &ids[0])),
        ServiceError::RelationCycle { .. }
    ));
    assert!(matches!(
        err(w.relate(&ids[0], "blocks", &ids[2])),
        ServiceError::RelationCycle { .. }
    ));
}

#[test]
fn related_to_is_never_cycle_checked() {
    let mut w = world();
    let ids = w.make_tasks(&["a", "b"]);
    ok(w.relate(&ids[0], "related_to", &ids[1]));
    ok(w.relate(&ids[1], "related_to", &ids[0]));
}

#[test]
fn cycle_guard_catches_one_sided_legacy_edge() {
    let mut w = world();
    let ids = w.make_tasks(&["a", "b"]);
    let mut a = ok(w.resolve(&ids[0]));
    let b = ok(w.resolve(&ids[1])).id;
    add_edge(&mut a.relations, RelationKind::ParentOf, b);
    w.save(&a);
    assert!(matches!(
        err(w.relate(&ids[1], "parent_of", &ids[0])),
        ServiceError::RelationCycle { .. }
    ));
}

#[test]
fn remove_relation_drops_edge_and_reciprocal() {
    let mut w = world();
    let ids = w.make_tasks(&["a", "b"]);
    ok(w.relate(&ids[0], "blocked_by", &ids[1]));
    let updated = w.unrelate(&ids[0], "blocked_by", &ids[1]);
    assert!(updated.relations.is_empty());
    assert!(w.show(&ids[1]).relations.is_empty());
}

#[test]
fn clear_relations_strips_all_edges_and_back_edges() {
    let mut w = world();
    let ids = w.make_tasks(&["a", "b", "c"]);
    ok(w.relate(&ids[0], "blocked_by", &ids[1]));
    ok(w.relate(&ids[0], "related_to", &ids[2]));
    let cleared = w.clear(&ids[0]);
    assert!(cleared.relations.is_empty());
    assert!(w.show(&ids[1]).relations.is_empty());
    assert!(w.show(&ids[2]).relations.is_empty());
}

#[test]
fn lifecycle_start_complete_archive() {
    let mut w = world();
    let t = w.create(None, "t");
    let id = ok(w.resolve(&t.id)).id;
    let started = w.start(id);
    assert!(started.is_open);
    assert_eq!(started.state_reason, None);
    let done = w.complete(id);
    assert!(!done.is_open);
    assert_eq!(done.state_reason.as_deref(), Some("completed"));
    let archived = w.archive(id);
    assert!(!archived.is_open);
    assert_eq!(archived.state_reason.as_deref(), Some("not_planned"));
}

#[test]
fn blocked_is_derived_from_relations() {
    let mut w = world();
    let ids = w.make_tasks(&["blocked", "blocker"]);
    ok(w.relate(&ids[0], "blocked_by", &ids[1]));
    let reloaded = w.show(&ids[0]);
    assert!(reloaded.is_open);
    assert!(reloaded
        .relations
        .iter()
        .any(|r| r.kind == "blocked_by" && r.other == ids[1]));
}

#[test]
fn resolve_task_accepts_uuid_and_bare_hash() {
    let mut w = world();
    let dto = w.create(None, "resolve me");
    let friendly = ok(w.resolve(&dto.id));
    assert_eq!(ok(w.resolve(&friendly.id.to_text())).id, friendly.id);
    assert_eq!(ok(w.resolve(&friendly.hash)).id, friendly.id);
}

#[test]
fn resolve_id_returns_canonical_uuid() {
    let mut w = world();
    let dto = w.create(None, "sync me");
    let uuid = ok(w.resolve(&dto.id)).id.to_text();
    assert!(parse_task_id(&uuid).is_some());
    assert_eq!(ok(w.resolve(&uuid)).hash, dto.id);
}

#[test]
fn resolve_task_round_trips_composite_for_bound_task() {
    let mut w = world();
    let (repo, _) = w.bind("widget", "wid");
    let composite = w.create(Some(repo), "bound task").id;
    assert!(composite.starts_with("wid-"));
    let hash = composite.split_once('-').unwrap().1.to_string();
    let by_composite = ok(w.resolve(&composite));
    let by_hash = ok(w.resolve(&hash));
    let by_uuid = ok(w.resolve(&by_composite.id.to_text()));
    assert_eq!(by_composite.id, by_hash.id);
    assert_eq!(by_hash.id, by_uuid.id);
    assert!(matches!(
        err(w.resolve(&format!("nope-{hash}"))),
        ServiceError::PrefixMismatch { .. }
    ));
}

#[test]
fn resolve_task_rejects_malformed_input() {
    let w = world();
    assert!(matches!(err(w.resolve("ZZZ")), ServiceError::BadId(_)));
}

#[test]
fn rollback_restores_repo_id() {
    let mut w = world();
    let (a, _) = w.bind("a", "aaa");
    let mut t = w.new_draft(Some(a), "tracked under A");
    w.save(&t);
    t.repo_id = Some(RepoId(999));
    w.save(&t);
    let back = w.roll_back(t.id, 1);
    assert_eq!(back.repo_id.as_deref(), Some(a.to_text().as_str()));
}

#[test]
fn rollback_restores_intentional_none_repo_id() {
    let mut w = world();
    let mut t = w.new_draft(None, "unbound start");
    w.save(&t);
    t.repo_id = Some(RepoId(999));
    w.save(&t);
    assert_eq!(w.roll_back(t.id, 1).repo_id, None);
}

#[test]
fn rollback_does_not_retarget_filing_repo_id() {
    let mut w = world();
    let (a, _) = w.bind("a", "aaa");
    let mut t = w.new_draft(Some(a), "tracked");
    w.save(&t);
    t.remote = Some(RemoteRef {
        provider: "github".into(),
        remote_id: "1".into(),
        node_id: None,
    });
    t.sync = SyncState::Synced;
    t.baseline = baseline_of(&t);
    w.save(&t);
    t.filing_repo_id = Some(RepoId(999));
    w.save(&t);
    w.roll_back(t.id, 2);
    let reloaded = w.get(t.id);
    assert_eq!(reloaded.filing_repo_id, Some(RepoId(999)));
    assert!(reloaded.remote.is_some());
}

#[test]
fn rollback_restores_original_title() {
    let mut w = world();
    let dto = w.create(None, "original title");
    let id = ok(w.resolve(&dto.id)).id;
    w.update(
        id,
        Edit {
            title: Some("edited title".into()),
            ..Edit::default()
        },
    );
    assert_eq!(w.roll_back(id, 1).title, "original title");
}

fn polled(w: &mut World, option: &str) -> TaskDto {
    let mut t = w.issue_mirror(None, Some("I_7"), Some("PVTI_7"));
    t.project_status_option_id = Some(option.into());
    w.save(&t);
    w.show(&t.id.to_text())
}

#[test]
fn show_surfaces_cached_project_status_display_name() {
    let mut w = world();
    w.attach_board("PVT_kwHO_show");
    let dto = polled(&mut w, "o_wip");
    assert_eq!(dto.project_status.as_deref(), Some("In progress"));
}

#[test]
fn show_projectless_task_has_no_project_status() {
    let mut w = world();
    assert_eq!(polled(&mut w, "o_wip").project_status, None);
}

#[test]
fn show_stale_cached_option_id_renders_none() {
    let mut w = world();
    w.attach_board("PVT_kwHO_stale");
    assert_eq!(polled(&mut w, "o_ghost").project_status, None);
}

#[test]
fn lifecycle_project_mirror_persists_task_change_and_set_status_together() {
    let mut w = world();
    w.attach_board("PVT_kwHO_atomic");
    let (repo, _) = w.bind("r", "rpe");
    let t = w.issue_mirror(Some(repo), Some("I_7"), Some("PVTI_7"));
    w.complete(t.id);
    assert!(!w.get(t.id).lifecycle.is_open());
    assert!(w.kinds().contains(&"set_project_status"));
}

#[test]
fn edit_issue_backed_persists_task_and_update_remote_together() {
    let mut w = world();
    let (repo, _) = w.bind("r", "rpe");
    let t = w.issue_mirror(Some(repo), None, None);
    w.update(
        t.id,
        Edit {
            title: Some("edited".into()),
            ..Edit::default()
        },
    );
    assert_eq!(w.get(t.id).title, "edited");
    assert_eq!(w.kinds(), vec!["update_remote"]);
}

#[test]
fn edit_draft_backed_persists_task_and_update_draft_together() {
    let mut w = world();
    let id = w.orphan_draft("draft", "old body", Some("PVTI_d"));
    w.update(
        id,
        Edit {
            body: Some("new body".into()),
            ..Edit::default()
        },
    );
    assert_eq!(w.get(id).body, "new body");
    assert_eq!(w.kinds(), vec!["update_draft_issue"]);
}

#[test]
fn local_only_edit_writes_task_and_zero_entries() {
    let mut w = world();
    let dto = w.create(None, "local");
    let id = ok(w.resolve(&dto.id)).id;
    w.update(
        id,
        Edit {
            title: Some("local edited".into()),
            ..Edit::default()
        },
    );
    assert_eq!(w.get(id).title, "local edited");
    assert!(w.queued.is_empty());
}

#[test]
fn save_with_outbox_is_the_single_write_path_for_mirror_transitions() {
    let mut w = world();
    let (repo, _) = w.bind("r", "rpe");
    let t = w.issue_mirror(Some(repo), None, None);
    let writes = w.history.len();
    assert!(w.queued.is_empty());
    w.complete(t.id);
    assert_eq!(w.history.len(), writes + 1);
    assert!(!w.get(t.id).lifecycle.is_open());
    assert_eq!(w.kinds(), vec!["update_remote"]);
}

#[test]
fn lifecycle_issue_backed_enqueues_update_remote() {
    let mut w = world();
    let (repo, _) = w.bind("r", "rpe");
    let t = w.issue_mirror(Some(repo), None, None);
    w.reopen(t.id);
    assert_eq!(w.kinds(), vec!["update_remote"]);
}

#[test]
fn lifecycle_reopen_project_mirror_enqueues_set_status_not_close() {
    let mut w = world();
    w.attach_board("PVT_kwHO_block");
    let (repo, _) = w.bind("r", "rpe");
    let t = w.issue_mirror(Some(repo), Some("I_7"), Some("PVTI_7"));
    w.reopen(t.id);
    assert!(w.kinds().contains(&"set_project_status"));
    assert!(w.kinds().contains(&"update_remote"));
    for e in &w.queued {
        if let OutboxMutation::UpdateRemote { closed, .. } = &e.mutation {
            assert_ne!(*closed, Some(true));
        }
    }
}

#[test]
fn lifecycle_local_only_enqueues_nothing() {
    let mut w = world();
    let dto = w.create(None, "local");
    let id = ok(w.resolve(&dto.id)).id;
    w.start(id);
    w.complete(id);
    assert!(w.queued.is_empty());
}

#[test]
fn priority_only_edit_enqueues_nothing() {
    let mut w = world();
    let (repo, _) = w.bind("r", "rpe");
    let t = w.issue_mirror(Some(repo), None, None);
    w.update(
        t.id,
        Edit {
            priority: Some("p0".into()),
            ..Edit::default()
        },
    );
    assert!(w.queued.is_empty());
}

/// Two mirrors with issues 10 and 20 in one repository, by their UUIDs.
fn two_mirrors(w: &mut World) -> (TaskId, String, String) {
    let (repo, _) = w.bind("r", "rpe");
    let a = w.addressable(repo, "10");
    let b = w.addressable(repo, "20");
    (a, a.to_text(), b.to_text())
}

#[test]
fn relation_with_unaddressable_end_enqueues_nothing() {
    let mut w = world();
    let (repo, _) = w.bind("r", "rpe");
    let a = w.addressable(repo, "10");
    let b = w.imported("8", "b", "");
    w.save(&b);
    ok(w.relate(&a.to_text(), "blocked_by", &b.id.to_text()));
    assert!(w.queued.is_empty());
}

#[test]
fn add_blocked_by_enqueues_dependency_with_correct_direction() {
    let mut w = world();
    let (id, a, b) = two_mirrors(&mut w);
    ok(w.relate(&a, "blocked_by", &b));
    assert_eq!(w.queued.len(), 1);
    assert_eq!(w.queued[0].task_id, id);
    match &w.queued[0].mutation {
        OutboxMutation::AddBlockedBy { blocked, blocker } => {
            assert_eq!(blocked.remote_id, "10");
            assert_eq!(blocker.remote_id, "20");
            assert_eq!(blocked.canonical, "github.com/o/r");
            assert_eq!(blocker.canonical, "github.com/o/r");
        }
        other => panic!("{other:?}"),
    }
}

#[test]
fn parent_of_addresses_the_parent_issue() {
    let mut w = world();
    let (_, a, b) = two_mirrors(&mut w);
    ok(w.relate(&a, "parent_of", &b));
    match &w.queued[0].mutation {
        OutboxMutation::AddSubIssue { parent, child } => {
            assert_eq!(parent.remote_id, "10");
            assert_eq!(child.remote_id, "20");
        }
        other => panic!("{other:?}"),
    }
}

#[test]
fn child_of_swaps_to_address_the_parent_issue() {
    let mut w = world();
    let (_, c, d) = two_mirrors(&mut w);
    ok(w.relate(&c, "child_of", &d));
    assert_eq!(w.queued.len(), 1);
    match &w.queued[0].mutation {
        OutboxMutation::AddSubIssue { parent, child } => {
            assert_eq!(parent.remote_id, "20");
            assert_eq!(child.remote_id, "10");
        }
        other => panic!("{other:?}"),
    }
}

#[test]
fn related_to_enqueues_nothing() {
    let mut w = world();
    let (_, a, b) = two_mirrors(&mut w);
    ok(w.relate(&a, "related_to", &b));
    assert!(w.queued.is_empty());
}

#[test]
fn re_adding_an_existing_relation_does_not_double_enqueue() {
    let mut w = world();
    let (_, a, b) = two_mirrors(&mut w);
    ok(w.relate(&a, "blocked_by", &b));
    ok(w.relate(&a, "blocked_by", &b));
    assert_eq!(w.queued.len(), 1);
}

#[test]
fn remove_relation_enqueues_unlink() {
    let mut w = world();
    let (_, a, b) = two_mirrors(&mut w);
    ok(w.relate(&a, "blocked_by", &b));
    w.unrelate(&a, "blocked_by", &b);
    assert_eq!(w.queued.len(), 2);
    match &w.queued[1].mutation {
        OutboxMutation::RemoveBlockedBy { blocked, blocker } => {
            assert_eq!(blocked.remote_id, "10");
            assert_eq!(blocker.remote_id, "20");
        }
        other => panic!("{other:?}"),
    }
}

#[test]
fn clear_relations_enqueues_one_unlink_per_native_edge() {
    let mut w = world();
    let (repo, _) = w.bind("r", "rpe");
    let a = w.addressable(repo, "10").to_text();
    let b = w.addressable(repo, "20").to_text();
    let c = w.addressable(repo, "30").to_text();
    ok(w.relate(&a, "parent_of", &b));
    ok(w.relate(&a, "blocked_by", &c));
    assert_eq!(w.queued.len(), 2);
    w.clear(&a);
    let unlinks: Vec<&OutboxMutation> = w.queued.iter().skip(2).map(|e| &e.mutation).collect();
    assert_eq!(unlinks.len(), 2);
    assert!(unlinks.iter().any(|m| matches!(
        m,
        OutboxMutation::RemoveSubIssue { parent, child }
            if parent.remote_id == "10" && child.remote_id == "20"
    )));
    assert!(unlinks.iter().any(|m| matches!(
        m,
        OutboxMutation::RemoveBlockedBy { blocked, blocker }
            if blocked.remote_id == "10" && blocker.remote_id == "30"
    )));
}

fn repo_edit(repo: RepoId, title: Option<&str>) -> Edit {
    Edit {
        repo_id: Some(repo),
        title: title.map(str::to_string),
        ..Edit::default()
    }
}

fn title_edit(title: &str) -> Edit {
    Edit {
        title: Some(title.into()),
        ..Edit::default()
    }
}

#[test]
fn orphan_draft_edit_with_repo_enqueues_convert() {
    let mut w = world();
    let (repo, _) = w.bind("r", "rpe");
    let id = w.orphan_draft("draft", "b", Some("PVTI_d"));
    w.update(id, repo_edit(repo, None));
    assert_eq!(w.kinds(), vec!["convert_draft_to_issue"]);
}

#[test]
fn orphan_draft_edit_with_repo_and_title_enqueues_update_then_convert() {
    let mut w = world();
    let (repo, _) = w.bind("r", "rpe");
    let id = w.orphan_draft("old title", "old body", Some("PVTI_d"));
    w.update(id, repo_edit(repo, Some("new title")));
    assert_eq!(w.kinds(), vec!["update_draft_issue", "convert_draft_to_issue"]);
    match &w.queued[0].mutation {
        OutboxMutation::UpdateDraftIssue { title, .. } => {
            assert_eq!(title.as_deref(), Some("new title"))
        }
        other => panic!("{other:?}"),
    }
}

#[test]
fn orphan_draft_converts_via_workspace_filing_default() {
    let mut w = world();
    let (_, origin) = w.bind("filing", "fil");
    w.workspace.filing_repo_id = Some(origin);
    let id = w.orphan_draft("draft", "body", Some("PVTI_d"));
    w.update(id, Edit::default());
    let reloaded = w.get(id);
    assert_eq!(reloaded.repo_id, None);
    assert_eq!(reloaded.filing_repo_id, Some(origin));
    assert_eq!(w.kinds(), vec!["convert_draft_to_issue"]);
    match &w.queued[0].mutation {
        OutboxMutation::ConvertDraftToIssue { repo_node_id, .. } => {
            assert_eq!(repo_node_id, "github.com/o/filing")
        }
        other => panic!("{other:?}"),
    }
}

#[test]
fn orphan_draft_filing_recording_is_idempotent_across_edits() {
    let mut w = world();
    let (_, first) = w.bind("first", "fir");
    let (_, second) = w.bind("second", "sec");
    w.workspace.filing_repo_id = Some(first);
    let id = w.orphan_draft("draft", "body", Some("PVTI_d"));
    w.update(id, title_edit("e1"));
    assert_eq!(w.get(id).filing_repo_id, Some(first));
    w.workspace.filing_repo_id = Some(second);
    w.update(id, title_edit("e2"));
    assert_eq!(w.get(id).filing_repo_id, Some(first));
    let converts = w.kinds().iter().filter(|k| **k == "convert_draft_to_issue").count();
    assert_eq!(converts, 1);
}

#[test]
fn orphan_draft_gaining_repo_records_filing_as_logical() {
    let mut w = world();
    let (repo, origin) = w.bind("logical", "log");
    let id = w.orphan_draft("draft", "body", Some("PVTI_d"));
    w.update(id, repo_edit(repo, None));
    assert_eq!(w.get(id).filing_repo_id, Some(origin));
    assert_eq!(w.kinds(), vec!["convert_draft_to_issue"]);
    match &w.queued[0].mutation {
        OutboxMutation::ConvertDraftToIssue { repo_node_id, .. } => {
            assert_eq!(repo_node_id, "github.com/o/logical")
        }
        other => panic!("{other:?}"),
    }
}

#[test]
fn orphan_draft_title_edit_with_workspace_default_enqueues_update_then_convert() {
    let mut w = world();
    let (_, origin) = w.bind("filing", "fil");
    w.workspace.filing_repo_id = Some(origin);
    let id = w.orphan_draft("old title", "old body", Some("PVTI_d"));
    w.update(id, title_edit("new title"));
    assert_eq!(w.get(id).filing_repo_id, Some(origin));
    assert_eq!(w.kinds(), vec!["update_draft_issue", "convert_draft_to_issue"]);
    match &w.queued[0].mutation {
        OutboxMutation::UpdateDraftIssue { title, .. } => {
            assert_eq!(title.as_deref(), Some("new title"))
        }
        other => panic!("{other:?}"),
    }
}

#[test]
fn non_orphan_draft_edit_does_not_record_filing_repo_id() {
    let mut w = world();
    let (_, origin) = w.bind("filing", "fil");
    w.workspace.filing_repo_id = Some(origin);
    let t = w.issue_mirror(None, Some("I_7"), Some("PVTI_7"));
    w.update(t.id, title_edit("edited"));
    assert_eq!(w.get(t.id).filing_repo_id, None);
    assert!(!w.kinds().contains(&"convert_draft_to_issue"));
}

#[test]
fn project_mirror_without_item_id_enqueues_add_item() {
    let mut w = world();
    w.attach_board("PVT_kwHO_lazy");
    let (repo, _) = w.bind("r", "rpe");
    let t = w.issue_mirror(Some(repo), Some("I_7"), None);
    w.reopen(t.id);
    assert!(w.kinds().contains(&"add_item"));
    assert!(w.kinds().contains(&"update_remote"));
}

#[test]
fn first_board_filing_issue_backed_records_logical_filing_repo() {
    let mut w = world();
    w.attach_board("PVT_kwHO_d2_issue");
    let (repo, origin) = w.bind("r", "rpe");
    let t = w.issue_mirror(Some(repo), Some("I_r1"), None);
    assert_eq!(t.filing_repo_id, None);
    w.reopen(t.id);
    assert_eq!(w.get(t.id).filing_repo_id, Some(origin));
    assert!(w.kinds().contains(&"add_item"));
}

#[test]
fn cross_filed_lifecycle_update_targets_filing_repo() {
    let mut w = world();
    let (logical, _) = w.bind("logical", "log");
    let (_, filing) = w.bind("filing", "fil");
    let mut t = w.issue_mirror(Some(logical), Some("I_node"), None);
    t.filing_repo_id = Some(filing);
    w.save(&t);
    w.reopen(t.id);
    let canonical = w.queued.iter().find_map(|e| match &e.mutation {
        OutboxMutation::UpdateRemote { canonical_repo, .. } => Some(canonical_repo.clone()),
        _ => None,
    });
    assert_eq!(canonical.as_deref(), Some("github.com/o/filing"));
}

#[test]
fn first_board_filing_draft_backed_orphan_stays_null_emits_create_draft() {
    let mut w = world();
    w.attach_board("PVT_kwHO_d2_draft");
    let id = w.orphan_draft("board draft", "needs triage", None);
    w.reopen(id);
    assert_eq!(w.get(id).filing_repo_id, None);
    assert!(w.kinds().contains(&"create_draft_issue"));
}

#[test]
fn first_board_filing_orphan_draft_with_ws_default_resolves_to_default() {
    let mut w = world();
    w.attach_board("PVT_kwHO_d2_ws_default");
    let (_, origin) = w.bind("filing", "fil");
    w.workspace.filing_repo_id = Some(origin);
    let id = w.orphan_draft("orphan", "body", None);
    w.reopen(id);
    assert_eq!(w.get(id).filing_repo_id, Some(origin));
    assert!(w.kinds().contains(&"create_draft_issue"));
    w.start(id);
    assert_eq!(w.get(id).filing_repo_id, Some(origin));
}

#[test]
fn already_attached_card_does_not_re_resolve_filing_repo() {
    let mut w = world();
    w.attach_board("PVT_kwHO_d2_attached");
    let (repo, origin) = w.bind("r", "rpe");
    let mut t = w.issue_mirror(Some(repo), Some("I_a1"), Some("PVTI_a1"));
    t.filing_repo_id = Some(origin);
    w.save(&t);
    w.reopen(t.id);
    assert_eq!(w.get(t.id).filing_repo_id, Some(origin));
    assert!(w.kinds().contains(&"set_project_status"));
    assert!(!w.kinds().contains(&"add_item"));
}

#[test]
fn recorded_filing_not_re_resolved_when_workspace_default_changes() {
    let mut w = world();
    w.attach_board("PVT_kwHO_d2_changed");
    let (logical, origin) = w.bind("logical", "log");
    let (_, other) = w.bind("other", "oth");
    let mut t = w.issue_mirror(Some(logical), Some("I_x"), None);
    t.filing_repo_id = Some(origin);
    w.save(&t);
    w.workspace.filing_repo_id = Some(other);
    w.start(t.id);
    assert_eq!(w.get(t.id).filing_repo_id, Some(origin));
    w.reopen(t.id);
    assert_eq!(w.get(t.id).filing_repo_id, Some(origin));
}

#[test]
fn repeat_transition_after_filing_recorded_is_idempotent() {
    let mut w = world();
    w.attach_board("PVT_kwHO_d2_repeat");
    let (repo, origin) = w.bind("r", "rpe");
    let t = w.issue_mirror(Some(repo), Some("I_rep"), None);
    w.reopen(t.id);
    let mut attached = w.get(t.id);
    assert_eq!(attached.filing_repo_id, Some(origin));
    attached.project_item_id = Some("PVTI_rep".into());
    w.save(&attached);
    w.complete(t.id);
    assert_eq!(w.get(t.id).filing_repo_id, Some(origin));
}
