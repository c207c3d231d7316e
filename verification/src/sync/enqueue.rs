//! Which outbound mutations a mirror task owes.

use super::mirror::board_option_for_lifecycle;
use crate::model::outbox::{IssueCoords, OutboxMutation};
use crate::model::project::{self, Project, StatusMapping};
use crate::model::task::{Lifecycle, RelationKind, SyncState, Task};
use vstd::prelude::*;

verus! {

/// Not purely local.
pub open spec fn mirror(task: Task) -> bool {
    task.sync != SyncState::LocalOnly
}

/// Has a real remote issue.
pub open spec fn issue_backed(task: Task) -> bool {
    task.remote is Some
}

/// Is a board draft without an issue.
pub open spec fn draft_backed(task: Task) -> bool {
    task.remote is None && task.project_item_id is Some
}

pub fn is_mirror(task: &Task) -> (yes: bool)
    ensures
        yes == mirror(*task),
{
    task.sync != SyncState::LocalOnly
}

pub fn is_issue_backed(task: &Task) -> (yes: bool)
    ensures
        yes == issue_backed(*task),
{
    task.remote.is_some()
}

pub fn is_draft_backed(task: &Task) -> (yes: bool)
    ensures
        yes == draft_backed(*task),
{
    task.remote.is_none() && task.project_item_id.is_some()
}

/// The card move of a task on a board; `None` where the task is not on it, or
/// the board maps no column to its open/closed bit.
pub open spec fn card_move(project: Project, task: Task) -> Option<OutboxMutation> {
    let column = project::mapped_option(project.status_mappings@, task.lifecycle.open());
    if task.project_item_id is Some && column is Some {
        Some(
            OutboxMutation::SetProjectStatus {
                project_node_id: project.id,
                item_node_id: task.project_item_id->0,
                status_field_id: project.status_field_id,
                option_id: column->0,
            },
        )
    } else {
        None
    }
}

/// Build the card move of a task.
pub fn set_project_status_mutation(project: &Project, task: &Task) -> (out: Option<OutboxMutation>)
    ensures
        out == card_move(*project, *task),
{
    match &task.project_item_id {
        None => None,
        Some(item) => match board_option_for_lifecycle(project, task.lifecycle.is_open()) {
            None => None,
            Some(option_id) => Some(
                OutboxMutation::SetProjectStatus {
                    project_node_id: project.id.clone(),
                    item_node_id: item.clone(),
                    status_field_id: project.status_field_id.clone(),
                    option_id,
                },
            ),
        },
    }
}

/// The value that an optional reference leads to.
pub open spec fn held<T>(o: Option<&T>) -> Option<T> {
    match o {
        Some(v) => Some(*v),
        None => None,
    }
}

/// What the content of a mirror owes: an issue is updated on every change, at
/// the repository it is filed in; a draft only where its content changed.
pub open spec fn content_mutations(
    task: Task,
    filing_canonical: Option<String>,
    content_changed: bool,
) -> Seq<OutboxMutation> {
    if issue_backed(task) {
        if filing_canonical is Some {
            seq![
                OutboxMutation::UpdateRemote {
                    canonical_repo: filing_canonical->0,
                    remote_id: task.remote->0.remote_id,
                    title: Some(task.title),
                    body: Some(task.body),
                    closed: None,
                },
            ]
        } else {
            Seq::empty()
        }
    } else if draft_backed(task) && content_changed {
        seq![
            OutboxMutation::UpdateDraftIssue {
                item_node_id: task.project_item_id->0,
                title: Some(task.title),
                body: Some(task.body),
            },
        ]
    } else {
        Seq::empty()
    }
}

/// What the board owes: the card is moved where the task is on it; else the
/// issue is attached, or a draft created for a task without one. An issue
/// whose node id is not known yet cannot be attached.
pub open spec fn board_mutations(task: Task, project: Option<Project>) -> Seq<OutboxMutation> {
    match project {
        None => Seq::empty(),
        Some(p) => if task.project_item_id is Some {
            match card_move(p, task) {
                Some(m) => seq![m],
                None => Seq::empty(),
            }
        } else if task.remote is Some {
            if task.remote->0.node_id is Some {
                seq![
                    OutboxMutation::AddItem {
                        project_node_id: p.id,
                        issue_node_id: task.remote->0.node_id->0,
                    },
                ]
            } else {
                Seq::empty()
            }
        } else {
            seq![
                OutboxMutation::CreateDraftIssue {
                    project_node_id: p.id,
                    title: task.title,
                    body: task.body,
                },
            ]
        },
    }
}

/// The mutations a task owes after a lifecycle change or a content edit, in
/// the order they are applied. A local task owes none.
pub open spec fn owed(
    task: Task,
    project: Option<Project>,
    filing_canonical: Option<String>,
    content_changed: bool,
) -> Seq<OutboxMutation> {
    if mirror(task) {
        content_mutations(task, filing_canonical, content_changed) + board_mutations(task, project)
    } else {
        Seq::empty()
    }
}

/// Plan the mutations a task owes, in the order they are applied.
/// `filing_canonical` is the canonical URL of the repository that its issue is
/// filed in.
pub fn plan_mutations(
    task: &Task,
    project: Option<&Project>,
    filing_canonical: Option<&str>,
    content_changed: bool,
) -> (out: Vec<OutboxMutation>)
    ensures
        match filing_canonical {
            None => out@ == owed(*task, held(project), None, content_changed),
            Some(c) => exists|url: String|
                url@ == c@ && out@ == #[trigger] owed(
                    *task,
                    held(project),
                    Some(url),
                    content_changed,
                ),
        },
{
    match filing_canonical {
        None => plan_at(task, project, None, content_changed),
        Some(c) => {
            let url: String = c.to_owned();
            plan_at(task, project, Some(&url), content_changed)
        },
    }
}

/// Plan the mutations a task owes, with the URL as it is stored.
pub fn plan_at(
    task: &Task,
    project: Option<&Project>,
    filing_canonical: Option<&String>,
    content_changed: bool,
) -> (out: Vec<OutboxMutation>)
    ensures
        out@ == owed(*task, held(project), held(filing_canonical), content_changed),
{
    let mut out: Vec<OutboxMutation> = Vec::new();
    if !is_mirror(task) {
        return out;
    }
    match &task.remote {
        Some(remote) => match filing_canonical {
            Some(canonical) => {
                out.push(
                    OutboxMutation::UpdateRemote {
                        canonical_repo: canonical.clone(),
                        remote_id: remote.remote_id.clone(),
                        title: Some(task.title.clone()),
                        body: Some(task.body.clone()),
                        closed: None,
                    },
                );
            },
            None => {},
        },
        None => match &task.project_item_id {
            Some(item) => {
                if content_changed {
                    out.push(
                        OutboxMutation::UpdateDraftIssue {
                            item_node_id: item.clone(),
                            title: Some(task.title.clone()),
                            body: Some(task.body.clone()),
                        },
                    );
                }
            },
            None => {},
        },
    }
    assert(out@ =~= content_mutations(*task, held(filing_canonical), content_changed));
    let ghost content = out@;
    match project {
        None => {},
        Some(p) => {
            if task.project_item_id.is_some() {
                match set_project_status_mutation(p, task) {
                    Some(m) => {
                        out.push(m);
                    },
                    None => {},
                }
            } else {
                match &task.remote {
                    Some(remote) => match &remote.node_id {
                        Some(node) => {
                            out.push(
                                OutboxMutation::AddItem {
                                    project_node_id: p.id.clone(),
                                    issue_node_id: node.clone(),
                                },
                            );
                        },
                        None => {},
                    },
                    None => {
                        out.push(
                            OutboxMutation::CreateDraftIssue {
                                project_node_id: p.id.clone(),
                                title: task.title.clone(),
                                body: task.body.clone(),
                            },
                        );
                    },
                }
            }
        },
    }
    assert(out@ =~= content + board_mutations(*task, held(project)));
    out
}

/// A purely local task owes nothing, whatever changed.
pub proof fn law_local_tasks_owe_nothing(
    task: Task,
    project: Option<Project>,
    filing_canonical: Option<String>,
    content_changed: bool,
)
    requires
        task.sync == SyncState::LocalOnly,
    ensures
        owed(task, project, filing_canonical, content_changed).len() == 0,
{
}

/// No plan closes an issue outright, updates a remote issue of a task that has
/// none, or creates a draft for a task that has an issue or is on a board.
pub proof fn law_plans_fit_the_backing(
    task: Task,
    project: Option<Project>,
    filing_canonical: Option<String>,
    content_changed: bool,
    i: int,
)
    requires
        0 <= i < owed(task, project, filing_canonical, content_changed).len(),
    ensures
        match owed(task, project, filing_canonical, content_changed)[i] {
            OutboxMutation::UpdateRemote { closed, canonical_repo, .. } => closed is None
                && issue_backed(task) && filing_canonical == Some(canonical_repo),
            OutboxMutation::UpdateDraftIssue { .. } => draft_backed(task) && content_changed,
            OutboxMutation::CreateDraftIssue { .. } => !issue_backed(task) && !draft_backed(task),
            OutboxMutation::AddItem { .. } => issue_backed(task) && task.project_item_id is None,
            OutboxMutation::SetProjectStatus { .. } => task.project_item_id is Some,
            _ => false,
        },
{
    let content = content_mutations(task, filing_canonical, content_changed);
    let board = board_mutations(task, project);
    if i < content.len() {
        assert(owed(task, project, filing_canonical, content_changed)[i] == content[i]);
    } else {
        assert(owed(task, project, filing_canonical, content_changed)[i] == board[i
            - content.len()]);
    }
}

/// The remote form of an edge between two issues: hierarchy as sub-issues of
/// the parent, blocking as a dependency of the blocked. Other kinds have none.
pub open spec fn edge_mutation(
    kind: RelationKind,
    added: bool,
    this: IssueCoords,
    other: IssueCoords,
) -> Option<OutboxMutation> {
    match kind {
        RelationKind::ParentOf => Some(sub_issue(added, this, other)),
        RelationKind::ChildOf => Some(sub_issue(added, other, this)),
        RelationKind::BlockedBy => Some(dependency(added, this, other)),
        RelationKind::Blocks => Some(dependency(added, other, this)),
        RelationKind::RelatedTo | RelationKind::Duplicates => None,
    }
}

pub open spec fn sub_issue(added: bool, parent: IssueCoords, child: IssueCoords) -> OutboxMutation {
    if added {
        OutboxMutation::AddSubIssue { parent, child }
    } else {
        OutboxMutation::RemoveSubIssue { parent, child }
    }
}

pub open spec fn dependency(
    added: bool,
    blocked: IssueCoords,
    blocker: IssueCoords,
) -> OutboxMutation {
    if added {
        OutboxMutation::AddBlockedBy { blocked, blocker }
    } else {
        OutboxMutation::RemoveBlockedBy { blocked, blocker }
    }
}

/// The mutation that adds or removes an edge between two issues.
pub fn relation_mutation(
    kind: RelationKind,
    added: bool,
    this: &IssueCoords,
    other: &IssueCoords,
) -> (out: Option<OutboxMutation>)
    ensures
        out == edge_mutation(kind, added, *this, *other),
{
    match kind {
        RelationKind::ParentOf => {
            let (parent, child) = (this.clone(), other.clone());
            if added {
                Some(OutboxMutation::AddSubIssue { parent, child })
            } else {
                Some(OutboxMutation::RemoveSubIssue { parent, child })
            }
        },
        RelationKind::ChildOf => {
            let (parent, child) = (other.clone(), this.clone());
            if added {
                Some(OutboxMutation::AddSubIssue { parent, child })
            } else {
                Some(OutboxMutation::RemoveSubIssue { parent, child })
            }
        },
        RelationKind::BlockedBy => {
            let (blocked, blocker) = (this.clone(), other.clone());
            if added {
                Some(OutboxMutation::AddBlockedBy { blocked, blocker })
            } else {
                Some(OutboxMutation::RemoveBlockedBy { blocked, blocker })
            }
        },
        RelationKind::Blocks => {
            let (blocked, blocker) = (other.clone(), this.clone());
            if added {
                Some(OutboxMutation::AddBlockedBy { blocked, blocker })
            } else {
                Some(OutboxMutation::RemoveBlockedBy { blocked, blocker })
            }
        },
        RelationKind::RelatedTo | RelationKind::Duplicates => None,
    }
}

/// An edge has one remote form: stated from either end it is the same.
pub proof fn law_edge_is_the_same_from_both_ends(
    kind: RelationKind,
    added: bool,
    this: IssueCoords,
    other: IssueCoords,
)
    ensures
        edge_mutation(kind, added, this, other) == edge_mutation(
            kind.mirrored(),
            added,
            other,
            this,
        ),
{
}

/// What a mirror owes is exactly this: the live content to its issue, where the
/// repository it is filed in is known, or to its draft, where the content
/// changed; then the card move to the column of its open/closed bit, where it is
/// on the board, or the way onto the board, where it is not. The content comes
/// first.
pub proof fn law_mirror_owes_content_and_card(
    task: Task,
    project: Option<Project>,
    filing: Option<String>,
    content_changed: bool,
    m: int,
)
    requires
        task.sync != SyncState::LocalOnly,
    ensures
        ({
            let plan = owed(task, project, filing, content_changed);
            let open = task.lifecycle != Lifecycle::Completed && task.lifecycle
                != Lifecycle::NotPlanned;
            let columns = project->0.status_mappings@;
            let mapped = exists|k: int|
                0 <= k < columns.len() && (#[trigger] columns[k]).is_open == open;
            let to_issue = task.remote is Some && filing is Some;
            let to_draft = task.remote is None && task.project_item_id is Some && content_changed;
            let moves = project is Some && task.project_item_id is Some && mapped;
            let attaches = project is Some && task.project_item_id is None && task.remote is Some
                && task.remote->0.node_id is Some;
            let drafts = project is Some && task.project_item_id is None && task.remote is None;
            &&& plan.len() == (if to_issue || to_draft {
                1int
            } else {
                0int
            }) + (if moves || attaches || drafts {
                1int
            } else {
                0int
            })
            &&& to_issue ==> plan[0] == (OutboxMutation::UpdateRemote {
                canonical_repo: filing->0,
                remote_id: task.remote->0.remote_id,
                title: Some(task.title),
                body: Some(task.body),
                closed: None,
            })
            &&& to_draft ==> plan[0] == (OutboxMutation::UpdateDraftIssue {
                item_node_id: task.project_item_id->0,
                title: Some(task.title),
                body: Some(task.body),
            })
            &&& moves && 0 <= m < columns.len() && columns[m].is_open == open && (forall|k: int|
                0 <= k < m ==> (#[trigger] columns[k]).is_open != open) ==> plan.last() == (
            OutboxMutation::SetProjectStatus {
                project_node_id: project->0.id,
                item_node_id: task.project_item_id->0,
                status_field_id: project->0.status_field_id,
                option_id: columns[m].option_id,
            })
            &&& attaches ==> plan.last() == (OutboxMutation::AddItem {
                project_node_id: project->0.id,
                issue_node_id: task.remote->0.node_id->0,
            })
            &&& drafts ==> plan.last() == (OutboxMutation::CreateDraftIssue {
                project_node_id: project->0.id,
                title: task.title,
                body: task.body,
            })
        }),
{
    let open = task.lifecycle != Lifecycle::Completed && task.lifecycle != Lifecycle::NotPlanned;
    assert(open == task.lifecycle.open());
    if project is Some {
        let columns = project->0.status_mappings@;
        if exists|k: int| 0 <= k < columns.len() && (#[trigger] columns[k]).is_open == open {
            let first = lemma_first_mapping(columns, open);
            project::law_first_mapping_counts(columns, open, first);
        } else {
            project::law_first_mapping_counts(columns, open, 0);
        }
        project::law_first_mapping_counts(columns, open, m);
    }
    let content = content_mutations(task, filing, content_changed);
    let board = board_mutations(task, project);
    assert(owed(task, project, filing, content_changed) == content + board);
}

proof fn lemma_first_mapping(mappings: Seq<StatusMapping>, open: bool) -> (m: int)
    requires
        exists|k: int|
            0 <= k < mappings.len() && (#[trigger] mappings[k]).is_open == open,
    ensures
        0 <= m < mappings.len(),
        mappings[m].is_open == open,
        forall|k: int| 0 <= k < m ==> (#[trigger] mappings[k]).is_open != open,
    decreases mappings.len(),
{
    let front = mappings.drop_last();
    if exists|k: int| 0 <= k < front.len() && (#[trigger] front[k]).is_open == open {
        let m = lemma_first_mapping(front, open);
        assert forall|k: int| 0 <= k < m implies (#[trigger] mappings[k]).is_open != open by {
            assert(front[k].is_open != open);
        }
        m
    } else {
        let n = mappings.len() - 1;
        let k = choose|k: int|
            0 <= k < mappings.len() && (#[trigger] mappings[k]).is_open == open;
        assert forall|j: int| 0 <= j < n implies (#[trigger] mappings[j]).is_open != open by {
            assert(front[j].is_open != open);
        }
        assert(k == n);
        n
    }
}

/// An edge between two issues reaches the host as a sub-issue of the parent or
/// as a dependency of the one that is blocked, added or removed as asked; the
/// kinds without a direction do not reach it.
pub proof fn law_edges_have_their_remote_form(this: IssueCoords, other: IssueCoords)
    ensures
        edge_mutation(RelationKind::ParentOf, true, this, other) == Some(
            OutboxMutation::AddSubIssue { parent: this, child: other },
        ),
        edge_mutation(RelationKind::ParentOf, false, this, other) == Some(
            OutboxMutation::RemoveSubIssue { parent: this, child: other },
        ),
        edge_mutation(RelationKind::ChildOf, true, this, other) == Some(
            OutboxMutation::AddSubIssue { parent: other, child: this },
        ),
        edge_mutation(RelationKind::ChildOf, false, this, other) == Some(
            OutboxMutation::RemoveSubIssue { parent: other, child: this },
        ),
        edge_mutation(RelationKind::BlockedBy, true, this, other) == Some(
            OutboxMutation::AddBlockedBy { blocked: this, blocker: other },
        ),
        edge_mutation(RelationKind::BlockedBy, false, this, other) == Some(
            OutboxMutation::RemoveBlockedBy { blocked: this, blocker: other },
        ),
        edge_mutation(RelationKind::Blocks, true, this, other) == Some(
            OutboxMutation::AddBlockedBy { blocked: other, blocker: this },
        ),
        edge_mutation(RelationKind::Blocks, false, this, other) == Some(
            OutboxMutation::RemoveBlockedBy { blocked: other, blocker: this },
        ),
        edge_mutation(RelationKind::RelatedTo, true, this, other) is None,
        edge_mutation(RelationKind::RelatedTo, false, this, other) is None,
        edge_mutation(RelationKind::Duplicates, true, this, other) is None,
        edge_mutation(RelationKind::Duplicates, false, this, other) is None,
{
}

/// A task is local until it is staged or synced; it is backed by its issue where
/// it has one, and by its draft where it has none and is on a board.
pub proof fn law_task_is_backed_by_one_thing(task: Task)
    ensures
        mirror(task) <==> task.sync != SyncState::LocalOnly,
        issue_backed(task) <==> task.remote is Some,
        draft_backed(task) <==> task.project_item_id is Some && task.remote is None,
        !(issue_backed(task) && draft_backed(task)),
{
}

} // verus!
