//! Tasks as they are shown.

use crate::model::ids::{TaskId, Timestamp};
use crate::model::names::{self, reason_str, relation_str, sync_str};
use crate::model::project::{self, Project};
use crate::model::task::{
    clone_text, clone_texts, Lifecycle, RelationKind, Task, TaskComment, TaskRelation,
};
use crate::seqs;
use crate::sync::relations;
use crate::sync::summary::{self, remote_dto, RemoteRefDto};
use vstd::prelude::*;

verus! {

#[derive(Debug, PartialEq, Eq)]
pub struct TaskRelationDto {
    pub kind: String,
    pub other: String,
}

#[derive(Debug, PartialEq, Eq)]
pub struct TaskCommentDto {
    pub remote_id: Option<String>,
    pub author: String,
    pub body: String,
    pub created_at: Timestamp,
}

/// A task as it is shown. Where its issue is filed is not shown.
#[derive(Debug, PartialEq, Eq)]
pub struct TaskDto {
    pub id: String,
    pub workspace_id: String,
    pub repo_id: Option<String>,
    pub title: String,
    pub body: String,
    pub is_open: bool,
    pub state_reason: Option<String>,
    pub sync_state: String,
    pub priority: String,
    pub assignees: Vec<String>,
    pub remote: Option<RemoteRefDto>,
    pub relations: Vec<TaskRelationDto>,
    pub comments: Vec<TaskCommentDto>,
    pub blocked_by: Vec<String>,
    pub project_status: Option<String>,
    pub created_at: Timestamp,
    pub updated_at: Timestamp,
}

/// The id that a task is shown by: prefix and hash; the bare hash where no
/// prefix is known; the UUID of a task without a hash.
pub open spec fn display_id(hash: Seq<char>, id: TaskId, prefix: Option<&str>) -> Seq<char> {
    if hash.len() == 0 {
        names::id_form(id.0 as int)
    } else if prefix is Some && prefix->0@.len() > 0 {
        prefix->0@ + "-"@ + hash
    } else {
        hash
    }
}

/// Assemble the id that a task is shown by.
pub fn assemble_task_display_id(t: &Task, prefix: Option<&str>) -> (out: String)
    ensures
        out@ == display_id(t.hash@, t.id, prefix),
{
    if is_empty(t.hash.as_str()) {
        return t.id.to_text();
    }
    match prefix {
        Some(p) => {
            if is_empty(p) {
                t.hash.clone()
            } else {
                let mut out = p.to_owned();
                out.append("-");
                out.append(t.hash.as_str());
                out
            }
        },
        None => t.hash.clone(),
    }
}

fn is_empty(s: &str) -> (yes: bool)
    ensures
        yes == (s@.len() == 0),
{
    s.unicode_len() == 0
}

/// An edge as it is shown; its far end by UUID.
pub open spec fn shows_relation(d: TaskRelationDto, r: TaskRelation) -> bool {
    d.kind@ == names::relation_name(r.kind) && d.other@ == names::id_form(r.other.0 as int)
}

/// A comment as it is shown.
pub open spec fn shows_comment(d: TaskCommentDto, c: TaskComment) -> bool {
    d.remote_id == c.remote_id && d.author == c.author && d.body == c.body && d.created_at
        == c.created_at
}

/// `d` shows the task `t` under a prefix. The status on the board, which the
/// task alone does not tell, is left out.
pub open spec fn shows(d: TaskDto, t: Task, prefix: Option<&str>) -> bool {
    &&& d.id@ == display_id(t.hash@, t.id, prefix)
    &&& d.workspace_id@ == names::id_form(t.workspace_id.0 as int)
    &&& match (d.repo_id, t.repo_id) {
        (Some(s), Some(r)) => s@ == names::id_form(r.0 as int),
        (None, None) => true,
        _ => false,
    }
    &&& d.title == t.title
    &&& d.body == t.body
    &&& d.is_open == t.lifecycle.open()
    &&& match (d.state_reason, names::reason_name(t.lifecycle)) {
        (Some(s), Some(r)) => s@ == r,
        (None, None) => true,
        _ => false,
    }
    &&& d.sync_state@ == names::sync_name(t.sync)
    &&& d.priority == t.priority
    &&& d.assignees@ == t.assignees@
    &&& d.remote == summary::shown_remote(t.remote)
    &&& d.relations@.len() == t.relations@.len()
    &&& forall|i: int|
        0 <= i < t.relations@.len() ==> shows_relation(
            #[trigger] d.relations@[i],
            t.relations@[i],
        )
    &&& d.comments@.len() == t.comments@.len()
    &&& forall|i: int|
        0 <= i < t.comments@.len() ==> shows_comment(#[trigger] d.comments@[i], t.comments@[i])
    &&& shows_ids(d.blocked_by@, blockers(t))
    &&& d.project_status is None
    &&& d.created_at == t.created_at
    &&& d.updated_at == t.updated_at
}

/// The tasks that block this one, in the order of its relations.
pub open spec fn blockers(t: Task) -> Seq<TaskId> {
    relations::far_ends(t.relations@, RelationKind::BlockedBy)
}

/// The text forms of the ids, in order.
pub open spec fn shows_ids(shown: Seq<String>, ids: Seq<TaskId>) -> bool {
    shown.len() == ids.len() && forall|i: int|
        0 <= i < ids.len() ==> (#[trigger] shown[i])@ == names::id_form(ids[i].0 as int)
}

/// The tasks that block this one, in the order of its relations.
pub fn blocked_by(t: &Task) -> (out: Vec<TaskId>)
    ensures
        out@ == blockers(*t),
{
    let mut out: Vec<TaskId> = Vec::new();
    let mut i: usize = 0;
    assert(t.relations@.take(0) =~= Seq::empty());
    while i < t.relations.len()
        invariant
            i <= t.relations.len(),
            out@ == relations::far_ends(t.relations@.take(i as int), RelationKind::BlockedBy),
        decreases t.relations.len() - i,
    {
        assert(t.relations@.take(i as int + 1).drop_last() =~= t.relations@.take(i as int));
        if t.relations[i].kind == RelationKind::BlockedBy {
            out.push(t.relations[i].other);
        }
        i += 1;
    }
    assert(t.relations@.take(i as int) =~= t.relations@);
    out
}

/// Show a task. Related tasks are shown by UUID.
pub fn task_to_dto(t: &Task, prefix: Option<&str>) -> (out: TaskDto)
    ensures
        shows(out, *t, prefix),
{
    let mut shown: Vec<TaskRelationDto> = Vec::new();
    let mut i: usize = 0;
    while i < t.relations.len()
        invariant
            i <= t.relations.len(),
            shown@.len() == i,
            forall|k: int|
                0 <= k < i ==> shows_relation(#[trigger] shown@[k], t.relations@[k]),
        decreases t.relations.len() - i,
    {
        let r: TaskRelation = t.relations[i];
        shown.push(
            TaskRelationDto { kind: relation_str(r.kind).to_owned(), other: r.other.to_text() },
        );
        i += 1;
    }
    let mut comments: Vec<TaskCommentDto> = Vec::new();
    let mut j: usize = 0;
    while j < t.comments.len()
        invariant
            j <= t.comments.len(),
            comments@.len() == j,
            forall|k: int|
                0 <= k < j ==> shows_comment(#[trigger] comments@[k], t.comments@[k]),
        decreases t.comments.len() - j,
    {
        let c = &t.comments[j];
        comments.push(
            TaskCommentDto {
                remote_id: clone_text(&c.remote_id),
                author: c.author.clone(),
                body: c.body.clone(),
                created_at: c.created_at,
            },
        );
        j += 1;
    }
    let blocking = blocked_by(t);
    let mut shown_blockers: Vec<String> = Vec::new();
    let mut k: usize = 0;
    while k < blocking.len()
        invariant
            k <= blocking.len(),
            shown_blockers@.len() == k,
            forall|n: int|
                0 <= n < k ==> (#[trigger] shown_blockers@[n])@ == names::id_form(
                    blocking@[n].0 as int,
                ),
        decreases blocking.len() - k,
    {
        shown_blockers.push(blocking[k].to_text());
        k += 1;
    }
    TaskDto {
        id: assemble_task_display_id(t, prefix),
        workspace_id: t.workspace_id.to_text(),
        repo_id: match t.repo_id {
            Some(r) => Some(r.to_text()),
            None => None,
        },
        title: t.title.clone(),
        body: t.body.clone(),
        is_open: t.lifecycle.is_open(),
        state_reason: match reason_str(t.lifecycle) {
            Some(r) => Some(r.to_owned()),
            None => None,
        },
        sync_state: sync_str(t.sync).to_owned(),
        priority: t.priority.clone(),
        assignees: clone_texts(&t.assignees),
        remote: remote_dto(&t.remote),
        relations: shown,
        comments,
        blocked_by: shown_blockers,
        project_status: None,
        created_at: t.created_at,
        updated_at: t.updated_at,
    }
}

/// The name of the column that a task was last seen in; `None` where none was
/// seen, there is no board, or the board no longer has the column.
pub open spec fn cached_status(option_id: Option<String>, board: Option<&Project>) -> Option<String> {
    if option_id is Some && board is Some {
        project::option_name(board->0.status_options@, option_id->0@)
    } else {
        None
    }
}

/// The name of the column that a task was last seen in.
pub fn cached_project_status(t: &Task, board: Option<&Project>) -> (out: Option<String>)
    ensures
        out == cached_status(t.project_status_option_id, board),
{
    match (&t.project_status_option_id, board) {
        (Some(id), Some(p)) => p.option_name_for(id),
        _ => None,
    }
}

/// Show the related tasks by the ids they are shown by themselves, and the
/// column that the task was last seen in. `others` belongs to the relations in
/// order, `blocking` to the tasks that block this one.
pub fn overlay(
    dto: &mut TaskDto,
    others: Vec<String>,
    blocking: Vec<String>,
    project_status: Option<String>,
)
    requires
        others@.len() == old(dto).relations@.len(),
    ensures
        *final(dto) == (TaskDto {
            relations: final(dto).relations,
            blocked_by: blocking,
            project_status,
            ..*old(dto)
        }),
        final(dto).relations@.len() == old(dto).relations@.len(),
        forall|i: int|
            0 <= i < others@.len() ==> #[trigger] final(dto).relations@[i] == (TaskRelationDto {
                kind: old(dto).relations@[i].kind,
                other: others@[i],
            }),
{
    let mut upgraded: Vec<TaskRelationDto> = Vec::new();
    let mut i: usize = 0;
    while i < others.len()
        invariant
            i <= others.len(),
            *dto == *old(dto),
            others@.len() == dto.relations@.len(),
            upgraded@.len() == i,
            forall|k: int|
                0 <= k < i ==> #[trigger] upgraded@[k] == (TaskRelationDto {
                    kind: dto.relations@[k].kind,
                    other: others@[k],
                }),
        decreases others.len() - i,
    {
        upgraded.push(
            TaskRelationDto { kind: dto.relations[i].kind.clone(), other: others[i].clone() },
        );
        i += 1;
    }
    dto.relations = upgraded;
    dto.blocked_by = blocking;
    dto.project_status = project_status;
}

/// What is shown of a task does not depend on where its issue is filed.
pub proof fn law_filing_is_never_shown(
    d: TaskDto,
    t: Task,
    elsewhere: Task,
    prefix: Option<&str>,
)
    requires
        elsewhere == (Task { filing_repo_id: elsewhere.filing_repo_id, ..t }),
    ensures
        shows(d, t, prefix) == shows(d, elsewhere, prefix),
{
}

/// What is shown of a task is the task: its ids and names, its texts and people,
/// whether it is open and why not, and its issue.
pub proof fn law_dto_shows_the_task(d: TaskDto, t: Task, prefix: Option<&str>)
    requires
        shows(d, t, prefix),
    ensures
        d.title == t.title,
        d.body == t.body,
        d.priority == t.priority,
        d.assignees@ == t.assignees@,
        d.is_open <==> t.lifecycle != Lifecycle::Completed && t.lifecycle != Lifecycle::NotPlanned,
        d.state_reason is None <==> t.lifecycle == Lifecycle::Open,
        t.lifecycle == Lifecycle::Completed ==> d.state_reason->0@ == "completed"@,
        t.lifecycle == Lifecycle::NotPlanned ==> d.state_reason->0@ == "not_planned"@,
        t.lifecycle == Lifecycle::Reopened ==> d.state_reason->0@ == "reopened"@,
        d.sync_state@ == names::sync_name(t.sync),
        d.workspace_id@ == names::id_form(t.workspace_id.0 as int),
        d.repo_id is Some <==> t.repo_id is Some,
        t.repo_id matches Some(r) ==> d.repo_id->0@ == names::id_form(r.0 as int),
        d.remote is Some <==> t.remote is Some,
        t.remote is Some ==> d.remote->0.provider == t.remote->0.provider && d.remote->0.remote_id
            == t.remote->0.remote_id,
        d.created_at == t.created_at,
        d.updated_at == t.updated_at,
{
}

/// Every relation and every comment of a task is shown, in order: a relation by
/// its kind and the other task, a comment by its id, author, text and time.
pub proof fn law_dto_shows_relations_and_comments(
    d: TaskDto,
    t: Task,
    prefix: Option<&str>,
    i: int,
)
    requires
        shows(d, t, prefix),
    ensures
        d.relations@.len() == t.relations@.len(),
        d.comments@.len() == t.comments@.len(),
        0 <= i < t.relations@.len() ==> {
            &&& d.relations@[i].kind@ == names::relation_name(t.relations@[i].kind)
            &&& d.relations@[i].other@ == names::id_form(t.relations@[i].other.0 as int)
        },
        0 <= i < t.comments@.len() ==> {
            &&& d.comments@[i].remote_id == t.comments@[i].remote_id
            &&& d.comments@[i].author == t.comments@[i].author
            &&& d.comments@[i].body == t.comments@[i].body
            &&& d.comments@[i].created_at == t.comments@[i].created_at
        },
{
    if 0 <= i < t.relations@.len() {
        assert(shows_relation(d.relations@[i], t.relations@[i]));
    }
    if 0 <= i < t.comments@.len() {
        assert(shows_comment(d.comments@[i], t.comments@[i]));
    }
}

/// Every task that blocks this one is shown among its blockers, in the order of
/// its relations, and no other is.
pub proof fn law_dto_shows_every_blocker(d: TaskDto, t: Task, prefix: Option<&str>, i: int)
    requires
        shows(d, t, prefix),
    ensures
        ({
            let blocks = |k: int| t.relations@[k].kind == RelationKind::BlockedBy;
            let at = seqs::tally(i, blocks) as int;
            &&& blockers(t).len() == seqs::tally(t.relations@.len() as int, blocks)
            &&& d.blocked_by@.len() == seqs::tally(t.relations@.len() as int, blocks)
            &&& 0 <= i < t.relations@.len() && blocks(i) ==> {
                &&& at < d.blocked_by@.len()
                &&& blockers(t)[at] == t.relations@[i].other
                &&& d.blocked_by@[at]@ == names::id_form(t.relations@[i].other.0 as int)
            }
        }),
{
    let blocks = |k: int| t.relations@[k].kind == RelationKind::BlockedBy;
    let far = |k: int| t.relations@[k].other;
    relations::lemma_far_ends_are_picks(t.relations@, RelationKind::BlockedBy);
    seqs::lemma_picks(t.relations@.len() as int, blocks, far);
    if 0 <= i < t.relations@.len() && blocks(i) {
        let at = seqs::tally(i, blocks) as int;
        assert(d.blocked_by@[at]@ == names::id_form(blockers(t)[at].0 as int));
    }
}

/// A task is shown by its prefix and hash; by the bare hash where no prefix is
/// known; and by its UUID where it has no hash.
pub proof fn law_task_is_shown_by_hash(hash: Seq<char>, id: TaskId, prefix: Option<&str>)
    ensures
        hash.len() == 0 ==> display_id(hash, id, prefix) == names::id_form(id.0 as int),
        hash.len() > 0 && (prefix is None || prefix->0@.len() == 0) ==> display_id(
            hash,
            id,
            prefix,
        ) == hash,
        hash.len() > 0 && prefix is Some && prefix->0@.len() > 0 ==> display_id(hash, id, prefix)
            == prefix->0@.push('-') + hash,
{
    reveal_strlit("-");
    if hash.len() > 0 && prefix is Some && prefix->0@.len() > 0 {
        assert(display_id(hash, id, prefix) =~= prefix->0@.push('-') + hash);
    }
}

/// The column shown is the one that the task was last seen in, by the name that
/// the board has for it; without a board, or with a column that the board does
/// not have, none is.
pub proof fn law_status_is_the_columns_name(
    option_id: Option<String>,
    board: Option<&Project>,
    m: int,
)
    ensures
        option_id is None || board is None ==> cached_status(option_id, board) is None,
        option_id is Some && board is Some ==> {
            let columns = board->0.status_options@;
            let id = option_id->0@;
            &&& 0 <= m < columns.len() && columns[m].option_id@ == id && (forall|k: int|
                0 <= k < m ==> (#[trigger] columns[k]).option_id@ != id) ==> cached_status(
                option_id,
                board,
            ) == Some(columns[m].name)
            &&& (forall|k: int|
                0 <= k < columns.len() ==> (#[trigger] columns[k]).option_id@ != id)
                ==> cached_status(option_id, board) is None
        },
{
    if option_id is Some && board is Some {
        project::law_first_column_names(board->0.status_options@, option_id->0@, m);
    }
}

/// An overlay shows the related tasks by the ids given and keeps their kinds, and
/// sets the blockers and the column; everything else stays.
pub proof fn law_overlay_keeps_the_rest(
    dto: &mut TaskDto,
    others: Vec<String>,
    blocking: Vec<String>,
    status: Option<String>,
    i: int,
)
    requires
        call_ensures(overlay, (dto, others, blocking, status), ()),
        others@.len() == old(dto).relations@.len(),
    ensures
        final(dto).relations@.len() == old(dto).relations@.len(),
        0 <= i < others@.len() ==> final(dto).relations@[i].kind == old(dto).relations@[i].kind
            && final(dto).relations@[i].other == others@[i],
        final(dto).blocked_by == blocking,
        final(dto).project_status == status,
        final(dto).id == old(dto).id,
        final(dto).title == old(dto).title,
        final(dto).body == old(dto).body,
        final(dto).is_open == old(dto).is_open,
        final(dto).state_reason == old(dto).state_reason,
        final(dto).sync_state == old(dto).sync_state,
        final(dto).assignees == old(dto).assignees,
        final(dto).remote == old(dto).remote,
        final(dto).comments == old(dto).comments,
{
    if 0 <= i < others@.len() {
        assert(final(dto).relations@[i].other == others@[i]);
    }
}

} // verus!
