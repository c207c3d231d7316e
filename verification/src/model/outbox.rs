//! Outbound mutations.

use crate::model::ids::TaskId;
use vstd::prelude::*;

verus! {

/// One change owed to the remote host.
#[allow(inconsistent_fields)]
#[derive(Clone, Debug, PartialEq, Eq)]
pub enum OutboxMutation {
    UpdateRemote {
        canonical_repo: String,
        remote_id: String,
        title: Option<String>,
        body: Option<String>,
        closed: Option<bool>,
    },
    AddItem { project_node_id: String, issue_node_id: String },
    CreateDraftIssue { project_node_id: String, title: String, body: String },
    UpdateDraftIssue { item_node_id: String, title: Option<String>, body: Option<String> },
    ConvertDraftToIssue { item_node_id: String, repo_node_id: String },
    SetProjectStatus {
        project_node_id: String,
        item_node_id: String,
        status_field_id: String,
        option_id: String,
    },
    AddSubIssue { parent: IssueCoords, child: IssueCoords },
    RemoveSubIssue { parent: IssueCoords, child: IssueCoords },
    AddBlockedBy { blocked: IssueCoords, blocker: IssueCoords },
    RemoveBlockedBy { blocked: IssueCoords, blocker: IssueCoords },
}

/// Where an issue is found: the canonical URL of the repository it is filed
/// in, and its number there.
#[derive(Debug, PartialEq, Eq)]
pub struct IssueCoords {
    pub canonical: String,
    pub remote_id: String,
}

/// A mutation queued for a task.
#[derive(Clone, Debug, PartialEq, Eq)]
pub struct OutboxEntry {
    pub task_id: TaskId,
    pub mutation: OutboxMutation,
}

impl Clone for IssueCoords {
    fn clone(&self) -> (out: Self)
        ensures
            out == *self,
    {
        IssueCoords { canonical: self.canonical.clone(), remote_id: self.remote_id.clone() }
    }
}

impl OutboxMutation {
    /// The stored name of the mutation's kind.
    pub open spec fn kind_name(self) -> Seq<char> {
        match self {
            OutboxMutation::UpdateRemote { .. } => "update_remote"@,
            OutboxMutation::AddItem { .. } => "add_item"@,
            OutboxMutation::CreateDraftIssue { .. } => "create_draft_issue"@,
            OutboxMutation::UpdateDraftIssue { .. } => "update_draft_issue"@,
            OutboxMutation::ConvertDraftToIssue { .. } => "convert_draft_to_issue"@,
            OutboxMutation::SetProjectStatus { .. } => "set_project_status"@,
            OutboxMutation::AddSubIssue { .. } => "add_sub_issue"@,
            OutboxMutation::RemoveSubIssue { .. } => "remove_sub_issue"@,
            OutboxMutation::AddBlockedBy { .. } => "add_blocked_by"@,
            OutboxMutation::RemoveBlockedBy { .. } => "remove_blocked_by"@,
        }
    }

    /// The stored name of the mutation's kind.
    pub fn kind(&self) -> (out: &'static str)
        ensures
            out@ == self.kind_name(),
    {
        match self {
            OutboxMutation::UpdateRemote { .. } => "update_remote",
            OutboxMutation::AddItem { .. } => "add_item",
            OutboxMutation::CreateDraftIssue { .. } => "create_draft_issue",
            OutboxMutation::UpdateDraftIssue { .. } => "update_draft_issue",
            OutboxMutation::ConvertDraftToIssue { .. } => "convert_draft_to_issue",
            OutboxMutation::SetProjectStatus { .. } => "set_project_status",
            OutboxMutation::AddSubIssue { .. } => "add_sub_issue",
            OutboxMutation::RemoveSubIssue { .. } => "remove_sub_issue",
            OutboxMutation::AddBlockedBy { .. } => "add_blocked_by",
            OutboxMutation::RemoveBlockedBy { .. } => "remove_blocked_by",
        }
    }
}

/// Each mutation queued for `task_id`, in order.
pub open spec fn entries_for(task_id: TaskId, mutations: Seq<OutboxMutation>) -> Seq<OutboxEntry> {
    mutations.map_values(|m: OutboxMutation| OutboxEntry { task_id, mutation: m })
}

/// Queue each mutation for a task, in order.
pub fn into_entries(task_id: TaskId, mutations: Vec<OutboxMutation>) -> (out: Vec<OutboxEntry>)
    ensures
        out@ == entries_for(task_id, mutations@),
{
    let mut out: Vec<OutboxEntry> = Vec::new();
    let ghost all = mutations@;
    for m in it: mutations
        invariant
            it.seq() == all,
            out@ == entries_for(task_id, all).take(it.index()),
    {
        out.push(OutboxEntry { task_id, mutation: m });
        assert(out@ =~= entries_for(task_id, all).take(it.index() + 1));
    }
    assert(entries_for(task_id, all).take(all.len() as int) =~= entries_for(task_id, all));
    out
}

/// Every mutation is queued for the task, in the order planned.
pub proof fn law_every_mutation_is_queued(
    task_id: TaskId,
    mutations: Seq<OutboxMutation>,
    i: int,
)
    ensures
        entries_for(task_id, mutations).len() == mutations.len(),
        0 <= i < mutations.len() ==> entries_for(task_id, mutations)[i].task_id == task_id
            && entries_for(task_id, mutations)[i].mutation == mutations[i],
{
}

/// The stored name of a mutation says what it does.
pub proof fn law_kinds_say_what_they_do(m: OutboxMutation)
    ensures
        m is UpdateRemote ==> m.kind_name() == "update_remote"@,
        m is AddItem ==> m.kind_name() == "add_item"@,
        m is CreateDraftIssue ==> m.kind_name() == "create_draft_issue"@,
        m is UpdateDraftIssue ==> m.kind_name() == "update_draft_issue"@,
        m is ConvertDraftToIssue ==> m.kind_name() == "convert_draft_to_issue"@,
        m is SetProjectStatus ==> m.kind_name() == "set_project_status"@,
        m is AddSubIssue ==> m.kind_name() == "add_sub_issue"@,
        m is RemoveSubIssue ==> m.kind_name() == "remove_sub_issue"@,
        m is AddBlockedBy ==> m.kind_name() == "add_blocked_by"@,
        m is RemoveBlockedBy ==> m.kind_name() == "remove_blocked_by"@,
{
}

} // verus!
