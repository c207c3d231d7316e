//! Project boards and workspaces.

use crate::model::ids::{RepoId, WorkspaceId};
use vstd::prelude::*;

verus! {

/// One column of a board.
#[derive(Clone, Debug, PartialEq, Eq)]
pub struct StatusOption {
    pub option_id: String,
    pub name: String,
    pub ordinal: u32,
}

/// The column that open, or closed, tasks stand in.
#[derive(Clone, Debug, PartialEq, Eq)]
pub struct StatusMapping {
    pub is_open: bool,
    pub option_id: String,
}

/// A project board.
#[derive(Clone, Debug, PartialEq, Eq)]
pub struct Project {
    /// The board's node id.
    pub id: String,
    pub status_field_id: String,
    pub status_options: Vec<StatusOption>,
    pub status_mappings: Vec<StatusMapping>,
}

/// What the rules read of a workspace.
#[derive(Clone, Debug, PartialEq, Eq)]
pub struct Workspace {
    pub id: WorkspaceId,
    /// The node id of the board that the workspace files on.
    pub project_id: Option<String>,
    /// The origin that the workspace files issues in by default.
    pub filing_repo_id: Option<RepoId>,
}

/// The column mapped to an open/closed bit: that of the first mapping for it.
pub open spec fn mapped_option(mappings: Seq<StatusMapping>, is_open: bool) -> Option<String>
    decreases mappings.len(),
{
    if mappings.len() == 0 {
        None
    } else if mappings[0].is_open == is_open {
        Some(mappings[0].option_id)
    } else {
        mapped_option(mappings.drop_first(), is_open)
    }
}

/// The name of the first column with an id.
pub open spec fn option_name(options: Seq<StatusOption>, option_id: Seq<char>) -> Option<String>
    decreases options.len(),
{
    if options.len() == 0 {
        None
    } else if options[0].option_id@ == option_id {
        Some(options[0].name)
    } else {
        option_name(options.drop_first(), option_id)
    }
}

impl Project {
    /// The column that open, or closed, tasks stand in.
    pub fn resolved_option_id_for(&self, is_open: bool) -> (out: Option<String>)
        ensures
            out == mapped_option(self.status_mappings@, is_open),
    {
        let mut i: usize = 0;
        assert(self.status_mappings@.skip(0) =~= self.status_mappings@);
        while i < self.status_mappings.len()
            invariant
                i <= self.status_mappings.len(),
                mapped_option(self.status_mappings@, is_open) == mapped_option(
                    self.status_mappings@.skip(i as int),
                    is_open,
                ),
            decreases self.status_mappings.len() - i,
        {
            assert(self.status_mappings@.skip(i as int).drop_first()
                =~= self.status_mappings@.skip(i as int + 1));
            if self.status_mappings[i].is_open == is_open {
                return Some(self.status_mappings[i].option_id.clone());
            }
            i += 1;
        }
        None
    }

    /// The name of a column; `None` where the board does not own it.
    pub fn option_name_for(&self, option_id: &String) -> (out: Option<String>)
        ensures
            out == option_name(self.status_options@, option_id@),
    {
        let mut i: usize = 0;
        assert(self.status_options@.skip(0) =~= self.status_options@);
        while i < self.status_options.len()
            invariant
                i <= self.status_options.len(),
                option_name(self.status_options@, option_id@) == option_name(
                    self.status_options@.skip(i as int),
                    option_id@,
                ),
            decreases self.status_options.len() - i,
        {
            assert(self.status_options@.skip(i as int).drop_first() =~= self.status_options@.skip(
                i as int + 1,
            ));
            if self.status_options[i].option_id == *option_id {
                return Some(self.status_options[i].name.clone());
            }
            i += 1;
        }
        None
    }
}

/// The column of an open/closed bit is that of the first mapping for it; a bit
/// without a mapping has none.
pub proof fn law_first_mapping_counts(mappings: Seq<StatusMapping>, is_open: bool, m: int)
    ensures
        0 <= m < mappings.len() && mappings[m].is_open == is_open && (forall|k: int|
            0 <= k < m ==> (#[trigger] mappings[k]).is_open != is_open) ==> mapped_option(
            mappings,
            is_open,
        ) == Some(mappings[m].option_id),
        (forall|k: int| 0 <= k < mappings.len() ==> (#[trigger] mappings[k]).is_open != is_open)
            ==> mapped_option(mappings, is_open) is None,
    decreases mappings.len(),
{
    if mappings.len() > 0 {
        let rest = mappings.drop_first();
        law_first_mapping_counts(rest, is_open, m - 1);
        if forall|k: int| 0 <= k < mappings.len() ==> (#[trigger] mappings[k]).is_open != is_open {
            assert(mappings[0].is_open != is_open);
            assert forall|k: int| 0 <= k < rest.len() implies (#[trigger] rest[k]).is_open
                != is_open by {
                assert(mappings[k + 1].is_open != is_open);
            }
        }
        if 0 < m < mappings.len() && mappings[m].is_open == is_open && (forall|k: int|
            0 <= k < m ==> (#[trigger] mappings[k]).is_open != is_open) {
            assert(mappings[0].is_open != is_open);
            assert forall|k: int| 0 <= k < m - 1 implies (#[trigger] rest[k]).is_open
                != is_open by {
                assert(mappings[k + 1].is_open != is_open);
            }
            assert(rest[m - 1] == mappings[m]);
        }
    }
}

/// The name of a column is that of the first one with the id; an id that the
/// board does not own has none.
pub proof fn law_first_column_names(options: Seq<StatusOption>, id: Seq<char>, m: int)
    ensures
        0 <= m < options.len() && options[m].option_id@ == id && (forall|k: int|
            0 <= k < m ==> (#[trigger] options[k]).option_id@ != id) ==> option_name(options, id)
            == Some(options[m].name),
        (forall|k: int| 0 <= k < options.len() ==> (#[trigger] options[k]).option_id@ != id)
            ==> option_name(options, id) is None,
    decreases options.len(),
{
    if options.len() > 0 {
        let rest = options.drop_first();
        law_first_column_names(rest, id, m - 1);
        if forall|k: int| 0 <= k < options.len() ==> (#[trigger] options[k]).option_id@ != id {
            assert(options[0].option_id@ != id);
            assert forall|k: int| 0 <= k < rest.len() implies (#[trigger] rest[k]).option_id@
                != id by {
                assert(options[k + 1].option_id@ != id);
            }
        }
        if 0 < m < options.len() && options[m].option_id@ == id && (forall|k: int|
            0 <= k < m ==> (#[trigger] options[k]).option_id@ != id) {
            assert(options[0].option_id@ != id);
            assert forall|k: int| 0 <= k < m - 1 implies (#[trigger] rest[k]).option_id@
                != id by {
                assert(options[k + 1].option_id@ != id);
            }
            assert(rest[m - 1] == options[m]);
        }
    }
}

} // verus!
