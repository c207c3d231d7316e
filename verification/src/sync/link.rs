//! Re-wiring a task to a different remote issue.
//!
//! A bare link points the task at the issue as asked. A relink is for an issue
//! that moved: the target must be where the host redirects the current one,
//! and the task takes over the target's fields.

use super::error::{self, SyncError};
use super::mirror::{self, copy_inbound_mirror_from_snap, RemoteTaskSnapshot};
use super::pull;
use super::summary::{self, has_prefix, link_summary, SyncSummaryDto};
use crate::model::error::{DomainError, PortError};
use crate::model::ids::RepoId;
use crate::model::names;
use crate::model::task::{records, settle, settled, Lifecycle, RemoteRef, SyncState, Task};
use crate::text;
use vstd::prelude::*;

verus! {

/// What a link does next.
#[derive(Debug, PartialEq, Eq)]
pub enum LinkStep {
    /// Read the canonical URL of the task's repository; an unreadable one is
    /// none.
    ReadCanonical,
    /// Find the binding of the target repository in the workspace.
    FindBinding,
    /// Read the canonical URL of the task's repository.
    ReadCurrent,
    /// Ask the host where it redirects the current issue to.
    DiscoverTarget { canonical: String, remote_id: String },
    /// Fetch the target issue.
    FetchTarget,
    /// Fetch the target issue to see that it is there.
    ProbeTarget,
    /// Wire the task to the issue, as a conflict where it says so.
    LinkTask { instance: RepoId, remote: RemoteRef, conflict: bool },
    /// Fetch the target's comments.
    FetchComments,
    /// Save the task.
    Save,
    /// Replace the task's comments with the fetched ones.
    ReplaceComments,
    /// Drop the task's synced comments.
    ClearComments,
    Done,
}

pub struct Link {
    pub task: Task,
    pub prev: SyncState,
    pub new_canonical: String,
    pub new_remote_id: String,
    pub relink: bool,
    /// The binding of the target repository, once it was found.
    pub instance: Option<RepoId>,
    /// The task points at the target already.
    pub unchanged: bool,
    pub note: Option<String>,
    pub step: LinkStep,
}

/// The task's remote is the target.
pub open spec fn points_at(task: Task, remote_id: Seq<char>) -> bool {
    task.remote is Some && task.remote->0.provider@ == "github"@ && task.remote->0.remote_id@
        == remote_id
}

/// A refusal with a message.
pub open spec fn refuses(e: SyncError, message: Seq<char>) -> bool {
    e matches SyncError::Domain(DomainError::Validation(m)) && m@ == message
}

pub open spec fn not_attached(canonical: Seq<char>) -> Seq<char> {
    "repo "@ + canonical
        + " is not attached to this workspace; run `rl repo attach <url>` first"@
}

pub open spec fn not_clean(s: SyncState) -> Seq<char> {
    "--relink is only safe for synced tasks (current: "@ + error::sync_state_label(s)
        + "); finish syncing first or use bare `task link`"@
}

pub open spec fn no_redirect(canonical: Seq<char>, remote_id: Seq<char>) -> Seq<char> {
    "--relink requires the current remote "@ + canonical + "#"@ + remote_id
        + " to redirect; it does not"@
}

pub open spec fn other_redirect(
    canonical: Seq<char>,
    remote_id: Seq<char>,
    to_canonical: Seq<char>,
    to_remote_id: Seq<char>,
) -> Seq<char> {
    "--relink target "@ + canonical + "#"@ + remote_id
        + " does not match GitHub's redirect target "@ + to_canonical + "#"@ + to_remote_id
}

/// `s` without the leading `github.com/`, however often it stands there.
pub open spec fn without_host(s: Seq<char>) -> Seq<char>
    decreases s.len(),
{
    if "github.com/"@.len() > 0 && summary::starts_with(s, "github.com/"@) {
        without_host(s.skip("github.com/"@.len() as int))
    } else {
        s
    }
}

/// The note on a link to an issue that redirects.
pub open spec fn moved_note(
    canonical: Seq<char>,
    remote_id: Seq<char>,
    to_canonical: Seq<char>,
    to_remote_id: Seq<char>,
) -> Seq<char> {
    "github.com/"@ + without_host(canonical) + "#"@ + remote_id + " 301-redirects to "@
        + to_canonical + "#"@ + to_remote_id + "; linked source URL as requested"@
}

fn strip_host(s: &String) -> (out: String)
    ensures
        out@ == without_host(s@),
    decreases s@.len(),
{
    proof {
        reveal_strlit("github.com/");
    }
    if has_prefix(s.as_str(), "github.com/") {
        let chars = text::chars_of(s.as_str());
        let rest = text::string_of(&chars, 11, chars.len());
        assert(rest@ =~= s@.skip("github.com/"@.len() as int));
        strip_host(&rest)
    } else {
        s.clone()
    }
}

fn validation(message: String) -> (e: SyncError)
    ensures
        refuses(e, message@),
{
    SyncError::Domain(DomainError::Validation(message))
}

impl Link {
    /// What holds of a link at every step.
    pub open spec fn wf(self) -> bool {
        match self.step {
            LinkStep::ReadCurrent
            | LinkStep::DiscoverTarget { .. } => self.relink && self.instance is Some
                && self.task.remote is Some && self.task.sync == SyncState::Synced,
            LinkStep::FetchTarget => self.relink && self.instance is Some,
            LinkStep::ProbeTarget => !self.relink && self.instance is Some,
            LinkStep::LinkTask { instance, remote, conflict } => conflict == !self.relink
                && self.instance == Some(instance) && self.is_target(remote, remote.node_id),
            LinkStep::FetchComments | LinkStep::ReplaceComments => self.relink && self.wired(),
            LinkStep::Save => self.wired(),
            LinkStep::ClearComments => !self.relink && self.wired(),
            LinkStep::Done => self.unchanged || self.wired(),
            _ => true,
        }
    }

    /// The task points at the target. A relinked task is synced, with its own
    /// fields as the baseline; one that was linked as asked is in conflict.
    pub open spec fn wired(self) -> bool {
        &&& points_at(self.task, self.new_remote_id@)
        &&& self.instance is Some
        &&& self.task.repo_id == self.instance
        &&& self.relink ==> self.task.sync == SyncState::Synced && self.task.baseline is Some
            && records(self.task.baseline->0, self.task)
        &&& !self.relink ==> self.task.sync == SyncState::Conflict
    }

    /// Begin a link.
    pub fn start(task: Task, new_canonical: String, new_remote_id: String, relink: bool) -> (out:
        Self)
        ensures
            out.wf(),
            out == (Link {
                task,
                prev: task.sync,
                new_canonical,
                new_remote_id,
                relink,
                instance: None,
                unchanged: false,
                note: None,
                step: if points_at(task, new_remote_id@) {
                    LinkStep::ReadCanonical
                } else {
                    LinkStep::FindBinding
                },
            }),
    {
        let pointing: bool = match &task.remote {
            Some(r) => crate::model::names::same_text(r.provider.as_str(), "github")
                && r.remote_id == new_remote_id,
            None => false,
        };
        let prev = task.sync;
        let step = if pointing {
            LinkStep::ReadCanonical
        } else {
            LinkStep::FindBinding
        };
        Link {
            task,
            prev,
            new_canonical,
            new_remote_id,
            relink,
            instance: None,
            unchanged: false,
            note: None,
            step,
        }
    }

    /// The task's own canonical URL was read: the same issue is left alone.
    pub fn on_canonical(&mut self, canonical: Option<String>)
        requires
            old(self).wf(),
            old(self).step == LinkStep::ReadCanonical,
        ensures
            final(self).wf(),
            canonical is Some && canonical->0@ == old(self).new_canonical@ ==> *final(self) == (
            Link { unchanged: true, step: LinkStep::Done, ..*old(self) }),
            !(canonical is Some && canonical->0@ == old(self).new_canonical@) ==> *final(self) == (
            Link { step: LinkStep::FindBinding, ..*old(self) }),
    {
        let same: bool = match &canonical {
            Some(c) => *c == self.new_canonical,
            None => false,
        };
        if same {
            self.unchanged = true;
            self.step = LinkStep::Done;
        } else {
            self.step = LinkStep::FindBinding;
        }
    }

    /// The target's binding was looked up. It must be there; a relink is
    /// further refused for a task that is not synced, or has no issue.
    pub fn on_binding(&mut self, found: Option<RepoId>) -> (out: Result<(), SyncError>)
        requires
            old(self).wf(),
            old(self).step == LinkStep::FindBinding,
        ensures
            final(self).wf(),
            match out {
                Ok(_) => {
                    &&& found is Some
                    &&& old(self).relink ==> old(self).task.sync == SyncState::Synced
                        && old(self).task.remote is Some
                    &&& *final(self) == (Link {
                        instance: found,
                        step: if old(self).relink {
                            LinkStep::ReadCurrent
                        } else {
                            LinkStep::ProbeTarget
                        },
                        ..*old(self)
                    })
                },
                Err(e) => {
                    &&& *final(self) == *old(self)
                    &&& if found is None {
                        refuses(e, not_attached(old(self).new_canonical@))
                    } else if old(self).task.sync != SyncState::Synced {
                        old(self).relink && refuses(e, not_clean(old(self).task.sync))
                    } else {
                        old(self).relink && old(self).task.remote is None && e
                            == SyncError::NoRemote
                    }
                },
            },
    {
        if found.is_none() {
            let mut m = "repo ".to_owned();
            m.append(self.new_canonical.as_str());
            m.append(" is not attached to this workspace; run `rl repo attach <url>` first");
            return Err(validation(m));
        }
        if self.relink {
            if self.task.sync != SyncState::Synced {
                return Err(
                    validation(
                        error::state_message(
                            "--relink is only safe for synced tasks (current: ",
                            self.task.sync,
                            "); finish syncing first or use bare `task link`",
                        ),
                    ),
                );
            }
            if self.task.remote.is_none() {
                return Err(SyncError::NoRemote);
            }
            self.instance = found;
            self.step = LinkStep::ReadCurrent;
        } else {
            self.instance = found;
            self.step = LinkStep::ProbeTarget;
        }
        Ok(())
    }

    /// The task's own canonical URL was read.
    pub fn on_current(&mut self, canonical: String)
        requires
            old(self).wf(),
            old(self).step == LinkStep::ReadCurrent,
        ensures
            final(self).wf(),
            *final(self) == (Link {
                step: LinkStep::DiscoverTarget {
                    canonical,
                    remote_id: old(self).task.remote->0.remote_id,
                },
                ..*old(self)
            }),
    {
        let remote_id: String = match &self.task.remote {
            Some(r) => r.remote_id.clone(),
            None => String::new(),
        };
        self.step = LinkStep::DiscoverTarget { canonical, remote_id };
    }

    /// The host said where it redirects the current issue to: a relink goes
    /// exactly there.
    pub fn on_target(&mut self, target: Option<(String, String)>) -> (out: Result<(), SyncError>)
        requires
            old(self).wf(),
            old(self).step is DiscoverTarget,
        ensures
            final(self).wf(),
            match out {
                Ok(_) => {
                    &&& (target matches Some(t) && t.0@ == old(self).new_canonical@ && t.1@
                        == old(self).new_remote_id@)
                    &&& *final(self) == (Link { step: LinkStep::FetchTarget, ..*old(self) })
                },
                Err(e) => {
                    &&& *final(self) == *old(self)
                    &&& match target {
                        None => refuses(
                            e,
                            no_redirect(
                                old(self).step->DiscoverTarget_canonical@,
                                old(self).step->DiscoverTarget_remote_id@,
                            ),
                        ),
                        Some(t) => {
                            &&& t.0@ != old(self).new_canonical@ || t.1@
                                != old(self).new_remote_id@
                            &&& refuses(
                                e,
                                other_redirect(
                                    old(self).new_canonical@,
                                    old(self).new_remote_id@,
                                    t.0@,
                                    t.1@,
                                ),
                            )
                        },
                    }
                },
            },
    {
        match &target {
            None => {
                let mut m = "--relink requires the current remote ".to_owned();
                match &self.step {
                    LinkStep::DiscoverTarget { canonical, remote_id } => {
                        m.append(canonical.as_str());
                        m.append("#");
                        m.append(remote_id.as_str());
                    },
                    _ => {},
                }
                m.append(" to redirect; it does not");
                Err(validation(m))
            },
            Some((to_canonical, to_remote_id)) => {
                if *to_canonical != self.new_canonical || *to_remote_id != self.new_remote_id {
                    let mut m = "--relink target ".to_owned();
                    m.append(self.new_canonical.as_str());
                    m.append("#");
                    m.append(self.new_remote_id.as_str());
                    m.append(" does not match GitHub's redirect target ");
                    m.append(to_canonical.as_str());
                    m.append("#");
                    m.append(to_remote_id.as_str());
                    return Err(validation(m));
                }
                self.step = LinkStep::FetchTarget;
                Ok(())
            },
        }
    }

    /// `r` addresses the target.
    pub open spec fn is_target(self, r: RemoteRef, node_id: Option<String>) -> bool {
        r.provider@ == "github"@ && r.remote_id == self.new_remote_id && r.node_id == node_id
    }

    /// The target issue was fetched: its fields are copied onto the task, and
    /// its node id is taken over.
    pub fn on_fetched(&mut self, snap: RemoteTaskSnapshot)
        requires
            old(self).wf(),
            old(self).step == LinkStep::FetchTarget,
        ensures
            final(self).wf(),
            *final(self) == (Link {
                task: Task {
                    title: snap.title,
                    body: snap.body,
                    assignees: final(self).task.assignees,
                    lifecycle: mirror::observed_lifecycle(
                        snap.closed,
                        old(self).task.lifecycle,
                    ),
                    ..old(self).task
                },
                step: final(self).step,
                ..*old(self)
            }),
            final(self).task.assignees@ == snap.assignees@,
            final(self).step matches LinkStep::LinkTask { instance, remote, conflict } && {
                &&& instance == old(self).instance->0
                &&& old(self).is_target(remote, snap.node_id)
                &&& !conflict
            },
    {
        copy_inbound_mirror_from_snap(
            &mut self.task,
            &snap.title,
            &snap.body,
            &snap.assignees,
            snap.closed,
        );
        let instance: RepoId = match self.instance {
            Some(i) => i,
            None => RepoId(0),
        };
        self.step = LinkStep::LinkTask {
            instance,
            remote: RemoteRef {
                provider: "github".to_owned(),
                remote_id: self.new_remote_id.clone(),
                node_id: snap.node_id,
            },
            conflict: false,
        };
    }

    /// The target issue was probed. One that moved is linked as asked, with a
    /// note on where it went; any other failure stands.
    pub fn on_probed(&mut self, reply: Result<(), PortError>) -> (out: Result<(), SyncError>)
        requires
            old(self).wf(),
            old(self).step == LinkStep::ProbeTarget,
        ensures
            final(self).wf(),
            match reply {
                Err(PortError::IssueMoved { to_canonical, to_remote_id }) => {
                    &&& out is Ok
                    &&& final(self).note is Some
                    &&& final(self).note->0@ == moved_note(
                        old(self).new_canonical@,
                        old(self).new_remote_id@,
                        to_canonical@,
                        to_remote_id@,
                    )
                },
                Err(e) => out == Err::<(), SyncError>(SyncError::Port(e)),
                Ok(_) => out is Ok && final(self).note == old(self).note,
            },
            out is Err ==> *final(self) == *old(self),
            out is Ok ==> {
                &&& *final(self) == (Link {
                    note: final(self).note,
                    step: final(self).step,
                    ..*old(self)
                })
                &&& (final(self).step matches LinkStep::LinkTask { instance, remote, conflict } && {
                    &&& instance == old(self).instance->0
                    &&& old(self).is_target(remote, None)
                    &&& conflict
                })
            },
    {
        match reply {
            Ok(_) => {},
            Err(PortError::IssueMoved { to_canonical, to_remote_id }) => {
                let mut m = "github.com/".to_owned();
                let rest = strip_host(&self.new_canonical);
                m.append(rest.as_str());
                m.append("#");
                m.append(self.new_remote_id.as_str());
                m.append(" 301-redirects to ");
                m.append(to_canonical.as_str());
                m.append("#");
                m.append(to_remote_id.as_str());
                m.append("; linked source URL as requested");
                self.note = Some(m);
            },
            Err(e) => {
                return Err(SyncError::Port(e));
            },
        }
        let instance: RepoId = match self.instance {
            Some(i) => i,
            None => RepoId(0),
        };
        self.step = LinkStep::LinkTask {
            instance,
            remote: RemoteRef {
                provider: "github".to_owned(),
                remote_id: self.new_remote_id.clone(),
                node_id: None,
            },
            conflict: true,
        };
        Ok(())
    }

    /// The task was wired to the issue. Whatever else that changed, a relinked
    /// task stays synced, with the target's fields as its baseline, and any
    /// other is in conflict.
    pub fn on_linked(&mut self, task: Task)
        requires
            old(self).wf(),
            old(self).step is LinkTask,
        ensures
            final(self).wf(),
            old(self).relink ==> settled(
                final(self).task,
                old(self).task,
                Task {
                    repo_id: Some(old(self).step->LinkTask_instance),
                    remote: Some(old(self).step->LinkTask_remote),
                    ..task
                },
            ),
            !old(self).relink ==> final(self).task == (Task {
                repo_id: Some(old(self).step->LinkTask_instance),
                remote: Some(old(self).step->LinkTask_remote),
                sync: SyncState::Conflict,
                ..task
            }),
            *final(self) == (Link {
                task: final(self).task,
                step: if old(self).relink {
                    LinkStep::FetchComments
                } else {
                    LinkStep::Save
                },
                ..*old(self)
            }),
    {
        let mut task = task;
        match &self.step {
            LinkStep::LinkTask { instance, remote, .. } => {
                task.repo_id = Some(*instance);
                task.remote = Some(remote.clone());
            },
            _ => {},
        }
        if self.relink {
            self.task = settle(&self.task, task);
            self.step = LinkStep::FetchComments;
        } else {
            task.sync = SyncState::Conflict;
            self.task = task;
            self.step = LinkStep::Save;
        }
    }

    /// The target's comments were fetched.
    pub fn on_comments_fetched(&mut self)
        requires
            old(self).wf(),
            old(self).step == LinkStep::FetchComments,
        ensures
            final(self).wf(),
            *final(self) == (Link { step: LinkStep::Save, ..*old(self) }),
    {
        self.step = LinkStep::Save;
    }

    /// The task was saved; only then are its comments touched.
    pub fn on_saved(&mut self)
        requires
            old(self).wf(),
            old(self).step == LinkStep::Save,
        ensures
            final(self).wf(),
            *final(self) == (Link {
                step: if old(self).relink {
                    LinkStep::ReplaceComments
                } else {
                    LinkStep::ClearComments
                },
                ..*old(self)
            }),
    {
        self.step = if self.relink {
            LinkStep::ReplaceComments
        } else {
            LinkStep::ClearComments
        };
    }

    /// The comments were replaced or dropped.
    pub fn on_comments(&mut self)
        requires
            old(self).wf(),
            old(self).step == LinkStep::ReplaceComments || old(self).step
                == LinkStep::ClearComments,
        ensures
            final(self).wf(),
            *final(self) == (Link { step: LinkStep::Done, ..*old(self) }),
    {
        self.step = LinkStep::Done;
    }

    /// Report the link.
    pub fn finish(self) -> (out: SyncSummaryDto)
        requires
            self.step == LinkStep::Done,
        ensures
            summary::reports(
                out,
                self.task,
                self.prev,
                if self.unchanged {
                    "noop"@
                } else if self.relink {
                    "relinked"@
                } else {
                    "linked"@
                },
                if self.unchanged {
                    None
                } else {
                    self.note
                },
            ),
    {
        if self.unchanged {
            return link_summary(&self.task, self.prev, "noop", None);
        }
        let decision: &str = if self.relink {
            "relinked"
        } else {
            "linked"
        };
        link_summary(&self.task, self.prev, decision, self.note)
    }
}

/// A link that changed something leaves the task on the target. A relinked task
/// is synced, and pulling an issue with its fields sees no drift; one that was
/// linked as asked is in conflict.
pub proof fn law_link_wires_the_target(done: Link, snap: RemoteTaskSnapshot)
    requires
        done.wf(),
        done.step == LinkStep::Done,
        !done.unchanged,
    ensures
        points_at(done.task, done.new_remote_id@),
        done.task.repo_id == done.instance,
        done.task.sync == if done.relink {
            SyncState::Synced
        } else {
            SyncState::Conflict
        },
        done.relink && pull::shows(done.task, snap) ==> !pull::drifted(done.task, snap),
{
}

/// A task points at an issue of the host exactly where that is its remote.
pub proof fn law_pointing_names_the_issue(task: Task, remote_id: Seq<char>)
    ensures
        points_at(task, remote_id) <==> {
            &&& task.remote is Some
            &&& task.remote->0.provider@ == "github"@
            &&& task.remote->0.remote_id@ == remote_id
        },
{
}

/// The host's name is taken off the front of a URL, however often it stands
/// there, and nothing else is.
pub proof fn law_host_is_taken_off(s: Seq<char>)
    ensures
        !exists|rest: Seq<char>| without_host(s) == #[trigger] ("github.com/"@ + rest),
        without_host("github.com/"@ + s) == without_host(s),
        (!exists|rest: Seq<char>| s == #[trigger] ("github.com/"@ + rest)) ==> without_host(s)
            == s,
    decreases s.len(),
{
    reveal_strlit("github.com/");
    let host = "github.com/"@;
    summary::law_prefix_goes_on(s, host);
    assert((host + s).take(host.len() as int) =~= host);
    assert((host + s).skip(host.len() as int) =~= s);
    if summary::starts_with(s, host) {
        law_host_is_taken_off(s.skip(host.len() as int));
    }
}

/// A refusal names what it is about: the repository that is not attached, the
/// state that is not clean, the issue that does not redirect, and the target
/// asked for beside the one that the host redirects to.
pub proof fn law_refusals_name_their_subject(
    canonical: Seq<char>,
    remote_id: Seq<char>,
    to_canonical: Seq<char>,
    to_remote_id: Seq<char>,
    s: SyncState,
)
    ensures
        exists|a: Seq<char>, b: Seq<char>|
            not_attached(canonical) == #[trigger] (a + canonical + b),
        exists|a: Seq<char>, b: Seq<char>|
            not_clean(s) == #[trigger] (a + error::sync_state_label(s) + b),
        exists|a: Seq<char>, b: Seq<char>|
            no_redirect(canonical, remote_id) == #[trigger] (a + canonical + "#"@ + remote_id + b),
        exists|a: Seq<char>, b: Seq<char>|
            other_redirect(canonical, remote_id, to_canonical, to_remote_id) == #[trigger] (a
                + canonical + "#"@ + remote_id + b + to_canonical + "#"@ + to_remote_id),
        exists|a: Seq<char>, b: Seq<char>, c: Seq<char>|
            moved_note(canonical, remote_id, to_canonical, to_remote_id) == #[trigger] (a
                + without_host(canonical) + "#"@ + remote_id + b + to_canonical + "#"@
                + to_remote_id + c),
{
    let attached = " is not attached to this workspace; run `rl repo attach <url>` first"@;
    assert(not_attached(canonical) == "repo "@ + canonical + attached);
    let finish = "); finish syncing first or use bare `task link`"@;
    assert(not_clean(s) == "--relink is only safe for synced tasks (current: "@
        + error::sync_state_label(s) + finish);
    assert(no_redirect(canonical, remote_id) == "--relink requires the current remote "@
        + canonical + "#"@ + remote_id + " to redirect; it does not"@);
    assert(other_redirect(canonical, remote_id, to_canonical, to_remote_id)
        == "--relink target "@ + canonical + "#"@ + remote_id
        + " does not match GitHub's redirect target "@ + to_canonical + "#"@ + to_remote_id);
    assert(moved_note(canonical, remote_id, to_canonical, to_remote_id) == "github.com/"@
        + without_host(canonical) + "#"@ + remote_id + " 301-redirects to "@ + to_canonical
        + "#"@ + to_remote_id + "; linked source URL as requested"@);
}

/// A task that points at the target already, in the same repository, is left
/// alone; any other link goes on to the target's binding.
pub proof fn law_same_issue_is_left_alone(
    task: Task,
    new_canonical: String,
    new_remote_id: String,
    relink: bool,
    out: Link,
    l: &mut Link,
    canonical: Option<String>,
)
    requires
        call_ensures(Link::start, (task, new_canonical, new_remote_id, relink), out),
        call_ensures(Link::on_canonical, (l, canonical), ()),
    ensures
        out.task == task,
        out.prev == task.sync,
        out.new_canonical == new_canonical,
        out.new_remote_id == new_remote_id,
        out.relink == relink,
        !out.unchanged,
        out.note is None,
        out.step == LinkStep::ReadCanonical <==> task.remote is Some
            && task.remote->0.provider@ == "github"@ && task.remote->0.remote_id@
            == new_remote_id@,
        out.step == LinkStep::ReadCanonical || out.step == LinkStep::FindBinding,
        ({
            let same = canonical is Some && canonical->0@ == old(l).new_canonical@;
            &&& same ==> final(l).step == LinkStep::Done && final(l).unchanged
            &&& !same ==> final(l).step == LinkStep::FindBinding && final(l).unchanged == old(l).unchanged
            &&& final(l).task == old(l).task
        }),
{
}

/// The target's repository must be attached. A relink is refused for a task that
/// is not synced or has no issue; it first asks where the present issue went. A
/// bare link first sees that the target is there.
pub proof fn law_link_needs_the_binding(
    l: &mut Link,
    found: Option<RepoId>,
    out: Result<(), SyncError>,
)
    requires
        call_ensures(Link::on_binding, (l, found), out),
    ensures
        out is Ok <==> found is Some && (old(l).relink ==> old(l).task.sync == SyncState::Synced
            && old(l).task.remote is Some),
        out is Err ==> *final(l) == *old(l),
        out is Ok ==> {
            &&& final(l).instance == found
            &&& final(l).task == old(l).task
            &&& old(l).relink ==> final(l).step == LinkStep::ReadCurrent
            &&& !old(l).relink ==> final(l).step == LinkStep::ProbeTarget
        },
{
}

/// A relink goes to the issue that the host redirects the task's own one to, and
/// to no other.
pub proof fn law_relink_follows_the_redirect(
    read: &mut Link,
    l: &mut Link,
    canonical: String,
    target: Option<(String, String)>,
    out: Result<(), SyncError>,
)
    requires
        call_ensures(Link::on_current, (read, canonical), ()),
        call_ensures(Link::on_target, (l, target), out),
    ensures
        final(read).step is DiscoverTarget,
        final(read).step->DiscoverTarget_canonical == canonical,
        final(read).step->DiscoverTarget_remote_id == old(read).task.remote->0.remote_id,
        final(read).task == old(read).task,
        out is Ok <==> (target matches Some(t) && t.0@ == old(l).new_canonical@ && t.1@ == old(l).new_remote_id@),
        out is Ok ==> final(l).step == LinkStep::FetchTarget && final(l).task == old(l).task,
        out is Err ==> *final(l) == *old(l),
{
}

/// A relinked task takes the target's title, body, people, open bit and node id
/// before it is wired to it.
pub proof fn law_relink_takes_the_target_over(l: &mut Link, snap: RemoteTaskSnapshot)
    requires
        call_ensures(Link::on_fetched, (l, snap), ()),
        old(l).instance is Some,
    ensures
        ({
            let was = old(l).task;
            let closed = was.lifecycle == Lifecycle::Completed || was.lifecycle
                == Lifecycle::NotPlanned;
            &&& final(l).task.title == snap.title
            &&& final(l).task.body == snap.body
            &&& final(l).task.assignees@ == snap.assignees@
            &&& final(l).task.lifecycle == if closed == snap.closed {
                was.lifecycle
            } else if snap.closed {
                Lifecycle::Completed
            } else {
                Lifecycle::Reopened
            }
            &&& final(l).task.id == was.id
            &&& final(l).task.relations == was.relations
            &&& final(l).step is LinkTask
            &&& final(l).step->LinkTask_instance == old(l).instance->0
            &&& final(l).step->LinkTask_remote.provider@ == "github"@
            &&& final(l).step->LinkTask_remote.remote_id == old(l).new_remote_id
            &&& final(l).step->LinkTask_remote.node_id == snap.node_id
            &&& !final(l).step->LinkTask_conflict
        }),
{
    mirror::law_lifecycle_follows_the_issue(snap.closed, old(l).task.lifecycle);
}

/// A bare link goes to an issue that is there, or that moved, which is noted;
/// any other failure stands. The task is wired to it as a conflict, and keeps
/// its own fields.
pub proof fn law_bare_link_keeps_the_task(
    l: &mut Link,
    reply: Result<(), PortError>,
    out: Result<(), SyncError>,
)
    requires
        call_ensures(Link::on_probed, (l, reply), out),
        old(l).instance is Some,
    ensures
        out is Ok <==> reply is Ok || reply->Err_0 is IssueMoved,
        out is Err ==> *final(l) == *old(l) && out->Err_0 == SyncError::Port(reply->Err_0),
        out is Ok ==> {
            &&& final(l).task == old(l).task
            &&& final(l).step is LinkTask
            &&& final(l).step->LinkTask_instance == old(l).instance->0
            &&& final(l).step->LinkTask_remote.provider@ == "github"@
            &&& final(l).step->LinkTask_remote.remote_id == old(l).new_remote_id
            &&& final(l).step->LinkTask_remote.node_id is None
            &&& final(l).step->LinkTask_conflict
            &&& reply is Ok ==> final(l).note == old(l).note
            &&& reply is Err ==> final(l).note is Some
        },
{
}

/// The link is saved before its comments are touched: a relinked task gets those
/// of the target, any other loses its synced ones.
pub proof fn law_link_is_saved_before_its_comments(
    fetched: &mut Link,
    saved: &mut Link,
    replaced: &mut Link,
)
    requires
        call_ensures(Link::on_comments_fetched, (fetched,), ()),
        call_ensures(Link::on_saved, (saved,), ()),
        call_ensures(Link::on_comments, (replaced,), ()),
    ensures
        final(fetched).step == LinkStep::Save,
        final(fetched).task == old(fetched).task,
        old(saved).relink ==> final(saved).step == LinkStep::ReplaceComments,
        !old(saved).relink ==> final(saved).step == LinkStep::ClearComments,
        final(saved).task == old(saved).task,
        final(replaced).step == LinkStep::Done,
        final(replaced).task == old(replaced).task,
        final(replaced).unchanged == old(replaced).unchanged,
        final(replaced).note == old(replaced).note,
{
}

/// A link reports whether it changed anything, and whether it was a relink.
pub proof fn law_link_reports_what_it_did(l: Link, out: SyncSummaryDto)
    requires
        call_ensures(Link::finish, (l,), out),
    ensures
        l.unchanged ==> out.decision@ == "noop"@ && out.note is None,
        !l.unchanged && l.relink ==> out.decision@ == "relinked"@ && out.note == l.note,
        !l.unchanged && !l.relink ==> out.decision@ == "linked"@ && out.note == l.note,
        out.previous_state@ == names::sync_name(l.prev),
        out.new_state@ == names::sync_name(l.task.sync),
        out.task_id@ == names::id_form(l.task.id.0 as int),
{
}

/// A linked task is on the target, in its repository: a relinked one synced with
/// what it took over, any other in conflict.
pub proof fn law_linked_task_is_on_the_target(l: &mut Link, task: Task)
    requires
        call_ensures(Link::on_linked, (l, task), ()),
        old(l).step is LinkTask,
    ensures
        final(l).task.remote == Some(old(l).step->LinkTask_remote),
        final(l).task.repo_id == Some(old(l).step->LinkTask_instance),
        old(l).relink ==> {
            &&& final(l).task.sync == SyncState::Synced
            &&& final(l).task.title == old(l).task.title
            &&& final(l).task.body == old(l).task.body
            &&& final(l).task.assignees@ == old(l).task.assignees@
            &&& final(l).task.lifecycle == old(l).task.lifecycle
            &&& final(l).task.baseline is Some
            &&& final(l).task.baseline->0.title == old(l).task.title
            &&& final(l).task.baseline->0.body == old(l).task.body
            &&& final(l).step == LinkStep::FetchComments
        },
        !old(l).relink ==> {
            &&& final(l).task.sync == SyncState::Conflict
            &&& final(l).task.title == task.title
            &&& final(l).task.body == task.body
            &&& final(l).step == LinkStep::Save
        },
{
}

} // verus!
