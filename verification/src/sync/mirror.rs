//! The mirrored fields of a task against its remote issue.

use crate::model::project::{self, Project};
use crate::model::task::{clone_texts, Baseline, Lifecycle, Task};
use crate::text;
use vstd::prelude::*;

verus! {

/// The reason a remote issue's state carries.
#[derive(Clone, Copy, Debug, PartialEq, Eq, Structural)]
pub enum RemoteStateReason {
    Completed,
    NotPlanned,
    Reopened,
}

/// The mirrored fields that differ from the baseline. An absent field does not
/// differ; an empty assignee list clears them.
#[derive(Debug, PartialEq, Eq)]
pub struct MirrorPatch {
    pub title: Option<String>,
    pub body: Option<String>,
    pub status: Option<Lifecycle>,
    pub assignees: Option<Vec<String>>,
}

/// The change sent to a remote issue.
#[derive(Debug, PartialEq, Eq)]
pub struct RemoteTaskUpdate {
    pub canonical_repo: String,
    pub remote_id: String,
    pub title: Option<String>,
    pub body: Option<String>,
    pub closed: Option<bool>,
    pub state_reason: Option<RemoteStateReason>,
    pub assignees: Option<Vec<String>>,
}

/// What the remote host says of an issue.
#[derive(Debug, PartialEq, Eq)]
pub struct RemoteTaskSnapshot {
    pub remote_id: String,
    pub node_id: Option<String>,
    pub title: String,
    pub body: String,
    pub closed: bool,
    pub assignees: Vec<String>,
}

impl MirrorPatch {
    pub open spec fn empty(self) -> bool {
        self.title is None && self.body is None && self.status is None && self.assignees is None
    }

    pub fn is_empty(&self) -> (yes: bool)
        ensures
            yes == self.empty(),
    {
        self.title.is_none() && self.body.is_none() && self.status.is_none()
            && self.assignees.is_none()
    }
}

/// The board column that open, or closed, tasks stand in; `None` where the
/// board maps none to it.
pub fn board_option_for_lifecycle(project: &Project, is_open: bool) -> (out: Option<String>)
    ensures
        out == project::mapped_option(project.status_mappings@, is_open),
{
    project.resolved_option_id_for(is_open)
}

/// The remote open/closed bit and reason of a lifecycle.
pub open spec fn remote_state(lifecycle: Lifecycle) -> (bool, Option<RemoteStateReason>) {
    match lifecycle {
        Lifecycle::Completed => (true, Some(RemoteStateReason::Completed)),
        Lifecycle::NotPlanned => (true, Some(RemoteStateReason::NotPlanned)),
        Lifecycle::Reopened => (false, Some(RemoteStateReason::Reopened)),
        Lifecycle::Open => (false, None),
    }
}

/// The lifecycle once a remote open/closed bit is observed: unchanged where
/// the bit agrees, else completed or reopened.
pub open spec fn observed_lifecycle(remote_closed: bool, current: Lifecycle) -> Lifecycle {
    if remote_closed != current.open() {
        current
    } else if remote_closed {
        Lifecycle::Completed
    } else {
        Lifecycle::Reopened
    }
}

/// Split a lifecycle into the remote issue's closed bit and state reason.
pub fn lifecycle_to_remote_state(lifecycle: Lifecycle) -> (out: (bool, Option<RemoteStateReason>))
    ensures
        out == remote_state(lifecycle),
{
    match lifecycle {
        Lifecycle::Completed => (true, Some(RemoteStateReason::Completed)),
        Lifecycle::NotPlanned => (true, Some(RemoteStateReason::NotPlanned)),
        Lifecycle::Reopened => (false, Some(RemoteStateReason::Reopened)),
        Lifecycle::Open => (false, None),
    }
}

/// Fold a remote closed bit back onto a lifecycle.
pub fn remote_state_to_lifecycle(remote_closed: bool, current: Lifecycle) -> (out: Lifecycle)
    ensures
        out == observed_lifecycle(remote_closed, current),
{
    if remote_closed != current.is_open() {
        current
    } else if remote_closed {
        Lifecycle::Completed
    } else {
        Lifecycle::Reopened
    }
}

/// Observing the bit that a lifecycle itself was sent with leaves it as it is,
/// and after any observation the open bit is the one observed.
pub proof fn law_observation_inverts_projection(lifecycle: Lifecycle, remote_closed: bool)
    ensures
        observed_lifecycle(remote_state(lifecycle).0, lifecycle) == lifecycle,
        remote_state(lifecycle).0 == !lifecycle.open(),
        observed_lifecycle(remote_closed, lifecycle).open() == !remote_closed,
        remote_state(observed_lifecycle(remote_closed, lifecycle)).0 == remote_closed,
        observed_lifecycle(remote_closed, observed_lifecycle(remote_closed, lifecycle))
            == observed_lifecycle(remote_closed, lifecycle),
{
}

/// The same people, in whatever order and however often named.
pub open spec fn same_people(a: Seq<Seq<char>>, b: Seq<Seq<char>>) -> bool {
    a.to_set() == b.to_set()
}

/// Whether `name` stands in the list.
fn names(list: &Vec<String>, name: &String) -> (yes: bool)
    ensures
        yes == text::views(list@).contains(name@),
{
    let mut i: usize = 0;
    while i < list.len()
        invariant
            i <= list.len(),
            forall|k: int| 0 <= k < i ==> text::views(list@)[k] != name@,
        decreases list.len() - i,
    {
        if list[i] == *name {
            assert(text::views(list@)[i as int] == name@);
            return true;
        }
        assert(text::views(list@)[i as int] == list@[i as int]@);
        i += 1;
    }
    assert(!text::views(list@).contains(name@)) by {
        if text::views(list@).contains(name@) {
            let k = choose|k: int|
                0 <= k < text::views(list@).len() && text::views(list@)[k] == name@;
            assert(text::views(list@)[k] != name@);
        }
    }
    false
}

/// Whether everyone in `a` stands in `b`.
fn all_named(a: &Vec<String>, b: &Vec<String>) -> (yes: bool)
    ensures
        yes == text::views(a@).to_set().subset_of(text::views(b@).to_set()),
{
    let ghost sa = text::views(a@).to_set();
    let ghost sb = text::views(b@).to_set();
    let mut i: usize = 0;
    while i < a.len()
        invariant
            i <= a.len(),
            forall|k: int| 0 <= k < i ==> text::views(b@).contains(#[trigger] text::views(a@)[k]),
        decreases a.len() - i,
    {
        assert(text::views(a@)[i as int] == a@[i as int]@);
        if !names(b, &a[i]) {
            assert(text::views(a@).to_set().contains(a@[i as int]@)) by {
                assert(text::views(a@).contains(text::views(a@)[i as int]));
            }
            assert(!text::views(b@).to_set().contains(a@[i as int]@));
            return false;
        }
        i += 1;
    }
    assert forall|x: Seq<char>| text::views(a@).to_set().contains(x) implies text::views(
        b@,
    ).to_set().contains(x) by {
        let k = choose|k: int| 0 <= k < text::views(a@).len() && text::views(a@)[k] == x;
        assert(text::views(b@).contains(text::views(a@)[k]));
    }
    true
}

/// Whether two assignee lists name the same people.
pub fn assignees_equal(a: &Vec<String>, b: &Vec<String>) -> (yes: bool)
    ensures
        yes == same_people(text::views(a@), text::views(b@)),
{
    let forth = all_named(a, b);
    let back = all_named(b, a);
    proof {
        let sa = text::views(a@).to_set();
        let sb = text::views(b@).to_set();
        if forth && back {
            assert(sa =~= sb);
        }
    }
    forth && back
}

/// The remote title, body, assignees and open/closed bit are those of the
/// baseline.
pub open spec fn mirrors(
    title: Seq<char>,
    body: Seq<char>,
    assignees: Seq<Seq<char>>,
    remote_closed: bool,
    baseline: Baseline,
) -> bool {
    &&& title == baseline.title@
    &&& body == baseline.body@
    &&& same_people(assignees, text::views(baseline.assignees@))
    &&& remote_closed == !baseline.lifecycle.open()
}

/// Whether the inbound fields match the baseline.
pub fn inbound_mirrors_baseline(
    title: &String,
    body: &String,
    assignees: &Vec<String>,
    remote_closed: bool,
    baseline: &Baseline,
) -> (yes: bool)
    ensures
        yes == mirrors(title@, body@, text::views(assignees@), remote_closed, *baseline),
{
    *title == baseline.title && *body == baseline.body && assignees_equal(
        assignees,
        &baseline.assignees,
    ) && remote_closed != baseline.lifecycle.is_open()
}

/// Copy the inbound fields onto a task.
pub fn copy_inbound_mirror_from_snap(
    task: &mut Task,
    remote_title: &String,
    remote_body: &String,
    remote_assignees: &Vec<String>,
    remote_closed: bool,
)
    ensures
        *final(task) == (Task {
            title: *remote_title,
            body: *remote_body,
            assignees: final(task).assignees,
            lifecycle: observed_lifecycle(remote_closed, old(task).lifecycle),
            ..*old(task)
        }),
        final(task).assignees@ == remote_assignees@,
{
    task.title = remote_title.clone();
    task.body = remote_body.clone();
    task.assignees = clone_texts(remote_assignees);
    task.lifecycle = remote_state_to_lifecycle(remote_closed, task.lifecycle);
}

/// A task that took over the remote fields no longer differs from them: with
/// those fields as its baseline, the same remote is no drift.
pub proof fn law_pull_settles_drift(
    title: Seq<char>,
    body: Seq<char>,
    assignees: Seq<Seq<char>>,
    remote_closed: bool,
    before: Lifecycle,
    after: Baseline,
)
    requires
        after.title@ == title,
        after.body@ == body,
        text::views(after.assignees@) == assignees,
        after.lifecycle == observed_lifecycle(remote_closed, before),
    ensures
        mirrors(title, body, assignees, remote_closed, after),
{
}

/// The closed bit and reason that a patch sends, where it changes the status.
pub open spec fn patch_state(status: Option<Lifecycle>) -> (
    Option<bool>,
    Option<RemoteStateReason>,
) {
    match status {
        Some(s) => (Some(remote_state(s).0), remote_state(s).1),
        None => (None, None),
    }
}

/// The update that a patch sends; `None` where the patch is empty.
pub fn build_update_from_patch(patch: &MirrorPatch, canonical_repo: &String, remote_id: &String) -> (out:
    Option<RemoteTaskUpdate>)
    ensures
        out is None <==> patch.empty(),
        out matches Some(u) ==> {
            &&& u.canonical_repo == *canonical_repo
            &&& u.remote_id == *remote_id
            &&& u.title == patch.title
            &&& u.body == patch.body
            &&& (u.closed, u.state_reason) == patch_state(patch.status)
            &&& u.assignees is Some <==> patch.assignees is Some
            &&& u.assignees is Some ==> u.assignees->0@ == patch.assignees->0@
        },
{
    if patch.is_empty() {
        return None;
    }
    let (closed, state_reason) = match patch.status {
        Some(s) => {
            let (c, r) = lifecycle_to_remote_state(s);
            (Some(c), r)
        },
        None => (None, None),
    };
    Some(
        RemoteTaskUpdate {
            canonical_repo: canonical_repo.clone(),
            remote_id: remote_id.clone(),
            title: crate::model::task::clone_text(&patch.title),
            body: crate::model::task::clone_text(&patch.body),
            closed,
            state_reason,
            assignees: match &patch.assignees {
                Some(a) => Some(clone_texts(a)),
                None => None,
            },
        },
    )
}

/// An issue is closed exactly where its task is; the reason says whether it was
/// completed or dropped, and that an open one was reopened.
pub proof fn law_issue_state_tells_the_lifecycle(lifecycle: Lifecycle)
    ensures
        remote_state(lifecycle).0 <==> lifecycle == Lifecycle::Completed || lifecycle
            == Lifecycle::NotPlanned,
        remote_state(lifecycle).1 == Some(RemoteStateReason::Completed) <==> lifecycle
            == Lifecycle::Completed,
        remote_state(lifecycle).1 == Some(RemoteStateReason::NotPlanned) <==> lifecycle
            == Lifecycle::NotPlanned,
        remote_state(lifecycle).1 == Some(RemoteStateReason::Reopened) <==> lifecycle
            == Lifecycle::Reopened,
        remote_state(lifecycle).1 is None <==> lifecycle == Lifecycle::Open,
        patch_state(Some(lifecycle)).0 == Some(remote_state(lifecycle).0),
        patch_state(Some(lifecycle)).1 == remote_state(lifecycle).1,
        patch_state(None).0 is None,
        patch_state(None).1 is None,
{
}

/// A task whose issue was closed elsewhere is completed, one whose issue was
/// opened again is reopened, and one that agrees with its issue stays as it is.
pub proof fn law_lifecycle_follows_the_issue(remote_closed: bool, current: Lifecycle)
    ensures
        ({
            let closed = current == Lifecycle::Completed || current == Lifecycle::NotPlanned;
            &&& closed == remote_closed ==> observed_lifecycle(remote_closed, current) == current
            &&& remote_closed && !closed ==> observed_lifecycle(remote_closed, current)
                == Lifecycle::Completed
            &&& !remote_closed && closed ==> observed_lifecycle(remote_closed, current)
                == Lifecycle::Reopened
        }),
{
}

/// `name` stands in the list.
pub open spec fn assigned(list: Seq<String>, name: Seq<char>) -> bool {
    exists|k: int| 0 <= k < list.len() && (#[trigger] list[k])@ == name
}

proof fn lemma_assigned(list: Seq<String>, name: Seq<char>)
    ensures
        text::views(list).to_set().contains(name) == assigned(list, name),
{
    let seen = text::views(list);
    if seen.contains(name) {
        let k = choose|k: int| 0 <= k < seen.len() && seen[k] == name;
        assert(list[k]@ == name);
    }
    if assigned(list, name) {
        let k = choose|k: int| 0 <= k < list.len() && (#[trigger] list[k])@ == name;
        assert(seen[k] == name);
    }
}

/// The remote agrees with the baseline if and only if the titles, the bodies
/// and the open/closed bits are the same and everyone who is assigned on the
/// one side is assigned on the other.
pub proof fn law_mirrored_fields_decide(
    title: Seq<char>,
    body: Seq<char>,
    people: Seq<String>,
    remote_closed: bool,
    baseline: Baseline,
)
    ensures
        mirrors(title, body, text::views(people), remote_closed, baseline) <==> {
            &&& title == baseline.title@
            &&& body == baseline.body@
            &&& forall|k: int|
                0 <= k < people.len() ==> assigned(baseline.assignees@, (#[trigger] people[k])@)
            &&& forall|k: int|
                0 <= k < baseline.assignees@.len() ==> assigned(
                    people,
                    (#[trigger] baseline.assignees@[k])@,
                )
            &&& remote_closed <==> baseline.lifecycle == Lifecycle::Completed
                || baseline.lifecycle == Lifecycle::NotPlanned
        },
{
    let known = baseline.assignees@;
    let a = text::views(people).to_set();
    let b = text::views(known).to_set();
    if a == b {
        assert forall|k: int| 0 <= k < people.len() implies assigned(
            known,
            (#[trigger] people[k])@,
        ) by {
            lemma_assigned(people, people[k]@);
            lemma_assigned(known, people[k]@);
        }
        assert forall|k: int| 0 <= k < known.len() implies assigned(
            people,
            (#[trigger] known[k])@,
        ) by {
            lemma_assigned(people, known[k]@);
            lemma_assigned(known, known[k]@);
        }
    }
    if (forall|k: int| 0 <= k < people.len() ==> assigned(known, (#[trigger] people[k])@)) && (
    forall|k: int| 0 <= k < known.len() ==> assigned(people, (#[trigger] known[k])@)) {
        assert forall|name: Seq<char>| a.contains(name) == b.contains(name) by {
            lemma_assigned(people, name);
            lemma_assigned(known, name);
            if assigned(people, name) {
                let k = choose|k: int| 0 <= k < people.len() && (#[trigger] people[k])@ == name;
                assert(assigned(known, people[k]@));
            }
            if assigned(known, name) {
                let k = choose|k: int| 0 <= k < known.len() && (#[trigger] known[k])@ == name;
                assert(assigned(people, known[k]@));
            }
        }
        assert(a =~= b);
    }
}

/// A patch is empty exactly where no mirrored field differs.
pub proof fn law_empty_patch_changes_nothing(patch: MirrorPatch)
    ensures
        patch.empty() <==> patch.title is None && patch.body is None && patch.status is None
            && patch.assignees is None,
{
}

/// A copy takes the remote's title, body, people and open bit and nothing else.
pub proof fn law_copy_takes_the_mirrored_fields(
    task: &mut Task,
    title: &String,
    body: &String,
    people: &Vec<String>,
    closed: bool,
)
    requires
        call_ensures(copy_inbound_mirror_from_snap, (task, title, body, people, closed), ()),
    ensures
        final(task).title == *title,
        final(task).body == *body,
        final(task).assignees@ == people@,
        closed <==> final(task).lifecycle == Lifecycle::Completed || final(task).lifecycle
            == Lifecycle::NotPlanned,
        (closed <==> old(task).lifecycle == Lifecycle::Completed || old(task).lifecycle
            == Lifecycle::NotPlanned) ==> final(task).lifecycle == old(task).lifecycle,
        final(task).id == old(task).id,
        final(task).sync == old(task).sync,
        final(task).remote == old(task).remote,
        final(task).relations == old(task).relations,
        final(task).comments == old(task).comments,
        final(task).baseline == old(task).baseline,
        final(task).repo_id == old(task).repo_id,
        final(task).filing_repo_id == old(task).filing_repo_id,
        final(task).priority == old(task).priority,
{
}

/// An update carries each field of the patch, to the issue named, and there is
/// none for an empty patch.
pub proof fn law_update_carries_the_patch(
    patch: &MirrorPatch,
    canonical: &String,
    remote_id: &String,
    out: Option<RemoteTaskUpdate>,
)
    requires
        call_ensures(build_update_from_patch, (patch, canonical, remote_id), out),
    ensures
        out is None <==> patch.title is None && patch.body is None && patch.status is None
            && patch.assignees is None,
        out matches Some(u) ==> {
            &&& u.canonical_repo == *canonical
            &&& u.remote_id == *remote_id
            &&& u.title == patch.title
            &&& u.body == patch.body
            &&& u.closed is Some <==> patch.status is Some
            &&& patch.status matches Some(l) ==> u.closed == Some(
                l == Lifecycle::Completed || l == Lifecycle::NotPlanned,
            )
            &&& patch.status is None ==> u.state_reason is None
            &&& u.assignees is Some <==> patch.assignees is Some
            &&& patch.assignees is Some ==> u.assignees->0@ == patch.assignees->0@
        },
{
}

/// Two lists of people are the same where each names everyone that the other
/// does.
pub proof fn law_same_people_in_any_order(a: &Vec<String>, b: &Vec<String>, yes: bool)
    requires
        call_ensures(assignees_equal, (a, b), yes),
    ensures
        yes <==> (forall|k: int| 0 <= k < a@.len() ==> assigned(b@, (#[trigger] a@[k])@)) && (
        forall|k: int| 0 <= k < b@.len() ==> assigned(a@, (#[trigger] b@[k])@)),
{
    let x = text::views(a@).to_set();
    let y = text::views(b@).to_set();
    if x == y {
        assert forall|k: int| 0 <= k < a@.len() implies assigned(b@, (#[trigger] a@[k])@) by {
            lemma_assigned(a@, a@[k]@);
            lemma_assigned(b@, a@[k]@);
        }
        assert forall|k: int| 0 <= k < b@.len() implies assigned(a@, (#[trigger] b@[k])@) by {
            lemma_assigned(a@, b@[k]@);
            lemma_assigned(b@, b@[k]@);
        }
    }
    if (forall|k: int| 0 <= k < a@.len() ==> assigned(b@, (#[trigger] a@[k])@)) && (forall|k: int|
        0 <= k < b@.len() ==> assigned(a@, (#[trigger] b@[k])@)) {
        assert forall|name: Seq<char>| x.contains(name) == y.contains(name) by {
            lemma_assigned(a@, name);
            lemma_assigned(b@, name);
            if assigned(a@, name) {
                let k = choose|k: int| 0 <= k < a@.len() && (#[trigger] a@[k])@ == name;
                assert(assigned(b@, a@[k]@));
            }
            if assigned(b@, name) {
                let k = choose|k: int| 0 <= k < b@.len() && (#[trigger] b@[k])@ == name;
                assert(assigned(a@, b@[k]@));
            }
        }
        assert(x =~= y);
    }
}

} // verus!
