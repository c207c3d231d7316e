//! Resolving a task by UUID, bare hash, or repository prefix and hash.

use super::dto;
use super::error::ServiceError;
use crate::model::error::PortError;
use crate::model::ids::{RepoId, TaskId};
use crate::model::task::Task;
use crate::text::{chars_of, string_of};
use vstd::prelude::*;

verus! {

/// The text form that `format!("{:?}", s)` gives a string: quoted, with
/// characters that do not print escaped.
pub uninterp spec fn debug_form(s: Seq<char>) -> Seq<char>;

/// Calls `<str as core::fmt::Debug>::fmt` through `format!`. Claims only that
/// the text depends on the string alone.
#[verifier::external_body]
fn debug_text(s: &str) -> (out: String)
    ensures
        out@ == debug_form(s@),
{
    format!("{s:?}")
}

/// The place of the last hyphen; -1 where there is none.
pub open spec fn last_hyphen(s: Seq<char>) -> int
    decreases s.len(),
{
    if s.len() == 0 {
        -1
    } else if s.last() == '-' {
        s.len() - 1
    } else {
        last_hyphen(s.drop_last())
    }
}

/// What stands before the last hyphen.
pub open spec fn prefix_part(s: Seq<char>) -> Option<Seq<char>> {
    if last_hyphen(s) < 0 {
        None
    } else {
        Some(s.take(last_hyphen(s)))
    }
}

/// What stands after the last hyphen, or all of it.
pub open spec fn hash_part(s: Seq<char>) -> Seq<char> {
    s.skip(last_hyphen(s) + 1)
}

proof fn lemma_last_hyphen(s: Seq<char>, n: int)
    requires
        0 <= n <= s.len(),
        forall|k: int| n <= k < s.len() ==> s[k] != '-',
    ensures
        last_hyphen(s) == last_hyphen(s.take(n)),
        -1 <= last_hyphen(s) < s.len(),
    decreases s.len(),
{
    if n < s.len() {
        assert(s.drop_last().take(n) =~= s.take(n));
        lemma_last_hyphen(s.drop_last(), n);
    } else {
        assert(s.take(n) =~= s);
        if s.len() > 0 && s.last() != '-' {
            lemma_last_hyphen(s.drop_last(), n - 1);
        }
    }
}

/// The view of an optional string.
pub open spec fn opt_view(s: Option<String>) -> Option<Seq<char>> {
    match s {
        Some(t) => Some(t@),
        None => None,
    }
}

/// Split a query at its last hyphen.
pub fn split_query(query: &str) -> (out: (Option<String>, String))
    ensures
        opt_view(out.0) == prefix_part(query@),
        out.1@ == hash_part(query@),
{
    let chars = chars_of(query);
    let mut n: usize = chars.len();
    while n > 0 && chars[n - 1] != '-'
        invariant
            n <= chars.len(),
            chars@ == query@,
            forall|k: int| n <= k < chars@.len() ==> chars@[k] != '-',
        decreases n,
    {
        n -= 1;
    }
    proof {
        lemma_last_hyphen(query@, n as int);
        if n > 0 {
            assert(query@.take(n as int).last() == '-');
        }
    }
    let hash = string_of(&chars, n, chars.len());
    assert(hash@ =~= hash_part(query@));
    if n == 0 {
        (None, hash)
    } else {
        let prefix = string_of(&chars, 0, n - 1);
        assert(prefix@ =~= query@.take(n - 1));
        (Some(prefix), hash)
    }
}

/// What resolving a query does next.
#[derive(Clone, Copy, Debug, PartialEq, Eq, Structural)]
pub enum ResolveStep {
    /// Read the task with this id.
    Get(TaskId),
    /// Check that the hash, and the prefix where there is one, are well
    /// formed.
    CheckShape,
    /// Find the task with the hash.
    Find,
    /// Read the prefix of the found task's repository.
    ReadPrefix(RepoId),
    /// The task is the one that was found.
    Found,
}

/// Resolving a query.
#[derive(Debug, PartialEq, Eq)]
pub struct Resolve {
    pub query: String,
    pub prefix: Option<String>,
    pub hash: String,
    pub step: ResolveStep,
}

/// A query that asks for a prefix agrees with a task under that prefix alone;
/// one that asks for none agrees with any.
pub open spec fn prefix_agrees(asked: Option<Seq<char>>, actual: Seq<char>) -> bool {
    asked matches Some(p) ==> p == actual
}

/// The refusal of a query whose hash is malformed.
pub open spec fn malformed_hash(e: ServiceError, query: Seq<char>) -> bool {
    e matches ServiceError::BadId(m) && m@ == debug_form(query)
        + " is not a task UUID, bare hash, or prefix-hash composite"@
}

/// The refusal of a query whose prefix is malformed.
pub open spec fn malformed_prefix(e: ServiceError, query: Seq<char>, prefix: Seq<char>) -> bool {
    e matches ServiceError::BadId(m) && m@ == debug_form(query)
        + " has a malformed repo prefix "@ + debug_form(prefix)
}

/// The refusal of a hash that no task has.
pub open spec fn no_such_hash(e: ServiceError, hash: Seq<char>) -> bool {
    e matches ServiceError::Port(PortError::NotFound(m)) && m@ == "task hash "@ + debug_form(hash)
}

impl Resolve {
    /// Begin resolving. A query that reads as a UUID is taken as one.
    pub fn start(query: String, id: Option<TaskId>) -> (out: Self)
        ensures
            out.query == query,
            opt_view(out.prefix) == prefix_part(query@),
            out.hash@ == hash_part(query@),
            out.step == match id {
                Some(t) => ResolveStep::Get(t),
                None => ResolveStep::CheckShape,
            },
    {
        let (prefix, hash) = split_query(query.as_str());
        let step = match id {
            Some(t) => ResolveStep::Get(t),
            None => ResolveStep::CheckShape,
        };
        Resolve { query, prefix, hash, step }
    }

    /// The parts were checked: a malformed one is refused, the hash first.
    pub fn on_shape(&mut self, hash_valid: bool, prefix_valid: bool) -> (out: Result<
        (),
        ServiceError,
    >)
        requires
            old(self).step == ResolveStep::CheckShape,
        ensures
            match out {
                Ok(_) => hash_valid && (old(self).prefix is Some ==> prefix_valid) && *final(self)
                    == (Resolve { step: ResolveStep::Find, ..*old(self) }),
                Err(e) => *final(self) == *old(self) && if !hash_valid {
                    malformed_hash(e, old(self).query@)
                } else {
                    !prefix_valid && old(self).prefix is Some && malformed_prefix(
                        e,
                        old(self).query@,
                        old(self).prefix->0@,
                    )
                },
            },
    {
        if !hash_valid {
            let mut m = debug_text(self.query.as_str());
            m.append(" is not a task UUID, bare hash, or prefix-hash composite");
            return Err(ServiceError::BadId(m));
        }
        match &self.prefix {
            Some(p) => {
                if !prefix_valid {
                    let mut m = debug_text(self.query.as_str());
                    m.append(" has a malformed repo prefix ");
                    m.append(debug_text(p.as_str()).as_str());
                    return Err(ServiceError::BadId(m));
                }
            },
            None => {},
        }
        self.step = ResolveStep::Find;
        Ok(())
    }

    /// The hash was looked up. The hash alone identifies the task; a prefix is
    /// held against that of its repository, and a task without one matches
    /// only the empty prefix.
    pub fn on_found(&mut self, found: Option<&Task>) -> (out: Result<(), ServiceError>)
        requires
            old(self).step == ResolveStep::Find,
        ensures
            match found {
                None => out matches Err(e) && no_such_hash(e, old(self).hash@) && *final(self)
                    == *old(self),
                Some(t) => match (old(self).prefix, t.repo_id) {
                    (Some(_), Some(r)) => out is Ok && *final(self) == (Resolve {
                        step: ResolveStep::ReadPrefix(r),
                        ..*old(self)
                    }),
                    (Some(p), None) => final(self).judged(*old(self), out, p, Seq::empty()),
                    (None, _) => out is Ok && *final(self) == (Resolve {
                        step: ResolveStep::Found,
                        ..*old(self)
                    }),
                },
            },
    {
        match found {
            None => {
                let mut m = "task hash ".to_owned();
                m.append(debug_text(self.hash.as_str()).as_str());
                Err(ServiceError::Port(PortError::NotFound(m)))
            },
            Some(t) => {
                if self.prefix.is_none() {
                    self.step = ResolveStep::Found;
                    return Ok(());
                }
                match t.repo_id {
                    Some(r) => {
                        self.step = ResolveStep::ReadPrefix(r);
                        Ok(())
                    },
                    None => self.judge(String::new()),
                }
            },
        }
    }

    /// The prefix of the found task's repository was read.
    pub fn on_prefix(&mut self, actual: String) -> (out: Result<(), ServiceError>)
        requires
            old(self).step is ReadPrefix,
            old(self).prefix is Some,
        ensures
            final(self).judged(*old(self), out, old(self).prefix->0, actual@),
    {
        self.judge(actual)
    }

    /// The task is found where the prefixes agree, and refused otherwise.
    pub open spec fn judged(
        self,
        before: Resolve,
        out: Result<(), ServiceError>,
        prefix: String,
        actual: Seq<char>,
    ) -> bool {
        if prefix_agrees(Some(prefix@), actual) {
            out is Ok && self == (Resolve { step: ResolveStep::Found, ..before })
        } else {
            self == before && (out matches Err(
                ServiceError::PrefixMismatch { input_prefix, actual_prefix, hash },
            ) && input_prefix == prefix && actual_prefix@ == actual && hash == before.hash)
        }
    }

    fn judge(&mut self, actual: String) -> (out: Result<(), ServiceError>)
        requires
            old(self).prefix is Some,
        ensures
            final(self).judged(*old(self), out, old(self).prefix->0, actual@),
    {
        let same: bool = match &self.prefix {
            Some(p) => *p == actual,
            None => false,
        };
        if same {
            self.step = ResolveStep::Found;
            return Ok(());
        }
        let input_prefix: String = match &self.prefix {
            Some(p) => p.clone(),
            None => String::new(),
        };
        Err(
            ServiceError::PrefixMismatch {
                input_prefix,
                actual_prefix: actual,
                hash: self.hash.clone(),
            },
        )
    }
}

/// A composite id splits back into the prefix and the hash it was made of: the
/// hash holds no hyphen.
pub proof fn law_composite_splits_back(prefix: Seq<char>, hash: Seq<char>)
    requires
        !hash.contains('-'),
    ensures
        prefix_part(prefix.push('-') + hash) == Some(prefix),
        hash_part(prefix.push('-') + hash) == hash,
        prefix_part(hash) is None,
        hash_part(hash) == hash,
{
    let all = prefix.push('-') + hash;
    let n = prefix.len() + 1;
    assert forall|k: int| n <= k < all.len() implies all[k] != '-' by {
        assert(all[k] == hash[k - n]);
        assert(hash.contains(hash[k - n]));
    }
    lemma_last_hyphen(all, n as int);
    assert(all.take(n as int) =~= prefix.push('-'));
    assert(all.take(prefix.len() as int) =~= prefix);
    assert(all.skip(n as int) =~= hash);
    assert forall|k: int| 0 <= k < hash.len() implies hash[k] != '-' by {
        assert(hash.contains(hash[k]));
    }
    lemma_last_hyphen(hash, 0);
    assert(hash.take(0) =~= Seq::<char>::empty());
    assert(hash.skip(0) =~= hash);
}

/// The id that a task is shown by resolves to the task's own hash, under the
/// prefix it was shown with.
pub proof fn law_shown_id_resolves(hash: Seq<char>, id: TaskId, prefix: Option<&str>)
    requires
        hash.len() > 0,
        !hash.contains('-'),
    ensures
        hash_part(dto::display_id(hash, id, prefix)) == hash,
        prefix_part(dto::display_id(hash, id, prefix)) == if prefix is Some && prefix->0@.len()
            > 0 {
            Some(prefix->0@)
        } else {
            None
        },
{
    reveal_strlit("-");
    if prefix is Some && prefix->0@.len() > 0 {
        let p = prefix->0@;
        law_composite_splits_back(p, hash);
        assert(dto::display_id(hash, id, prefix) =~= p.push('-') + hash);
    } else {
        law_composite_splits_back(Seq::empty(), hash);
    }
}

/// A task is found by its bare hash and by its own prefix and hash, and by no
/// other prefix and hash: each of these queries reads as the same hash, and
/// the prefix asked for agrees with the task's exactly where it is the same.
pub proof fn law_query_forms_resolve(hash: Seq<char>, actual: Seq<char>, asked: Seq<char>)
    requires
        !hash.contains('-'),
    ensures
        hash_part(hash) == hash,
        prefix_agrees(prefix_part(hash), actual),
        hash_part(asked.push('-') + hash) == hash,
        prefix_agrees(prefix_part(asked.push('-') + hash), actual) <==> asked == actual,
{
    law_composite_splits_back(asked, hash);
}

/// A query is split at its last hyphen: what stands before it is the prefix,
/// what stands after it the hash. A query without one is all hash.
pub proof fn law_query_splits_at_its_last_hyphen(s: Seq<char>, k: int)
    ensures
        0 <= k < s.len() && s[k] == '-' && (forall|m: int| k < m < s.len() ==> s[m] != '-') ==> {
            &&& prefix_part(s) == Some(s.take(k))
            &&& hash_part(s) == s.skip(k + 1)
        },
        !s.contains('-') ==> prefix_part(s) is None && hash_part(s) == s,
{
    if 0 <= k < s.len() && s[k] == '-' && (forall|m: int| k < m < s.len() ==> s[m] != '-') {
        lemma_last_hyphen(s, k + 1);
        assert(s.take(k + 1).last() == '-');
        assert(last_hyphen(s.take(k + 1)) == k);
    }
    if !s.contains('-') {
        law_composite_splits_back(Seq::empty(), s);
    }
}

/// A task found under the prefix that was asked for is the one; under another
/// it is refused, with both prefixes and the hash named.
pub proof fn law_prefix_decides(
    after: Resolve,
    before: Resolve,
    out: Result<(), ServiceError>,
    prefix: String,
    actual: Seq<char>,
)
    requires
        after.judged(before, out, prefix, actual),
    ensures
        out is Ok <==> prefix@ == actual,
        out is Ok ==> after.step == ResolveStep::Found,
        out is Err ==> after == before && (out->Err_0 matches ServiceError::PrefixMismatch {
            input_prefix,
            actual_prefix,
            hash,
        } && input_prefix@ == prefix@ && actual_prefix@ == actual && hash@ == before.hash@),
{
}

/// A query that reads as a UUID is taken as one; any other is checked first. A
/// malformed hash is refused, and so is a malformed prefix where there is one.
pub proof fn law_malformed_queries_are_refused(
    query: String,
    id: Option<TaskId>,
    started: Resolve,
    r: &mut Resolve,
    hash_valid: bool,
    prefix_valid: bool,
    out: Result<(), ServiceError>,
)
    requires
        call_ensures(Resolve::start, (query, id), started),
        call_ensures(Resolve::on_shape, (r, hash_valid, prefix_valid), out),
    ensures
        started.query == query,
        id matches Some(t) ==> started.step == ResolveStep::Get(t),
        id is None ==> started.step == ResolveStep::CheckShape,
        started.hash@ == hash_part(query@),
        started.prefix is Some <==> prefix_part(query@) is Some,
        started.prefix is Some ==> started.prefix->0@ == prefix_part(query@)->0,
        out is Ok <==> hash_valid && (old(r).prefix is Some ==> prefix_valid),
        out matches Err(e) ==> e is BadId && *final(r) == *old(r),
        out is Ok ==> final(r).step == ResolveStep::Find && final(r).hash == old(r).hash && final(r).prefix == old(r).prefix,
{
}

/// A hash that no task has is not found. A bare hash finds its task; with a
/// prefix the task is held against that of its repository, and a task without
/// one has the empty prefix.
pub proof fn law_hash_finds_its_task(
    r: &mut Resolve,
    found: Option<&Task>,
    out: Result<(), ServiceError>,
)
    requires
        call_ensures(Resolve::on_found, (r, found), out),
    ensures
        found is None ==> out is Err && out->Err_0 is Port && *final(r) == *old(r),
        found is Some && old(r).prefix is None ==> out is Ok && final(r).step
            == ResolveStep::Found,
        found is Some && old(r).prefix is Some ==> (found->0.repo_id matches Some(repo) ==> out
            is Ok && final(r).step == ResolveStep::ReadPrefix(repo)),
        found is Some && old(r).prefix is Some && found->0.repo_id is None ==> (out is Ok <==> old(r).prefix->0@.len() == 0),
{
    if found is Some && old(r).prefix is Some && found->0.repo_id is None {
        let p = old(r).prefix->0@;
        if p.len() == 0 {
            assert(p =~= Seq::empty());
        }
    }
}

/// The prefix of the found task's repository must be the one asked for.
pub proof fn law_other_prefix_is_refused(
    r: &mut Resolve,
    actual: String,
    out: Result<(), ServiceError>,
)
    requires
        call_ensures(Resolve::on_prefix, (r, actual), out),
    ensures
        out is Ok <==> old(r).prefix->0@ == actual@,
        out is Ok ==> final(r).step == ResolveStep::Found,
        out matches Err(e) ==> {
            &&& e is PrefixMismatch
            &&& e->input_prefix == old(r).prefix->0
            &&& e->actual_prefix@ == actual@
            &&& e->hash == old(r).hash
        },
{
}

} // verus!
