//! Names of states and kinds as they are stored and shown, and the text form
//! of identifiers and numbers.

use crate::model::ids::{RepoId, TaskId, WorkspaceId};
use crate::model::task::{Lifecycle, RelationKind, SyncState};
use crate::text;
use vstd::prelude::*;

verus! {

/// What a comparison of both sides asks for.
#[derive(Clone, Copy, Debug, PartialEq, Eq, Structural)]
pub enum SyncDecision {
    Noop,
    PullRemote,
    PushLocal,
    RequireManualMerge,
}

pub open spec fn sync_name(s: SyncState) -> Seq<char> {
    match s {
        SyncState::LocalOnly => "local_only"@,
        SyncState::Staged => "staged"@,
        SyncState::Synced => "synced"@,
        SyncState::DirtyLocal => "dirty_local"@,
        SyncState::DirtyRemote => "dirty_remote"@,
        SyncState::Conflict => "conflict"@,
    }
}

pub open spec fn decision_name(d: SyncDecision) -> Seq<char> {
    match d {
        SyncDecision::Noop => "noop"@,
        SyncDecision::PullRemote => "pull_remote"@,
        SyncDecision::PushLocal => "push_local"@,
        SyncDecision::RequireManualMerge => "require_manual_merge"@,
    }
}

pub open spec fn relation_name(k: RelationKind) -> Seq<char> {
    match k {
        RelationKind::ParentOf => "parent_of"@,
        RelationKind::ChildOf => "child_of"@,
        RelationKind::BlockedBy => "blocked_by"@,
        RelationKind::Blocks => "blocks"@,
        RelationKind::RelatedTo => "related_to"@,
        RelationKind::Duplicates => "duplicates"@,
    }
}

/// The reason shown for a lifecycle; a task that was never closed has none.
pub open spec fn reason_name(l: Lifecycle) -> Option<Seq<char>> {
    match l {
        Lifecycle::Open => None,
        Lifecycle::Reopened => Some("reopened"@),
        Lifecycle::Completed => Some("completed"@),
        Lifecycle::NotPlanned => Some("not_planned"@),
    }
}

/// The stored name of a sync state.
pub fn sync_str(s: SyncState) -> (out: &'static str)
    ensures
        out@ == sync_name(s),
{
    match s {
        SyncState::LocalOnly => "local_only",
        SyncState::Staged => "staged",
        SyncState::Synced => "synced",
        SyncState::DirtyLocal => "dirty_local",
        SyncState::DirtyRemote => "dirty_remote",
        SyncState::Conflict => "conflict",
    }
}

/// The name of a decision in summaries.
pub fn decision_str(d: SyncDecision) -> (out: &'static str)
    ensures
        out@ == decision_name(d),
{
    match d {
        SyncDecision::Noop => "noop",
        SyncDecision::PullRemote => "pull_remote",
        SyncDecision::PushLocal => "push_local",
        SyncDecision::RequireManualMerge => "require_manual_merge",
    }
}

/// The stored name of a relation kind.
pub fn relation_str(k: RelationKind) -> (out: &'static str)
    ensures
        out@ == relation_name(k),
{
    match k {
        RelationKind::ParentOf => "parent_of",
        RelationKind::ChildOf => "child_of",
        RelationKind::BlockedBy => "blocked_by",
        RelationKind::Blocks => "blocks",
        RelationKind::RelatedTo => "related_to",
        RelationKind::Duplicates => "duplicates",
    }
}

/// The reason shown for a lifecycle.
pub fn reason_str(l: Lifecycle) -> (out: Option<&'static str>)
    ensures
        match out {
            Some(r) => reason_name(l) == Some(r@),
            None => reason_name(l) is None,
        },
{
    match l {
        Lifecycle::Open => None,
        Lifecycle::Reopened => Some("reopened"),
        Lifecycle::Completed => Some("completed"),
        Lifecycle::NotPlanned => Some("not_planned"),
    }
}

/// Whether two strings are the same.
pub fn same_text(a: &str, b: &str) -> (yes: bool)
    ensures
        yes == (a@ == b@),
{
    let left = text::chars_of(a);
    let right = text::chars_of(b);
    if left.len() != right.len() {
        return false;
    }
    let mut i: usize = 0;
    while i < left.len()
        invariant
            i <= left.len(),
            left@ == a@,
            right@ == b@,
            left.len() == right.len(),
            forall|k: int| 0 <= k < i ==> left@[k] == right@[k],
        decreases left.len() - i,
    {
        if left[i] != right[i] {
            return false;
        }
        i += 1;
    }
    assert(a@ =~= b@);
    true
}

/// The sync state of a stored name.
pub fn parse_sync(name: &str) -> (out: Option<SyncState>)
    ensures
        match out {
            Some(s) => name@ == sync_name(s),
            None => forall|known: SyncState| name@ != #[trigger] sync_name(known),
        },
{
    if same_text(name, "local_only") {
        Some(SyncState::LocalOnly)
    } else if same_text(name, "staged") {
        Some(SyncState::Staged)
    } else if same_text(name, "synced") {
        Some(SyncState::Synced)
    } else if same_text(name, "dirty_local") {
        Some(SyncState::DirtyLocal)
    } else if same_text(name, "dirty_remote") {
        Some(SyncState::DirtyRemote)
    } else if same_text(name, "conflict") {
        Some(SyncState::Conflict)
    } else {
        None
    }
}

/// The relation kind of a stored name.
pub fn parse_relation(name: &str) -> (out: Option<RelationKind>)
    ensures
        match out {
            Some(k) => name@ == relation_name(k),
            None => forall|known: RelationKind| name@ != #[trigger] relation_name(known),
        },
{
    if same_text(name, "parent_of") {
        Some(RelationKind::ParentOf)
    } else if same_text(name, "child_of") {
        Some(RelationKind::ChildOf)
    } else if same_text(name, "blocked_by") {
        Some(RelationKind::BlockedBy)
    } else if same_text(name, "blocks") {
        Some(RelationKind::Blocks)
    } else if same_text(name, "related_to") {
        Some(RelationKind::RelatedTo)
    } else if same_text(name, "duplicates") {
        Some(RelationKind::Duplicates)
    } else {
        None
    }
}

/// No two relation kinds share a stored name, so reading a name back gives the
/// kind that was written.
pub proof fn law_relation_names_are_distinct(a: RelationKind, b: RelationKind)
    requires
        relation_name(a) == relation_name(b),
    ensures
        a == b,
{
    reveal_strlit("parent_of");
    reveal_strlit("child_of");
    reveal_strlit("blocked_by");
    reveal_strlit("blocks");
    reveal_strlit("related_to");
    reveal_strlit("duplicates");
    assert("parent_of"@.len() == 9);
    assert("child_of"@.len() == 8);
    assert("blocks"@.len() == 6);
    assert("blocked_by"@[0] == 'b');
    assert("related_to"@[0] == 'r');
    assert("duplicates"@[0] == 'd');
}

/// No two sync states share a stored name.
pub proof fn law_sync_names_are_distinct(a: SyncState, b: SyncState)
    requires
        sync_name(a) == sync_name(b),
    ensures
        a == b,
{
    reveal_strlit("local_only");
    reveal_strlit("staged");
    reveal_strlit("synced");
    reveal_strlit("dirty_local");
    reveal_strlit("dirty_remote");
    reveal_strlit("conflict");
    assert("staged"@[1] == 't');
    assert("synced"@[1] == 'y');
    assert("local_only"@.len() == 10);
    assert("dirty_local"@.len() == 11);
    assert("dirty_remote"@.len() == 12);
    assert("conflict"@.len() == 8);
}

/// The lower-case digit of a value below 16.
pub open spec fn hex_digit(v: int) -> char {
    if v < 10 {
        ('0' as int + v) as char
    } else {
        ('a' as int + (v - 10)) as char
    }
}

/// The last `n` hexadecimal digits of `v`.
pub open spec fn hex_digits(v: int, n: nat) -> Seq<char>
    decreases n,
{
    if n == 0 {
        Seq::empty()
    } else {
        hex_digits(v / 16, (n - 1) as nat).push(hex_digit(v % 16))
    }
}

/// The hyphenated lower-case text form of a 128-bit identifier.
pub open spec fn id_form(v: int) -> Seq<char> {
    let d = hex_digits(v, 32);
    d.subrange(0, 8) + seq!['-'] + d.subrange(8, 12) + seq!['-'] + d.subrange(12, 16) + seq!['-']
        + d.subrange(16, 20) + seq!['-'] + d.subrange(20, 32)
}

fn hex_digit_of(v: u8) -> (c: char)
    requires
        v < 16,
    ensures
        c == hex_digit(v as int),
{
    match v {
        0 => '0',
        1 => '1',
        2 => '2',
        3 => '3',
        4 => '4',
        5 => '5',
        6 => '6',
        7 => '7',
        8 => '8',
        9 => '9',
        10 => 'a',
        11 => 'b',
        12 => 'c',
        13 => 'd',
        14 => 'e',
        _ => 'f',
    }
}

fn hex_digits_of(v: u128, n: usize) -> (out: Vec<char>)
    ensures
        out@ == hex_digits(v as int, n as nat),
        out@.len() == n,
    decreases n,
{
    if n == 0 {
        Vec::new()
    } else {
        let mut out = hex_digits_of(v / 16, n - 1);
        out.push(hex_digit_of((v % 16) as u8));
        out
    }
}

/// The hyphenated lower-case text form of a 128-bit identifier.
pub fn id_text(v: u128) -> (out: String)
    ensures
        out@ == id_form(v as int),
{
    let d = hex_digits_of(v, 32);
    let mut out = text::string_of(&d, 0, 8);
    out.push('-');
    out.append(text::string_of(&d, 8, 12).as_str());
    out.push('-');
    out.append(text::string_of(&d, 12, 16).as_str());
    out.push('-');
    out.append(text::string_of(&d, 16, 20).as_str());
    out.push('-');
    out.append(text::string_of(&d, 20, 32).as_str());
    assert(out@ =~= id_form(v as int));
    out
}

impl TaskId {
    /// The text form of the identifier.
    pub fn to_text(&self) -> (out: String)
        ensures
            out@ == id_form(self.0 as int),
    {
        id_text(self.0)
    }
}

impl WorkspaceId {
    /// The text form of the identifier.
    pub fn to_text(&self) -> (out: String)
        ensures
            out@ == id_form(self.0 as int),
    {
        id_text(self.0)
    }
}

impl RepoId {
    /// The text form of the identifier.
    pub fn to_text(&self) -> (out: String)
        ensures
            out@ == id_form(self.0 as int),
    {
        id_text(self.0)
    }
}

/// The decimal digits of a number, without leading zeros.
pub open spec fn decimal(n: nat) -> Seq<char>
    decreases n,
{
    if n < 10 {
        seq![hex_digit(n as int)]
    } else {
        decimal(n / 10).push(hex_digit((n % 10) as int))
    }
}

/// The decimal digits of a number.
pub fn decimal_text(n: u64) -> (out: String)
    ensures
        out@ == decimal(n as nat),
        out@.len() > 0,
    decreases n,
{
    if n < 10 {
        let mut out = String::new();
        out.push(hex_digit_of(n as u8));
        assert(out@ =~= decimal(n as nat));
        out
    } else {
        let mut out = decimal_text(n / 10);
        out.push(hex_digit_of((n % 10) as u8));
        out
    }
}

/// The value of a digit.
pub open spec fn digit_value(c: char) -> int {
    if '0' <= c <= '9' {
        c as int - '0' as int
    } else {
        c as int - 'a' as int + 10
    }
}

/// The number that the digits of `s` write in a base.
pub open spec fn value_of(s: Seq<char>, base: int) -> int
    decreases s.len(),
{
    if s.len() == 0 {
        0
    } else {
        value_of(s.drop_last(), base) * base + digit_value(s.last())
    }
}

proof fn lemma_hex_digit(v: int)
    requires
        0 <= v < 16,
    ensures
        digit_value(hex_digit(v)) == v,
        '0' <= hex_digit(v) <= '9' || 'a' <= hex_digit(v) <= 'f',
        v < 10 ==> '0' <= hex_digit(v) <= '9',
        v > 0 ==> hex_digit(v) != '0',
{
}

/// A number is written in decimal digits that read back as the number, without
/// a leading zero.
pub proof fn law_decimal_reads_back(n: nat)
    ensures
        decimal(n).len() > 0,
        value_of(decimal(n), 10) == n,
        forall|i: int| 0 <= i < decimal(n).len() ==> '0' <= #[trigger] decimal(n)[i] <= '9',
        n > 0 ==> decimal(n)[0] != '0',
    decreases n,
{
    if n < 10 {
        lemma_hex_digit(n as int);
        let d = decimal(n);
        assert(d.drop_last() =~= Seq::empty());
        assert(value_of(d.drop_last(), 10) == 0);
    } else {
        law_decimal_reads_back(n / 10);
        lemma_hex_digit((n % 10) as int);
        assert(decimal(n).drop_last() =~= decimal(n / 10));
    }
}

proof fn lemma_hex_reads_back(v: int, n: nat)
    requires
        0 <= v < vstd::arithmetic::power::pow(16, n),
    ensures
        hex_digits(v, n).len() == n,
        value_of(hex_digits(v, n), 16) == v,
        forall|i: int|
            0 <= i < n ==> '0' <= #[trigger] hex_digits(v, n)[i] <= '9' || 'a' <= hex_digits(
                v,
                n,
            )[i] <= 'f',
    decreases n,
{
    reveal(vstd::arithmetic::power::pow);
    if n > 0 {
        assert(vstd::arithmetic::power::pow(16, n) == 16 * vstd::arithmetic::power::pow(
            16,
            (n - 1) as nat,
        ));
        lemma_hex_reads_back(v / 16, (n - 1) as nat);
        lemma_hex_digit(v % 16);
        assert(hex_digits(v, n).drop_last() =~= hex_digits(v / 16, (n - 1) as nat));
    }
}

/// The text form of an identifier is 36 characters long, with a hyphen behind
/// the 8th, 12th, 16th and 20th of its 32 digits; without them it reads back as
/// the identifier in base 16.
pub proof fn law_id_form_reads_back(v: u128)
    ensures
        ({
            let form = id_form(v as int);
            let digits = form.subrange(0, 8) + form.subrange(9, 13) + form.subrange(14, 18)
                + form.subrange(19, 23) + form.subrange(24, 36);
            &&& form.len() == 36
            &&& form[8] == '-'
            &&& form[13] == '-'
            &&& form[18] == '-'
            &&& form[23] == '-'
            &&& value_of(digits, 16) == v
            &&& forall|i: int|
                0 <= i < 32 ==> '0' <= #[trigger] digits[i] <= '9' || 'a' <= digits[i] <= 'f'
        }),
{
    let d = hex_digits(v as int, 32);
    let form = id_form(v as int);
    lemma_id_bound();
    lemma_hex_reads_back(v as int, 32);
    let digits = form.subrange(0, 8) + form.subrange(9, 13) + form.subrange(14, 18)
        + form.subrange(19, 23) + form.subrange(24, 36);
    assert(digits =~= d);
}

proof fn lemma_id_bound()
    ensures
        vstd::arithmetic::power::pow(16, 32) == 0x1_0000_0000_0000_0000_0000_0000_0000_0000int,
{
    reveal_with_fuel(vstd::arithmetic::power::pow, 33);
}

/// The stored names: a sync state, a decision, a relation and the reason of a
/// lifecycle each read as what they are, in small letters with underscores.
pub proof fn law_names_say_what_they_name(s: SyncState, d: SyncDecision, k: RelationKind, l: Lifecycle)
    ensures
        sync_name(s) == "local_only"@ <==> s == SyncState::LocalOnly,
        sync_name(s) == "staged"@ <==> s == SyncState::Staged,
        sync_name(s) == "synced"@ <==> s == SyncState::Synced,
        sync_name(s) == "dirty_local"@ <==> s == SyncState::DirtyLocal,
        sync_name(s) == "dirty_remote"@ <==> s == SyncState::DirtyRemote,
        sync_name(s) == "conflict"@ <==> s == SyncState::Conflict,
        decision_name(d) == "noop"@ <==> d == SyncDecision::Noop,
        decision_name(d) == "pull_remote"@ <==> d == SyncDecision::PullRemote,
        decision_name(d) == "push_local"@ <==> d == SyncDecision::PushLocal,
        decision_name(d) == "require_manual_merge"@ <==> d == SyncDecision::RequireManualMerge,
        relation_name(k) == "parent_of"@ <==> k == RelationKind::ParentOf,
        relation_name(k) == "child_of"@ <==> k == RelationKind::ChildOf,
        relation_name(k) == "blocked_by"@ <==> k == RelationKind::BlockedBy,
        relation_name(k) == "blocks"@ <==> k == RelationKind::Blocks,
        relation_name(k) == "related_to"@ <==> k == RelationKind::RelatedTo,
        relation_name(k) == "duplicates"@ <==> k == RelationKind::Duplicates,
        reason_name(l) is None <==> l == Lifecycle::Open,
        reason_name(l) == Some("reopened"@) <==> l == Lifecycle::Reopened,
        reason_name(l) == Some("completed"@) <==> l == Lifecycle::Completed,
        reason_name(l) == Some("not_planned"@) <==> l == Lifecycle::NotPlanned,
{
    let states = seq![
        SyncState::LocalOnly,
        SyncState::Staged,
        SyncState::Synced,
        SyncState::DirtyLocal,
        SyncState::DirtyRemote,
        SyncState::Conflict,
    ];
    assert forall|i: int|
        0 <= i < 6 && sync_name(s) == sync_name(#[trigger] states[i]) implies s == states[i] by {
        law_sync_names_are_distinct(s, states[i]);
    }
    assert(states[0] == SyncState::LocalOnly && states[1] == SyncState::Staged && states[2]
        == SyncState::Synced && states[3] == SyncState::DirtyLocal && states[4]
        == SyncState::DirtyRemote && states[5] == SyncState::Conflict);
    let kinds = seq![
        RelationKind::ParentOf,
        RelationKind::ChildOf,
        RelationKind::BlockedBy,
        RelationKind::Blocks,
        RelationKind::RelatedTo,
        RelationKind::Duplicates,
    ];
    assert forall|i: int|
        0 <= i < 6 && relation_name(k) == relation_name(#[trigger] kinds[i]) implies k
        == kinds[i] by {
        law_relation_names_are_distinct(k, kinds[i]);
    }
    assert(kinds[0] == RelationKind::ParentOf && kinds[1] == RelationKind::ChildOf && kinds[2]
        == RelationKind::BlockedBy && kinds[3] == RelationKind::Blocks && kinds[4]
        == RelationKind::RelatedTo && kinds[5] == RelationKind::Duplicates);
    reveal_strlit("noop");
    reveal_strlit("pull_remote");
    reveal_strlit("push_local");
    reveal_strlit("require_manual_merge");
    assert("noop"@.len() == 4);
    assert("pull_remote"@.len() == 11);
    assert("push_local"@.len() == 10);
    assert("require_manual_merge"@.len() == 20);
    reveal_strlit("reopened");
    reveal_strlit("completed");
    reveal_strlit("not_planned");
    assert("reopened"@.len() == 8);
    assert("completed"@.len() == 9);
    assert("not_planned"@.len() == 11);
}

/// Reading a stored name gives what it was written for, and a word that is no
/// stored name gives nothing.
pub proof fn law_stored_names_read_back(
    name: &str,
    sync: Option<SyncState>,
    kind: Option<RelationKind>,
    s: SyncState,
    k: RelationKind,
)
    requires
        call_ensures(parse_sync, (name,), sync),
        call_ensures(parse_relation, (name,), kind),
    ensures
        name@ == sync_name(s) ==> sync == Some(s),
        sync is Some ==> name@ == sync_name(sync->0),
        name@ == relation_name(k) ==> kind == Some(k),
        kind is Some ==> name@ == relation_name(kind->0),
{
    if name@ == sync_name(s) && sync is Some {
        law_sync_names_are_distinct(s, sync->0);
    }
    if name@ == relation_name(k) && kind is Some {
        law_relation_names_are_distinct(k, kind->0);
    }
}

} // verus!
