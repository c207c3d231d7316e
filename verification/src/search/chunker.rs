//! Deterministic, paragraph-preserving chunks of a task's text.
//!
//! Title and body form the core chunks; each comment gets title-anchored
//! chunks of its own. No source text is dropped on the way.

use super::digest::{self, digest};
use crate::model::ids::{RepoId, TaskId, WorkspaceId};
use crate::text::{self, byte_len_of, chars_of, floor_of, is_blank, string_of};
use vstd::prelude::*;

verus! {

/// Budget of formatted text per chunk, in UTF-8 bytes.
pub const CHUNK_BUDGET_BYTES: usize = 900;

/// Bytes of body room that a shortened title leaves under the budget.
pub const BODY_RESERVE_BYTES: usize = 300;

#[derive(Clone, Copy, Debug, PartialEq, Eq, Structural)]
pub enum ChunkKind {
    Core,
    Comment,
}

/// One comment of a task as the search reads it.
#[derive(Clone, Debug, PartialEq, Eq)]
pub struct CommentTextRow {
    pub remote_comment_id: Option<String>,
    pub body: String,
}

/// The searchable text of one task.
#[derive(Clone, Debug, PartialEq, Eq)]
pub struct TaskTextRow {
    pub task_id: TaskId,
    pub workspace_id: WorkspaceId,
    pub repo_id: Option<RepoId>,
    pub is_open: bool,
    pub title: String,
    pub body: String,
    pub comments: Vec<CommentTextRow>,
}

/// One chunk the index should hold.
#[derive(Clone, Debug, PartialEq, Eq)]
pub struct ChunkTarget {
    pub task_id: TaskId,
    pub kind: ChunkKind,
    pub content_hash: [u8; 32],
    pub text: String,
}

/// What a chunk holds.
pub struct ChunkView {
    pub task_id: TaskId,
    pub kind: ChunkKind,
    pub content_hash: Seq<u8>,
    pub text: Seq<char>,
}

impl View for ChunkTarget {
    type V = ChunkView;

    open spec fn view(&self) -> ChunkView {
        ChunkView {
            task_id: self.task_id,
            kind: self.kind,
            content_hash: self.content_hash@,
            text: self.text@,
        }
    }
}

/// The chunk that holds a title alone.
pub open spec fn title_chunk(title: Seq<char>, label: Seq<char>) -> Seq<char> {
    "Title: "@ + title + "\n\n"@ + label + ":"@
}

/// What stands before the body in every chunk.
pub open spec fn header(title: Seq<char>, label: Seq<char>) -> Seq<char> {
    "Title: "@ + title + "\n\n"@ + label + ":\n"@
}

/// Most bytes of a title that a bounded anchor keeps.
pub open spec fn anchor_budget(label: Seq<char>) -> int {
    let taken = text::byte_len(header(Seq::empty(), label)) + 3 + BODY_RESERVE_BYTES;
    if taken <= CHUNK_BUDGET_BYTES {
        CHUNK_BUDGET_BYTES - taken
    } else {
        0
    }
}

/// The title, or where it is over the anchor budget, its longest prefix within
/// the budget and an ellipsis.
pub open spec fn anchor(title: Seq<char>, label: Seq<char>) -> Seq<char> {
    if text::byte_len(title) <= anchor_budget(label) {
        title
    } else {
        title.take(text::floor_scalar(title, anchor_budget(label))).push('\u{2026}')
    }
}

/// Index of the first of two adjacent newlines at or after `i`; the length of
/// `s` where there is none.
pub open spec fn next_break(s: Seq<char>, i: int) -> int
    decreases s.len() - i,
{
    if i + 1 >= s.len() {
        s.len() as int
    } else if s[i] == '\n' && s[i + 1] == '\n' {
        i
    } else {
        next_break(s, i + 1)
    }
}

/// What stands between the blank lines of `s`, in order.
pub open spec fn paragraphs(s: Seq<char>) -> Seq<Seq<char>>
    decreases s.len(),
{
    let i = next_break(s, 0);
    if 0 <= i < s.len() - 1 {
        seq![s.take(i)] + paragraphs(s.skip(i + 2))
    } else {
        seq![s]
    }
}

pub open spec fn is_terminator(c: char) -> bool {
    c == '.' || c == '?' || c == '!' || c == '\n'
}

/// Length of the longest prefix of `s`, of at most `n` scalars, that ends in a
/// sentence or line terminator; 0 where there is none.
pub open spec fn sentence_end(s: Seq<char>, n: int) -> int
    decreases n,
{
    if n <= 0 {
        0
    } else if is_terminator(s[n - 1]) {
        n
    } else {
        sentence_end(s, n - 1)
    }
}

/// Scalars of `s` that the next fragment takes with `room` bytes left: as many
/// as fit, cut back to the last sentence end among them, and never none.
pub open spec fn fragment_len(s: Seq<char>, room: int) -> int {
    let fit = text::floor_scalar(s, room);
    if fit <= 0 {
        1
    } else if sentence_end(s, fit) > 0 {
        sentence_end(s, fit)
    } else {
        fit
    }
}

/// The fragments of an oversized paragraph.
pub open spec fn fragments(s: Seq<char>, room: int) -> Seq<Seq<char>>
    decreases s.len(),
{
    let k = fragment_len(s, room);
    if s.len() == 0 || k <= 0 || k > s.len() {
        Seq::empty()
    } else {
        seq![s.take(k)] + fragments(s.skip(k), room)
    }
}

/// Bytes left under a header.
pub open spec fn room_under(head: Seq<char>) -> int {
    if text::byte_len(head) <= CHUNK_BUDGET_BYTES {
        CHUNK_BUDGET_BYTES - text::byte_len(head)
    } else {
        0
    }
}

/// `pending` followed by one more paragraph.
pub open spec fn joined(pending: Seq<char>, p: Seq<char>) -> Seq<char> {
    if pending.len() == 0 {
        p
    } else {
        pending + "\n\n"@ + p
    }
}

/// The closed parts with the pending one added, where it holds anything.
pub open spec fn flushed(parts: Seq<Seq<char>>, pending: Seq<char>) -> Seq<Seq<char>> {
    if pending.len() == 0 {
        parts
    } else {
        parts.push(pending)
    }
}

/// Paragraphs packed greedily under `head`: the body parts closed so far and
/// the one still open. A paragraph that does not fit behind the open part
/// closes it and opens the next one; only a paragraph that is over the budget
/// on its own is cut into fragments.
pub open spec fn packing(head: Seq<char>, ps: Seq<Seq<char>>) -> (Seq<Seq<char>>, Seq<char>)
    decreases ps.len(),
{
    if ps.len() == 0 {
        (Seq::empty(), Seq::empty())
    } else {
        let (parts, pending) = packing(head, ps.drop_last());
        let p = ps.last();
        if p.len() == 0 {
            (parts, pending)
        } else if text::byte_len(head + joined(pending, p)) <= CHUNK_BUDGET_BYTES {
            (parts, joined(pending, p))
        } else if text::byte_len(head + p) <= CHUNK_BUDGET_BYTES {
            (flushed(parts, pending), p)
        } else {
            (flushed(parts, pending) + fragments(p, room_under(head)), Seq::empty())
        }
    }
}

/// The body parts of the chunks of `body` under `head`.
pub open spec fn body_parts(head: Seq<char>, body: Seq<char>) -> Seq<Seq<char>> {
    let (parts, pending) = packing(head, paragraphs(body));
    flushed(parts, pending)
}

/// The chunks of `body` under `head`.
pub open spec fn packed(head: Seq<char>, body: Seq<char>) -> Seq<Seq<char>> {
    body_parts(head, body).map_values(|b: Seq<char>| head + b)
}

/// The chunks of a body that is not blank. A title that leaves no room gets a
/// chunk of its own, and a bounded anchor stands in its place.
pub open spec fn anchored_chunks(
    title: Seq<char>,
    body: Seq<char>,
    label: Seq<char>,
) -> Seq<Seq<char>> {
    if text::byte_len(header(title, label)) > CHUNK_BUDGET_BYTES {
        seq![title_chunk(title, label)] + packed(header(anchor(title, label), label), body)
    } else {
        packed(header(title, label), body)
    }
}

/// The chunks of one title and body. `title_only` says whether a blank body
/// still yields the title alone.
pub open spec fn formatted_chunks(
    title: Seq<char>,
    body: Seq<char>,
    label: Seq<char>,
    title_only: bool,
) -> Seq<Seq<char>> {
    if text::blank(body) {
        if title_only {
            seq![title_chunk(title, label)]
        } else {
            Seq::empty()
        }
    } else {
        anchored_chunks(title, body, label)
    }
}

/// Whether the scalars from `i` on start with a blank-line break.
fn break_at(chars: &Vec<char>, start: usize) -> (i: usize)
    requires
        start <= chars.len(),
    ensures
        i == start + next_break(chars@.skip(start as int), 0),
        start <= i <= chars.len(),
        i < chars.len() ==> i + 1 < chars.len(),
{
    let ghost tail = chars@.skip(start as int);
    let mut i: usize = start;
    while i < chars.len() && chars.len() - i > 1 && !(chars[i] == '\n' && chars[i + 1] == '\n')
        invariant
            start <= i <= chars.len(),
            tail == chars@.skip(start as int),
            next_break(tail, 0) == next_break(tail, i - start),
        decreases chars.len() - i,
    {
        i += 1;
    }
    if chars.len() - i > 1 {
        i
    } else {
        chars.len()
    }
}

/// Split `body` into paragraphs at blank lines; single newlines stay inside.
pub fn split_paragraphs(body: &str) -> (out: Vec<String>)
    ensures
        text::views(out@) == paragraphs(body@),
{
    let chars = chars_of(body);
    let mut out: Vec<String> = Vec::new();
    let mut start: usize = 0;
    assert(chars@.skip(0) =~= body@);
    loop
        invariant
            chars@ == body@,
            start <= chars.len(),
            paragraphs(body@) == text::views(out@) + paragraphs(chars@.skip(start as int)),
        decreases chars.len() - start,
    {
        let i: usize = break_at(&chars, start);
        let ghost tail = chars@.skip(start as int);
        let ghost before = text::views(out@);
        let ghost piece = chars@.subrange(start as int, i as int);
        out.push(string_of(&chars, start, i));
        assert(text::views(out@) =~= before.push(piece));
        if i >= chars.len() {
            assert(piece =~= tail);
            assert(text::views(out@) =~= before + paragraphs(tail));
            return out;
        }
        proof {
            assert(piece =~= tail.take(i - start));
            assert(tail.skip(i - start + 2) =~= chars@.skip(i as int + 2));
            assert(before + (seq![piece] + paragraphs(chars@.skip(i as int + 2)))
                =~= text::views(out@) + paragraphs(chars@.skip(i as int + 2)));
        }
        start = i + 2;
    }
}

/// Index of the last sentence or line terminator among the first `limit`
/// scalars.
pub fn last_sentence_boundary(chars: &Vec<char>, limit: usize) -> (out: Option<usize>)
    requires
        limit <= chars.len(),
    ensures
        match out {
            Some(i) => sentence_end(chars@, limit as int) == i + 1 && i < limit,
            None => sentence_end(chars@, limit as int) == 0,
        },
{
    let mut n: usize = limit;
    while n > 0
        invariant
            n <= limit <= chars.len(),
            sentence_end(chars@, limit as int) == sentence_end(chars@, n as int),
        decreases n,
    {
        let c: char = chars[n - 1];
        if c == '.' || c == '?' || c == '!' || c == '\n' {
            return Some(n - 1);
        }
        n -= 1;
    }
    None
}

proof fn lemma_sentence_end(s: Seq<char>, n: int)
    ensures
        0 <= sentence_end(s, n),
        n >= 0 ==> sentence_end(s, n) <= n,
    decreases n,
{
    if n > 0 {
        lemma_sentence_end(s, n - 1);
    }
}

proof fn lemma_fragment_len(s: Seq<char>, room: int)
    requires
        s.len() > 0,
    ensures
        1 <= fragment_len(s, room) <= s.len(),
        text::byte_len(s.take(fragment_len(s, room))) <= room || fragment_len(s, room) == 1,
{
    text::lemma_floor_scalar(s, room);
    let fit = text::floor_scalar(s, room);
    lemma_sentence_end(s, fit);
    if fit > 0 {
        text::lemma_byte_len_take(s, fragment_len(s, room), fit);
        if room < 0 {
            assert(text::byte_len(s.take(fit)) >= 0);
            lemma_floor_negative(s, room);
        }
    }
}

proof fn lemma_floor_negative(s: Seq<char>, bytes: int)
    requires
        bytes < 0,
    ensures
        text::floor_scalar(s, bytes) == 0,
    decreases s.len(),
{
    if s.len() > 0 {
        lemma_floor_negative(s.drop_last(), bytes);
    }
}

/// Cut `text` so that the first part fits under `header`, at a sentence end
/// where there is one. The first part holds at least one scalar.
pub fn split_paragraph_fragment(header: &str, text: &str) -> (out: (String, String))
    requires
        text@.len() > 0,
    ensures
        out.0@ == text@.take(fragment_len(text@, room_under(header@))),
        out.1@ == text@.skip(fragment_len(text@, room_under(header@))),
        out.1@.len() < text@.len(),
{
    let used: usize = byte_len_of(header);
    let room: usize = if used <= CHUNK_BUDGET_BYTES {
        CHUNK_BUDGET_BYTES - used
    } else {
        0
    };
    let chars = chars_of(text);
    let mut cut: usize = floor_of(&chars, room);
    proof {
        lemma_fragment_len(text@, room as int);
    }
    if cut == 0 {
        cut = 1;
    } else {
        match last_sentence_boundary(&chars, cut) {
            Some(i) => {
                cut = i + 1;
            },
            None => {},
        }
    }
    assert(cut == fragment_len(text@, room_under(header@)));
    let head = string_of(&chars, 0, cut);
    let rest = string_of(&chars, cut, chars.len());
    assert(head@ =~= text@.take(cut as int));
    assert(rest@ =~= text@.skip(cut as int));
    (head, rest)
}

/// `a` followed by `b`.
fn joined_with(a: &str, b: &str) -> (out: String)
    ensures
        out@ == a@ + b@,
{
    let mut out = a.to_owned();
    out.append(b);
    out
}

/// Append the chunks of an oversized paragraph.
fn push_fragments(header: &str, p: &str, chunks: &mut Vec<String>)
    ensures
        text::views(final(chunks)@) == text::views(old(chunks)@) + fragments(
            p@,
            room_under(header@),
        ).map_values(|b: Seq<char>| header@ + b),
{
    let ghost room = room_under(header@);
    let ghost under = |b: Seq<char>| header@ + b;
    let ghost start = text::views(chunks@);
    let mut rest: String = p.to_owned();
    assert(start + Seq::<Seq<char>>::empty() =~= start);
    while !rest.as_str().is_empty()
        invariant
            room == room_under(header@),
            under == (|b: Seq<char>| header@ + b),
            start + fragments(p@, room).map_values(under) == text::views(chunks@) + fragments(
                rest@,
                room,
            ).map_values(under),
        decreases rest@.len(),
    {
        let ghost before = text::views(chunks@);
        let ghost left = rest@;
        proof {
            lemma_fragment_len(left, room);
        }
        let (head, rem) = split_paragraph_fragment(header, rest.as_str());
        let ghost one = under(head@);
        chunks.push(joined_with(header, head.as_str()));
        rest = rem;
        proof {
            assert(text::views(chunks@) =~= before.push(one));
            assert(fragments(left, room) =~= seq![head@] + fragments(rest@, room));
            assert(before + fragments(left, room).map_values(under) =~= text::views(chunks@)
                + fragments(rest@, room).map_values(under));
        }
    }
    assert(fragments(rest@, room) =~= Seq::empty());
    assert(text::views(chunks@) =~= text::views(chunks@) + fragments(rest@, room).map_values(
        under,
    ));
}

/// Pack the paragraphs of `body` into chunks under `header`. A paragraph stays
/// whole wherever it fits in a chunk of its own.
pub fn pack_body(header: &str, body: &str) -> (chunks: Vec<String>)
    ensures
        text::views(chunks@) == packed(header@, body@),
{
    let paragraphs = split_paragraphs(body);
    let ghost ps = text::views(paragraphs@);
    let ghost under = |b: Seq<char>| header@ + b;
    let mut chunks: Vec<String> = Vec::new();
    let mut pending = String::new();
    let mut i: usize = 0;
    assert(text::views(chunks@) =~= packing(header@, ps.take(0)).0.map_values(under));
    while i < paragraphs.len()
        invariant
            i <= paragraphs.len(),
            ps == text::views(paragraphs@),
            under == (|b: Seq<char>| header@ + b),
            text::views(chunks@) == packing(header@, ps.take(i as int)).0.map_values(under),
            pending@ == packing(header@, ps.take(i as int)).1,
        decreases paragraphs.len() - i,
    {
        let p: &str = paragraphs[i].as_str();
        let ghost before = packing(header@, ps.take(i as int));
        proof {
            assert(ps.take(i as int + 1).drop_last() =~= ps.take(i as int));
            assert(ps.take(i as int + 1).last() == p@);
        }
        if !p.is_empty() {
            let candidate: String = if pending.as_str().is_empty() {
                p.to_owned()
            } else {
                let longer = joined_with(pending.as_str(), "\n\n");
                joined_with(longer.as_str(), p)
            };
            assert(candidate@ == joined(pending@, p@));
            let chunk = joined_with(header, candidate.as_str());
            if byte_len_of(chunk.as_str()) <= CHUNK_BUDGET_BYTES {
                pending = candidate;
            } else {
                if !pending.as_str().is_empty() {
                    let ghost closed = text::views(chunks@);
                    chunks.push(joined_with(header, pending.as_str()));
                    assert(text::views(chunks@) =~= closed.push(under(pending@)));
                }
                assert(text::views(chunks@) =~= flushed(before.0, before.1).map_values(under));
                let alone = joined_with(header, p);
                if byte_len_of(alone.as_str()) <= CHUNK_BUDGET_BYTES {
                    pending = p.to_owned();
                } else {
                    push_fragments(header, p, &mut chunks);
                    pending = String::new();
                    assert(text::views(chunks@) =~= packing(
                        header@,
                        ps.take(i as int + 1),
                    ).0.map_values(under));
                }
            }
        }
        i += 1;
    }
    assert(ps.take(i as int) =~= ps);
    if !pending.as_str().is_empty() {
        let ghost closed = text::views(chunks@);
        let ghost last = pending@;
        chunks.push(joined_with(header, pending.as_str()));
        assert(text::views(chunks@) =~= closed.push(under(last)));
    }
    assert(text::views(chunks@) =~= packed(header@, body@));
    chunks
}

/// The chunk that holds a title alone.
fn title_chunk_of(title: &str, label: &str) -> (out: String)
    ensures
        out@ == title_chunk(title@, label@),
{
    let mut out = "Title: ".to_owned();
    out.append(title);
    out.append("\n\n");
    out.append(label);
    out.append(":");
    out
}

/// What stands before the body in every chunk.
fn header_of(title: &str, label: &str) -> (out: String)
    ensures
        out@ == header(title@, label@),
{
    let mut out = "Title: ".to_owned();
    out.append(title);
    out.append("\n\n");
    out.append(label);
    out.append(":\n");
    out
}

/// A title short enough to leave room for the body of its chunks.
pub fn bounded_anchor(title: &str, label: &str) -> (out: String)
    ensures
        out@ == anchor(title@, label@),
{
    let fixed = header_of("", label);
    proof {
        reveal_strlit("");
        assert(""@ =~= Seq::empty());
    }
    let taken: usize = byte_len_of(fixed.as_str());
    let kept: usize = if taken <= CHUNK_BUDGET_BYTES - BODY_RESERVE_BYTES - 3 {
        CHUNK_BUDGET_BYTES - BODY_RESERVE_BYTES - 3 - taken
    } else {
        0
    };
    assert(kept == anchor_budget(label@));
    if byte_len_of(title) <= kept {
        return title.to_owned();
    }
    let chars = chars_of(title);
    let cut: usize = floor_of(&chars, kept);
    let mut out = string_of(&chars, 0, cut);
    assert(out@ =~= title@.take(cut as int));
    out.push('\u{2026}');
    out
}

/// The chunks of a body that is not blank.
pub fn chunk_anchored(title: &str, body: &str, label: &str) -> (chunks: Vec<String>)
    ensures
        text::views(chunks@) == anchored_chunks(title@, body@, label@),
{
    let head = header_of(title, label);
    if byte_len_of(head.as_str()) > CHUNK_BUDGET_BYTES {
        let short = bounded_anchor(title, label);
        let short_head = header_of(short.as_str(), label);
        let mut chunks: Vec<String> = Vec::new();
        chunks.push(title_chunk_of(title, label));
        let mut rest = pack_body(short_head.as_str(), body);
        let ghost packed_rest = text::views(rest@);
        chunks.append(&mut rest);
        assert(text::views(chunks@) =~= seq![title_chunk(title@, label@)] + packed_rest);
        return chunks;
    }
    pack_body(head.as_str(), body)
}

/// The chunks of one title and body (or comment).
pub fn chunk_formatted(title: &str, body: &str, label: &str, title_only: bool) -> (chunks: Vec<
    String,
>)
    ensures
        text::views(chunks@) == formatted_chunks(title@, body@, label@, title_only),
{
    if is_blank(body) {
        let mut chunks: Vec<String> = Vec::new();
        if title_only {
            chunks.push(title_chunk_of(title, label));
        }
        assert(text::views(chunks@) =~= formatted_chunks(title@, body@, label@, title_only));
        return chunks;
    }
    chunk_anchored(title, body, label)
}

/// What each chunk holds.
pub open spec fn chunk_views(chunks: Seq<ChunkTarget>) -> Seq<ChunkView> {
    chunks.map_values(|c: ChunkTarget| c@)
}

/// A chunk of `task_id`, with the hash of its own text.
pub open spec fn sealed(task_id: TaskId, kind: ChunkKind, text: Seq<char>) -> ChunkView {
    ChunkView {
        task_id,
        kind,
        content_hash: digest::sha256(vstd::utf8::encode_utf8(text)),
        text,
    }
}

/// A chunk for each of `texts`.
pub open spec fn all_sealed(task_id: TaskId, kind: ChunkKind, texts: Seq<Seq<char>>) -> Seq<
    ChunkView,
> {
    texts.map_values(|t: Seq<char>| sealed(task_id, kind, t))
}

/// The chunks of a task's comments, comment by comment.
pub open spec fn comment_chunks(
    task_id: TaskId,
    title: Seq<char>,
    comments: Seq<CommentTextRow>,
) -> Seq<ChunkView>
    decreases comments.len(),
{
    if comments.len() == 0 {
        Seq::empty()
    } else {
        comment_chunks(task_id, title, comments.drop_last()) + all_sealed(
            task_id,
            ChunkKind::Comment,
            formatted_chunks(title, comments.last().body@, "Comment"@, false),
        )
    }
}

/// The chunks of a task: its core chunks, then those of its comments.
pub open spec fn task_chunks(row: TaskTextRow) -> Seq<ChunkView> {
    all_sealed(
        row.task_id,
        ChunkKind::Core,
        formatted_chunks(row.title@, row.body@, "Description"@, true),
    ) + comment_chunks(row.task_id, row.title@, row.comments@)
}

/// Seal a chunk with the hash of its text.
pub fn target(task_id: TaskId, kind: ChunkKind, text: String) -> (out: ChunkTarget)
    ensures
        out@ == sealed(task_id, kind, text@),
        out.text == text,
{
    let content_hash: [u8; 32] = digest(text.as_str().as_bytes());
    ChunkTarget { task_id, kind, content_hash, text }
}

/// Append each of `texts`, sealed.
fn push_targets(task_id: TaskId, kind: ChunkKind, texts: Vec<String>, out: &mut Vec<ChunkTarget>)
    ensures
        chunk_views(final(out)@) == chunk_views(old(out)@) + all_sealed(
            task_id,
            kind,
            text::views(texts@),
        ),
{
    let ghost start = chunk_views(out@);
    let ghost all = all_sealed(task_id, kind, text::views(texts@));
    let mut i: usize = 0;
    assert(start =~= start + all.take(0));
    while i < texts.len()
        invariant
            i <= texts.len(),
            all == all_sealed(task_id, kind, text::views(texts@)),
            chunk_views(out@) == start + all.take(i as int),
        decreases texts.len() - i,
    {
        let ghost before = chunk_views(out@);
        let one = target(task_id, kind, texts[i].clone());
        out.push(one);
        assert(all[i as int] == sealed(task_id, kind, texts@[i as int]@));
        assert(chunk_views(out@) =~= before.push(all[i as int]));
        assert(chunk_views(out@) =~= start + all.take(i as int + 1));
        i += 1;
    }
    assert(all.take(i as int) =~= all);
}

/// Build the deterministic chunk set of one task: core chunks, then comments.
pub fn chunk_task(row: &TaskTextRow) -> (out: Vec<ChunkTarget>)
    ensures
        chunk_views(out@) == task_chunks(*row),
{
    let mut out: Vec<ChunkTarget> = Vec::new();
    let core = chunk_formatted(row.title.as_str(), row.body.as_str(), "Description", true);
    assert(chunk_views(out@) =~= Seq::empty());
    push_targets(row.task_id, ChunkKind::Core, core, &mut out);
    let ghost head = chunk_views(out@);
    assert(head =~= all_sealed(
        row.task_id,
        ChunkKind::Core,
        formatted_chunks(row.title@, row.body@, "Description"@, true),
    ));
    let mut i: usize = 0;
    assert(head =~= head + comment_chunks(row.task_id, row.title@, row.comments@.take(0)));
    while i < row.comments.len()
        invariant
            i <= row.comments.len(),
            chunk_views(out@) == head + comment_chunks(
                row.task_id,
                row.title@,
                row.comments@.take(i as int),
            ),
        decreases row.comments.len() - i,
    {
        let texts = chunk_formatted(
            row.title.as_str(),
            row.comments[i].body.as_str(),
            "Comment",
            false,
        );
        push_targets(row.task_id, ChunkKind::Comment, texts, &mut out);
        proof {
            let longer = row.comments@.take(i as int + 1);
            assert(longer.drop_last() =~= row.comments@.take(i as int));
            assert(longer.last() == row.comments@[i as int]);
            assert(chunk_views(out@) =~= head + comment_chunks(row.task_id, row.title@, longer));
        }
        i += 1;
    }
    assert(row.comments@.take(i as int) =~= row.comments@);
    out
}

proof fn lemma_without_concat(a: Seq<char>, b: Seq<char>, c: char)
    ensures
        text::without(a + b, c) == text::without(a, c) + text::without(b, c),
    decreases b.len(),
{
    reveal(Seq::filter);
    if b.len() == 0 {
        assert(a + b =~= a);
        assert(text::without(b, c) =~= Seq::empty());
        assert(text::without(a, c) + Seq::<char>::empty() =~= text::without(a, c));
    } else {
        assert((a + b).drop_last() =~= a + b.drop_last());
        lemma_without_concat(a, b.drop_last(), c);
        assert(text::without(a + b, c) =~= text::without(a, c) + text::without(b, c));
    }
}

proof fn lemma_without_breaks()
    ensures
        text::without("\n\n"@, '\n') == Seq::<char>::empty(),
        text::without(seq!['\n', '\n'], '\n') == Seq::<char>::empty(),
{
    reveal_strlit("\n\n");
    reveal_with_fuel(Seq::filter, 3);
    let two = seq!['\n', '\n'];
    assert("\n\n"@ =~= two);
    assert(two.drop_last().drop_last() =~= Seq::empty());
    assert(text::without(two, '\n') =~= Seq::empty());
}

proof fn lemma_concat_split(a: Seq<Seq<char>>, b: Seq<Seq<char>>)
    ensures
        text::concat(a + b) == text::concat(a) + text::concat(b),
    decreases b.len(),
{
    if b.len() == 0 {
        assert(a + b =~= a);
        assert(text::concat(a) + text::concat(b) =~= text::concat(a));
    } else {
        assert((a + b).drop_last() =~= a + b.drop_last());
        lemma_concat_split(a, b.drop_last());
        assert(text::concat(a + b) =~= text::concat(a) + text::concat(b));
    }
}

proof fn lemma_concat_one(s: Seq<char>)
    ensures
        text::concat(seq![s]) == s,
{
    let one = seq![s];
    assert(text::concat(one.drop_last()) =~= Seq::empty());
    assert(text::concat(one) =~= s);
}

proof fn lemma_next_break(s: Seq<char>, i: int)
    requires
        0 <= i <= s.len(),
    ensures
        i <= next_break(s, i) <= s.len(),
        next_break(s, i) < s.len() ==> next_break(s, i) + 1 < s.len() && s[next_break(s, i)] == '\n'
            && s[next_break(s, i) + 1] == '\n',
    decreases s.len() - i,
{
    if i + 1 < s.len() && !(s[i] == '\n' && s[i + 1] == '\n') {
        lemma_next_break(s, i + 1);
    }
}

/// The paragraphs hold the text, newlines apart.
proof fn lemma_paragraphs_keep(s: Seq<char>)
    ensures
        text::without(text::concat(paragraphs(s)), '\n') == text::without(s, '\n'),
    decreases s.len(),
{
    let i = next_break(s, 0);
    lemma_next_break(s, 0);
    if i < s.len() {
        let rest = s.skip(i + 2);
        lemma_paragraphs_keep(rest);
        lemma_concat_split(seq![s.take(i)], paragraphs(rest));
        lemma_concat_one(s.take(i));
        lemma_without_concat(s.take(i), text::concat(paragraphs(rest)), '\n');
        let two = seq!['\n', '\n'];
        assert(s =~= s.take(i) + two + rest);
        lemma_without_concat(s.take(i) + two, rest, '\n');
        lemma_without_concat(s.take(i), two, '\n');
        lemma_without_breaks();
        assert(text::without(s, '\n') =~= text::without(s.take(i), '\n') + text::without(
            rest,
            '\n',
        ));
    } else {
        lemma_concat_one(s);
    }
}

proof fn lemma_fragments_keep(s: Seq<char>, room: int)
    ensures
        text::concat(fragments(s, room)) == s,
    decreases s.len(),
{
    if s.len() > 0 {
        lemma_fragment_len(s, room);
        let k = fragment_len(s, room);
        lemma_fragments_keep(s.skip(k), room);
        lemma_concat_split(seq![s.take(k)], fragments(s.skip(k), room));
        lemma_concat_one(s.take(k));
        assert(s =~= s.take(k) + s.skip(k));
    }
}

proof fn lemma_flushed_keep(parts: Seq<Seq<char>>, pending: Seq<char>)
    ensures
        text::concat(flushed(parts, pending)) == text::concat(parts) + pending,
{
    if pending.len() == 0 {
        assert(text::concat(parts) + pending =~= text::concat(parts));
    } else {
        assert(parts.push(pending).drop_last() =~= parts);
    }
}

proof fn lemma_packing_keeps(head: Seq<char>, ps: Seq<Seq<char>>)
    ensures
        text::without(
            text::concat(packing(head, ps).0) + packing(head, ps).1,
            '\n',
        ) == text::without(text::concat(ps), '\n'),
    decreases ps.len(),
{
    if ps.len() == 0 {
        assert(text::concat(ps) + Seq::<char>::empty() =~= text::concat(ps));
    } else {
        let (parts, pending) = packing(head, ps.drop_last());
        let p = ps.last();
        let kept = text::concat(parts) + pending;
        lemma_packing_keeps(head, ps.drop_last());
        lemma_without_concat(text::concat(ps.drop_last()), p, '\n');
        lemma_without_concat(kept, p, '\n');
        if p.len() == 0 {
            assert(text::concat(ps) =~= text::concat(ps.drop_last()));
        } else if text::byte_len(head + joined(pending, p)) <= CHUNK_BUDGET_BYTES {
            if pending.len() == 0 {
                assert(text::concat(parts) + p =~= kept + p);
            } else {
                assert(text::concat(parts) + (pending + "\n\n"@ + p) =~= kept + "\n\n"@ + p);
                lemma_without_concat(kept + "\n\n"@, p, '\n');
                lemma_without_concat(kept, "\n\n"@, '\n');
                lemma_without_breaks();
                assert(text::without(kept, '\n') + Seq::<char>::empty() =~= text::without(
                    kept,
                    '\n',
                ));
            }
        } else if text::byte_len(head + p) <= CHUNK_BUDGET_BYTES {
            lemma_flushed_keep(parts, pending);
        } else {
            let cut = fragments(p, room_under(head));
            lemma_fragments_keep(p, room_under(head));
            lemma_flushed_keep(parts, pending);
            lemma_concat_split(flushed(parts, pending), cut);
            assert(kept + p + Seq::<char>::empty() =~= kept + p);
        }
    }
}

/// No source text is dropped: newlines apart, the body parts of the chunks,
/// read one after the other, are the body.
pub proof fn law_no_text_is_dropped(head: Seq<char>, body: Seq<char>)
    ensures
        text::without(text::concat(body_parts(head, body)), '\n') == text::without(body, '\n'),
{
    let (parts, pending) = packing(head, paragraphs(body));
    lemma_packing_keeps(head, paragraphs(body));
    lemma_flushed_keep(parts, pending);
    lemma_paragraphs_keep(body);
}

/// Whether a body part keeps its chunk within the budget, or is one scalar.
pub open spec fn fits_or_single(head: Seq<char>, part: Seq<char>) -> bool {
    text::byte_len(head + part) <= CHUNK_BUDGET_BYTES || part.len() == 1
}

proof fn lemma_fragments_fit(head: Seq<char>, s: Seq<char>)
    ensures
        forall|i: int|
            0 <= i < fragments(s, room_under(head)).len() ==> fits_or_single(
                head,
                #[trigger] fragments(s, room_under(head))[i],
            ),
    decreases s.len(),
{
    let room = room_under(head);
    if s.len() > 0 {
        lemma_fragment_len(s, room);
        let k = fragment_len(s, room);
        lemma_fragments_fit(head, s.skip(k));
        text::lemma_byte_len_concat(head, s.take(k));
        let rest = fragments(s.skip(k), room);
        assert forall|i: int| 0 <= i < fragments(s, room).len() implies fits_or_single(
            head,
            #[trigger] fragments(s, room)[i],
        ) by {
            if i > 0 {
                assert(fragments(s, room)[i] == rest[i - 1]);
            } else {
                if text::byte_len(s.take(k)) <= room {
                    if text::byte_len(head) > CHUNK_BUDGET_BYTES {
                        text::lemma_byte_len_take(s, 0, k);
                    }
                }
            }
        }
    }
}

proof fn lemma_packing_fits(head: Seq<char>, ps: Seq<Seq<char>>)
    ensures
        forall|i: int|
            0 <= i < packing(head, ps).0.len() ==> fits_or_single(
                head,
                #[trigger] packing(head, ps).0[i],
            ),
        packing(head, ps).1.len() > 0 ==> text::byte_len(head + packing(head, ps).1)
            <= CHUNK_BUDGET_BYTES,
    decreases ps.len(),
{
    if ps.len() > 0 {
        lemma_packing_fits(head, ps.drop_last());
        lemma_fragments_fit(head, ps.last());
    }
}

/// Every chunk stays within the budget, unless the header leaves no room for
/// the next scalar: then it holds the header and that one scalar.
pub proof fn law_chunks_stay_within_budget(head: Seq<char>, body: Seq<char>, i: int)
    requires
        0 <= i < packed(head, body).len(),
    ensures
        packed(head, body)[i] == head + body_parts(head, body)[i],
        fits_or_single(head, body_parts(head, body)[i]),
        text::byte_len(head) + 4 <= CHUNK_BUDGET_BYTES ==> text::byte_len(packed(head, body)[i])
            <= CHUNK_BUDGET_BYTES,
{
    lemma_packing_fits(head, paragraphs(body));
    let part = body_parts(head, body)[i];
    text::lemma_byte_len_concat(head, part);
    if part.len() == 1 {
        assert(part =~= seq![part[0]]);
        text::lemma_byte_len_one(part[0]);
    }
}

/// A shortened title always leaves room: the header of an anchor is within the
/// budget by the body reserve, whatever the title, for a label of at most 586
/// bytes.
pub proof fn law_anchor_leaves_room(title: Seq<char>, label: Seq<char>)
    requires
        text::byte_len(label) <= 586,
    ensures
        text::byte_len(header(anchor(title, label), label)) + BODY_RESERVE_BYTES
            <= CHUNK_BUDGET_BYTES,
{
    let a = anchor(title, label);
    let budget = anchor_budget(label);
    lemma_header_len(Seq::empty(), label);
    lemma_header_len(a, label);
    text::lemma_byte_len_empty();
    if text::byte_len(title) > budget {
        text::lemma_floor_scalar(title, budget);
        let cut = title.take(text::floor_scalar(title, budget));
        text::lemma_byte_len_push(cut, '\u{2026}');
        lemma_ellipsis_width();
    }
}

proof fn lemma_ellipsis_width()
    ensures
        text::char_width('\u{2026}') == 3,
{
}

proof fn lemma_header_len(title: Seq<char>, label: Seq<char>)
    ensures
        text::byte_len(header(title, label)) == 11 + text::byte_len(title) + text::byte_len(label),
{
    reveal_strlit("Title: ");
    reveal_strlit("\n\n");
    reveal_strlit(":\n");
    let a = "Title: "@;
    let b = "\n\n"@;
    let c = ":\n"@;
    text::lemma_byte_len_concat(a, title);
    text::lemma_byte_len_concat(a + title, b);
    text::lemma_byte_len_concat(a + title + b, label);
    text::lemma_byte_len_concat(a + title + b + label, c);
    vstd::utf8::is_ascii_chars_encode_utf8(a);
    vstd::utf8::is_ascii_chars_encode_utf8(b);
    vstd::utf8::is_ascii_chars_encode_utf8(c);
}

/// Two newlines stand at `k` in `s`.
pub open spec fn breaks_at(s: Seq<char>, k: int) -> bool {
    0 <= k < s.len() - 1 && s[k] == '\n' && s[k + 1] == '\n'
}

proof fn lemma_next_break_is(s: Seq<char>, i: int, k: int)
    requires
        0 <= i <= k,
        breaks_at(s, k) || k >= s.len(),
        forall|m: int| i <= m < k ==> !breaks_at(s, m),
    ensures
        next_break(s, i) == if k < s.len() {
            k
        } else {
            s.len() as int
        },
    decreases k - i,
{
    if i < k {
        assert(!breaks_at(s, i));
        lemma_next_break_is(s, i + 1, k);
    }
}

proof fn lemma_next_break_first(s: Seq<char>, i: int)
    requires
        0 <= i,
    ensures
        forall|m: int| i <= m < next_break(s, i) ==> !breaks_at(s, m),
    decreases s.len() - i,
{
    if i + 1 < s.len() && !(s[i] == '\n' && s[i + 1] == '\n') {
        lemma_next_break_first(s, i + 1);
    }
}

/// The parts with a blank line between each two.
pub open spec fn by_blank_lines(parts: Seq<Seq<char>>) -> Seq<char>
    decreases parts.len(),
{
    if parts.len() == 0 {
        Seq::empty()
    } else if parts.len() == 1 {
        parts[0]
    } else {
        parts[0] + seq!['\n', '\n'] + by_blank_lines(parts.drop_first())
    }
}

/// A body is split at its blank lines and nowhere else: the paragraphs with
/// blank lines between them are the body, none holds two newlines in a row, and
/// none that another follows ends in a newline.
pub proof fn law_paragraphs_split_at_blank_lines(s: Seq<char>)
    ensures
        paragraphs(s).len() > 0,
        by_blank_lines(paragraphs(s)) == s,
        forall|i: int, k: int|
            0 <= i < paragraphs(s).len() ==> !#[trigger] breaks_at(paragraphs(s)[i], k),
        forall|i: int|
            0 <= i < paragraphs(s).len() - 1 && (#[trigger] paragraphs(s)[i]).len() > 0
                ==> paragraphs(s)[i].last() != '\n',
    decreases s.len(),
{
    let i = next_break(s, 0);
    lemma_next_break(s, 0);
    lemma_next_break_first(s, 0);
    if i < s.len() {
        let first = s.take(i);
        let rest = s.skip(i + 2);
        let tail = paragraphs(rest);
        let all = paragraphs(s);
        law_paragraphs_split_at_blank_lines(rest);
        assert(all.drop_first() =~= tail);
        assert(all[0] == first);
        assert(s =~= first + seq!['\n', '\n'] + rest);
        assert(by_blank_lines(all) =~= s);
        assert forall|x: int, k: int| 0 <= x < all.len() implies !#[trigger] breaks_at(
            all[x],
            k,
        ) by {
            if x == 0 {
                if breaks_at(first, k) {
                    assert(breaks_at(s, k));
                }
            } else {
                assert(all[x] == tail[x - 1]);
                assert(!breaks_at(tail[x - 1], k));
            }
        }
        assert forall|x: int| 0 <= x < all.len() - 1 && (#[trigger] all[x]).len() > 0 implies
            all[x].last() != '\n' by {
            if x == 0 {
                if first.last() == '\n' {
                    assert(breaks_at(s, i - 1));
                }
            } else {
                assert(all[x] == tail[x - 1]);
                assert(tail[x - 1].len() > 0);
            }
        }
    } else {
        assert forall|x: int, k: int| 0 <= x < paragraphs(s).len() implies !#[trigger] breaks_at(
            paragraphs(s)[x],
            k,
        ) by {
            if breaks_at(s, k) {
                assert(!breaks_at(s, k));
            }
        }
    }
}

proof fn lemma_paragraphs_append(body: Seq<char>, p: Seq<char>)
    requires
        paragraphs(body).last().len() > 0 ==> paragraphs(body).last().last() != '\n',
        forall|k: int| !#[trigger] breaks_at(p, k),
    ensures
        paragraphs(body + seq!['\n', '\n'] + p) == paragraphs(body).push(p),
    decreases body.len(),
{
    let all = body + seq!['\n', '\n'] + p;
    let i = next_break(body, 0);
    let n = body.len() as int;
    lemma_next_break(body, 0);
    lemma_next_break_first(body, 0);
    if i < n {
        assert forall|m: int| 0 <= m < i implies !breaks_at(all, m) by {
            assert(!breaks_at(body, m));
        }
        assert(breaks_at(all, i));
        lemma_next_break_is(all, 0, i);
        let rest = body.skip(i + 2);
        law_paragraphs_split_at_blank_lines(rest);
        assert(paragraphs(body).last() == paragraphs(rest).last());
        assert(all.take(i) =~= body.take(i));
        assert(all.skip(i + 2) =~= rest + seq!['\n', '\n'] + p);
        lemma_paragraphs_append(rest, p);
        assert(paragraphs(all) =~= paragraphs(body).push(p));
    } else {
        assert(paragraphs(body) == seq![body]);
        assert forall|m: int| 0 <= m < n implies !breaks_at(all, m) by {
            assert(!breaks_at(body, m));
            if m == n - 1 {
                assert(all[m] == body.last());
            }
        }
        assert(breaks_at(all, n));
        lemma_next_break_is(all, 0, n);
        assert(all.take(n) =~= body);
        assert(all.skip(n + 2) =~= p);
        lemma_next_break_is(p, 0, p.len() as int);
        assert(paragraphs(p) == seq![p]);
        assert(paragraphs(all) =~= paragraphs(body).push(p));
    }
}

/// A single paragraph that fits is one chunk; one that does not is cut into
/// pieces that fit in what the header leaves.
pub proof fn law_single_paragraph_is_one_chunk(head: Seq<char>, p: Seq<char>)
    requires
        p.len() > 0,
        forall|k: int| !#[trigger] breaks_at(p, k),
    ensures
        text::byte_len(head + p) <= 900 ==> body_parts(head, p) == seq![p],
        text::byte_len(head + p) > 900 ==> body_parts(head, p) == fragments(
            p,
            if text::byte_len(head) <= 900 {
                900 - text::byte_len(head)
            } else {
                0
            },
        ),
{
    lemma_next_break_is(p, 0, p.len() as int);
    assert(paragraphs(p) == seq![p]);
    let one = seq![p];
    assert(one.drop_last().len() == 0);
    assert(packing(head, one.drop_last()) == (Seq::<Seq<char>>::empty(), Seq::<char>::empty()));
    assert(one.last() == p);
    assert(joined(Seq::empty(), p) == p);
    let cut = fragments(p, room_under(head));
    assert(Seq::<Seq<char>>::empty() + cut =~= cut);
    assert(Seq::<Seq<char>>::empty().push(p) =~= seq![p]);
}

/// An empty paragraph changes nothing: a blank line more at the end, or between
/// two paragraphs, leaves the chunks as they are.
pub proof fn law_empty_paragraphs_are_skipped(head: Seq<char>, body: Seq<char>, p: Seq<char>)
    requires
        paragraphs(body).last().len() > 0 ==> paragraphs(body).last().last() != '\n',
        forall|k: int| !#[trigger] breaks_at(p, k),
    ensures
        body_parts(head, body + seq!['\n', '\n']) == body_parts(head, body),
        body_parts(head, body + seq!['\n', '\n'] + seq!['\n', '\n'] + p) == body_parts(
            head,
            body + seq!['\n', '\n'] + p,
        ),
{
    let none = Seq::<char>::empty();
    let two = seq!['\n', '\n'];
    let ps = paragraphs(body);
    let longer = body + two;
    assert(longer =~= body + two + none);
    lemma_paragraphs_append(body, none);
    assert(ps.push(none).drop_last() =~= ps);
    assert(packing(head, ps.push(none)) == packing(head, ps));
    lemma_paragraphs_append(longer, p);
    lemma_paragraphs_append(body, p);
    assert(ps.push(none).push(p).drop_last() =~= ps.push(none));
    assert(ps.push(p).drop_last() =~= ps);
    assert(packing(head, ps.push(none).push(p)) == packing(head, ps.push(p)));
}

/// `part` holds `p` in one piece.
pub open spec fn holds_whole(part: Seq<char>, p: Seq<char>) -> bool {
    exists|at: int|
        0 <= at && at + p.len() <= part.len() && #[trigger] part.subrange(at, at + p.len()) == p
}

proof fn lemma_packing_whole(head: Seq<char>, ps: Seq<Seq<char>>, i: int)
    requires
        0 <= i < ps.len(),
        ps[i].len() > 0,
        text::byte_len(head + ps[i]) <= 900,
    ensures
        holds_whole(packing(head, ps).1, ps[i]) || exists|k: int|
            0 <= k < packing(head, ps).0.len() && holds_whole(
                #[trigger] packing(head, ps).0[k],
                ps[i],
            ),
    decreases ps.len(),
{
    let (parts, pending) = packing(head, ps.drop_last());
    let p = ps.last();
    let (now, open) = packing(head, ps);
    if i == ps.len() - 1 {
        let at = open.len() - p.len();
        assert(open.subrange(at, at + p.len()) =~= p);
    } else {
        assert(ps.drop_last()[i] == ps[i]);
        lemma_packing_whole(head, ps.drop_last(), i);
        let wanted = ps[i];
        if holds_whole(pending, wanted) {
            let at = choose|at: int|
                0 <= at && at + wanted.len() <= pending.len() && #[trigger] pending.subrange(
                    at,
                    at + wanted.len(),
                ) == wanted;
            assert(pending.len() > 0);
            if p.len() == 0 {
            } else if text::byte_len(head + joined(pending, p)) <= CHUNK_BUDGET_BYTES {
                assert(open.subrange(at, at + wanted.len()) =~= wanted);
            } else {
                assert(now[parts.len() as int] == pending);
            }
        } else {
            let k = choose|k: int|
                0 <= k < parts.len() && holds_whole(#[trigger] parts[k], wanted);
            assert(now[k] == parts[k]);
        }
    }
}

/// A paragraph that fits in a chunk on its own is never cut: some chunk holds
/// it in one piece.
pub proof fn law_fitting_paragraphs_stay_whole(head: Seq<char>, body: Seq<char>, i: int)
    requires
        0 <= i < paragraphs(body).len(),
        paragraphs(body)[i].len() > 0,
        text::byte_len(head + paragraphs(body)[i]) <= 900,
    ensures
        exists|k: int|
            0 <= k < body_parts(head, body).len() && holds_whole(
                #[trigger] body_parts(head, body)[k],
                paragraphs(body)[i],
            ),
{
    let ps = paragraphs(body);
    let (parts, pending) = packing(head, ps);
    let all = body_parts(head, body);
    lemma_packing_whole(head, ps, i);
    if holds_whole(pending, ps[i]) {
        assert(pending.len() > 0);
        assert(all[parts.len() as int] == pending);
    } else {
        let k = choose|k: int| 0 <= k < parts.len() && holds_whole(#[trigger] parts[k], ps[i]);
        assert(all[k] == parts[k]);
    }
}

/// Paragraphs are packed greedily. One more paragraph joins the last chunk,
/// behind a blank line, where it fits there and that chunk ends in a whole
/// paragraph; else it opens a chunk of its own where it fits in one; else its
/// pieces, one after the other, each get one.
pub proof fn law_paragraphs_are_packed_greedily(head: Seq<char>, body: Seq<char>, p: Seq<char>)
    requires
        paragraphs(body).last().len() > 0,
        paragraphs(body).last().last() != '\n',
        p.len() > 0,
        forall|k: int| !#[trigger] breaks_at(p, k),
    ensures
        ({
            let parts = body_parts(head, body);
            let longer = body_parts(head, body + seq!['\n', '\n'] + p);
            let whole = text::byte_len(head + paragraphs(body).last()) <= 900;
            let behind = parts.last() + seq!['\n', '\n'] + p;
            &&& parts.len() > 0
            &&& whole && text::byte_len(head + behind) <= 900 ==> longer
                == parts.drop_last().push(behind)
            &&& !(whole && text::byte_len(head + behind) <= 900) && text::byte_len(head + p) <= 900
                ==> longer == parts.push(p)
            &&& text::byte_len(head + p) > 900 ==> {
                &&& longer.len() > parts.len()
                &&& longer.take(parts.len() as int) == parts
                &&& text::concat(longer.skip(parts.len() as int)) == p
                &&& longer.skip(parts.len() as int) == fragments(
                    p,
                    if text::byte_len(head) <= 900 {
                        900 - text::byte_len(head)
                    } else {
                        0
                    },
                )
            }
        }),
{
    let ps = paragraphs(body);
    let q = ps.last();
    lemma_paragraphs_append(body, p);
    assert(ps.push(p).drop_last() =~= ps);
    let (parts, pending) = packing(head, ps);
    let (before, open) = packing(head, ps.drop_last());
    let all = body_parts(head, body);
    let longer = body_parts(head, body + seq!['\n', '\n'] + p);
    reveal_strlit("\n\n");
    assert("\n\n"@ =~= seq!['\n', '\n']);
    text::lemma_byte_len_concat(head, p);
    lemma_open_means_whole(head, ps);
    if pending.len() > 0 {
        assert(all.drop_last() =~= parts);
        let behind = pending + seq!['\n', '\n'] + p;
        assert(joined(pending, p) =~= behind);
        text::lemma_byte_len_concat(head + pending + seq!['\n', '\n'], p);
        assert(head + behind =~= head + pending + seq!['\n', '\n'] + p);
        text::lemma_byte_len_concat(head + pending, seq!['\n', '\n']);
        text::lemma_byte_len_concat(head, pending);
    } else {
        lemma_fragments_nonempty(q, room_under(head));
        lemma_fragments_nonempty(p, room_under(head));
        assert(all =~= parts);
    }
    if text::byte_len(head + p) > 900 {
        let cut = fragments(p, room_under(head));
        lemma_fragments_nonempty(p, room_under(head));
        lemma_fragments_keep(p, room_under(head));
        if pending.len() > 0 {
            text::lemma_byte_len_concat(head, joined(pending, p));
            text::lemma_byte_len_concat(pending + seq!['\n', '\n'], p);
        }
        assert(longer =~= all + cut);
        assert(longer.skip(all.len() as int) =~= cut);
        assert(longer.take(all.len() as int) =~= all);
    }
}

proof fn lemma_fragments_nonempty(s: Seq<char>, room: int)
    requires
        s.len() > 0,
    ensures
        fragments(s, room).len() > 0,
{
    lemma_fragment_len(s, room);
}

/// After a paragraph that is not empty, a part is open if and only if the
/// paragraph fits on its own.
proof fn lemma_open_means_whole(head: Seq<char>, ps: Seq<Seq<char>>)
    requires
        ps.len() > 0,
        ps.last().len() > 0,
    ensures
        packing(head, ps).1.len() > 0 <==> text::byte_len(head + ps.last()) <= 900,
        packing(head, ps).1.len() == 0 ==> packing(head, ps).0.len() > 0,
{
    let (parts, pending) = packing(head, ps.drop_last());
    let p = ps.last();
    lemma_fragments_nonempty(p, room_under(head));
    text::lemma_byte_len_concat(head, p);
    text::lemma_byte_len_concat(head, joined(pending, p));
    text::lemma_byte_len_concat(pending + "\n\n"@, p);
}

/// A piece of an oversized paragraph takes the text up to the last sentence or
/// line end that fits, all that fits where there is none, and one scalar where
/// nothing fits; the next piece goes on behind it.
pub proof fn law_pieces_end_at_sentences(s: Seq<char>, room: int)
    requires
        s.len() > 0,
        room >= 0,
    ensures
        ({
            let ends = |m: int|
                text::byte_len(s.take(m)) <= room && (s[m - 1] == '.' || s[m - 1] == '?' || s[m - 1]
                    == '!' || s[m - 1] == '\n');
            exists|k: int|
                {
                    &&& 1 <= k <= s.len()
                    &&& fragments(s, room).len() > 0
                    &&& fragments(s, room)[0] == #[trigger] s.take(k)
                    &&& fragments(s, room).drop_first() == fragments(s.skip(k), room)
                    &&& text::byte_len(s.take(1)) > room ==> k == 1
                    &&& text::byte_len(s.take(1)) <= room ==> {
                        &&& text::byte_len(s.take(k)) <= room
                        &&& (exists|m: int| 1 <= m <= s.len() && #[trigger] ends(m)) ==> ends(k)
                        &&& ends(k) ==> forall|m: int| k < m <= s.len() ==> !#[trigger] ends(m)
                        &&& !ends(k) ==> k == s.len() || text::byte_len(s.take(k + 1)) > room
                    }
                }
        }),
{
    let ends = |m: int|
        text::byte_len(s.take(m)) <= room && (s[m - 1] == '.' || s[m - 1] == '?' || s[m - 1] == '!'
            || s[m - 1] == '\n');
    let k = fragment_len(s, room);
    let fit = text::floor_scalar(s, room);
    lemma_fragment_len(s, room);
    text::lemma_floor_scalar(s, room);
    lemma_sentence_end(s, fit);
    lemma_sentence_end_last(s, fit);
    assert(fragments(s, room).drop_first() =~= fragments(s.skip(k), room));
    assert forall|m: int| 1 <= m <= s.len() && #[trigger] ends(m) implies m <= fit by {
        if m > fit {
            assert(text::byte_len(s.take(m)) > room);
        }
    }
    if text::byte_len(s.take(1)) <= room {
        assert(fit >= 1);
        text::lemma_byte_len_take(s, k, fit);
        if exists|m: int| 1 <= m <= s.len() && #[trigger] ends(m) {
            let m = choose|m: int| 1 <= m <= s.len() && #[trigger] ends(m);
            assert(is_terminator(s[m - 1]));
            assert(is_terminator(s[k - 1]));
        }
        if !ends(k) {
            if sentence_end(s, fit) > 0 {
                assert(is_terminator(s[k - 1]));
            }
            assert(k == fit);
            if k < s.len() {
                assert(text::byte_len(s.take(k + 1)) > room);
            }
        } else {
            assert forall|m: int| k < m <= s.len() implies !#[trigger] ends(m) by {
                if ends(m) {
                    assert(is_terminator(s[m - 1]));
                }
            }
        }
    } else {
        if fit >= 1 {
            text::lemma_byte_len_take(s, 1, fit);
        }
    }
    assert(fragments(s, room)[0] == s.take(k));
}

proof fn lemma_sentence_end_last(s: Seq<char>, n: int)
    requires
        n <= s.len(),
    ensures
        sentence_end(s, n) > 0 ==> is_terminator(s[sentence_end(s, n) - 1]),
        forall|m: int| sentence_end(s, n) < m <= n ==> !is_terminator(#[trigger] s[m - 1]),
    decreases n,
{
    if n > 0 && !is_terminator(s[n - 1]) {
        lemma_sentence_end_last(s, n - 1);
        assert forall|m: int| sentence_end(s, n) < m <= n implies !is_terminator(
            #[trigger] s[m - 1],
        ) by {
            if m < n {
                assert(!is_terminator(s[m - 1]));
            }
        }
    }
}

/// A title that leaves the body its room stands in full before it; any other is
/// cut to the longest prefix that does, with an ellipsis.
pub proof fn law_anchor_is_the_longest_prefix(title: Seq<char>, label: Seq<char>)
    requires
        text::byte_len(label) <= 586,
    ensures
        ({
            let kept = 900 - 300 - 3 - 11 - text::byte_len(label);
            &&& text::byte_len(title) <= kept ==> anchor(title, label) == title
            &&& text::byte_len(title) > kept ==> exists|k: int|
                {
                    &&& 0 <= k < title.len()
                    &&& text::byte_len(#[trigger] title.take(k)) <= kept
                    &&& text::byte_len(title.take(k + 1)) > kept
                    &&& anchor(title, label) == title.take(k).push('\u{2026}')
                }
        }),
{
    let kept = anchor_budget(label);
    lemma_header_len(Seq::empty(), label);
    text::lemma_byte_len_empty();
    text::lemma_floor_scalar(title, kept);
    let k = text::floor_scalar(title, kept);
    assert(title.take(title.len() as int) =~= title);
    if text::byte_len(title) > kept {
        assert(k < title.len());
        assert(text::byte_len(title.take(k + 1)) > kept);
        assert(text::byte_len(title.take(k)) <= kept);
    }
}

proof fn lemma_header_is(title: Seq<char>, label: Seq<char>)
    ensures
        header(title, label) == "Title: "@ + title + "\n\n"@ + label + ":\n"@,
{
}

proof fn lemma_parts_of_packed(head: Seq<char>, body: Seq<char>)
    ensures
        packed(head, body).len() == body_parts(head, body).len(),
        packed(head, body).map_values(|c: Seq<char>| c.skip(head.len() as int)) == body_parts(
            head,
            body,
        ),
        forall|i: int|
            0 <= i < packed(head, body).len() ==> (#[trigger] packed(head, body)[i]).take(
                head.len() as int,
            ) == head,
{
    let cut = |c: Seq<char>| c.skip(head.len() as int);
    let chunks = packed(head, body);
    let parts = body_parts(head, body);
    assert forall|i: int| 0 <= i < chunks.len() implies chunks[i].skip(head.len() as int)
        == parts[i] && (#[trigger] chunks[i]).take(head.len() as int) == head by {
        assert((head + parts[i]).skip(head.len() as int) =~= parts[i]);
        assert((head + parts[i]).take(head.len() as int) =~= head);
    }
    assert(chunks.map_values(cut) =~= parts);
}

/// The chunks of a text hold its title and all of its body. A blank body has
/// the title alone for the task's own text, and nothing for a comment. Else
/// every chunk starts with the title and label, and what follows in them, read
/// one after the other, is the body, newlines apart. Where that start would be
/// over the budget, the whole title has the first chunk to itself and the
/// others start with the shortened one.
pub proof fn law_chunks_hold_title_and_body(
    title: Seq<char>,
    body: Seq<char>,
    label: Seq<char>,
    title_only: bool,
)
    ensures
        ({
            let chunks = formatted_chunks(title, body, label, title_only);
            let alone = "Title: "@ + title + "\n\n"@ + label + ":"@;
            let full = "Title: "@ + title + "\n\n"@ + label + ":\n"@;
            let wide = text::byte_len(full) > 900;
            let shown = if wide {
                anchor(title, label)
            } else {
                title
            };
            let head = "Title: "@ + shown + "\n\n"@ + label + ":\n"@;
            let own = if wide {
                chunks.drop_first()
            } else {
                chunks
            };
            if forall|i: int| 0 <= i < body.len() ==> text::is_space(#[trigger] body[i]) {
                chunks == if title_only {
                    seq![alone]
                } else {
                    Seq::empty()
                }
            } else {
                &&& wide ==> chunks.len() > 0 && chunks[0] == alone
                &&& forall|i: int|
                    0 <= i < own.len() ==> (#[trigger] own[i]).take(head.len() as int) == head
                &&& text::without(
                    text::concat(own.map_values(|c: Seq<char>| c.skip(head.len() as int))),
                    '\n',
                ) == text::without(body, '\n')
            }
        }),
{
    let chunks = formatted_chunks(title, body, label, title_only);
    let full = "Title: "@ + title + "\n\n"@ + label + ":\n"@;
    let wide = text::byte_len(full) > 900;
    let shown = if wide {
        anchor(title, label)
    } else {
        title
    };
    let head = header(shown, label);
    lemma_header_is(title, label);
    lemma_header_is(shown, label);
    assert(text::blank(body) == forall|i: int|
        0 <= i < body.len() ==> text::is_space(#[trigger] body[i]));
    if !text::blank(body) {
        lemma_parts_of_packed(head, body);
        law_no_text_is_dropped(head, body);
        let own = if wide {
            chunks.drop_first()
        } else {
            chunks
        };
        assert(own =~= packed(head, body));
    }
}

/// A task's chunks are those of its own text, then those of its comments, one
/// comment after the other; a comment that is added adds its chunks behind the
/// others.
pub proof fn law_comments_have_their_own_chunks(
    row: TaskTextRow,
    more: TaskTextRow,
    c: CommentTextRow,
    i: int,
)
    requires
        more.task_id == row.task_id,
        more.title@ == row.title@,
        more.body@ == row.body@,
        more.comments@ == row.comments@.push(c),
    ensures
        ({
            let core = formatted_chunks(row.title@, row.body@, "Description"@, true);
            let own = formatted_chunks(row.title@, c.body@, "Comment"@, false);
            let before = task_chunks(row);
            let after = task_chunks(more);
            &&& row.comments@.len() == 0 ==> before.len() == core.len()
            &&& row.comments@.len() == 0 && 0 <= i < core.len() ==> before[i].kind
                == ChunkKind::Core && before[i].text == core[i]
            &&& after.len() == before.len() + own.len()
            &&& after.take(before.len() as int) == before
            &&& 0 <= i < own.len() ==> after[before.len() + i].kind == ChunkKind::Comment
                && after[before.len() + i].text == own[i]
        }),
{
    assert(more.comments@.drop_last() =~= row.comments@);
    let before = task_chunks(row);
    let after = task_chunks(more);
    let own = all_sealed(
        row.task_id,
        ChunkKind::Comment,
        formatted_chunks(row.title@, c.body@, "Comment"@, false),
    );
    assert(after =~= before + own);
    assert(after.take(before.len() as int) =~= before);
}

/// Every chunk of a task belongs to it and carries the hash of its own text.
pub proof fn law_chunks_are_sealed(row: TaskTextRow, i: int)
    requires
        0 <= i < task_chunks(row).len(),
    ensures
        task_chunks(row)[i].task_id == row.task_id,
        task_chunks(row)[i].content_hash == digest::sha256(
            vstd::utf8::encode_utf8(task_chunks(row)[i].text),
        ),
{
    lemma_comments_sealed(row.task_id, row.title@, row.comments@);
}

proof fn lemma_comments_sealed(task_id: TaskId, title: Seq<char>, comments: Seq<CommentTextRow>)
    ensures
        forall|i: int|
            0 <= i < comment_chunks(task_id, title, comments).len() ==> {
                let c = #[trigger] comment_chunks(task_id, title, comments)[i];
                c.task_id == task_id && c.content_hash == digest::sha256(
                    vstd::utf8::encode_utf8(c.text),
                )
            },
    decreases comments.len(),
{
    if comments.len() > 0 {
        lemma_comments_sealed(task_id, title, comments.drop_last());
    }
}

} // verus!
