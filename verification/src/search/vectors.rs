//! Filling missing vectors in guarded batches.
//!
//! A pass reads the chunks that lack a vector, plans their segments, has them
//! embedded and stores the result, batch after batch. It ends when nothing is
//! missing, when its batches are used up, or at the first failure.

use super::digest::{self, digest};
use crate::model::ids::TaskId;
use vstd::prelude::*;

verus! {

/// Chunks read per batch.
pub const BATCH: u32 = 64;

/// How a fill pass ended.
#[derive(Clone, Copy, Debug, PartialEq, Eq, Structural)]
pub enum FillOutcome {
    /// Every chunk has a vector.
    Complete,
    /// The batches were used up with work still outstanding.
    Incomplete,
    /// A read, plan, embed or store failed.
    Failed,
}

/// What a pass does next.
#[derive(Clone, Copy, Debug, PartialEq, Eq, Structural)]
pub enum FillStep {
    /// Read up to `BATCH` chunks that lack a vector.
    ReadMissing,
    /// Plan, embed and store the chunks that were read.
    Embed,
    Done(FillOutcome),
}

/// A chunk that lacks a vector.
#[derive(Clone, Debug, PartialEq, Eq)]
pub struct MissingInput {
    pub search_chunk_id: i64,
    pub task_id: TaskId,
    pub content_hash: [u8; 32],
    pub text: String,
}

/// One planned segment of a chunk, with the hash of the text to embed.
#[derive(Clone, Debug, PartialEq, Eq)]
pub struct Segment {
    pub search_chunk_id: i64,
    pub task_id: TaskId,
    pub content_hash: [u8; 32],
    pub segment_index: u32,
    pub text: String,
    pub embedding_input_hash: [u8; 32],
}

/// Progress of a fill pass.
#[derive(Clone, Copy, Debug, PartialEq, Eq, Structural)]
pub struct FillPass {
    pub batches: usize,
    pub max_batches: usize,
}

impl FillPass {
    pub fn start(max_batches: usize) -> (out: Self)
        ensures
            out == (FillPass { batches: 0, max_batches }),
    {
        FillPass { batches: 0, max_batches }
    }

    /// The chunks that lack a vector were read: `found` says how many, `None`
    /// that the read failed. A batch is begun only while some are left.
    pub fn on_missing(&mut self, found: Option<usize>) -> (step: FillStep)
        ensures
            final(self).max_batches == old(self).max_batches,
            final(self).batches == old(self).batches + (if step == FillStep::Embed {
                1int
            } else {
                0int
            }),
            old(self).batches <= old(self).max_batches ==> final(self).batches
                <= final(self).max_batches,
            step == match found {
                None => FillStep::Done(FillOutcome::Failed),
                Some(n) => if n == 0 {
                    FillStep::Done(FillOutcome::Complete)
                } else if old(self).batches >= old(self).max_batches {
                    FillStep::Done(FillOutcome::Incomplete)
                } else {
                    FillStep::Embed
                },
            },
    {
        match found {
            None => FillStep::Done(FillOutcome::Failed),
            Some(n) => {
                if n == 0 {
                    FillStep::Done(FillOutcome::Complete)
                } else if self.batches >= self.max_batches {
                    FillStep::Done(FillOutcome::Incomplete)
                } else {
                    self.batches += 1;
                    FillStep::Embed
                }
            },
        }
    }
}

/// Whether an embed reply may be stored: `vectors` is the number of vectors
/// that came back, `None` a failure. A short reply would leave segments
/// without a vector, so only a full one is stored.
pub fn accepts_vectors(segments: usize, vectors: Option<usize>) -> (yes: bool)
    ensures
        yes == (vectors == Some(segments)),
{
    match vectors {
        None => false,
        Some(n) => n == segments,
    }
}

/// What follows a store: the next batch, or failure where the store failed or
/// its guards let no row through.
pub fn on_stored(stored: Option<u64>) -> (step: FillStep)
    ensures
        step == if stored is Some && stored->0 > 0 {
            FillStep::ReadMissing
        } else {
            FillStep::Done(FillOutcome::Failed)
        },
{
    match stored {
        None => FillStep::Done(FillOutcome::Failed),
        Some(n) => if n == 0 {
            FillStep::Done(FillOutcome::Failed)
        } else {
            FillStep::ReadMissing
        },
    }
}

/// Segment `seg` of the planned inputs of `m`.
pub open spec fn is_segment(s: Segment, m: MissingInput, inputs: Seq<String>, seg: int) -> bool {
    &&& s.search_chunk_id == m.search_chunk_id
    &&& s.task_id == m.task_id
    &&& s.content_hash == m.content_hash
    &&& s.segment_index == seg as u32
    &&& s.text == inputs[seg]
    &&& s.embedding_input_hash@ == digest::sha256(vstd::utf8::encode_utf8(inputs[seg]@))
}

/// Number of segments planned for the first `n` chunks.
pub open spec fn segment_count(plans: Seq<Vec<String>>, n: int) -> int
    decreases n,
{
    if n <= 0 {
        0
    } else {
        segment_count(plans, n - 1) + plans[n - 1]@.len()
    }
}

/// Segment `seg` of chunk `i` stands at its place in `out`.
pub open spec fn in_place(
    out: Seq<Segment>,
    missing: Seq<MissingInput>,
    plans: Seq<Vec<String>>,
    i: int,
    seg: int,
) -> bool {
    is_segment(out[segment_count(plans, i) + seg], missing[i], plans[i]@, seg)
}

/// `out` holds the segments of every chunk, in order of chunk and segment.
pub open spec fn lists_segments(
    out: Seq<Segment>,
    missing: Seq<MissingInput>,
    plans: Seq<Vec<String>>,
    n: int,
) -> bool {
    &&& out.len() == segment_count(plans, n)
    &&& forall|i: int, seg: int|
        0 <= i < n && 0 <= seg < plans[i]@.len() ==> #[trigger] in_place(
            out,
            missing,
            plans,
            i,
            seg,
        )
}

proof fn lemma_count_grows(plans: Seq<Vec<String>>, i: int, j: int)
    requires
        0 <= i <= j,
    ensures
        segment_count(plans, i) <= segment_count(plans, j),
        0 <= segment_count(plans, i),
    decreases j,
{
    if i < j {
        lemma_count_grows(plans, i, j - 1);
    } else if j > 0 {
        lemma_count_grows(plans, j - 1, j - 1);
    }
}

/// The segments to embed: for each chunk its planned inputs, in order.
pub fn plan_segments(missing: &Vec<MissingInput>, plans: &Vec<Vec<String>>) -> (out: Vec<Segment>)
    requires
        missing@.len() == plans@.len(),
    ensures
        lists_segments(out@, missing@, plans@, plans@.len() as int),
{
    let mut out: Vec<Segment> = Vec::new();
    let mut i: usize = 0;
    while i < missing.len()
        invariant
            i <= missing.len(),
            missing@.len() == plans@.len(),
            lists_segments(out@, missing@, plans@, i as int),
        decreases missing.len() - i,
    {
        let ghost before = out@;
        let ghost base = segment_count(plans@, i as int);
        let mut seg: usize = 0;
        while seg < plans[i].len()
            invariant
                i < missing.len(),
                missing@.len() == plans@.len(),
                seg <= plans@[i as int]@.len(),
                base == segment_count(plans@, i as int),
                before.len() == base,
                out@.len() == base + seg,
                out@.take(base) == before,
                lists_segments(before, missing@, plans@, i as int),
                forall|k: int|
                    0 <= k < seg ==> is_segment(
                        #[trigger] out@[base + k],
                        missing@[i as int],
                        plans@[i as int]@,
                        k,
                    ),
            decreases plans@[i as int]@.len() - seg,
        {
            let m = &missing[i];
            let text: String = plans[i][seg].clone();
            let embedding_input_hash: [u8; 32] = digest(text.as_str().as_bytes());
            let ghost shorter = out@;
            out.push(
                Segment {
                    search_chunk_id: m.search_chunk_id,
                    task_id: m.task_id,
                    content_hash: m.content_hash,
                    segment_index: #[verifier::truncate] (seg as u32),
                    text,
                    embedding_input_hash,
                },
            );
            assert(out@.take(base) =~= shorter.take(base));
            seg += 1;
        }
        proof {
            let n = i as int + 1;
            assert(segment_count(plans@, n) == base + plans@[i as int]@.len());
            assert forall|a: int, b: int|
                0 <= a < n && 0 <= b < plans@[a]@.len() implies #[trigger] in_place(
                out@,
                missing@,
                plans@,
                a,
                b,
            ) by {
                if a < i {
                    lemma_count_grows(plans@, 0, a);
                    lemma_count_grows(plans@, a + 1, i as int);
                    assert(segment_count(plans@, a + 1) == segment_count(plans@, a)
                        + plans@[a]@.len());
                    let x = segment_count(plans@, a) + b;
                    assert(out@.take(base)[x] == out@[x]);
                    assert(in_place(before, missing@, plans@, a, b));
                } else {
                    assert(is_segment(out@[base + b], missing@[a], plans@[a]@, b));
                }
            }
        }
        i += 1;
    }
    out
}

/// Every planned input of every chunk has its segment: those of the first chunk
/// come first, those of each next one behind them, in the order planned. A
/// segment carries the id, task and hash of its chunk, its own place there, its
/// text and the hash of that text.
pub proof fn law_every_input_has_its_segment(
    out: Seq<Segment>,
    missing: Seq<MissingInput>,
    plans: Seq<Vec<String>>,
    i: int,
    seg: int,
)
    requires
        lists_segments(out, missing, plans, plans.len() as int),
        0 <= i < plans.len(),
        0 <= seg < plans[i]@.len() <= u32::MAX,
    ensures
        ({
            let before = plans.take(i).fold_left(0int, |n: int, p: Vec<String>| n + p@.len());
            let all = plans.fold_left(0int, |n: int, p: Vec<String>| n + p@.len());
            let s = out[before + seg];
            &&& out.len() == all
            &&& 0 <= before
            &&& before + seg < all
            &&& s.search_chunk_id == missing[i].search_chunk_id
            &&& s.task_id == missing[i].task_id
            &&& s.content_hash == missing[i].content_hash
            &&& s.segment_index as int == seg
            &&& s.text == plans[i]@[seg]
            &&& s.embedding_input_hash@ == digest::sha256(
                vstd::utf8::encode_utf8(plans[i]@[seg]@),
            )
        }),
{
    let n = plans.len() as int;
    lemma_count_is_sum(plans, i);
    lemma_count_is_sum(plans, n);
    assert(plans.take(n) =~= plans);
    lemma_count_grows(plans, 0, i);
    lemma_count_grows(plans, i + 1, n);
    assert(segment_count(plans, i + 1) == segment_count(plans, i) + plans[i]@.len());
    assert(in_place(out, missing, plans, i, seg));
}

proof fn lemma_count_is_sum(plans: Seq<Vec<String>>, n: int)
    requires
        0 <= n <= plans.len(),
    ensures
        segment_count(plans, n) == plans.take(n).fold_left(
            0int,
            |n: int, p: Vec<String>| n + p@.len(),
        ),
    decreases n,
{
    reveal(Seq::fold_left);
    if n > 0 {
        lemma_count_is_sum(plans, n - 1);
        assert(plans.take(n).drop_last() =~= plans.take(n - 1));
    }
}

/// A pass embeds a batch while chunks lack a vector and it has batches left. It
/// is complete when none lacks one, incomplete when its batches are used up, and
/// failed where a read, an embedding or a store failed; a short reply is not
/// stored.
pub proof fn law_pass_ends_when_nothing_is_missing(
    p: &mut FillPass,
    found: Option<usize>,
    step: FillStep,
    segments: usize,
    vectors: Option<usize>,
    accepted: bool,
    stored: Option<u64>,
    next: FillStep,
    max_batches: usize,
    new: FillPass,
)
    requires
        call_ensures(FillPass::start, (max_batches,), new),
        call_ensures(FillPass::on_missing, (p, found), step),
        call_ensures(accepts_vectors, (segments, vectors), accepted),
        call_ensures(on_stored, (stored,), next),
    ensures
        new.batches == 0,
        new.max_batches == max_batches,
        step == FillStep::Done(FillOutcome::Failed) <==> found is None,
        step == FillStep::Done(FillOutcome::Complete) <==> found == Some(0usize),
        step == FillStep::Done(FillOutcome::Incomplete) <==> found is Some && found->0 > 0 && old(
            p).batches >= old(p).max_batches,
        step == FillStep::Embed <==> found is Some && found->0 > 0 && old(p).batches < old(
            p).max_batches,
        step == FillStep::Embed ==> final(p).batches == old(p).batches + 1,
        step != FillStep::Embed ==> final(p).batches == old(p).batches,
        final(p).max_batches == old(p).max_batches,
        accepted <==> vectors is Some && vectors->0 == segments,
        next == FillStep::ReadMissing <==> stored is Some && stored->0 > 0,
        next != FillStep::ReadMissing ==> next == FillStep::Done(FillOutcome::Failed),
{
}

} // verus!
