//! A fingerprint of the chunks the index should hold.

use super::chunker::{ChunkKind, ChunkTarget};
use super::digest::{self, digest};
use crate::seqs;
use vstd::prelude::*;
use vstd::relations::*;

verus! {

/// Projected growth of the index per chunk, in bytes.
pub const PROJECTED_CHUNK_BYTES: u64 = 1200;

/// The byte that stands for a chunk kind.
pub open spec fn kind_byte(kind: ChunkKind) -> u8 {
    match kind {
        ChunkKind::Core => 0,
        ChunkKind::Comment => 1,
    }
}

/// The last `n` bytes of `v`, most significant first.
pub open spec fn be_bytes(v: int, n: nat) -> Seq<u8>
    decreases n,
{
    if n == 0 {
        Seq::empty()
    } else {
        be_bytes(v / 256, (n - 1) as nat).push((v % 256) as u8)
    }
}

/// What identifies a chunk: its task, its kind and the hash of its text.
pub open spec fn entry(c: ChunkTarget) -> Seq<u8> {
    be_bytes(c.task_id.0 as int, 16).push(kind_byte(c.kind)) + c.content_hash@
}

pub open spec fn entries(chunks: Seq<ChunkTarget>) -> Seq<Seq<u8>> {
    chunks.map_values(|c: ChunkTarget| entry(c))
}

/// Lexicographic order of byte strings.
pub open spec fn lex_le(a: Seq<u8>, b: Seq<u8>) -> bool
    decreases a.len(),
{
    if a.len() == 0 {
        true
    } else if b.len() == 0 {
        false
    } else if a[0] != b[0] {
        a[0] < b[0]
    } else {
        lex_le(a.drop_first(), b.drop_first())
    }
}

pub open spec fn joined_bytes(parts: Seq<Seq<u8>>) -> Seq<u8>
    decreases parts.len(),
{
    if parts.len() == 0 {
        Seq::empty()
    } else {
        joined_bytes(parts.drop_last()) + parts.last()
    }
}

/// The entries in lexicographic order, one after the other.
pub open spec fn signature(chunks: Seq<ChunkTarget>) -> Seq<u8> {
    joined_bytes(entries(chunks).sort_by(|a: Seq<u8>, b: Seq<u8>| lex_le(a, b)))
}

proof fn lemma_lex_reflexive(a: Seq<u8>)
    ensures
        lex_le(a, a),
    decreases a.len(),
{
    if a.len() > 0 {
        lemma_lex_reflexive(a.drop_first());
    }
}

proof fn lemma_lex_total(a: Seq<u8>, b: Seq<u8>)
    ensures
        lex_le(a, b) || lex_le(b, a),
        lex_le(a, b) && lex_le(b, a) ==> a == b,
    decreases a.len(),
{
    if a.len() > 0 && b.len() > 0 {
        lemma_lex_total(a.drop_first(), b.drop_first());
        if lex_le(a, b) && lex_le(b, a) {
            assert(a =~= seq![a[0]] + a.drop_first());
            assert(b =~= seq![b[0]] + b.drop_first());
        }
    } else if a.len() == 0 && b.len() == 0 {
        assert(a =~= b);
    }
}

proof fn lemma_lex_transitive(a: Seq<u8>, b: Seq<u8>, c: Seq<u8>)
    requires
        lex_le(a, b),
        lex_le(b, c),
    ensures
        lex_le(a, c),
    decreases a.len(),
{
    if a.len() > 0 && b.len() > 0 && c.len() > 0 {
        if a[0] == b[0] && b[0] == c[0] {
            lemma_lex_transitive(a.drop_first(), b.drop_first(), c.drop_first());
        }
    }
}

proof fn lemma_lex_is_total()
    ensures
        total_ordering(|a: Seq<u8>, b: Seq<u8>| lex_le(a, b)),
{
    let le = |a: Seq<u8>, b: Seq<u8>| lex_le(a, b);
    assert forall|a: Seq<u8>| #[trigger] le(a, a) by {
        lemma_lex_reflexive(a);
    }
    assert forall|a: Seq<u8>, b: Seq<u8>| #[trigger] le(a, b) && #[trigger] le(b, a) implies a
        == b by {
        lemma_lex_total(a, b);
    }
    assert forall|a: Seq<u8>, b: Seq<u8>, c: Seq<u8>|
        #[trigger] le(a, b) && #[trigger] le(b, c) implies le(a, c) by {
        lemma_lex_transitive(a, b, c);
    }
    assert forall|a: Seq<u8>, b: Seq<u8>| #[trigger] le(a, b) || #[trigger] le(b, a) by {
        lemma_lex_total(a, b);
    }
}

/// The fingerprint does not depend on the order of the chunks.
pub proof fn law_signature_ignores_order(a: Seq<ChunkTarget>, b: Seq<ChunkTarget>)
    requires
        entries(a).to_multiset() == entries(b).to_multiset(),
    ensures
        signature(a) == signature(b),
{
    let le = |a: Seq<u8>, b: Seq<u8>| lex_le(a, b);
    lemma_lex_is_total();
    entries(a).lemma_sort_by_ensures(le);
    entries(b).lemma_sort_by_ensures(le);
    vstd::seq_lib::lemma_sorted_unique(entries(a).sort_by(le), entries(b).sort_by(le), le);
}

/// The byte that stands for a chunk kind.
pub fn chunk_kind_byte(kind: ChunkKind) -> (b: u8)
    ensures
        b == kind_byte(kind),
{
    match kind {
        ChunkKind::Core => 0,
        ChunkKind::Comment => 1,
    }
}

/// The last `n` bytes of `v`, most significant first.
fn be_bytes_of(v: u128, n: usize) -> (out: Vec<u8>)
    ensures
        out@ == be_bytes(v as int, n as nat),
    decreases n,
{
    if n == 0 {
        Vec::new()
    } else {
        let mut out = be_bytes_of(v / 256, n - 1);
        out.push((v % 256) as u8);
        out
    }
}

/// What identifies a chunk.
fn entry_of(c: &ChunkTarget) -> (out: Vec<u8>)
    ensures
        out@ == entry(*c),
{
    let mut out = be_bytes_of(c.task_id.0, 16);
    out.push(chunk_kind_byte(c.kind));
    let ghost prefix = out@;
    let mut i: usize = 0;
    while i < 32
        invariant
            i <= 32,
            out@ == prefix + c.content_hash@.take(i as int),
        decreases 32 - i,
    {
        out.push(c.content_hash[i]);
        assert(out@ =~= prefix + c.content_hash@.take(i as int + 1));
        i += 1;
    }
    assert(c.content_hash@.take(32) =~= c.content_hash@);
    out
}

/// Whether `a` is at most `b` in lexicographic order.
fn is_lex_le(a: &Vec<u8>, b: &Vec<u8>) -> (yes: bool)
    ensures
        yes == lex_le(a@, b@),
{
    let mut i: usize = 0;
    assert(a@.skip(0) =~= a@);
    assert(b@.skip(0) =~= b@);
    while i < a.len() && i < b.len()
        invariant
            i <= a.len(),
            i <= b.len(),
            lex_le(a@, b@) == lex_le(a@.skip(i as int), b@.skip(i as int)),
        decreases a.len() - i,
    {
        if a[i] != b[i] {
            return a[i] < b[i];
        }
        assert(a@.skip(i as int).drop_first() =~= a@.skip(i as int + 1));
        assert(b@.skip(i as int).drop_first() =~= b@.skip(i as int + 1));
        i += 1;
    }
    i >= a.len()
}

pub open spec fn byte_views(list: Seq<Vec<u8>>) -> Seq<Seq<u8>> {
    list.map_values(|v: Vec<u8>| v@)
}

/// The entries in lexicographic order.
fn sorted_entries(chunks: &Vec<ChunkTarget>) -> (out: Vec<Vec<u8>>)
    ensures
        byte_views(out@) == entries(chunks@).sort_by(|a: Seq<u8>, b: Seq<u8>| lex_le(a, b)),
{
    let ghost le = |a: Seq<u8>, b: Seq<u8>| lex_le(a, b);
    let ghost all = entries(chunks@);
    let mut out: Vec<Vec<u8>> = Vec::new();
    let mut i: usize = 0;
    assert(all.take(0) =~= byte_views(out@));
    while i < chunks.len()
        invariant
            i <= chunks.len(),
            le == (|a: Seq<u8>, b: Seq<u8>| lex_le(a, b)),
            all == entries(chunks@),
            sorted_by(byte_views(out@), le),
            byte_views(out@).to_multiset() == all.take(i as int).to_multiset(),
        decreases chunks.len() - i,
    {
        let w = entry_of(&chunks[i]);
        let mut j: usize = 0;
        while j < out.len() && is_lex_le(&out[j], &w)
            invariant
                j <= out.len(),
                forall|k: int| 0 <= k < j ==> lex_le(#[trigger] out@[k]@, w@),
            decreases out.len() - j,
        {
            j += 1;
        }
        let ghost old_views = byte_views(out@);
        proof {
            broadcast use vstd::seq_lib::group_to_multiset_ensures;

            assert(all[i as int] == w@);
            assert(all.take(i as int + 1) =~= all.take(i as int).push(w@));
            seqs::lemma_insert_multiset(old_views, j as int, w@);
            assert(all.take(i as int + 1).to_multiset() =~= all.take(i as int).to_multiset().insert(
                w@,
            ));
            let grown = old_views.insert(j as int, w@);
            lemma_lex_is_total();
            assert forall|p: int, q: int| 0 <= p < q < grown.len() implies #[trigger] le(
                grown[p],
                grown[q],
            ) by {
                let a = if p < j {
                    p
                } else {
                    p - 1
                };
                let b = if q < j {
                    q
                } else {
                    q - 1
                };
                if p != j && q != j {
                    assert(le(old_views[a], old_views[b]));
                } else if p == j {
                    lemma_lex_total(w@, out@[j as int]@);
                    assert(le(w@, old_views[j as int]));
                    if b > j {
                        assert(le(old_views[j as int], old_views[b]));
                    }
                } else {
                    assert(old_views[a] == out@[p]@);
                }
            }
        }
        out.insert(j, w);
        assert(byte_views(out@) =~= old_views.insert(j as int, w@));
        i += 1;
    }
    proof {
        assert(all.take(i as int) =~= all);
        lemma_lex_is_total();
        all.lemma_sort_by_ensures(le);
        vstd::seq_lib::lemma_sorted_unique(byte_views(out@), all.sort_by(le), le);
    }
    out
}

/// The bytes that the fingerprint is taken of.
pub fn signature_of(chunks: &Vec<ChunkTarget>) -> (out: Vec<u8>)
    ensures
        out@ == signature(chunks@),
{
    let sorted = sorted_entries(chunks);
    let ghost parts = byte_views(sorted@);
    let mut out: Vec<u8> = Vec::new();
    let mut i: usize = 0;
    assert(parts.take(0) =~= Seq::empty());
    while i < sorted.len()
        invariant
            i <= sorted.len(),
            parts == byte_views(sorted@),
            out@ == joined_bytes(parts.take(i as int)),
        decreases sorted.len() - i,
    {
        let ghost before = out@;
        let mut k: usize = 0;
        while k < sorted[i].len()
            invariant
                i < sorted.len(),
                k <= sorted@[i as int].len(),
                out@ == before + sorted@[i as int]@.take(k as int),
            decreases sorted@[i as int].len() - k,
        {
            out.push(sorted[i][k]);
            assert(out@ =~= before + sorted@[i as int]@.take(k as int + 1));
            k += 1;
        }
        proof {
            assert(sorted@[i as int]@.take(k as int) =~= sorted@[i as int]@);
            assert(parts.take(i as int + 1).drop_last() =~= parts.take(i as int));
            assert(parts.take(i as int + 1).last() == sorted@[i as int]@);
        }
        i += 1;
    }
    assert(parts.take(i as int) =~= parts);
    out
}

/// SHA-256 of the sorted entries: the same for the same chunks in any order.
pub fn content_fingerprint(chunks: &Vec<ChunkTarget>) -> (out: [u8; 32])
    ensures
        out@ == digest::sha256(signature(chunks@)),
{
    let bytes = signature_of(chunks);
    digest(bytes.as_slice())
}

/// Projected growth of the index for `n` chunks, in bytes.
pub open spec fn projection(n: int) -> int {
    if n * PROJECTED_CHUNK_BYTES <= u64::MAX {
        n * PROJECTED_CHUNK_BYTES
    } else {
        u64::MAX as int
    }
}

/// Projected growth of the index for the chunks, in bytes.
pub fn projected_bytes(chunks: &Vec<ChunkTarget>) -> (n: u64)
    ensures
        n == projection(chunks@.len() as int),
{
    match (chunks.len() as u64).checked_mul(PROJECTED_CHUNK_BYTES) {
        Some(n) => n,
        None => u64::MAX,
    }
}

proof fn lemma_be_bytes(v: int, n: nat)
    requires
        v >= 0,
    ensures
        be_bytes(v, n).len() == n,
    decreases n,
{
    if n > 0 {
        lemma_be_bytes(v / 256, (n - 1) as nat);
    }
}

proof fn lemma_be_bytes_tell(a: int, b: int, n: nat)
    requires
        0 <= a,
        0 <= b,
        be_bytes(a, n) == be_bytes(b, n),
    ensures
        a % vstd::arithmetic::power::pow(256, n) == b % vstd::arithmetic::power::pow(256, n),
    decreases n,
{
    let p = vstd::arithmetic::power::pow(256, n);
    reveal(vstd::arithmetic::power::pow);
    vstd::arithmetic::power::lemma_pow_positive(256, n);
    if n == 0 {
        assert(p == 1);
    } else {
        let q = vstd::arithmetic::power::pow(256, (n - 1) as nat);
        vstd::arithmetic::power::lemma_pow_positive(256, (n - 1) as nat);
        lemma_be_bytes(a / 256, (n - 1) as nat);
        lemma_be_bytes(b / 256, (n - 1) as nat);
        let x = be_bytes(a, n);
        let y = be_bytes(b, n);
        assert(be_bytes(a / 256, (n - 1) as nat) =~= x.drop_last());
        assert(be_bytes(b / 256, (n - 1) as nat) =~= y.drop_last());
        assert(x.last() == (a % 256) as u8);
        assert(y.last() == (b % 256) as u8);
        lemma_be_bytes_tell(a / 256, b / 256, (n - 1) as nat);
        assert(p == 256 * q);
        vstd::arithmetic::div_mod::lemma_breakdown(a, 256, q);
        vstd::arithmetic::div_mod::lemma_breakdown(b, 256, q);
    }
}

/// An entry tells its chunk: two chunks have the same entry if and only if they
/// have the same task, kind and text hash.
pub proof fn law_entry_tells_the_chunk(a: ChunkTarget, b: ChunkTarget)
    ensures
        entry(a) == entry(b) <==> a.task_id.0 == b.task_id.0 && a.kind == b.kind
            && a.content_hash@ == b.content_hash@,
{
    let x = be_bytes(a.task_id.0 as int, 16);
    let y = be_bytes(b.task_id.0 as int, 16);
    lemma_be_bytes(a.task_id.0 as int, 16);
    lemma_be_bytes(b.task_id.0 as int, 16);
    if entry(a) == entry(b) {
        assert(x =~= entry(a).take(16));
        assert(y =~= entry(b).take(16));
        assert(entry(a)[16] == kind_byte(a.kind));
        assert(entry(b)[16] == kind_byte(b.kind));
        assert(a.content_hash@ =~= entry(a).skip(17));
        assert(b.content_hash@ =~= entry(b).skip(17));
        lemma_be_bytes_tell(a.task_id.0 as int, b.task_id.0 as int, 16);
        lemma_id_range();
        let p = vstd::arithmetic::power::pow(256, 16);
        vstd::arithmetic::div_mod::lemma_small_mod(a.task_id.0 as nat, p as nat);
        vstd::arithmetic::div_mod::lemma_small_mod(b.task_id.0 as nat, p as nat);
    }
}

proof fn lemma_id_range()
    ensures
        vstd::arithmetic::power::pow(256, 16) == 0x1_0000_0000_0000_0000_0000_0000_0000_0000int,
{
    reveal_with_fuel(vstd::arithmetic::power::pow, 17);
}

proof fn lemma_joined_tell(a: Seq<Seq<u8>>, b: Seq<Seq<u8>>)
    requires
        forall|i: int| 0 <= i < a.len() ==> (#[trigger] a[i]).len() == 49,
        forall|i: int| 0 <= i < b.len() ==> (#[trigger] b[i]).len() == 49,
        joined_bytes(a) == joined_bytes(b),
    ensures
        a == b,
    decreases a.len(),
{
    lemma_joined_len(a);
    lemma_joined_len(b);
    if a.len() == 0 {
        assert(a =~= b);
    } else {
        let x = joined_bytes(a);
        let n = x.len() - 49;
        assert(a[a.len() - 1].len() == 49);
        assert(b[b.len() - 1].len() == 49);
        assert(a.last() =~= x.skip(n));
        assert(b.last() =~= joined_bytes(b).skip(n));
        assert(joined_bytes(a.drop_last()) =~= x.take(n));
        assert(joined_bytes(b.drop_last()) =~= joined_bytes(b).take(n));
        lemma_joined_tell(a.drop_last(), b.drop_last());
        assert(a =~= a.drop_last().push(a.last()));
        assert(b =~= b.drop_last().push(b.last()));
    }
}

proof fn lemma_joined_len(a: Seq<Seq<u8>>)
    requires
        forall|i: int| 0 <= i < a.len() ==> (#[trigger] a[i]).len() == 49,
    ensures
        joined_bytes(a).len() == 49 * a.len(),
    decreases a.len(),
{
    if a.len() > 0 {
        lemma_joined_len(a.drop_last());
        assert(a[a.len() - 1].len() == 49);
    }
}

/// A signature tells its chunks: two lists have the same signature if and only
/// if they hold the same entries as often, in whatever order.
pub proof fn law_signature_tells_the_chunks(a: Seq<ChunkTarget>, b: Seq<ChunkTarget>)
    ensures
        signature(a) == signature(b) <==> a.map_values(
            |c: ChunkTarget| entry(c),
        ).to_multiset() == b.map_values(|c: ChunkTarget| entry(c)).to_multiset(),
{
    let le = |x: Seq<u8>, y: Seq<u8>| lex_le(x, y);
    let own = |c: ChunkTarget| entry(c);
    assert(entries(a) =~= a.map_values(own));
    assert(entries(b) =~= b.map_values(own));
    if entries(a).to_multiset() == entries(b).to_multiset() {
        law_signature_ignores_order(a, b);
    }
    if signature(a) == signature(b) {
        lemma_lex_is_total();
        entries(a).lemma_sort_by_ensures(le);
        entries(b).lemma_sort_by_ensures(le);
        lemma_entry_lens(a);
        lemma_entry_lens(b);
        lemma_joined_tell(entries(a).sort_by(le), entries(b).sort_by(le));
    }
}

proof fn lemma_entry_lens(a: Seq<ChunkTarget>)
    ensures
        ({
            let sorted = entries(a).sort_by(|x: Seq<u8>, y: Seq<u8>| lex_le(x, y));
            forall|i: int| 0 <= i < sorted.len() ==> (#[trigger] sorted[i]).len() == 49
        }),
{
    let le = |x: Seq<u8>, y: Seq<u8>| lex_le(x, y);
    let sorted = entries(a).sort_by(le);
    lemma_lex_is_total();
    entries(a).lemma_sort_by_ensures(le);
    assert forall|i: int| 0 <= i < sorted.len() implies (#[trigger] sorted[i]).len() == 49 by {
        assert(sorted.contains(sorted[i]));
        assert(entries(a).contains(sorted[i]));
        let k = choose|k: int| 0 <= k < entries(a).len() && entries(a)[k] == sorted[i];
        lemma_be_bytes(a[k].task_id.0 as int, 16);
        assert(a[k].content_hash@.len() == 32);
    }
}

/// The projected growth is 1200 bytes for each chunk, as far as 64 bits hold it.
pub proof fn law_growth_is_projected_per_chunk(n: int)
    requires
        n >= 0,
    ensures
        n * 1200 <= 0xFFFF_FFFF_FFFF_FFFF ==> projection(n) == n * 1200,
        n * 1200 > 0xFFFF_FFFF_FFFF_FFFF ==> projection(n) == 0xFFFF_FFFF_FFFF_FFFF,
{
}

} // verus!
