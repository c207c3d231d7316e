//! Full Unicode case folding with a map back to raw byte spans.
//!
//! The literal lane runs over raw text (title, body, comments), never over
//! formatted chunks. Needle and source share one full case fold, and a folded
//! match maps back to the complete raw scalars it touches, so excerpts are cut
//! with raw offsets only.

use crate::seqs;
use crate::text::{self, byte_len_of, chars_of, floor_of, string_of, width_of};
use std::ops::Range;
use unicode_casefold::{Locale, UnicodeCaseFold, Variant};
use vstd::prelude::*;

verus! {

/// What `unicode_casefold` emits for a string under the full, non-Turkic fold.
pub uninterp spec fn case_folded(s: Seq<char>) -> Seq<char>;

/// The folds of the single scalars of `s`, one after the other.
pub open spec fn fold_each(s: Seq<char>) -> Seq<char>
    decreases s.len(),
{
    if s.len() == 0 {
        Seq::empty()
    } else {
        fold_each(s.drop_last()) + case_folded(seq![s.last()])
    }
}

/// Every scalar of `s` has a fold.
pub open spec fn all_fold(s: Seq<char>) -> bool {
    forall|k: int| 0 <= k < s.len() ==> case_folded(seq![#[trigger] s[k]]).len() > 0
}

/// For each scalar of `fold_each(s)`, the index of the scalar of `s` that
/// produced it.
pub open spec fn origins(s: Seq<char>) -> Seq<int>
    decreases s.len(),
{
    if s.len() == 0 {
        Seq::empty()
    } else {
        origins(s.drop_last()) + Seq::new(
            case_folded(seq![s.last()]).len(),
            |i: int| s.len() - 1,
        )
    }
}

/// `needle` stands in `hay` at scalar `i`.
pub open spec fn occurs_at(hay: Seq<char>, needle: Seq<char>, i: int) -> bool {
    &&& 0 <= i
    &&& i + needle.len() <= hay.len()
    &&& hay.subrange(i, i + needle.len()) == needle
}

/// `needle` stands in `hay`.
pub open spec fn occurs_in(hay: Seq<char>, needle: Seq<char>) -> bool {
    exists|i: int| occurs_at(hay, needle, i)
}

/// The scalar positions below `n` at which `needle` stands in `hay`, ascending.
pub open spec fn positions_below(hay: Seq<char>, needle: Seq<char>, n: int) -> Seq<int>
    decreases n,
{
    if n <= 0 {
        Seq::empty()
    } else if occurs_at(hay, needle, n - 1) {
        positions_below(hay, needle, n - 1).push(n - 1)
    } else {
        positions_below(hay, needle, n - 1)
    }
}

/// Byte span in `text` of the raw scalars touched by the folded scalars
/// `i..i + n`.
pub open spec fn raw_span(text: Seq<char>, i: int, n: int) -> (int, int) {
    (
        text::byte_len(text.take(origins(text)[i])) as int,
        text::byte_len(text.take(origins(text)[i + n - 1] + 1)) as int,
    )
}

/// The raw byte spans of every occurrence, overlapping ones too, of the folded
/// `needle` in the folded `text`, in order. An empty needle occurs nowhere.
pub open spec fn literal_spans(text: Seq<char>, needle: Seq<char>) -> Seq<(int, int)> {
    let hay = fold_each(text);
    let folded = fold_each(needle);
    if folded.len() == 0 {
        Seq::empty()
    } else {
        positions_below(hay, folded, hay.len() as int).map_values(
            |i: int| raw_span(text, i, folded.len() as int),
        )
    }
}

/// Byte span in `text` of `needle` standing verbatim at scalar `i`.
pub open spec fn verbatim_span(text: Seq<char>, needle: Seq<char>, i: int) -> (int, int) {
    (
        text::byte_len(text.take(i)) as int,
        text::byte_len(text.take(i + needle.len())) as int,
    )
}

pub open spec fn span_pairs(spans: Seq<Range<usize>>) -> Seq<(int, int)> {
    spans.map_values(|r: Range<usize>| (r.start as int, r.end as int))
}

/// `<&str as unicode_casefold::UnicodeCaseFold<_>>::case_fold_with`, called
/// with `Variant::Full` and the default (non-Turkic) locale and collected.
/// The result is a function of the string alone. The iterator folds one scalar
/// at a time with no state carried between scalars, so the fold of a string is
/// the concatenation of the folds of its scalars. Every scalar is folded to at
/// least one, so the fold is no shorter than the string.
#[verifier::external_body]
fn case_fold(s: &str) -> (out: String)
    ensures
        out@ == case_folded(s@),
        out@ == fold_each(s@),
        out@.len() >= s@.len(),
{
    s.case_fold_with(Variant::Full, Locale::default()).collect()
}

/// One folded scalar, tagged with the byte span of the raw scalar behind it.
#[derive(Clone, Copy, Debug, PartialEq, Eq, Structural)]
pub struct FoldChar {
    pub folded_start: usize,
    pub folded_end: usize,
    pub source_start: usize,
    pub source_end: usize,
}

/// A source string under the full case fold, with the raw span of each folded
/// scalar.
#[derive(Debug)]
pub struct FoldedSource {
    text: String,
    chars: Vec<FoldChar>,
}

impl FoldedSource {
    /// The folded text.
    pub closed spec fn text(&self) -> Seq<char> {
        self.text@
    }

    /// The tags of the folded scalars.
    pub closed spec fn tags(&self) -> Seq<FoldChar> {
        self.chars@
    }

    /// This is the fold of `raw`: every folded scalar is tagged with its own
    /// byte span and with that of the raw scalar that produced it.
    pub open spec fn folds(&self, raw: Seq<char>) -> bool {
        &&& self.text() == fold_each(raw)
        &&& self.tags().len() == self.text().len()
        &&& origins(raw).len() == self.text().len()
        &&& forall|i: int|
            #![trigger self.tags()[i]]
            0 <= i < self.tags().len() ==> {
                &&& 0 <= origins(raw)[i] < raw.len()
                &&& self.tags()[i].folded_start == text::byte_len(self.text().take(i))
                &&& self.tags()[i].folded_end == text::byte_len(self.text().take(i + 1))
                &&& self.tags()[i].source_start == text::byte_len(raw.take(origins(raw)[i]))
                &&& self.tags()[i].source_end == text::byte_len(raw.take(origins(raw)[i] + 1))
            }
    }
}

proof fn lemma_origins(s: Seq<char>)
    ensures
        origins(s).len() == fold_each(s).len(),
        forall|i: int| 0 <= i < origins(s).len() ==> 0 <= #[trigger] origins(s)[i] < s.len(),
        forall|i: int, j: int|
            0 <= i <= j < origins(s).len() ==> #[trigger] origins(s)[i] <= #[trigger] origins(s)[j],
    decreases s.len(),
{
    if s.len() > 0 {
        lemma_origins(s.drop_last());
    }
}

/// Fold `s` to its full case fold, recording raw spans.
pub fn fold_source(s: &str) -> (out: FoldedSource)
    ensures
        out.folds(s@),
        all_fold(s@),
{
    let raw = chars_of(s);
    let total: usize = byte_len_of(s);
    let mut text = String::new();
    let mut chars: Vec<FoldChar> = Vec::new();
    let mut offset: usize = 0;
    let mut k: usize = 0;
    while k < raw.len()
        invariant
            raw@ == s@,
            total == text::byte_len(s@),
            k <= raw.len(),
            offset == text::byte_len(s@.take(k as int)),
            (FoldedSource { text, chars }).folds(s@.take(k as int)),
            all_fold(s@.take(k as int)),
        decreases raw.len() - k,
    {
        let ghost done = s@.take(k as int);
        let ghost next = s@.take(k as int + 1);
        let c: char = raw[k];
        proof {
            text::lemma_byte_len_step(s@, k as int);
            text::lemma_byte_len_take(s@, k as int + 1, s@.len() as int);
            assert(s@.take(s@.len() as int) =~= s@);
            assert(next.drop_last() =~= done);
            assert(next.last() == c);
            lemma_origins(done);
            lemma_origins(next);
        }
        let source_end: usize = offset + width_of(c);
        let mut single = String::new();
        single.push(c);
        assert(single@ =~= seq![c]);
        let folded_text = case_fold(&single);
        let folded = chars_of(&folded_text);
        assert(all_fold(next)) by {
            assert forall|m: int| 0 <= m < next.len() implies case_folded(
                seq![#[trigger] next[m]],
            ).len() > 0 by {
                if m < done.len() {
                    assert(next[m] == done[m]);
                } else {
                    assert(seq![next[m]] == single@);
                }
            }
        }
        let ghost text0 = text@;
        let ghost chars0 = chars@;
        proof {
            assert((FoldedSource { text, chars }).text() == text0);
            assert((FoldedSource { text, chars }).tags() == chars0);
            assert forall|i: int| 0 <= i < chars0.len() implies #[trigger] origins(next)[i]
                == origins(done)[i] && next.take(origins(next)[i]) == done.take(origins(done)[i])
                && next.take(origins(next)[i] + 1) == done.take(origins(done)[i] + 1) by {
                assert(0 <= origins(done)[i] < done.len());
                assert(next.take(origins(done)[i]) =~= done.take(origins(done)[i]));
                assert(next.take(origins(done)[i] + 1) =~= done.take(origins(done)[i] + 1));
            }
            assert forall|i: int|
                #![trigger chars0[i]]
                0 <= i < chars0.len() implies {
                &&& chars0[i].folded_start == text::byte_len(text0.take(i))
                &&& chars0[i].folded_end == text::byte_len(text0.take(i + 1))
                &&& chars0[i].source_start == text::byte_len(done.take(origins(done)[i]))
                &&& chars0[i].source_end == text::byte_len(done.take(origins(done)[i] + 1))
            } by {
                assert((FoldedSource { text, chars }).tags()[i] == chars0[i]);
            }
        }
        let mut m: usize = 0;
        while m < folded.len()
            invariant
                m <= folded.len(),
                folded@ == case_folded(seq![c]),
                text@ == text0 + folded@.take(m as int),
                chars@.len() == text@.len(),
                chars0.len() == text0.len(),
                offset == text::byte_len(done),
                source_end == text::byte_len(next),
                next.len() == done.len() + 1,
                next.drop_last() == done,
                next.take(done.len() as int) == done,
                next.take(done.len() as int + 1) == next,
                next.last() == c,
                origins(next).len() == text0.len() + folded@.len(),
                forall|i: int|
                    chars0.len() <= i < origins(next).len() ==> #[trigger] origins(next)[i]
                        == done.len(),
                forall|i: int|
                    #![trigger chars@[i]]
                    0 <= i < chars@.len() ==> {
                        &&& chars@[i].folded_start == text::byte_len(text@.take(i))
                        &&& chars@[i].folded_end == text::byte_len(text@.take(i + 1))
                        &&& chars@[i].source_start == text::byte_len(next.take(origins(next)[i]))
                        &&& chars@[i].source_end == text::byte_len(next.take(origins(next)[i] + 1))
                    },
            decreases folded.len() - m,
        {
            let folded_start: usize = byte_len_of(&text);
            let ghost before = text@;
            text.push(folded[m]);
            let folded_end: usize = byte_len_of(&text);
            let tag = FoldChar { folded_start, folded_end, source_start: offset, source_end };
            proof {
                assert(text@ =~= text0 + folded@.take(m as int + 1));
                assert(before.take(before.len() as int) =~= before);
                assert(text@.take(before.len() as int) =~= before);
                assert(text@.take(before.len() as int + 1) =~= text@);
                assert forall|i: int| 0 <= i < before.len() implies #[trigger] text@.take(i)
                    == before.take(i) && text@.take(i + 1) == before.take(i + 1) by {
                    assert(text@.take(i) =~= before.take(i));
                    assert(text@.take(i + 1) =~= before.take(i + 1));
                }
                assert(origins(next)[before.len() as int] == done.len());
            }
            chars.push(tag);
            m += 1;
        }
        proof {
            assert(folded@.take(folded@.len() as int) =~= folded@);
            assert(text@ == fold_each(next));
            let f = FoldedSource { text, chars };
            assert(f.text() == text@ && f.tags() == chars@);
            assert(f.folds(next));
        }
        offset = source_end;
        k += 1;
    }
    assert(s@.take(s@.len() as int) =~= s@);
    FoldedSource { text, chars }
}

/// Fold `s` to its full case fold.
pub fn fold_plain(s: &str) -> (out: String)
    ensures
        out@ == fold_each(s@),
        out@.len() >= s@.len(),
{
    case_fold(s)
}

/// Ascending scalar positions at which `needle` stands in `hay`.
pub fn match_positions(hay: &Vec<char>, needle: &Vec<char>) -> (out: Vec<usize>)
    ensures
        out@.map_values(|i: usize| i as int) == positions_below(
            hay@,
            needle@,
            hay@.len() as int + 1,
        ),
{
    let mut out: Vec<usize> = Vec::new();
    let mut i: usize = 0;
    while i < hay.len()
        invariant
            i <= hay.len(),
            out@.map_values(|i: usize| i as int) == positions_below(hay@, needle@, i as int),
        decreases hay.len() - i,
    {
        if stands_at(hay, needle, i) {
            out.push(i);
            assert(out@.map_values(|i: usize| i as int) =~= positions_below(
                hay@,
                needle@,
                i as int,
            ).push(i as int));
        }
        i += 1;
    }
    if stands_at(hay, needle, i) {
        out.push(i);
        assert(out@.map_values(|i: usize| i as int) =~= positions_below(
            hay@,
            needle@,
            i as int,
        ).push(i as int));
    }
    out
}

/// Whether `needle` stands in `hay` at `i`.
fn stands_at(hay: &Vec<char>, needle: &Vec<char>, i: usize) -> (yes: bool)
    requires
        i <= hay.len(),
    ensures
        yes == occurs_at(hay@, needle@, i as int),
{
    if needle.len() > hay.len() - i {
        return false;
    }
    let mut m: usize = 0;
    while m < needle.len()
        invariant
            m <= needle.len(),
            i + needle.len() <= hay.len(),
            forall|j: int| 0 <= j < m ==> hay@[i + j] == #[trigger] needle@[j],
        decreases needle.len() - m,
    {
        if hay[i + m] != needle[m] {
            assert(hay@.subrange(i as int, i as int + needle@.len())[m as int] == hay@[i + m]);
            return false;
        }
        m += 1;
    }
    assert(hay@.subrange(i as int, i as int + needle@.len()) =~= needle@);
    true
}

/// `i` is the first folded scalar that ends after `mstart`.
pub open spec fn first_ending_after(chars: Seq<FoldChar>, mstart: usize, i: int) -> bool {
    &&& 0 <= i < chars.len()
    &&& chars[i].folded_end > mstart
    &&& forall|k: int| 0 <= k < i ==> (#[trigger] chars[k]).folded_end <= mstart
}

/// `j` is the last folded scalar that starts before `mend`.
pub open spec fn last_starting_before(chars: Seq<FoldChar>, mend: usize, j: int) -> bool {
    &&& 0 <= j < chars.len()
    &&& chars[j].folded_start < mend
    &&& forall|k: int| j < k < chars.len() ==> (#[trigger] chars[k]).folded_start >= mend
}

/// The folded window `mstart..mend` touches the scalars `i` to `j`: from the
/// first that ends after `mstart` to the last that starts before `mend`, or
/// the first alone where none starts before `mend`.
pub open spec fn window_touches(
    chars: Seq<FoldChar>,
    mstart: usize,
    mend: usize,
    i: int,
    j: int,
) -> bool {
    &&& first_ending_after(chars, mstart, i)
    &&& {
        ||| last_starting_before(chars, mend, j)
        ||| j == i && forall|k: int|
            0 <= k < chars.len() ==> (#[trigger] chars[k]).folded_start >= mend
    }
}

/// Map the folded byte window `mstart..mend` back to the raw span it touches.
pub fn map_to_raw(chars: &Vec<FoldChar>, mstart: usize, mend: usize) -> (out: Option<Range<usize>>)
    ensures
        out is None <==> forall|k: int|
            0 <= k < chars@.len() ==> (#[trigger] chars@[k]).folded_end <= mstart,
        out matches Some(r) ==> exists|i: int, j: int|
            #[trigger] window_touches(chars@, mstart, mend, i, j) && r.start
                == chars@[i].source_start && r.end == chars@[j].source_end,
{
    let mut i: usize = 0;
    while i < chars.len() && chars[i].folded_end <= mstart
        invariant
            i <= chars.len(),
            forall|k: int| 0 <= k < i ==> (#[trigger] chars@[k]).folded_end <= mstart,
        decreases chars.len() - i,
    {
        i += 1;
    }
    if i == chars.len() {
        return None;
    }
    let mut j: usize = chars.len();
    while j > 0 && chars[j - 1].folded_start >= mend
        invariant
            j <= chars.len(),
            forall|k: int| j <= k < chars@.len() ==> (#[trigger] chars@[k]).folded_start >= mend,
        decreases j,
    {
        j -= 1;
    }
    if j == 0 {
        assert(window_touches(chars@, mstart, mend, i as int, i as int));
        Some(chars[i].source_start..chars[i].source_end)
    } else {
        assert(window_touches(chars@, mstart, mend, i as int, j as int - 1));
        Some(chars[i].source_start..chars[j - 1].source_end)
    }
}

proof fn lemma_positions(hay: Seq<char>, needle: Seq<char>, n: int)
    ensures
        forall|x: int| 0 <= x < positions_below(hay, needle, n).len() ==> {
            &&& 0 <= #[trigger] positions_below(hay, needle, n)[x] < n
            &&& occurs_at(hay, needle, positions_below(hay, needle, n)[x])
        },
        forall|i: int|
            0 <= i < n && #[trigger] occurs_at(hay, needle, i) ==> positions_below(
                hay,
                needle,
                n,
            ).contains(i),
        forall|x: int, y: int|
            0 <= x < y < positions_below(hay, needle, n).len() ==> #[trigger] positions_below(
                hay,
                needle,
                n,
            )[x] < #[trigger] positions_below(hay, needle, n)[y],
    decreases n,
{
    if n > 0 {
        lemma_positions(hay, needle, n - 1);
        let prev = positions_below(hay, needle, n - 1);
        let all = positions_below(hay, needle, n);
        assert forall|i: int| 0 <= i < n && #[trigger] occurs_at(hay, needle, i) implies all.contains(
            i,
        ) by {
            if i == n - 1 {
                assert(all[prev.len() as int] == i);
            } else {
                assert(prev.contains(i));
                let x = choose|x: int| 0 <= x < prev.len() && prev[x] == i;
                assert(all[x] == i);
            }
        }
    }
}

/// The raw span of the folded scalars `i..i + n` of `src`.
fn span_of_match(src: &FoldedSource, i: usize, n: usize, Ghost(raw): Ghost<Seq<char>>) -> (out:
    Range<usize>)
    requires
        src.folds(raw),
        0 < n,
        i + n <= src.text().len(),
    ensures
        (out.start as int, out.end as int) == raw_span(raw, i as int, n as int),
{
    let mstart: usize = src.chars[i].folded_start;
    let total: usize = src.chars.len();
    assert(total == src.text().len());
    let last: usize = i + (n - 1);
    let mend: usize = src.chars[last].folded_end;
    let found = map_to_raw(&src.chars, mstart, mend);
    proof {
        let tags = src.tags();
        assert(tags == src.chars@);
        assert forall|k: int| 0 <= k < tags.len() implies {
            &&& (k < i ==> (#[trigger] tags[k]).folded_end <= mstart)
            &&& (k >= i ==> tags[k].folded_end > mstart)
            &&& (k < i + n ==> tags[k].folded_start < mend)
            &&& (k >= i + n ==> tags[k].folded_start >= mend)
        } by {
            let t = src.text();
            let a = tags[i as int];
            let b = tags[i + n - 1];
            text::lemma_byte_len_step(t, k);
            if k < i {
                text::lemma_byte_len_take(t, k + 1, i as int);
            } else {
                text::lemma_byte_len_take(t, i as int, k);
            }
            if k < i + n {
                text::lemma_byte_len_take(t, k + 1, i + n);
            } else {
                text::lemma_byte_len_take(t, i + n, k);
            }
        }
        assert(tags[i as int].folded_end > mstart);
        assert(found is Some);
        let (x, y) = choose|x: int, y: int|
            #[trigger] window_touches(tags, mstart, mend, x, y) && found->0.start
                == tags[x].source_start && found->0.end == tags[y].source_end;
        assert(tags[i as int].folded_start < mend);
        assert(x == i) by {
            if x < i {
                assert(tags[x].folded_end <= mstart);
            }
        }
        assert(y == i + n - 1) by {
            if y < i + n - 1 {
                assert(tags[i + n - 1].folded_start < mend);
            }
        }
    }
    match found {
        Some(span) => span,
        None => 0..0,
    }
}

/// Raw byte spans in `text` where the case-folded `needle` occurs. There is
/// none if and only if the needle is empty or its fold stands nowhere in the
/// fold of the text; a needle that stands verbatim in the text is found there.
pub fn find_literal_spans(text: &str, needle: &str) -> (out: Vec<Range<usize>>)
    ensures
        span_pairs(out@) == literal_spans(text@, needle@),
        out@.len() == 0 <==> needle@.len() == 0 || !occurs_in(fold_each(text@), fold_each(needle@)),
        forall|i: int|
            needle@.len() > 0 && #[trigger] occurs_at(text@, needle@, i) ==> span_pairs(
                out@,
            ).contains(verbatim_span(text@, needle@, i)),
{
    let src = fold_source(text);
    let folded_needle = fold_plain(needle);
    proof {
        law_spans_exist_where_needle_occurs(text@, needle@);
        assert(needle@.len() == 0 ==> fold_each(needle@).len() == 0);
        assert forall|i: int|
            needle@.len() > 0 && #[trigger] occurs_at(text@, needle@, i) implies literal_spans(
            text@,
            needle@,
        ).contains(verbatim_span(text@, needle@, i)) by {
            lemma_part_folds(text@, needle@, i);
            law_verbatim_text_is_found(text@, needle@, i);
        }
    }
    let hay = chars_of(&src.text);
    let wanted = chars_of(&folded_needle);
    let mut out: Vec<Range<usize>> = Vec::new();
    if wanted.len() == 0 {
        assert(span_pairs(out@) =~= literal_spans(text@, needle@));
        return out;
    }
    let found = match_positions(&hay, &wanted);
    let ghost n = wanted@.len() as int;
    let ghost places = positions_below(hay@, wanted@, hay@.len() as int);
    proof {
        lemma_positions(hay@, wanted@, hay@.len() as int);
        assert(!occurs_at(hay@, wanted@, hay@.len() as int));
        assert(found@.map_values(|i: usize| i as int) == places);
    }
    let mut m: usize = 0;
    while m < found.len()
        invariant
            m <= found.len(),
            src.folds(text@),
            src.text() == hay@,
            0 < n == wanted@.len(),
            found@.map_values(|i: usize| i as int) == places,
            forall|x: int|
                0 <= x < places.len() ==> occurs_at(hay@, wanted@, #[trigger] places[x]),
            span_pairs(out@) == places.take(m as int).map_values(|i: int| raw_span(text@, i, n)),
        decreases found.len() - m,
    {
        let i: usize = found[m];
        assert(places[m as int] == found@.map_values(|i: usize| i as int)[m as int]);
        assert(occurs_at(hay@, wanted@, places[m as int]));
        let span = span_of_match(&src, i, wanted.len(), Ghost(text@));
        let ghost before = span_pairs(out@);
        out.push(span);
        assert(span_pairs(out@) =~= before.push(raw_span(text@, i as int, n)));
        assert(places.take(m as int + 1) =~= places.take(m as int).push(places[m as int]));
        assert(span_pairs(out@) =~= places.take(m as int + 1).map_values(
            |i: int| raw_span(text@, i, n),
        ));
        m += 1;
    }
    assert(places.take(m as int) =~= places);
    out
}

/// The scalars from `from` to `to`, with an ellipsis on each side that was cut.
pub open spec fn window(raw: Seq<char>, from: int, to: int) -> Seq<char> {
    (if from > 0 {
        seq!['\u{2026}']
    } else {
        Seq::empty()
    }) + raw.subrange(from, to) + (if to < raw.len() {
        seq!['\u{2026}']
    } else {
        Seq::empty()
    })
}

/// First of the whole scalars that the bytes from `start` on touch.
pub open spec fn touched_from(raw: Seq<char>, start: int) -> int {
    text::floor_scalar(raw, start)
}

/// End of the whole scalars that the bytes `start..end` touch; none where the
/// span is empty or ends before it starts.
pub open spec fn touched_to(raw: Seq<char>, start: int, end: int) -> int {
    let to = text::ceil_scalar(raw, end);
    if to < touched_from(raw, start) {
        touched_from(raw, start)
    } else {
        to
    }
}

/// Bytes of text that an excerpt shows at most on each side of the scalars
/// `i..j`: half of what they leave of `limit`.
pub open spec fn padding(raw: Seq<char>, i: int, j: int, limit: int) -> int {
    let width = text::byte_len(raw.take(j)) - text::byte_len(raw.take(i));
    if width < limit {
        (limit - width) / 2
    } else {
        0
    }
}

/// First scalar of the excerpt around the bytes `start..end`.
pub open spec fn excerpt_from(raw: Seq<char>, start: int, end: int, limit: int) -> int {
    let i = touched_from(raw, start);
    let low = text::byte_len(raw.take(i)) - padding(raw, i, touched_to(raw, start, end), limit);
    text::ceil_scalar(
        raw,
        if low > 0 {
            low
        } else {
            0
        },
    )
}

/// End of the excerpt around the bytes `start..end`.
pub open spec fn excerpt_to(raw: Seq<char>, start: int, end: int, limit: int) -> int {
    let j = touched_to(raw, start, end);
    text::floor_scalar(
        raw,
        text::byte_len(raw.take(j)) + padding(raw, touched_from(raw, start), j, limit),
    )
}

/// The text of the excerpt around the bytes `start..end`.
pub open spec fn excerpt_text(raw: Seq<char>, start: int, end: int, limit: int) -> Seq<char> {
    window(raw, excerpt_from(raw, start, end, limit), excerpt_to(raw, start, end, limit))
}

proof fn lemma_touched(raw: Seq<char>, start: int, end: int)
    requires
        start >= 0,
        end >= 0,
    ensures
        0 <= touched_from(raw, start) <= touched_to(raw, start, end) <= raw.len(),
{
    text::lemma_floor_scalar(raw, start);
    text::lemma_floor_scalar(raw, end);
}

/// The excerpt holds the touched scalars and pads them within `limit`.
proof fn lemma_excerpt(raw: Seq<char>, start: int, end: int, limit: int)
    requires
        start >= 0,
        end >= 0,
        limit >= 0,
    ensures
        0 <= excerpt_from(raw, start, end, limit) <= touched_from(raw, start),
        touched_from(raw, start) <= touched_to(raw, start, end),
        touched_to(raw, start, end) <= excerpt_to(raw, start, end, limit) <= raw.len(),
        ({
            let i = touched_from(raw, start);
            let j = touched_to(raw, start, end);
            text::byte_len(raw.take(excerpt_to(raw, start, end, limit))) - text::byte_len(
                raw.take(excerpt_from(raw, start, end, limit)),
            ) <= text::byte_len(raw.take(j)) - text::byte_len(raw.take(i)) + 2 * padding(
                raw,
                i,
                j,
                limit,
            )
        }),
{
    lemma_touched(raw, start, end);
    let i = touched_from(raw, start);
    let j = touched_to(raw, start, end);
    let a = text::byte_len(raw.take(i)) as int;
    let b = text::byte_len(raw.take(j)) as int;
    let pad = padding(raw, i, j, limit);
    let low = if a - pad > 0 {
        a - pad
    } else {
        0
    };
    assert(raw.take(raw.len() as int) =~= raw);
    text::lemma_byte_len_take(raw, i, j);
    text::lemma_byte_len_take(raw, i, raw.len() as int);
    text::lemma_floor_scalar(raw, low);
    text::lemma_floor_scalar(raw, b + pad);
    let f = text::floor_scalar(raw, low);
    if f > i {
        text::lemma_byte_len_take(raw, i, f);
    }
    if f < raw.len() {
        assert(text::byte_len(raw.take(f + 1)) > low);
    } else {
        assert(f == i);
    }
    if excerpt_to(raw, start, end, limit) < j {
        assert(text::byte_len(raw.take(j)) > b + pad);
    }
}

/// A bounded excerpt of `raw` around `span`. The scalars that the span touches
/// are shown whole; what they leave of `limit` is divided between the text
/// before and after them, cut inward to whole scalars. An ellipsis stands on
/// each side that was cut.
pub fn excerpt(raw: &str, span: &Range<usize>, limit: usize) -> (out: String)
    ensures
        out@ == excerpt_text(raw@, span.start as int, span.end as int, limit as int),
{
    let chars = chars_of(raw);
    let total: usize = byte_len_of(raw);
    let first: usize = floor_of(&chars, span.start);
    let mut last: usize = ceil_of(&chars, span.end, total);
    if last < first {
        last = first;
    }
    proof {
        lemma_touched(raw@, span.start as int, span.end as int);
        lemma_excerpt(raw@, span.start as int, span.end as int, limit as int);
        text::lemma_byte_len_take(raw@, first as int, last as int);
        text::lemma_byte_len_take(raw@, last as int, raw@.len() as int);
        assert(raw@.take(raw@.len() as int) =~= raw@);
    }
    let start: usize = prefix_bytes(&chars, first, total);
    let end: usize = prefix_bytes(&chars, last, total);
    let width: usize = end - start;
    let pad: usize = if width < limit {
        (limit - width) / 2
    } else {
        0
    };
    let low: usize = if start > pad {
        start - pad
    } else {
        0
    };
    let high: usize = if pad < total - end {
        end + pad
    } else {
        total
    };
    let from: usize = ceil_of(&chars, low, total);
    let to: usize = floor_of(&chars, high);
    let mut out = String::new();
    if from > 0 {
        out.push('\u{2026}');
    }
    let middle = string_of(&chars, from, to);
    out.append(middle.as_str());
    if to < chars.len() {
        out.push('\u{2026}');
    }
    assert(out@ =~= window(raw@, from as int, to as int));
    out
}

/// Number of scalars in the shortest prefix that has at least `bytes` bytes.
fn ceil_of(chars: &Vec<char>, bytes: usize, total: usize) -> (k: usize)
    requires
        total == text::byte_len(chars@),
    ensures
        k == text::ceil_scalar(chars@, bytes as int),
        k <= chars.len(),
{
    let k: usize = floor_of(chars, bytes);
    if k < chars.len() && prefix_bytes(chars, k, total) < bytes {
        k + 1
    } else {
        k
    }
}

/// Bytes of the first `k` scalars.
fn prefix_bytes(chars: &Vec<char>, k: usize, total: usize) -> (n: usize)
    requires
        k <= chars.len(),
        total == text::byte_len(chars@),
    ensures
        n == text::byte_len(chars@.take(k as int)),
{
    let mut n: usize = 0;
    let mut i: usize = 0;
    assert(chars@.take(0) =~= Seq::empty());
    assert(chars@.take(chars@.len() as int) =~= chars@);
    proof {
        text::lemma_byte_len_empty();
    }
    while i < k
        invariant
            i <= k <= chars.len(),
            n == text::byte_len(chars@.take(i as int)),
            total == text::byte_len(chars@),
            chars@.take(chars@.len() as int) == chars@,
        decreases k - i,
    {
        proof {
            text::lemma_byte_len_step(chars@, i as int);
            text::lemma_byte_len_take(chars@, i as int + 1, chars@.len() as int);
        }
        n += width_of(chars[i]);
        i += 1;
    }
    n
}

proof fn lemma_fold_concat(a: Seq<char>, b: Seq<char>)
    ensures
        fold_each(a + b) == fold_each(a) + fold_each(b),
    decreases b.len(),
{
    if b.len() == 0 {
        assert(a + b =~= a);
    } else {
        assert((a + b).drop_last() =~= a + b.drop_last());
        assert((a + b).last() == b.last());
        lemma_fold_concat(a, b.drop_last());
        assert(fold_each(a + b) =~= fold_each(a) + fold_each(b));
    }
}

/// The folded scalar `p` lies within the fold of the raw scalar it came from.
proof fn lemma_origin_window(s: Seq<char>, p: int)
    requires
        0 <= p < fold_each(s).len(),
    ensures
        0 <= origins(s)[p] < s.len(),
        fold_each(s.take(origins(s)[p])).len() <= p < fold_each(s.take(origins(s)[p] + 1)).len(),
    decreases s.len(),
{
    lemma_origins(s);
    let t = s.drop_last();
    lemma_origins(t);
    if p < fold_each(t).len() {
        lemma_origin_window(t, p);
        let k = origins(t)[p];
        assert(origins(s)[p] == k);
        assert(s.take(k) =~= t.take(k));
        assert(s.take(k + 1) =~= t.take(k + 1));
    } else {
        assert(s.take(s.len() - 1) =~= t);
        assert(s.take(s.len() as int) =~= s);
    }
}

/// The raw scalar `k` is the origin of every folded scalar within its fold.
proof fn lemma_window_origin(s: Seq<char>, k: int, p: int)
    requires
        0 <= k < s.len(),
        fold_each(s.take(k)).len() <= p < fold_each(s.take(k + 1)).len(),
    ensures
        p < fold_each(s).len(),
        origins(s)[p] == k,
    decreases s.len(),
{
    lemma_origins(s);
    let t = s.drop_last();
    lemma_origins(t);
    if k < t.len() {
        assert(s.take(k) =~= t.take(k));
        assert(s.take(k + 1) =~= t.take(k + 1));
        lemma_window_origin(t, k, p);
    } else {
        assert(s.take(k) =~= t);
        assert(s.take(k + 1) =~= s);
    }
}

/// Every literal span runs from one raw scalar boundary to a later one, and
/// the fold of the text between them holds the folded needle.
pub proof fn law_spans_cover_whole_scalars(text: Seq<char>, needle: Seq<char>, x: int)
    requires
        0 <= x < literal_spans(text, needle).len(),
    ensures
        exists|i: int, j: int, o: int|
            {
                &&& 0 <= i < j <= text.len()
                &&& literal_spans(text, needle)[x].0 == text::byte_len(text.take(i))
                &&& literal_spans(text, needle)[x].1 == text::byte_len(text.take(j))
                &&& #[trigger] occurs_at(
                    fold_each(#[trigger] text.subrange(i, j)),
                    fold_each(needle),
                    o,
                )
            },
{
    let hay = fold_each(text);
    let wanted = fold_each(needle);
    let n = wanted.len() as int;
    lemma_positions(hay, wanted, hay.len() as int);
    let p = positions_below(hay, wanted, hay.len() as int)[x];
    lemma_origins(text);
    let i = origins(text)[p];
    let j = origins(text)[p + n - 1] + 1;
    lemma_origin_window(text, p);
    lemma_origin_window(text, p + n - 1);
    let middle = text.subrange(i, j);
    assert(text.take(j) =~= text.take(i) + middle);
    assert(text =~= text.take(j) + text.skip(j));
    lemma_fold_concat(text.take(i), middle);
    lemma_fold_concat(text.take(j), text.skip(j));
    let o = p - fold_each(text.take(i)).len();
    assert(fold_each(middle).subrange(o, o + n) =~= hay.subrange(p, p + n));
    assert(occurs_at(fold_each(middle), wanted, o));
}

/// The spans stand in order: along them neither starts nor ends decrease.
pub proof fn law_spans_are_ordered(text: Seq<char>, needle: Seq<char>, x: int, y: int)
    requires
        0 <= x <= y < literal_spans(text, needle).len(),
    ensures
        literal_spans(text, needle)[x].0 <= literal_spans(text, needle)[y].0,
        literal_spans(text, needle)[x].1 <= literal_spans(text, needle)[y].1,
{
    let hay = fold_each(text);
    let wanted = fold_each(needle);
    let n = wanted.len() as int;
    let places = positions_below(hay, wanted, hay.len() as int);
    lemma_positions(hay, wanted, hay.len() as int);
    lemma_origins(text);
    let p = places[x];
    let q = places[y];
    assert(occurs_at(hay, wanted, p) && occurs_at(hay, wanted, q));
    assert(p <= q);
    text::lemma_byte_len_take(text, origins(text)[p], origins(text)[q]);
    text::lemma_byte_len_take(text, origins(text)[p + n - 1] + 1, origins(text)[q + n - 1] + 1);
}

/// There is no span if and only if the fold of the needle is empty or stands
/// nowhere in the fold of the text.
pub proof fn law_spans_exist_where_needle_occurs(text: Seq<char>, needle: Seq<char>)
    ensures
        literal_spans(text, needle).len() == 0 <==> fold_each(needle).len() == 0 || !occurs_in(
            fold_each(text),
            fold_each(needle),
        ),
{
    let hay = fold_each(text);
    let wanted = fold_each(needle);
    if wanted.len() > 0 {
        let places = positions_below(hay, wanted, hay.len() as int);
        lemma_positions(hay, wanted, hay.len() as int);
        if occurs_in(hay, wanted) {
            let i = choose|i: int| occurs_at(hay, wanted, i);
            assert(places.contains(i));
        }
        if places.len() > 0 {
            assert(occurs_at(hay, wanted, places[0]));
        }
    }
}

/// The scalars of text that stands verbatim in a source have folds where those
/// of the source have.
proof fn lemma_part_folds(text: Seq<char>, needle: Seq<char>, i: int)
    requires
        all_fold(text),
        occurs_at(text, needle, i),
    ensures
        all_fold(needle),
{
    assert forall|k: int| 0 <= k < needle.len() implies case_folded(
        seq![#[trigger] needle[k]],
    ).len() > 0 by {
        assert(text.subrange(i, i + needle.len())[k] == text[i + k]);
    }
}

/// Text that stands verbatim in a source is found there: where its scalars
/// have folds, its exact byte span is among the literal spans.
pub proof fn law_verbatim_text_is_found(text: Seq<char>, needle: Seq<char>, i: int)
    requires
        occurs_at(text, needle, i),
        needle.len() > 0,
    ensures
        all_fold(needle) ==> literal_spans(text, needle).contains(
            verbatim_span(text, needle, i),
        ),
{
    if all_fold(needle) {
        assert(case_folded(seq![needle[0]]).len() > 0);
        assert(case_folded(seq![needle[needle.len() - 1]]).len() > 0);
        lemma_verbatim(text, needle, i);
    }
}

#[verifier::spinoff_prover]
proof fn lemma_verbatim(text: Seq<char>, needle: Seq<char>, i: int)
    requires
        occurs_at(text, needle, i),
        needle.len() > 0,
        case_folded(seq![needle.first()]).len() > 0,
        case_folded(seq![needle.last()]).len() > 0,
    ensures
        literal_spans(text, needle).contains(verbatim_span(text, needle, i)),
{
    let m = needle.len() as int;
    let hay = fold_each(text);
    let wanted = fold_each(needle);
    let n = wanted.len() as int;
    let p = fold_each(text.take(i)).len() as int;
    assert(text.subrange(i, i + m)[0] == needle.first());
    assert(text.subrange(i, i + m)[m - 1] == needle.last());
    assert(text.take(i + m) =~= text.take(i) + needle);
    assert(text =~= text.take(i + m) + text.skip(i + m));
    lemma_fold_concat(text.take(i), needle);
    lemma_fold_concat(text.take(i + m), text.skip(i + m));
    assert(hay.subrange(p, p + n) =~= wanted);
    assert(text.take(i + 1) =~= text.take(i) + seq![text[i]]);
    assert(text.take(i + 1).drop_last() =~= text.take(i));
    assert(text.take(i + m).drop_last() =~= text.take(i + m - 1));
    assert(seq![text.take(i + 1).last()] == seq![needle.first()]);
    assert(seq![text.take(i + m).last()] == seq![needle.last()]);
    assert(wanted == fold_each(needle.drop_last()) + case_folded(seq![needle.last()]));
    lemma_window_origin(text, i, p);
    lemma_window_origin(text, i + m - 1, p + n - 1);
    lemma_positions(hay, wanted, hay.len() as int);
    assert(occurs_at(hay, wanted, p));
    let places = positions_below(hay, wanted, hay.len() as int);
    assert(places.contains(p));
    let x = choose|x: int| 0 <= x < places.len() && places[x] == p;
    assert(literal_spans(text, needle)[x] == raw_span(text, p, n));
}

/// The excerpt around a span of whole scalars holds all of them.
pub proof fn law_excerpt_holds_span(raw: Seq<char>, i: int, j: int, limit: int)
    requires
        0 <= i <= j <= raw.len(),
        limit >= 0,
    ensures
        ({
            let start = text::byte_len(raw.take(i)) as int;
            let end = text::byte_len(raw.take(j)) as int;
            &&& 0 <= excerpt_from(raw, start, end, limit) <= i
            &&& j <= excerpt_to(raw, start, end, limit) <= raw.len()
        }),
{
    let start = text::byte_len(raw.take(i)) as int;
    let end = text::byte_len(raw.take(j)) as int;
    lemma_whole_span(raw, i, j);
    lemma_excerpt(raw, start, end, limit);
}

/// `limit` bounds the excerpt: around a span of whole scalars that is no
/// longer than `limit`, the text shown is at most `limit` bytes long; a longer
/// span is shown alone.
pub proof fn law_excerpt_stays_within_limit(raw: Seq<char>, i: int, j: int, limit: int)
    requires
        0 <= i <= j <= raw.len(),
        limit >= 0,
    ensures
        ({
            let start = text::byte_len(raw.take(i)) as int;
            let end = text::byte_len(raw.take(j)) as int;
            let from = excerpt_from(raw, start, end, limit);
            let to = excerpt_to(raw, start, end, limit);
            &&& end - start <= limit ==> text::byte_len(raw.subrange(from, to)) <= limit
            &&& end - start > limit ==> from == i && to == j
        }),
{
    let start = text::byte_len(raw.take(i)) as int;
    let end = text::byte_len(raw.take(j)) as int;
    let from = excerpt_from(raw, start, end, limit);
    let to = excerpt_to(raw, start, end, limit);
    lemma_whole_span(raw, i, j);
    lemma_excerpt(raw, start, end, limit);
    assert(raw.take(to) =~= raw.take(from) + raw.subrange(from, to));
    text::lemma_byte_len_concat(raw.take(from), raw.subrange(from, to));
    if end - start > limit {
        text::lemma_byte_len_take(raw, from, i);
        text::lemma_byte_len_take(raw, j, to);
    }
}

/// The scalars that a span of whole scalars touches are its own.
proof fn lemma_whole_span(raw: Seq<char>, i: int, j: int)
    requires
        0 <= i <= j <= raw.len(),
    ensures
        touched_from(raw, text::byte_len(raw.take(i)) as int) == i,
        touched_to(
            raw,
            text::byte_len(raw.take(i)) as int,
            text::byte_len(raw.take(j)) as int,
        ) == j,
{
    if i < raw.len() {
        text::lemma_byte_len_step(raw, i);
    }
    if j < raw.len() {
        text::lemma_byte_len_step(raw, j);
    }
    text::lemma_floor_scalar_is(raw, text::byte_len(raw.take(i)) as int, i);
    text::lemma_floor_scalar_is(raw, text::byte_len(raw.take(j)) as int, j);
}

/// Every place at which the folded needle stands in the folded text, however
/// many overlap, has its span, in order: from the start of the raw scalar that
/// the first folded scalar came from to the end of the one that the last came
/// from. A needle whose fold is empty has none.
pub proof fn law_every_occurrence_has_its_span(text: Seq<char>, needle: Seq<char>, p: int)
    ensures
        ({
            let hay = fold_each(text);
            let wanted = fold_each(needle);
            let here = |i: int|
                i + wanted.len() <= hay.len() && hay.subrange(i, i + wanted.len()) == wanted;
            let spans = literal_spans(text, needle);
            &&& wanted.len() == 0 ==> spans.len() == 0
            &&& wanted.len() > 0 ==> spans.len() == seqs::tally(hay.len() as int, here)
            &&& wanted.len() > 0 && 0 <= p < hay.len() && here(p) ==> exists|a: int, b: int|
                {
                    &&& 0 <= a <= b < text.len()
                    &&& #[trigger] fold_each(text.take(a)).len() <= p
                    &&& p < fold_each(text.take(a + 1)).len()
                    &&& #[trigger] fold_each(text.take(b)).len() < p + wanted.len()
                    &&& p + wanted.len() <= fold_each(text.take(b + 1)).len()
                    &&& spans[seqs::tally(p, here) as int] == (
                        text::byte_len(text.take(a)) as int,
                        text::byte_len(text.take(b + 1)) as int,
                    )
                }
        }),
{
    let hay = fold_each(text);
    let wanted = fold_each(needle);
    let n = wanted.len() as int;
    let here = |i: int|
        i + wanted.len() <= hay.len() && hay.subrange(i, i + wanted.len()) == wanted;
    let at = |i: int| i;
    lemma_positions_are_picks(hay, wanted, hay.len() as int);
    seqs::lemma_picks_agree(
        hay.len() as int,
        |i: int| occurs_at(hay, wanted, i),
        here,
        at,
        at,
    );
    seqs::lemma_picks(hay.len() as int, here, at);
    if n > 0 && 0 <= p < hay.len() && here(p) {
        lemma_origins(text);
        lemma_origin_window(text, p);
        lemma_origin_window(text, p + n - 1);
        let a = origins(text)[p];
        let b = origins(text)[p + n - 1];
        assert(positions_below(hay, wanted, hay.len() as int)[seqs::tally(p, here) as int] == p);
        assert(fold_each(text.take(a)).len() <= p);
        assert(fold_each(text.take(b)).len() < p + n);
    }
}

proof fn lemma_positions_are_picks(hay: Seq<char>, needle: Seq<char>, n: int)
    ensures
        positions_below(hay, needle, n) == seqs::picks(
            n,
            |i: int| occurs_at(hay, needle, i),
            |i: int| i,
        ),
    decreases n,
{
    if n > 0 {
        lemma_positions_are_picks(hay, needle, n - 1);
    }
}

/// Around a span of whole scalars, an excerpt shows on each side as much text
/// as fits in half of what the span leaves of `limit`, in whole scalars, and an
/// ellipsis where there is more.
pub proof fn law_excerpt_fills_the_limit(raw: Seq<char>, i: int, j: int, limit: int)
    requires
        0 <= i <= j <= raw.len(),
        limit >= 0,
    ensures
        exists|from: int, to: int|
            {
                let width = text::byte_len(raw.subrange(i, j)) as int;
                let room = if width < limit {
                    (limit - width) / 2
                } else {
                    0
                };
                &&& 0 <= from <= i
                &&& j <= to <= raw.len()
                &&& text::byte_len(#[trigger] raw.subrange(from, i)) <= room
                &&& from > 0 ==> text::byte_len(raw.subrange(from - 1, i)) > room
                &&& text::byte_len(#[trigger] raw.subrange(j, to)) <= room
                &&& to < raw.len() ==> text::byte_len(raw.subrange(j, to + 1)) > room
                &&& excerpt_text(
                    raw,
                    text::byte_len(raw.take(i)) as int,
                    text::byte_len(raw.take(j)) as int,
                    limit,
                ) == (if from > 0 {
                    seq!['\u{2026}']
                } else {
                    Seq::empty()
                }) + raw.subrange(from, to) + (if to < raw.len() {
                    seq!['\u{2026}']
                } else {
                    Seq::empty()
                })
            },
{
    let start = text::byte_len(raw.take(i)) as int;
    let end = text::byte_len(raw.take(j)) as int;
    let from = excerpt_from(raw, start, end, limit);
    let to = excerpt_to(raw, start, end, limit);
    lemma_whole_span(raw, i, j);
    lemma_excerpt(raw, start, end, limit);
    lemma_between(raw, i, j);
    let room = padding(raw, i, j, limit);
    assert(room >= 0);
    let low = if start - room > 0 {
        start - room
    } else {
        0
    };
    text::lemma_floor_scalar(raw, low);
    text::lemma_floor_scalar(raw, end + room);
    let f = text::floor_scalar(raw, low);
    assert(from == f || from == f + 1);
    lemma_between(raw, from, i);
    lemma_between(raw, j, to);
    if from == f + 1 {
        assert(text::byte_len(raw.take(f + 1)) > low);
    } else if f < raw.len() {
        assert(text::byte_len(raw.take(f)) >= low);
    }
    if from > 0 {
        lemma_between(raw, from - 1, i);
        text::lemma_byte_len_take(raw, from - 1, from);
        if from == f {
            text::lemma_byte_len_take(raw, from - 1, f);
        }
        assert(text::byte_len(raw.take(from - 1)) < low);
    }
    if to < raw.len() {
        lemma_between(raw, j, to + 1);
        assert(text::byte_len(raw.take(to + 1)) > end + room);
    }
    assert(text::byte_len(raw.subrange(from, i)) <= room);
    assert(text::byte_len(raw.subrange(j, to)) <= room);
}

proof fn lemma_between(raw: Seq<char>, a: int, b: int)
    requires
        0 <= a <= b <= raw.len(),
    ensures
        text::byte_len(raw.subrange(a, b)) == text::byte_len(raw.take(b)) - text::byte_len(
            raw.take(a),
        ),
{
    assert(raw.take(b) =~= raw.take(a) + raw.subrange(a, b));
    text::lemma_byte_len_concat(raw.take(a), raw.subrange(a, b));
}

/// A span that starts or ends within a scalar shows that scalar whole: the
/// excerpt is that of the scalars that it touches.
pub proof fn law_partial_scalars_are_shown_whole(
    raw: Seq<char>,
    start: int,
    end: int,
    i: int,
    j: int,
    limit: int,
)
    requires
        0 <= i < j <= raw.len(),
        text::byte_len(raw.take(i)) <= start < text::byte_len(raw.take(i + 1)),
        text::byte_len(raw.take(j - 1)) < end <= text::byte_len(raw.take(j)),
        limit >= 0,
    ensures
        excerpt_text(raw, start, end, limit) == excerpt_text(
            raw,
            text::byte_len(raw.take(i)) as int,
            text::byte_len(raw.take(j)) as int,
            limit,
        ),
{
    lemma_whole_span(raw, i, j);
    text::lemma_floor_scalar_is(raw, start, i);
    if end == text::byte_len(raw.take(j)) {
    } else {
        text::lemma_floor_scalar_is(raw, end, j - 1);
    }
}

} // verus!
