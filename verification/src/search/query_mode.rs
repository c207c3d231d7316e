//! Query-mode classification.
//!
//! An explicit flag selects exact mode. Otherwise a query with an
//! identifier-shaped token is searched in identifier mode, and any other in
//! natural-language mode.

use crate::seqs;
use crate::text::{self, chars_of};
use vstd::prelude::*;

verus! {

/// The retrieval mode selected for a query.
#[derive(Clone, Copy, Debug, PartialEq, Eq, Structural)]
pub enum QueryMode {
    Exact,
    Identifier,
    Natural,
}

/// What the token classifier reads of one scalar.
#[derive(Clone, Copy, Debug, PartialEq, Eq, Structural)]
pub struct ScalarClass {
    pub scalar: char,
    pub upper: bool,
    pub lower: bool,
}

/// The class of each scalar of `s`.
pub open spec fn classes(s: Seq<char>) -> Seq<ScalarClass> {
    s.map_values(|c: char| class_of(c))
}

/// The class of one scalar.
pub open spec fn class_of(c: char) -> ScalarClass {
    ScalarClass { scalar: c, upper: text::is_upper(c), lower: text::is_lower(c) }
}

pub open spec fn is_mark(c: char) -> bool {
    c == '_' || c == '/' || c == '#' || c == '-'
}

pub open spec fn is_digit(c: char) -> bool {
    '0' <= c <= '9'
}

/// `_`, `/`, `#` or `-` stands in the token.
pub open spec fn has_mark(t: Seq<ScalarClass>) -> bool {
    exists|i: int| 0 <= i < t.len() && is_mark((#[trigger] t[i]).scalar)
}

/// `::` stands in the token.
pub open spec fn has_path_separator(t: Seq<ScalarClass>) -> bool {
    exists|i: int|
        0 <= i < t.len() - 1 && (#[trigger] t[i]).scalar == ':' && t[i + 1].scalar == ':'
}

/// A lower-case scalar is followed by an upper-case one.
pub open spec fn has_inner_capital(t: Seq<ScalarClass>) -> bool {
    exists|i: int| 0 <= i < t.len() - 1 && (#[trigger] t[i]).lower && t[i + 1].upper
}

/// An ASCII digit stands next to an upper-case scalar.
pub open spec fn has_error_code(t: Seq<ScalarClass>) -> bool {
    exists|i: int|
        {
            &&& 0 <= i < t.len()
            &&& is_digit((#[trigger] t[i]).scalar)
            &&& {
                ||| i > 0 && t[i - 1].upper
                ||| i + 1 < t.len() && t[i + 1].upper
            }
        }
}

/// At least two scalars are upper-case.
pub open spec fn has_two_capitals(t: Seq<ScalarClass>) -> bool {
    exists|i: int, j: int|
        0 <= i < j < t.len() && (#[trigger] t[i]).upper && (#[trigger] t[j]).upper
}

/// The shape of an identifier.
pub open spec fn identifier_shape(t: Seq<ScalarClass>) -> bool {
    ||| has_mark(t)
    ||| has_path_separator(t)
    ||| has_inner_capital(t)
    ||| has_error_code(t)
    ||| has_two_capitals(t)
}

/// The whitespace-separated tokens of `query` that have identifier shape.
pub open spec fn identifier_words(query: Seq<char>) -> Seq<Seq<char>> {
    text::words(query).filter(|w: Seq<char>| identifier_shape(classes(w)))
}

/// Whether a token has the shape of an identifier.
pub fn has_identifier_shape(t: &Vec<ScalarClass>) -> (yes: bool)
    ensures
        yes == identifier_shape(t@),
{
    let mut first_upper: Option<usize> = None;
    let mut i: usize = 0;
    while i < t.len()
        invariant
            i <= t.len(),
            forall|k: int| 0 <= k < i ==> !is_mark((#[trigger] t@[k]).scalar),
            forall|k: int|
                0 <= k < i && k + 1 < t@.len() ==> !((#[trigger] t@[k]).scalar == ':' && t@[k
                    + 1].scalar == ':'),
            forall|k: int|
                0 <= k < i && k + 1 < t@.len() ==> !((#[trigger] t@[k]).lower && t@[k + 1].upper),
            forall|k: int|
                0 <= k < i && is_digit((#[trigger] t@[k]).scalar) ==> !(k > 0 && t@[k - 1].upper)
                    && !(k + 1 < t@.len() && t@[k + 1].upper),
            first_upper is None ==> forall|k: int| 0 <= k < i ==> !(#[trigger] t@[k]).upper,
            first_upper matches Some(f) ==> f < i && t@[f as int].upper && forall|k: int|
                0 <= k < i && k != f ==> !(#[trigger] t@[k]).upper,
        decreases t.len() - i,
    {
        let c: char = t[i].scalar;
        if c == '_' || c == '/' || c == '#' || c == '-' {
            assert(is_mark(t@[i as int].scalar));
            return true;
        }
        let followed: bool = i + 1 < t.len();
        if followed && c == ':' && t[i + 1].scalar == ':' {
            assert(t@[i as int].scalar == ':' && t@[i + 1].scalar == ':');
            return true;
        }
        if followed && t[i].lower && t[i + 1].upper {
            assert(t@[i as int].lower && t@[i + 1].upper);
            return true;
        }
        if '0' <= c && c <= '9' {
            assert(is_digit(t@[i as int].scalar));
            if i > 0 && t[i - 1].upper {
                return true;
            }
            if followed && t[i + 1].upper {
                return true;
            }
        }
        if t[i].upper {
            match first_upper {
                Some(f) => {
                    assert(t@[f as int].upper && t@[i as int].upper);
                    return true;
                },
                None => {
                    first_upper = Some(i);
                },
            }
        }
        i += 1;
    }
    false
}

/// Whether `tok` has the shape of an identifier: it holds `_`, `::`, `/`, `#`
/// or `-`, a capital inside a word, two capitals, or a digit next to a capital.
pub fn is_identifier_token(tok: &str) -> (yes: bool)
    ensures
        yes == identifier_shape(classes(tok@)),
{
    let chars = chars_of(tok);
    let mut t: Vec<ScalarClass> = Vec::new();
    let mut i: usize = 0;
    while i < chars.len()
        invariant
            i <= chars.len(),
            chars@ == tok@,
            t@ == classes(tok@).take(i as int),
        decreases chars.len() - i,
    {
        let c: char = chars[i];
        t.push(ScalarClass { scalar: c, upper: c.is_uppercase(), lower: c.is_lowercase() });
        assert(t@.last() == class_of(c));
        assert(classes(tok@)[i as int] == class_of(c));
        assert(t@ =~= classes(tok@).take(i as int + 1));
        i += 1;
    }
    assert(classes(tok@).take(i as int) =~= classes(tok@));
    has_identifier_shape(&t)
}

/// The identifier-shaped tokens of `query`, in order.
pub fn identifier_tokens(query: &str) -> (out: Vec<String>)
    ensures
        text::views(out@) == identifier_words(query@),
{
    let words = text::words_of(query);
    let ghost all = text::views(words@);
    let ghost keep = |w: Seq<char>| identifier_shape(classes(w));
    let mut out: Vec<String> = Vec::new();
    let mut i: usize = 0;
    assert(all.take(0).filter(keep) =~= Seq::empty()) by {
        reveal(Seq::filter);
    }
    while i < words.len()
        invariant
            i <= words.len(),
            all == text::views(words@),
            keep == (|w: Seq<char>| identifier_shape(classes(w))),
            text::views(out@) == all.take(i as int).filter(keep),
        decreases words.len() - i,
    {
        let ghost before = text::views(out@);
        assert(all.take(i as int + 1).drop_last() =~= all.take(i as int));
        assert(all[i as int] == words@[i as int]@);
        proof {
            reveal(Seq::filter);
        }
        if is_identifier_token(words[i].as_str()) {
            out.push(words[i].clone());
            assert(text::views(out@) =~= before.push(words@[i as int]@));
        }
        i += 1;
    }
    assert(all.take(i as int) =~= all);
    out
}

/// Classify a query. `exact` is the explicit flag.
pub fn classify(query: &str, exact: bool) -> (mode: QueryMode)
    ensures
        exact <==> mode == QueryMode::Exact,
        mode == QueryMode::Identifier <==> !exact && exists|i: int|
            0 <= i < text::words(query@).len() && identifier_shape(
                classes(#[trigger] text::words(query@)[i]),
            ),
{
    if exact {
        return QueryMode::Exact;
    }
    let words = text::words_of(query);
    let mut i: usize = 0;
    while i < words.len()
        invariant
            i <= words.len(),
            !exact,
            text::views(words@) == text::words(query@),
            forall|k: int|
                0 <= k < i ==> !identifier_shape(classes(#[trigger] text::words(query@)[k])),
        decreases words.len() - i,
    {
        assert(text::views(words@)[i as int] == words@[i as int]@);
        if is_identifier_token(words[i].as_str()) {
            assert(identifier_shape(classes(text::words(query@)[i as int])));
            return QueryMode::Identifier;
        }
        i += 1;
    }
    QueryMode::Natural
}

/// A query without the exact flag is in identifier mode if and only if it has
/// an identifier-shaped token to fall back on.
pub proof fn law_identifier_mode_has_tokens(query: Seq<char>)
    ensures
        identifier_words(query).len() > 0 <==> exists|i: int|
            0 <= i < text::words(query).len() && identifier_shape(
                classes(#[trigger] text::words(query)[i]),
            ),
{
    let keep = |w: Seq<char>| identifier_shape(classes(w));
    let words = text::words(query);
    broadcast use vstd::seq_lib::group_filter_ensures;

    let kept = words.filter(keep);
    if exists|i: int|
        0 <= i < words.len() && identifier_shape(classes(#[trigger] words[i])) {
        let i = choose|i: int|
            0 <= i < words.len() && identifier_shape(classes(#[trigger] words[i]));
        assert(keep(words[i]));
        assert(kept.contains(words[i]));
    }
    if kept.len() > 0 {
        let w = kept[0];
        assert(keep(kept[0]));
        assert(kept.contains(w));
        assert(words.contains(w)) by {
            seqs::lemma_filter_contains(words, keep, w);
        }
    }
}

proof fn lemma_joined_identifiers(query: Seq<char>, sep: char)
    requires
        text::is_space(sep),
    ensures
        identifier_words(text::joined_by(identifier_words(query), sep)) == identifier_words(query),
{
    let keep = |w: Seq<char>| identifier_shape(classes(w));
    let words = text::words(query);
    let kept = identifier_words(query);
    text::lemma_words_are_words(query);
    assert forall|i: int| 0 <= i < kept.len() implies text::is_word(#[trigger] kept[i]) && keep(
        kept[i],
    ) by {
        assert(kept.contains(kept[i]));
        seqs::lemma_filter_contains(words, keep, kept[i]);
    }
    text::lemma_words_of_joined(kept, sep);
    seqs::lemma_filter_keeps_all(kept, keep);
}

/// The identifier tokens of a query are stable: joined by a space again, or by
/// any other whitespace, they have themselves as their identifier tokens.
pub proof fn law_identifier_tokens_are_stable(query: Seq<char>, sep: char)
    requires
        text::is_space(sep),
    ensures
        identifier_words(text::joined_by(identifier_words(query), ' ')) == identifier_words(query),
        identifier_words(text::joined_by(identifier_words(query), sep)) == identifier_words(query),
{
    lemma_joined_identifiers(query, ' ');
    lemma_joined_identifiers(query, sep);
}

/// A token has identifier shape if and only if it holds `_`, `/`, `#` or `-`, a
/// `::`, a lower-case scalar right before an upper-case one, an ASCII digit next
/// to an upper-case scalar, or two upper-case scalars.
pub proof fn law_identifier_shape_reads_scalars(w: Seq<char>)
    ensures
        identifier_shape(classes(w)) <==> {
            ||| w.contains('_')
            ||| w.contains('/')
            ||| w.contains('#')
            ||| w.contains('-')
            ||| exists|i: int|
                0 <= i < w.len() - 1 && #[trigger] w[i] == ':' && w[i + 1] == ':'
            ||| exists|i: int|
                0 <= i < w.len() - 1 && text::is_lower(#[trigger] w[i]) && text::is_upper(w[i + 1])
            ||| exists|i: int, j: int|
                {
                    &&& 0 <= i < w.len()
                    &&& 0 <= j < w.len()
                    &&& j == i - 1 || j == i + 1
                    &&& '0' <= #[trigger] w[i] <= '9'
                    &&& text::is_upper(#[trigger] w[j])
                }
            ||| exists|i: int, j: int|
                0 <= i < j < w.len() && text::is_upper(#[trigger] w[i]) && text::is_upper(
                    #[trigger] w[j],
                )
        },
{
    let t = classes(w);
    assert forall|i: int| 0 <= i < w.len() implies #[trigger] t[i] == class_of(w[i]) by {}
    if has_mark(t) {
        let i = choose|i: int| 0 <= i < t.len() && is_mark((#[trigger] t[i]).scalar);
        assert(w.contains(w[i]));
    }
    if w.contains('_') {
        let i = choose|i: int| 0 <= i < w.len() && w[i] == '_';
        assert(is_mark(t[i].scalar));
    }
    if w.contains('/') {
        let i = choose|i: int| 0 <= i < w.len() && w[i] == '/';
        assert(is_mark(t[i].scalar));
    }
    if w.contains('#') {
        let i = choose|i: int| 0 <= i < w.len() && w[i] == '#';
        assert(is_mark(t[i].scalar));
    }
    if w.contains('-') {
        let i = choose|i: int| 0 <= i < w.len() && w[i] == '-';
        assert(is_mark(t[i].scalar));
    }
    if has_path_separator(t) {
        let i = choose|i: int|
            0 <= i < t.len() - 1 && (#[trigger] t[i]).scalar == ':' && t[i + 1].scalar == ':';
        assert(w[i] == ':' && w[i + 1] == ':');
    }
    if exists|i: int| 0 <= i < w.len() - 1 && #[trigger] w[i] == ':' && w[i + 1] == ':' {
        let i = choose|i: int|
            0 <= i < w.len() - 1 && #[trigger] w[i] == ':' && w[i + 1] == ':';
        assert(t[i].scalar == ':' && t[i + 1].scalar == ':');
    }
    if has_inner_capital(t) {
        let i = choose|i: int|
            0 <= i < t.len() - 1 && (#[trigger] t[i]).lower && t[i + 1].upper;
        assert(text::is_lower(w[i]) && text::is_upper(w[i + 1]));
    }
    if exists|i: int|
        0 <= i < w.len() - 1 && text::is_lower(#[trigger] w[i]) && text::is_upper(w[i + 1]) {
        let i = choose|i: int|
            0 <= i < w.len() - 1 && text::is_lower(#[trigger] w[i]) && text::is_upper(w[i + 1]);
        assert(t[i].lower && t[i + 1].upper);
    }
    if has_error_code(t) {
        let i = choose|i: int|
            {
                &&& 0 <= i < t.len()
                &&& is_digit((#[trigger] t[i]).scalar)
                &&& {
                    ||| i > 0 && t[i - 1].upper
                    ||| i + 1 < t.len() && t[i + 1].upper
                }
            };
        if i > 0 && t[i - 1].upper {
            assert('0' <= w[i] <= '9' && text::is_upper(w[i - 1]));
        } else {
            assert('0' <= w[i] <= '9' && text::is_upper(w[i + 1]));
        }
    }
    if exists|i: int, j: int|
        {
            &&& 0 <= i < w.len()
            &&& 0 <= j < w.len()
            &&& j == i - 1 || j == i + 1
            &&& '0' <= #[trigger] w[i] <= '9'
            &&& text::is_upper(#[trigger] w[j])
        } {
        let (i, j) = choose|i: int, j: int|
            {
                &&& 0 <= i < w.len()
                &&& 0 <= j < w.len()
                &&& j == i - 1 || j == i + 1
                &&& '0' <= #[trigger] w[i] <= '9'
                &&& text::is_upper(#[trigger] w[j])
            };
        assert(is_digit(t[i].scalar) && t[j].upper);
    }
    if has_two_capitals(t) {
        let (i, j) = choose|i: int, j: int|
            0 <= i < j < t.len() && (#[trigger] t[i]).upper && (#[trigger] t[j]).upper;
        assert(text::is_upper(w[i]) && text::is_upper(w[j]));
    }
    if exists|i: int, j: int|
        0 <= i < j < w.len() && text::is_upper(#[trigger] w[i]) && text::is_upper(
            #[trigger] w[j],
        ) {
        let (i, j) = choose|i: int, j: int|
            0 <= i < j < w.len() && text::is_upper(#[trigger] w[i]) && text::is_upper(
                #[trigger] w[j],
            );
        assert(t[i].upper && t[j].upper);
    }
}

/// Every word of a query that has identifier shape is among its identifier
/// tokens, in order and as often as it stands there, and no other word is.
pub proof fn law_identifier_tokens_are_the_shaped_words(query: Seq<char>, i: int)
    ensures
        ({
            let words = text::words(query);
            let shaped = |k: int| identifier_shape(classes(words[k]));
            &&& identifier_words(query).len() == seqs::tally(words.len() as int, shaped)
            &&& 0 <= i < words.len() && shaped(i) ==> identifier_words(query)[seqs::tally(
                i,
                shaped,
            ) as int] == words[i]
        }),
{
    let words = text::words(query);
    let shaped = |k: int| identifier_shape(classes(words[k]));
    let keep = |w: Seq<char>| identifier_shape(classes(w));
    let item = |k: int| words[k];
    seqs::lemma_filter_is_picks(words, keep);
    seqs::lemma_picks_agree(words.len() as int, |k: int| keep(words[k]), shaped, item, item);
    seqs::lemma_picks(words.len() as int, shaped, item);
}

/// The flag makes a query exact; else it is in identifier mode if and only if one
/// of its words has identifier shape.
pub proof fn law_mode_follows_the_query(query: &str, exact: bool, mode: QueryMode)
    requires
        call_ensures(classify, (query, exact), mode),
    ensures
        exact ==> mode == QueryMode::Exact,
        !exact && identifier_words(query@).len() > 0 ==> mode == QueryMode::Identifier,
        !exact && identifier_words(query@).len() == 0 ==> mode == QueryMode::Natural,
{
    law_identifier_mode_has_tokens(query@);
    if identifier_words(query@).len() > 0 && !exact {
        let i = choose|i: int|
            0 <= i < text::words(query@).len() && identifier_shape(
                classes(#[trigger] text::words(query@)[i]),
            );
        assert(0 <= i < text::words(query@).len());
        assert(mode == QueryMode::Identifier);
    }
}

} // verus!
