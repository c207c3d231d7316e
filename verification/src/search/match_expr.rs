//! Full-text match expressions.

use crate::text::{self, chars_of, words_of};
use vstd::prelude::*;

verus! {

/// `w` with every double quote written twice.
pub open spec fn doubled(w: Seq<char>) -> Seq<char>
    decreases w.len(),
{
    if w.len() == 0 {
        Seq::empty()
    } else if w.last() == '"' {
        doubled(w.drop_last()) + seq!['"', '"']
    } else {
        doubled(w.drop_last()).push(w.last())
    }
}

/// What a quoted term stands for: pairs of double quotes read as one.
pub open spec fn undoubled(q: Seq<char>) -> Seq<char>
    decreases q.len(),
{
    if q.len() == 0 {
        Seq::empty()
    } else if q.len() >= 2 && q.last() == '"' && q[q.len() - 2] == '"' {
        undoubled(q.take(q.len() - 2)).push('"')
    } else {
        undoubled(q.drop_last()).push(q.last())
    }
}

/// A term between double quotes.
pub open spec fn quoted(w: Seq<char>) -> Seq<char> {
    seq!['"'] + doubled(w) + seq!['"']
}

/// The quoted terms joined by ` OR `.
pub open spec fn any_of(terms: Seq<Seq<char>>) -> Seq<char>
    decreases terms.len(),
{
    if terms.len() == 0 {
        Seq::empty()
    } else if terms.len() == 1 {
        quoted(terms[0])
    } else {
        any_of(terms.drop_last()) + " OR "@ + quoted(terms.last())
    }
}

/// The term between double quotes.
fn quote(w: &str) -> (out: String)
    ensures
        out@ == quoted(w@),
{
    let chars = chars_of(w);
    let mut out = String::new();
    out.push('"');
    let mut i: usize = 0;
    assert(out@ =~= seq!['"'] + doubled(chars@.take(0)));
    while i < chars.len()
        invariant
            i <= chars.len(),
            out@ == seq!['"'] + doubled(chars@.take(i as int)),
        decreases chars.len() - i,
    {
        let ghost longer = chars@.take(i as int + 1);
        assert(longer.drop_last() =~= chars@.take(i as int));
        if chars[i] == '"' {
            out.push('"');
        }
        out.push(chars[i]);
        assert(out@ =~= seq!['"'] + doubled(longer));
        i += 1;
    }
    assert(chars@.take(i as int) =~= w@);
    out.push('"');
    assert(out@ =~= quoted(w@));
    out
}

/// The match expression of a query: each word a quoted term with its double
/// quotes doubled, joined by ` OR `.
pub fn build_match_expr(query: &str) -> (out: String)
    ensures
        out@ == any_of(text::words(query@)),
{
    let words = words_of(query);
    let ghost terms = text::views(words@);
    let mut out = String::new();
    let mut i: usize = 0;
    assert(terms.take(0) =~= Seq::empty());
    while i < words.len()
        invariant
            i <= words.len(),
            terms == text::views(words@),
            out@ == any_of(terms.take(i as int)),
        decreases words.len() - i,
    {
        let ghost longer = terms.take(i as int + 1);
        assert(longer.drop_last() =~= terms.take(i as int));
        assert(longer.last() == words@[i as int]@);
        if i > 0 {
            out.append(" OR ");
        }
        let term = quote(words[i].as_str());
        out.append(term.as_str());
        assert(out@ =~= any_of(longer));
        i += 1;
    }
    assert(terms.take(i as int) =~= terms);
    out
}

/// No character of a term can end it: reading the doubled quotes back gives
/// the term.
pub proof fn law_quoting_keeps_the_term(w: Seq<char>)
    ensures
        undoubled(doubled(w)) == w,
    decreases w.len(),
{
    if w.len() == 0 {
        assert(w =~= Seq::empty());
    } else {
        let front = w.drop_last();
        let q = doubled(w);
        law_quoting_keeps_the_term(front);
        if w.last() == '"' {
            assert(q.take(q.len() - 2) =~= doubled(front));
        } else {
            assert(q.drop_last() =~= doubled(front));
        }
        assert(undoubled(q) =~= front.push(w.last()));
        assert(w =~= front.push(w.last()));
    }
}

proof fn lemma_any_of_concat(a: Seq<Seq<char>>, b: Seq<Seq<char>>)
    requires
        a.len() > 0,
        b.len() > 0,
    ensures
        any_of(a + b) == any_of(a) + " OR "@ + any_of(b),
    decreases b.len(),
{
    let front = b.drop_last();
    assert((a + b).drop_last() =~= a + front);
    assert((a + b).last() == b.last());
    if b.len() == 1 {
        assert(a + front =~= a);
    } else {
        lemma_any_of_concat(a, front);
        assert(any_of(a + b) =~= any_of(a) + " OR "@ + any_of(b));
    }
}

proof fn lemma_joined_queries(a: Seq<char>, sep: char, b: Seq<char>)
    requires
        text::is_space(sep),
        !text::blank(a),
        !text::blank(b),
    ensures
        any_of(text::words(a.push(sep) + b)) == any_of(text::words(a)) + " OR "@ + any_of(
            text::words(b),
        ),
{
    text::lemma_words_of_blank(a);
    text::lemma_words_of_blank(b);
    text::lemma_words_concat(a, sep, b);
    lemma_any_of_concat(text::words(a), text::words(b));
}

/// Two queries that each hold a word, joined by a space or by any other
/// whitespace, match what either of them matches: the expression is the two
/// expressions joined by ` OR `.
pub proof fn law_joined_queries_match_either(a: Seq<char>, sep: char, b: Seq<char>)
    requires
        text::is_space(sep),
        !text::blank(a),
        !text::blank(b),
    ensures
        any_of(text::words(a + " "@ + b)) == any_of(text::words(a)) + " OR "@ + any_of(
            text::words(b),
        ),
        any_of(text::words(a.push(sep) + b)) == any_of(text::words(a)) + " OR "@ + any_of(
            text::words(b),
        ),
{
    reveal_strlit(" ");
    assert(a + " "@ =~= a.push(' '));
    lemma_joined_queries(a, ' ', b);
    lemma_joined_queries(a, sep, b);
}

/// A single word gives its quoted form, and a blank query nothing.
pub proof fn law_word_is_one_quoted_term(w: Seq<char>)
    ensures
        text::is_word(w) ==> any_of(text::words(w)) == quoted(w),
        text::blank(w) ==> any_of(text::words(w)) == Seq::<char>::empty(),
{
    text::lemma_words_of_blank(w);
    if text::is_word(w) {
        text::lemma_word_alone(w);
    }
}

/// Where the reading of a match expression stands.
pub enum Place {
    /// Between quoted terms.
    Outside,
    /// In a quoted term.
    Inside,
    /// Behind a double quote in a term: it ends the term, unless another
    /// follows.
    AtQuote,
}

/// What was read of a match expression: the terms that are through, the one
/// begun last, and all that stood outside of them.
pub struct Scan {
    pub terms: Seq<Seq<char>>,
    pub term: Seq<char>,
    pub outside: Seq<char>,
    pub place: Place,
}

impl Scan {
    pub open spec fn start() -> Scan {
        Scan {
            terms: Seq::empty(),
            term: Seq::empty(),
            outside: Seq::empty(),
            place: Place::Outside,
        }
    }

    /// Reading one character more.
    pub open spec fn step(self, c: char) -> Scan {
        match self.place {
            Place::Outside => if c == '"' {
                Scan { term: Seq::empty(), place: Place::Inside, ..self }
            } else {
                Scan { outside: self.outside.push(c), ..self }
            },
            Place::Inside => if c == '"' {
                Scan { place: Place::AtQuote, ..self }
            } else {
                Scan { term: self.term.push(c), ..self }
            },
            Place::AtQuote => if c == '"' {
                Scan { term: self.term.push('"'), place: Place::Inside, ..self }
            } else {
                Scan {
                    terms: self.terms.push(self.term),
                    outside: self.outside.push(c),
                    place: Place::Outside,
                    ..self
                }
            },
        }
    }

    /// Reading all of `s`.
    pub open spec fn over(self, s: Seq<char>) -> Scan
        decreases s.len(),
    {
        if s.len() == 0 {
            self
        } else {
            self.over(s.drop_last()).step(s.last())
        }
    }
}

/// The terms that a reader of a match expression finds.
pub open spec fn terms_read(expr: Seq<char>) -> Seq<Seq<char>> {
    let end = Scan::start().over(expr);
    if end.place is AtQuote {
        end.terms.push(end.term)
    } else {
        end.terms
    }
}

/// What a reader of a match expression finds outside of its terms.
pub open spec fn outside_read(expr: Seq<char>) -> Seq<char> {
    Scan::start().over(expr).outside
}

/// ` OR ` so many times.
pub open spec fn ors(n: nat) -> Seq<char>
    decreases n,
{
    if n == 0 {
        Seq::empty()
    } else {
        ors((n - 1) as nat) + " OR "@
    }
}

proof fn lemma_over_concat(scan: Scan, a: Seq<char>, b: Seq<char>)
    ensures
        scan.over(a + b) == scan.over(a).over(b),
    decreases b.len(),
{
    if b.len() == 0 {
        assert(a + b =~= a);
    } else {
        assert((a + b).drop_last() =~= a + b.drop_last());
        lemma_over_concat(scan, a, b.drop_last());
    }
}

proof fn lemma_over_one(scan: Scan, c: char)
    ensures
        scan.over(seq![c]) == scan.step(c),
{
    assert(seq![c].drop_last() =~= Seq::empty());
    assert(scan.over(seq![c].drop_last()) == scan);
}

proof fn lemma_over_doubled(scan: Scan, w: Seq<char>)
    requires
        scan.place is Inside,
        scan.term == Seq::<char>::empty(),
    ensures
        scan.over(doubled(w)) == (Scan { term: w, ..scan }),
    decreases w.len(),
{
    if w.len() == 0 {
        assert(w =~= scan.term);
    } else {
        let front = w.drop_last();
        let before = Scan { term: front, ..scan };
        lemma_over_doubled(scan, front);
        assert(front.push(w.last()) =~= w);
        if w.last() == '"' {
            let pair = seq!['"', '"'];
            lemma_over_concat(scan, doubled(front), pair);
            assert(pair.drop_last() =~= seq!['"']);
            lemma_over_one(before, '"');
        } else {
            lemma_over_concat(scan, doubled(front), seq![w.last()]);
            assert(doubled(w) =~= doubled(front) + seq![w.last()]);
            lemma_over_one(before, w.last());
        }
    }
}

proof fn lemma_over_quoted(scan: Scan, w: Seq<char>)
    requires
        scan.place is Outside,
    ensures
        scan.over(quoted(w)) == (Scan { term: w, place: Place::AtQuote, ..scan }),
{
    let inside = Scan { term: Seq::empty(), place: Place::Inside, ..scan };
    lemma_over_one(scan, '"');
    lemma_over_concat(scan, seq!['"'], doubled(w));
    lemma_over_doubled(inside, w);
    lemma_over_concat(scan, seq!['"'] + doubled(w), seq!['"']);
    lemma_over_one(Scan { term: w, ..inside }, '"');
}

proof fn lemma_over_or(scan: Scan)
    requires
        scan.place is AtQuote,
    ensures
        scan.over(" OR "@) == (Scan {
            terms: scan.terms.push(scan.term),
            outside: scan.outside + " OR "@,
            place: Place::Outside,
            ..scan
        }),
{
    reveal_strlit(" OR ");
    let s = " OR "@;
    assert(s =~= seq![' ', 'O', 'R', ' ']);
    reveal_with_fuel(Scan::over, 5);
    assert(scan.outside.push(' ').push('O').push('R').push(' ') =~= scan.outside + s);
}

proof fn lemma_over_any_of(terms: Seq<Seq<char>>)
    requires
        terms.len() > 0,
    ensures
        Scan::start().over(any_of(terms)) == (Scan {
            terms: terms.drop_last(),
            term: terms.last(),
            outside: ors((terms.len() - 1) as nat),
            place: Place::AtQuote,
        }),
    decreases terms.len(),
{
    let start = Scan::start();
    if terms.len() == 1 {
        lemma_over_quoted(start, terms[0]);
        assert(terms.drop_last() =~= start.terms);
    } else {
        let front = terms.drop_last();
        lemma_over_any_of(front);
        let one = start.over(any_of(front));
        lemma_over_concat(start, any_of(front), " OR "@);
        lemma_over_or(one);
        assert(front.drop_last().push(front.last()) =~= front);
        let two = start.over(any_of(front) + " OR "@);
        lemma_over_concat(start, any_of(front) + " OR "@, quoted(terms.last()));
        lemma_over_quoted(two, terms.last());
    }
}

/// No character of a query becomes syntax: a reader of its match expression
/// finds the query's words as the terms, and outside of them nothing but the
/// ` OR ` between each two.
pub proof fn law_expression_reads_back(query: Seq<char>)
    ensures
        terms_read(any_of(text::words(query))) == text::words(query),
        outside_read(any_of(text::words(query))) == ors(
            if text::words(query).len() == 0 {
                0
            } else {
                (text::words(query).len() - 1) as nat
            },
        ),
{
    let terms = text::words(query);
    if terms.len() == 0 {
        assert(terms =~= Seq::empty());
    } else {
        lemma_over_any_of(terms);
        assert(terms.drop_last().push(terms.last()) =~= terms);
    }
}

} // verus!
