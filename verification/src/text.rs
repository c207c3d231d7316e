//! Strings as sequences of Unicode scalars, with their UTF-8 byte lengths.

use vstd::prelude::*;
use vstd::utf8::*;

verus! {

/// `String::push`: appends one scalar at the end of the string.
pub assume_specification[ String::push ](s: &mut String, c: char)
    ensures
        final(s)@ == old(s)@.push(c),
;

/// What `char::is_uppercase` answers of a scalar beyond ASCII.
pub uninterp spec fn wide_upper(c: char) -> bool;

/// What `char::is_lowercase` answers of a scalar beyond ASCII.
pub uninterp spec fn wide_lower(c: char) -> bool;

/// `c` is upper-case: of the ASCII characters, the capital letters.
pub open spec fn is_upper(c: char) -> bool {
    if c <= '\u{7F}' {
        'A' <= c <= 'Z'
    } else {
        wide_upper(c)
    }
}

/// `c` is lower-case: of the ASCII characters, the small letters.
pub open spec fn is_lower(c: char) -> bool {
    if c <= '\u{7F}' {
        'a' <= c <= 'z'
    } else {
        wide_lower(c)
    }
}

/// `c` has the Unicode `White_Space` property.
pub open spec fn is_space(c: char) -> bool {
    ||| '\u{9}' <= c <= '\u{D}'
    ||| c == ' '
    ||| c == '\u{85}'
    ||| c == '\u{A0}'
    ||| c == '\u{1680}'
    ||| '\u{2000}' <= c <= '\u{200A}'
    ||| '\u{2028}' <= c <= '\u{2029}'
    ||| c == '\u{202F}'
    ||| c == '\u{205F}'
    ||| c == '\u{3000}'
}

/// `char::is_uppercase`: whether the scalar has the Unicode `Uppercase`
/// property, a fixed table of scalars. Of ASCII it holds `A` to `Z`.
pub assume_specification[ char::is_uppercase ](c: char) -> (yes: bool)
    ensures
        c <= '\u{7F}' ==> yes == ('A' <= c <= 'Z'),
        c > '\u{7F}' ==> yes == wide_upper(c),
;

/// `char::is_lowercase`: whether the scalar has the Unicode `Lowercase`
/// property, a fixed table of scalars. Of ASCII it holds `a` to `z`.
pub assume_specification[ char::is_lowercase ](c: char) -> (yes: bool)
    ensures
        c <= '\u{7F}' ==> yes == ('a' <= c <= 'z'),
        c > '\u{7F}' ==> yes == wide_lower(c),
;

/// `char::is_whitespace`: whether the scalar has the Unicode `White_Space`
/// property, a fixed set of scalars.
pub assume_specification[ char::is_whitespace ](c: char) -> (yes: bool)
    ensures
        yes == is_space(c),
;

/// The contents of a list of strings.
pub open spec fn views(strings: Seq<String>) -> Seq<Seq<char>> {
    strings.map_values(|s: String| s@)
}

/// The maximal runs of scalars of `s` that are not marked in `cut`, in order.
pub open spec fn runs(s: Seq<char>, cut: Seq<bool>) -> Seq<Seq<char>>
    decreases s.len(),
{
    if s.len() == 0 {
        Seq::empty()
    } else {
        let before = runs(s.drop_last(), cut);
        let n = s.len() - 1;
        if cut[n] {
            before
        } else if n == 0 || cut[n - 1] {
            before.push(seq![s[n]])
        } else {
            before.drop_last().push(before.last().push(s[n]))
        }
    }
}

/// Which scalars of `s` are whitespace.
pub open spec fn spaces(s: Seq<char>) -> Seq<bool> {
    s.map_values(|c: char| is_space(c))
}

/// The whitespace-separated words of `s`, in order.
pub open spec fn words(s: Seq<char>) -> Seq<Seq<char>> {
    runs(s, spaces(s))
}

/// The parts with `sep` between each two.
pub open spec fn joined_by(parts: Seq<Seq<char>>, sep: char) -> Seq<char>
    decreases parts.len(),
{
    if parts.len() == 0 {
        Seq::empty()
    } else if parts.len() == 1 {
        parts[0]
    } else {
        joined_by(parts.drop_last(), sep).push(sep) + parts.last()
    }
}

/// `w` is one word: it holds something, and no whitespace.
pub open spec fn is_word(w: Seq<char>) -> bool {
    w.len() > 0 && forall|i: int| 0 <= i < w.len() ==> !is_space(#[trigger] w[i])
}

/// `s` holds nothing but whitespace.
pub open spec fn blank(s: Seq<char>) -> bool {
    forall|i: int| 0 <= i < s.len() ==> is_space(#[trigger] s[i])
}

/// `s` from its first scalar that is not whitespace on.
pub open spec fn trim_start(s: Seq<char>) -> Seq<char>
    decreases s.len(),
{
    if s.len() > 0 && is_space(s[0]) {
        trim_start(s.drop_first())
    } else {
        s
    }
}

/// `s` up to its last scalar that is not whitespace.
pub open spec fn trim_end(s: Seq<char>) -> Seq<char>
    decreases s.len(),
{
    if s.len() > 0 && is_space(s.last()) {
        trim_end(s.drop_last())
    } else {
        s
    }
}

/// `s` without the whitespace around it.
pub open spec fn trimmed(s: Seq<char>) -> Seq<char> {
    trim_end(trim_start(s))
}

/// Number of bytes in the UTF-8 encoding of one scalar.
pub open spec fn char_width(c: char) -> nat {
    encode_scalar(c as u32).len()
}

/// Number of bytes in the UTF-8 encoding of a sequence of scalars.
pub open spec fn byte_len(s: Seq<char>) -> nat {
    encode_utf8(s).len()
}

/// The scalars of `s` that are not `c`, in order.
pub open spec fn without(s: Seq<char>, c: char) -> Seq<char> {
    s.filter(|x: char| x != c)
}

/// Concatenation of a sequence of strings.
pub open spec fn concat(parts: Seq<Seq<char>>) -> Seq<char>
    decreases parts.len(),
{
    if parts.len() == 0 {
        Seq::empty()
    } else {
        concat(parts.drop_last()) + parts.last()
    }
}

/// Number of scalars in the longest prefix of `s` that fits in `bytes` bytes.
pub open spec fn floor_scalar(s: Seq<char>, bytes: int) -> int
    decreases s.len(),
{
    if s.len() == 0 || byte_len(s) <= bytes {
        s.len() as int
    } else {
        floor_scalar(s.drop_last(), bytes)
    }
}

/// Number of scalars in the shortest prefix of `s` that has at least `bytes`
/// bytes; all of `s` where it has fewer.
pub open spec fn ceil_scalar(s: Seq<char>, bytes: int) -> int {
    let k = floor_scalar(s, bytes);
    if k == s.len() || byte_len(s.take(k)) >= bytes {
        k
    } else {
        k + 1
    }
}

pub proof fn lemma_encode_concat(a: Seq<char>, b: Seq<char>)
    ensures
        encode_utf8(a + b) == encode_utf8(a) + encode_utf8(b),
    decreases a.len(),
{
    if a.len() == 0 {
        assert(a + b =~= b);
        assert(encode_utf8(a) =~= Seq::empty());
    } else {
        assert((a + b).drop_first() =~= a.drop_first() + b);
        lemma_encode_concat(a.drop_first(), b);
        assert((a + b)[0] == a[0]);
        assert(encode_utf8(a + b) =~= encode_scalar(a[0] as u32) + (encode_utf8(a.drop_first())
            + encode_utf8(b)));
    }
}

pub proof fn lemma_byte_len_concat(a: Seq<char>, b: Seq<char>)
    ensures
        byte_len(a + b) == byte_len(a) + byte_len(b),
{
    lemma_encode_concat(a, b);
}

pub proof fn lemma_byte_len_one(c: char)
    ensures
        byte_len(seq![c]) == char_width(c),
        1 <= char_width(c) <= 4,
{
    let s = seq![c];
    assert(s.drop_first() =~= Seq::empty());
    assert(encode_utf8(s.drop_first()) =~= Seq::empty());
    assert(encode_utf8(s) =~= encode_scalar(c as u32));
}

pub proof fn lemma_byte_len_push(s: Seq<char>, c: char)
    ensures
        byte_len(s.push(c)) == byte_len(s) + char_width(c),
        1 <= char_width(c) <= 4,
{
    assert(s.push(c) =~= s + seq![c]);
    lemma_byte_len_concat(s, seq![c]);
    lemma_byte_len_one(c);
}

pub proof fn lemma_byte_len_empty()
    ensures
        byte_len(Seq::<char>::empty()) == 0,
{
}

/// A longer prefix has at least one more byte per scalar.
pub proof fn lemma_byte_len_take(s: Seq<char>, i: int, j: int)
    requires
        0 <= i <= j <= s.len(),
    ensures
        byte_len(s.take(i)) + (j - i) <= byte_len(s.take(j)),
    decreases j - i,
{
    if i < j {
        lemma_byte_len_take(s, i, j - 1);
        assert(s.take(j) =~= s.take(j - 1).push(s[j - 1]));
        lemma_byte_len_push(s.take(j - 1), s[j - 1]);
    }
}

pub proof fn lemma_byte_len_step(s: Seq<char>, i: int)
    requires
        0 <= i < s.len(),
    ensures
        byte_len(s.take(i + 1)) == byte_len(s.take(i)) + char_width(s[i]),
        1 <= char_width(s[i]) <= 4,
{
    assert(s.take(i + 1) =~= s.take(i).push(s[i]));
    lemma_byte_len_push(s.take(i), s[i]);
}

pub proof fn lemma_floor_scalar(s: Seq<char>, bytes: int)
    ensures
        0 <= floor_scalar(s, bytes) <= s.len(),
        bytes >= 0 ==> byte_len(s.take(floor_scalar(s, bytes))) <= bytes,
        forall|k: int|
            floor_scalar(s, bytes) < k <= s.len() ==> byte_len(#[trigger] s.take(k)) > bytes,
    decreases s.len(),
{
    assert(s.take(s.len() as int) =~= s);
    if s.len() == 0 {
        assert(s =~= Seq::empty());
        lemma_byte_len_empty();
    } else if byte_len(s) > bytes {
        let t = s.drop_last();
        lemma_floor_scalar(t, bytes);
        assert forall|k: int| 0 <= k <= t.len() implies #[trigger] s.take(k) == t.take(k) by {
            assert(s.take(k) =~= t.take(k));
        }
        assert forall|k: int| floor_scalar(s, bytes) < k <= s.len() implies byte_len(
            #[trigger] s.take(k),
        ) > bytes by {
            if k <= t.len() {
                assert(byte_len(t.take(k)) > bytes);
            }
        }
    }
}

/// A prefix that fits, and is all of `s` or does not fit with one scalar more,
/// is the longest that fits.
pub proof fn lemma_floor_scalar_is(s: Seq<char>, bytes: int, k: int)
    requires
        0 <= k <= s.len(),
        byte_len(s.take(k)) <= bytes,
        k < s.len() ==> byte_len(s.take(k + 1)) > bytes,
    ensures
        floor_scalar(s, bytes) == k,
{
    lemma_floor_scalar(s, bytes);
    let f = floor_scalar(s, bytes);
    if f > k {
        lemma_byte_len_take(s, k + 1, f);
    }
}

/// Runs depend on the marks of their own scalars alone.
proof fn lemma_runs_agree(s: Seq<char>, a: Seq<bool>, b: Seq<bool>)
    requires
        forall|i: int| 0 <= i < s.len() ==> a[i] == b[i],
    ensures
        runs(s, a) == runs(s, b),
    decreases s.len(),
{
    if s.len() > 0 {
        lemma_runs_agree(s.drop_last(), a, b);
    }
}

/// How the words of `s` come from those of `s` without its last scalar.
proof fn lemma_words_step(s: Seq<char>)
    requires
        s.len() > 0,
    ensures
        is_space(s.last()) ==> words(s) == words(s.drop_last()),
        !is_space(s.last()) && (s.len() == 1 || is_space(s[s.len() - 2])) ==> words(s) == words(
            s.drop_last(),
        ).push(seq![s.last()]),
        !is_space(s.last()) && s.len() > 1 && !is_space(s[s.len() - 2]) ==> words(s) == words(
            s.drop_last(),
        ).drop_last().push(words(s.drop_last()).last().push(s.last())),
        !is_space(s.last()) ==> words(s).len() > 0,
{
    lemma_runs_agree(s.drop_last(), spaces(s), spaces(s.drop_last()));
}

/// Two texts joined by whitespace have the words of the one, then those of the
/// other.
pub proof fn lemma_words_concat(a: Seq<char>, sep: char, b: Seq<char>)
    requires
        is_space(sep),
    ensures
        words(a.push(sep) + b) == words(a) + words(b),
    decreases b.len(),
{
    let all = a.push(sep) + b;
    lemma_words_step(all);
    if b.len() == 0 {
        assert(all.drop_last() =~= a);
        assert(words(a) + words(b) =~= words(a));
    } else {
        let t = b.drop_last();
        lemma_words_concat(a, sep, t);
        lemma_words_step(b);
        assert(all.drop_last() =~= a.push(sep) + t);
        if b.len() > 1 {
            lemma_words_step(t);
            assert(all[all.len() - 2] == b[b.len() - 2]);
        }
        if !is_space(b.last()) && b.len() > 1 && !is_space(b[b.len() - 2]) {
            assert((words(a) + words(t)).drop_last() =~= words(a) + words(t).drop_last());
        }
        assert(words(all) =~= words(a) + words(b));
    }
}

/// What stands among the words of a text is a word.
pub proof fn lemma_words_are_words(s: Seq<char>)
    ensures
        forall|i: int| 0 <= i < words(s).len() ==> is_word(#[trigger] words(s)[i]),
    decreases s.len(),
{
    if s.len() > 0 {
        let t = s.drop_last();
        lemma_words_are_words(t);
        lemma_words_step(s);
        if t.len() > 0 {
            lemma_words_step(t);
        }
        assert forall|i: int| 0 <= i < words(s).len() implies is_word(#[trigger] words(s)[i]) by {
            if i < words(t).len() {
                assert(is_word(words(t)[i]));
            }
        }
    }
}

/// One word is its own only word.
pub proof fn lemma_word_alone(w: Seq<char>)
    requires
        is_word(w),
    ensures
        words(w) == seq![w],
    decreases w.len(),
{
    let t = w.drop_last();
    lemma_words_step(w);
    if w.len() == 1 {
        assert(words(t) =~= Seq::empty());
        assert(w =~= seq![w.last()]);
    } else {
        assert(is_word(t));
        lemma_word_alone(t);
        assert(t.push(w.last()) =~= w);
    }
    assert(words(w) =~= seq![w]);
}

/// A text has no words if and only if it is blank.
pub proof fn lemma_words_of_blank(s: Seq<char>)
    ensures
        words(s).len() == 0 <==> blank(s),
    decreases s.len(),
{
    if s.len() > 0 {
        let t = s.drop_last();
        lemma_words_step(s);
        lemma_words_of_blank(t);
        if blank(s) {
            assert forall|i: int| 0 <= i < t.len() implies is_space(#[trigger] t[i]) by {
                assert(is_space(s[i]));
            }
        }
        if blank(t) && is_space(s.last()) {
            assert forall|i: int| 0 <= i < s.len() implies is_space(#[trigger] s[i]) by {
                if i < t.len() {
                    assert(is_space(t[i]));
                }
            }
        }
    }
}

/// Words joined by whitespace are the words of the result.
pub proof fn lemma_words_of_joined(parts: Seq<Seq<char>>, sep: char)
    requires
        is_space(sep),
        forall|i: int| 0 <= i < parts.len() ==> is_word(#[trigger] parts[i]),
    ensures
        words(joined_by(parts, sep)) == parts,
    decreases parts.len(),
{
    if parts.len() == 0 {
        assert(words(joined_by(parts, sep)) =~= parts);
    } else if parts.len() == 1 {
        lemma_word_alone(parts[0]);
        assert(seq![parts[0]] =~= parts);
    } else {
        let front = parts.drop_last();
        lemma_words_of_joined(front, sep);
        lemma_words_concat(joined_by(front, sep), sep, parts.last());
        lemma_word_alone(parts.last());
        assert(front + seq![parts.last()] =~= parts);
    }
}

/// Number of bytes in the UTF-8 encoding of `c`.
pub fn width_of(c: char) -> (w: usize)
    ensures
        w == char_width(c),
        1 <= w <= 4,
{
    let v: u32 = c as u32;
    if v <= 0x7F {
        1
    } else if v <= 0x7FF {
        2
    } else if v <= 0xFFFF {
        3
    } else {
        4
    }
}

/// Number of bytes in the UTF-8 encoding of `s`.
pub fn byte_len_of(s: &str) -> (n: usize)
    ensures
        n == byte_len(s@),
{
    s.as_bytes().len()
}

/// The scalars of `s`.
pub fn chars_of(s: &str) -> (out: Vec<char>)
    ensures
        out@ == s@,
{
    let mut out: Vec<char> = Vec::new();
    for c in it: s.chars()
        invariant
            it.seq() == s@,
            out@ == s@.take(it.index()),
    {
        out.push(c);
        assert(s@.take(it.index() + 1) =~= s@.take(it.index()).push(c));
    }
    assert(s@.take(s@.len() as int) =~= s@);
    out
}

/// Number of scalars in the longest prefix of `chars` that fits in `bytes`
/// bytes.
pub fn floor_of(chars: &Vec<char>, bytes: usize) -> (k: usize)
    ensures
        k == floor_scalar(chars@, bytes as int),
        k <= chars.len(),
        byte_len(chars@.take(k as int)) <= bytes,
{
    let mut used: usize = 0;
    let mut k: usize = 0;
    assert(chars@.take(0) =~= Seq::empty());
    proof {
        lemma_byte_len_empty();
    }
    while k < chars.len()
        invariant
            k <= chars.len(),
            used == byte_len(chars@.take(k as int)),
            used <= bytes,
        decreases chars.len() - k,
    {
        let w: usize = width_of(chars[k]);
        proof {
            lemma_byte_len_step(chars@, k as int);
        }
        if w > bytes - used {
            proof {
                lemma_floor_scalar_is(chars@, bytes as int, k as int);
            }
            return k;
        }
        used += w;
        k += 1;
    }
    proof {
        lemma_floor_scalar_is(chars@, bytes as int, k as int);
    }
    k
}

/// The string of the scalars `from..to`.
pub fn string_of(chars: &Vec<char>, from: usize, to: usize) -> (out: String)
    requires
        from <= to <= chars.len(),
    ensures
        out@ == chars@.subrange(from as int, to as int),
{
    let mut out = String::new();
    let mut i: usize = from;
    while i < to
        invariant
            from <= i <= to <= chars.len(),
            out@ == chars@.subrange(from as int, i as int),
        decreases to - i,
    {
        out.push(chars[i]);
        assert(chars@.subrange(from as int, i as int + 1) =~= chars@.subrange(
            from as int,
            i as int,
        ).push(chars[i as int]));
        i += 1;
    }
    out
}

/// Which scalars are whitespace.
pub fn spaces_of(chars: &Vec<char>) -> (out: Vec<bool>)
    ensures
        out@ == spaces(chars@),
{
    let mut out: Vec<bool> = Vec::new();
    let mut i: usize = 0;
    while i < chars.len()
        invariant
            i <= chars.len(),
            out@ == spaces(chars@).take(i as int),
        decreases chars.len() - i,
    {
        out.push(chars[i].is_whitespace());
        assert(out@ =~= spaces(chars@).take(i as int + 1));
        i += 1;
    }
    assert(spaces(chars@).take(i as int) =~= spaces(chars@));
    out
}

/// The maximal runs of scalars that are not marked in `cut`.
pub fn runs_of(chars: &Vec<char>, cut: &Vec<bool>) -> (out: Vec<String>)
    requires
        chars.len() == cut.len(),
    ensures
        views(out@) == runs(chars@, cut@),
{
    let mut out: Vec<String> = Vec::new();
    let mut current = String::new();
    let mut open: bool = false;
    let mut i: usize = 0;
    assert(views(out@) =~= runs(chars@.take(0), cut@));
    while i < chars.len()
        invariant
            i <= chars.len() == cut.len(),
            open <==> i > 0 && !cut@[i - 1],
            open ==> runs(chars@.take(i as int), cut@) == views(out@).push(current@),
            !open ==> runs(chars@.take(i as int), cut@) == views(out@),
            !open ==> current@ == Seq::<char>::empty(),
        decreases chars.len() - i,
    {
        let ghost prefix = chars@.take(i as int + 1);
        let ghost before = views(out@);
        assert(prefix.drop_last() =~= chars@.take(i as int));
        assert(before.push(current@).drop_last() =~= before);
        if cut[i] {
            if open {
                out.push(current);
                current = String::new();
                assert(views(out@) =~= runs(prefix, cut@));
            }
            open = false;
        } else {
            let ghost seen = current@;
            current.push(chars[i]);
            assert(before.push(current@) =~= runs(prefix, cut@)) by {
                if !open {
                    assert(current@ =~= seq![chars@[i as int]]);
                }
            }
            open = true;
        }
        i += 1;
    }
    assert(chars@.take(i as int) =~= chars@);
    if open {
        let ghost before = views(out@);
        let ghost last = current@;
        out.push(current);
        assert(views(out@) =~= before.push(last));
    }
    out
}

/// The whitespace-separated words of `s`, in order.
pub fn words_of(s: &str) -> (out: Vec<String>)
    ensures
        views(out@) == words(s@),
{
    let chars = chars_of(s);
    let cut = spaces_of(&chars);
    runs_of(&chars, &cut)
}

/// Whether `s` holds nothing but whitespace.
pub fn is_blank(s: &str) -> (yes: bool)
    ensures
        yes == blank(s@),
{
    let chars = chars_of(s);
    let mut i: usize = 0;
    while i < chars.len()
        invariant
            i <= chars.len(),
            chars@ == s@,
            forall|k: int| 0 <= k < i ==> is_space(#[trigger] s@[k]),
        decreases chars.len() - i,
    {
        if !chars[i].is_whitespace() {
            assert(!is_space(s@[i as int]));
            return false;
        }
        i += 1;
    }
    true
}

/// `s` without the whitespace around it.
pub fn trim_of(s: &str) -> (out: String)
    ensures
        out@ == trimmed(s@),
{
    let chars = chars_of(s);
    let mut from: usize = 0;
    assert(chars@.skip(0) =~= s@);
    while from < chars.len() && chars[from].is_whitespace()
        invariant
            from <= chars.len(),
            trim_start(s@) == trim_start(chars@.skip(from as int)),
        decreases chars.len() - from,
    {
        assert(chars@.skip(from as int).drop_first() =~= chars@.skip(from as int + 1));
        from += 1;
    }
    let ghost rest = chars@.skip(from as int);
    assert(trim_start(s@) == rest);
    let mut to: usize = chars.len();
    assert(chars@.subrange(from as int, to as int) =~= rest);
    while to > from && chars[to - 1].is_whitespace()
        invariant
            from <= to <= chars.len(),
            trim_end(rest) == trim_end(chars@.subrange(from as int, to as int)),
        decreases to,
    {
        assert(chars@.subrange(from as int, to as int).drop_last() =~= chars@.subrange(
            from as int,
            to - 1,
        ));
        to -= 1;
    }
    string_of(&chars, from, to)
}

proof fn lemma_trim_start(s: Seq<char>) -> (n: int)
    ensures
        0 <= n <= s.len(),
        trim_start(s) == s.skip(n),
        forall|i: int| 0 <= i < n ==> is_space(#[trigger] s[i]),
        n < s.len() ==> !is_space(s[n]),
    decreases s.len(),
{
    if s.len() > 0 && is_space(s[0]) {
        let rest = s.drop_first();
        let m = lemma_trim_start(rest);
        assert(rest.skip(m) =~= s.skip(m + 1));
        assert forall|i: int| 0 <= i < m + 1 implies is_space(#[trigger] s[i]) by {
            if i > 0 {
                assert(is_space(rest[i - 1]));
            }
        }
        m + 1
    } else {
        assert(s.skip(0) =~= s);
        0
    }
}

proof fn lemma_trim_end(s: Seq<char>) -> (n: int)
    ensures
        0 <= n <= s.len(),
        trim_end(s) == s.take(n),
        forall|i: int| n <= i < s.len() ==> is_space(#[trigger] s[i]),
        n > 0 ==> !is_space(s[n - 1]),
    decreases s.len(),
{
    if s.len() > 0 && is_space(s.last()) {
        let rest = s.drop_last();
        let m = lemma_trim_end(rest);
        assert(rest.take(m) =~= s.take(m));
        assert forall|i: int| m <= i < s.len() implies is_space(#[trigger] s[i]) by {
            if i < rest.len() {
                assert(is_space(rest[i]));
            }
        }
        m
    } else {
        assert(s.take(s.len() as int) =~= s);
        s.len() as int
    }
}

/// Trimming takes the whitespace off both ends and nothing else.
pub proof fn law_trimming_takes_outer_whitespace(s: Seq<char>)
    ensures
        exists|from: int, to: int|
            {
                &&& 0 <= from <= to <= s.len()
                &&& trimmed(s) == #[trigger] s.subrange(from, to)
                &&& forall|i: int| 0 <= i < from || to <= i < s.len() ==> is_space(#[trigger] s[i])
                &&& from < to ==> !is_space(s[from]) && !is_space(s[to - 1])
            },
{
    let from = lemma_trim_start(s);
    let rest = s.skip(from);
    let n = lemma_trim_end(rest);
    assert(rest.take(n) =~= s.subrange(from, from + n));
    assert forall|i: int| 0 <= i < from || from + n <= i < s.len() implies is_space(
        #[trigger] s[i],
    ) by {
        if i >= from + n {
            assert(is_space(rest[i - from]));
        }
    }
    if n > 0 {
        assert(rest[n - 1] == s[from + n - 1]);
        if is_space(s[from]) {
            assert(false);
        }
    }
}

/// The contents of a list are those of its strings, in order.
pub proof fn law_views_show_each_string(strings: Seq<String>, i: int)
    requires
        0 <= i < strings.len(),
    ensures
        views(strings).len() == strings.len(),
        views(strings)[i] == strings[i]@,
{
}

/// The words of a text are found whatever whitespace stands between them: a
/// text has none if and only if it is blank, a word alone is its own, and two
/// texts with whitespace between them have the words of both in order.
pub proof fn law_words_stand_between_whitespace(a: Seq<char>, sep: char, b: Seq<char>)
    requires
        is_space(sep),
    ensures
        words(a + seq![sep] + b) == words(a) + words(b),
        words(a).len() == 0 <==> forall|i: int| 0 <= i < a.len() ==> is_space(#[trigger] a[i]),
        a.len() > 0 && (forall|i: int| 0 <= i < a.len() ==> !is_space(#[trigger] a[i]))
            ==> words(a) == seq![a],
{
    lemma_words_concat(a, sep, b);
    assert(a + seq![sep] + b =~= a.push(sep) + b);
    lemma_words_of_blank(a);
    if a.len() > 0 && (forall|i: int| 0 <= i < a.len() ==> !is_space(#[trigger] a[i])) {
        lemma_word_alone(a);
    }
}

/// The longest prefix that fits in so many bytes fits, and none that is longer
/// does.
pub proof fn law_floor_is_the_longest_fit(s: Seq<char>, bytes: int, k: int)
    requires
        bytes >= 0,
        0 <= k <= s.len(),
    ensures
        0 <= floor_scalar(s, bytes) <= s.len(),
        byte_len(s.take(k)) <= bytes <==> k <= floor_scalar(s, bytes),
{
    lemma_floor_scalar(s, bytes);
    let f = floor_scalar(s, bytes);
    if k <= f {
        lemma_byte_len_take(s, k, f);
    }
}

} // verus!
