//! Facts about sequences.

use vstd::prelude::*;

verus! {

/// A filter keeps exactly the elements that satisfy it.
pub proof fn lemma_filter_contains<A>(s: Seq<A>, keep: spec_fn(A) -> bool, x: A)
    ensures
        s.filter(keep).contains(x) <==> s.contains(x) && keep(x),
    decreases s.len(),
{
    reveal(Seq::filter);
    if s.len() > 0 {
        let t = s.drop_last();
        lemma_filter_contains(t, keep, x);
        let kept = t.filter(keep);
        if s.contains(x) && keep(x) {
            let i = choose|i: int| 0 <= i < s.len() && s[i] == x;
            if i < t.len() {
                assert(t[i] == x);
                let k = choose|k: int| 0 <= k < kept.len() && kept[k] == x;
                assert(s.filter(keep)[k] == x);
            } else {
                assert(s.filter(keep)[kept.len() as int] == x);
            }
        }
        if s.filter(keep).contains(x) {
            let k = choose|k: int| 0 <= k < s.filter(keep).len() && s.filter(keep)[k] == x;
            if k < kept.len() {
                assert(kept[k] == x);
                let i = choose|i: int| 0 <= i < t.len() && t[i] == x;
                assert(s[i] == x);
            } else {
                assert(s[s.len() - 1] == x);
            }
        }
    }
}

/// Every element of a filtered sequence satisfies the filter.
pub proof fn lemma_filter_all<A>(s: Seq<A>, keep: spec_fn(A) -> bool)
    ensures
        forall|i: int| 0 <= i < s.filter(keep).len() ==> keep(#[trigger] s.filter(keep)[i]),
    decreases s.len(),
{
    reveal(Seq::filter);
    if s.len() > 0 {
        lemma_filter_all(s.drop_last(), keep);
    }
}

/// A filter that every element satisfies keeps the whole sequence.
pub proof fn lemma_filter_keeps_all<A>(s: Seq<A>, keep: spec_fn(A) -> bool)
    requires
        forall|i: int| 0 <= i < s.len() ==> keep(#[trigger] s[i]),
    ensures
        s.filter(keep) == s,
    decreases s.len(),
{
    reveal(Seq::filter);
    if s.len() > 0 {
        let t = s.drop_last();
        assert forall|i: int| 0 <= i < t.len() implies keep(#[trigger] t[i]) by {
            assert(t[i] == s[i]);
        }
        lemma_filter_keeps_all(t, keep);
        assert(keep(s[s.len() - 1]));
        assert(t.push(s.last()) =~= s);
    } else {
        assert(s.filter(keep) =~= s);
    }
}

/// Inserting an element anywhere adds it to the multiset of elements.
pub proof fn lemma_insert_multiset<A>(s: Seq<A>, j: int, x: A)
    requires
        0 <= j <= s.len(),
    ensures
        s.insert(j, x).to_multiset() == s.to_multiset().insert(x),
{
    broadcast use vstd::seq_lib::group_to_multiset_ensures;

    let a = s.take(j);
    let b = s.skip(j);
    assert(s.insert(j, x) =~= a.push(x) + b);
    assert(s =~= a + b);
    vstd::seq_lib::lemma_multiset_commutative(a.push(x), b);
    vstd::seq_lib::lemma_multiset_commutative(a, b);
    assert(s.insert(j, x).to_multiset() =~= s.to_multiset().insert(x));
}

/// How many of the indexes `0..n` satisfy `keep`.
pub open spec fn tally(n: int, keep: spec_fn(int) -> bool) -> nat {
    Set::new(|i: int| 0 <= i < n && keep(i)).len()
}

pub proof fn lemma_tally_finite(n: int, keep: spec_fn(int) -> bool)
    ensures
        Set::new(|i: int| 0 <= i < n && keep(i)).finite(),
        n <= 0 ==> tally(n, keep) == 0,
        n > 0 ==> tally(n, keep) == tally(n - 1, keep) + if keep(n - 1) {
            1nat
        } else {
            0nat
        },
    decreases n,
{
    let all = Set::new(|i: int| 0 <= i < n && keep(i));
    if n <= 0 {
        assert(all =~= Set::empty());
    } else {
        let less = Set::new(|i: int| 0 <= i < n - 1 && keep(i));
        lemma_tally_finite(n - 1, keep);
        if keep(n - 1) {
            assert(all =~= less.insert(n - 1));
        } else {
            assert(all =~= less);
        }
    }
}

/// A tally grows with its bound.
pub proof fn lemma_tally_grows(m: int, n: int, keep: spec_fn(int) -> bool)
    requires
        m <= n,
    ensures
        tally(m, keep) <= tally(n, keep),
        0 <= m < n && keep(m) ==> tally(m, keep) < tally(n, keep),
    decreases n - m,
{
    if m < n {
        lemma_tally_finite(n, keep);
        if m < n - 1 {
            lemma_tally_grows(m, n - 1, keep);
        }
        if n <= 0 {
            lemma_tally_finite(m, keep);
        }
    }
}

/// Conditions that agree have the same tally.
pub proof fn lemma_tally_agrees(n: int, a: spec_fn(int) -> bool, b: spec_fn(int) -> bool)
    requires
        forall|i: int| 0 <= i < n ==> #[trigger] a(i) == b(i),
    ensures
        tally(n, a) == tally(n, b),
    decreases n,
{
    lemma_tally_finite(n, a);
    lemma_tally_finite(n, b);
    if n > 0 {
        lemma_tally_agrees(n - 1, a, b);
        assert(a(n - 1) == b(n - 1));
    }
}

/// What stands for the indexes `0..n` that satisfy `keep`, in order.
pub open spec fn picks<B>(n: int, keep: spec_fn(int) -> bool, item: spec_fn(int) -> B) -> Seq<B>
    decreases n,
{
    if n <= 0 {
        Seq::empty()
    } else if keep(n - 1) {
        picks(n - 1, keep, item).push(item(n - 1))
    } else {
        picks(n - 1, keep, item)
    }
}

/// The item of each kept index stands where the tally before it says.
pub proof fn lemma_picks<B>(n: int, keep: spec_fn(int) -> bool, item: spec_fn(int) -> B)
    ensures
        picks(n, keep, item).len() == tally(n, keep),
        forall|i: int|
            0 <= i < n && #[trigger] keep(i) ==> tally(i, keep) < picks(n, keep, item).len()
                && picks(n, keep, item)[tally(i, keep) as int] == item(i),
    decreases n,
{
    lemma_tally_finite(n, keep);
    if n > 0 {
        lemma_picks(n - 1, keep, item);
        let less = picks(n - 1, keep, item);
        assert forall|i: int| 0 <= i < n && #[trigger] keep(i) implies tally(i, keep) < picks(
            n,
            keep,
            item,
        ).len() && picks(n, keep, item)[tally(i, keep) as int] == item(i) by {
            if i < n - 1 {
                assert(less[tally(i, keep) as int] == item(i));
            }
        }
    }
}

/// Each picked item is that of a kept index.
pub proof fn lemma_picks_source<B>(
    n: int,
    keep: spec_fn(int) -> bool,
    item: spec_fn(int) -> B,
    k: int,
) -> (i: int)
    requires
        0 <= k < picks(n, keep, item).len(),
    ensures
        0 <= i < n,
        keep(i),
        tally(i, keep) == k,
        picks(n, keep, item)[k] == item(i),
    decreases n,
{
    lemma_picks(n - 1, keep, item);
    if keep(n - 1) && k == picks(n - 1, keep, item).len() {
        n - 1
    } else {
        lemma_picks_source(n - 1, keep, item, k)
    }
}

/// A filter picks the elements that satisfy it.
pub proof fn lemma_filter_is_picks<A>(s: Seq<A>, keep: spec_fn(A) -> bool)
    ensures
        s.filter(keep) == picks(s.len() as int, |i: int| keep(s[i]), |i: int| s[i]),
    decreases s.len(),
{
    reveal(Seq::filter);
    let at = |i: int| keep(s[i]);
    let item = |i: int| s[i];
    if s.len() > 0 {
        let t = s.drop_last();
        lemma_filter_is_picks(t, keep);
        lemma_picks_agree(
            t.len() as int,
            |i: int| keep(t[i]),
            at,
            |i: int| t[i],
            item,
        );
        assert(picks(s.len() as int, at, item) =~= s.filter(keep));
    } else {
        assert(s.filter(keep) =~= picks(s.len() as int, at, item));
    }
}

/// Picks that agree on conditions and items agree.
pub proof fn lemma_picks_agree<B>(
    n: int,
    a: spec_fn(int) -> bool,
    b: spec_fn(int) -> bool,
    f: spec_fn(int) -> B,
    g: spec_fn(int) -> B,
)
    requires
        forall|i: int| 0 <= i < n ==> #[trigger] a(i) == b(i),
        forall|i: int| 0 <= i < n ==> #[trigger] f(i) == g(i),
    ensures
        picks(n, a, f) == picks(n, b, g),
    decreases n,
{
    if n > 0 {
        lemma_picks_agree(n - 1, a, b, f, g);
        assert(a(n - 1) == b(n - 1));
        assert(f(n - 1) == g(n - 1));
    }
}

/// A filter keeps the order of the elements.
pub proof fn lemma_filter_order<A>(s: Seq<A>, keep: spec_fn(A) -> bool, p: int, q: int) -> (out: (
    int,
    int,
))
    requires
        0 <= p < q < s.filter(keep).len(),
    ensures
        0 <= out.0 < out.1 < s.len(),
        s[out.0] == s.filter(keep)[p],
        s[out.1] == s.filter(keep)[q],
{
    let at = |i: int| keep(s[i]);
    let item = |i: int| s[i];
    lemma_filter_is_picks(s, keep);
    let i = lemma_picks_source(s.len() as int, at, item, p);
    let j = lemma_picks_source(s.len() as int, at, item, q);
    if j <= i {
        lemma_tally_grows(j, i, at);
    }
    (i, j)
}

/// A filter and the filter of the rest share out the elements.
pub proof fn lemma_filter_partition<A>(
    s: Seq<A>,
    keep: spec_fn(A) -> bool,
    drop: spec_fn(A) -> bool,
)
    requires
        forall|x: A| #[trigger] drop(x) == !keep(x),
    ensures
        (s.filter(keep) + s.filter(drop)).to_multiset() == s.to_multiset(),
        s.filter(keep).len() + s.filter(drop).len() == s.len(),
    decreases s.len(),
{
    broadcast use vstd::seq_lib::group_to_multiset_ensures;

    reveal(Seq::filter);
    vstd::seq_lib::lemma_multiset_commutative(s.filter(keep), s.filter(drop));
    if s.len() > 0 {
        let t = s.drop_last();
        let x = s.last();
        lemma_filter_partition(t, keep, drop);
        vstd::seq_lib::lemma_multiset_commutative(t.filter(keep), t.filter(drop));
        assert(drop(x) == !keep(x));
        assert(s =~= t.push(x));
        assert(s.to_multiset() =~= t.to_multiset().insert(x));
        if keep(x) {
            assert(s.filter(keep) =~= t.filter(keep).push(x));
            assert(s.filter(drop) =~= t.filter(drop));
        } else {
            assert(s.filter(keep) =~= t.filter(keep));
            assert(s.filter(drop) =~= t.filter(drop).push(x));
        }
        assert((s.filter(keep) + s.filter(drop)).to_multiset() =~= s.to_multiset());
    } else {
        assert(s.filter(keep) + s.filter(drop) =~= s);
    }
}

/// Images of sequences with the same elements have the same elements.
pub proof fn lemma_map_multiset<A, B>(a: Seq<A>, b: Seq<A>, f: spec_fn(A) -> B)
    requires
        a.to_multiset() == b.to_multiset(),
    ensures
        a.map_values(f).to_multiset() == b.map_values(f).to_multiset(),
    decreases a.len(),
{
    broadcast use vstd::seq_lib::group_to_multiset_ensures;

    assert(a.len() == a.to_multiset().len());
    assert(b.len() == b.to_multiset().len());
    if a.len() == 0 {
        assert(a.map_values(f) =~= b.map_values(f));
    } else {
        let x = a.last();
        let n = a.len() - 1;
        assert(a.contains(a[n]));
        assert(a.to_multiset().count(x) > 0);
        assert(b.contains(x));
        let k = choose|k: int| 0 <= k < b.len() && b[k] == x;
        let t = a.remove(n);
        let u = b.remove(k);
        assert(t.to_multiset() =~= a.to_multiset().remove(x));
        assert(u.to_multiset() =~= b.to_multiset().remove(x));
        lemma_map_multiset(t, u, f);
        let fa = a.map_values(f);
        let fb = b.map_values(f);
        assert(fa.remove(n) =~= t.map_values(f));
        assert(fb.remove(k) =~= u.map_values(f));
        assert(fa.remove(n).to_multiset() =~= fa.to_multiset().remove(f(x)));
        assert(fb.remove(k).to_multiset() =~= fb.to_multiset().remove(f(x)));
        assert(fa.contains(fa[n]));
        assert(fb.contains(fb[k]));
        assert(fa.to_multiset() =~= fa.to_multiset().remove(f(x)).insert(f(x)));
        assert(fb.to_multiset() =~= fb.to_multiset().remove(f(x)).insert(f(x)));
    }
}

} // verus!
