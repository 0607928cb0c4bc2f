//! Facts about sequences that the store's proofs share.

use vstd::prelude::*;

verus! {

/// `x` stands in `s` somewhere before `y`.
pub open spec fn in_order<A>(s: Seq<A>, x: A, y: A) -> bool {
    exists|a: int, b: int| 0 <= a < b < s.len() && s[a] == x && s[b] == y
}

/// Appending one element, seen through `filter`.
pub proof fn lemma_filter_step<A>(s: Seq<A>, x: A, keep: spec_fn(A) -> bool)
    ensures
        s.push(x).filter(keep) == if keep(x) {
            s.filter(keep).push(x)
        } else {
            s.filter(keep)
        },
{
    Seq::lemma_filter_push(s, x, keep);
}

/// Filtering the empty sequence leaves it empty.
pub proof fn lemma_filter_empty<A>(keep: spec_fn(A) -> bool)
    ensures
        Seq::<A>::empty().filter(keep) == Seq::<A>::empty(),
{
    reveal(Seq::filter);
}

/// Every element that `filter` keeps satisfies the test and comes from the
/// sequence filtered.
pub proof fn lemma_filter_members<A>(s: Seq<A>, keep: spec_fn(A) -> bool)
    ensures
        s.filter(keep).len() <= s.len(),
        forall|i: int|
            0 <= i < s.filter(keep).len() ==> keep(#[trigger] s.filter(keep)[i]) && s.contains(
                s.filter(keep)[i],
            ),
        forall|i: int| 0 <= i < s.len() && keep(s[i]) ==> s.filter(keep).contains(#[trigger] s[i]),
{
    let f = s.filter(keep);
    Seq::lemma_filter_len(s, keep);
    assert forall|i: int| 0 <= i < f.len() implies keep(#[trigger] f[i]) && s.contains(f[i]) by {
        Seq::lemma_filter_pred(s, keep, i);
        assert(f.contains(f[i]));
        Seq::lemma_filter_contains_rev(s, keep, f[i]);
    }
    assert forall|i: int| 0 <= i < s.len() && keep(s[i]) implies f.contains(#[trigger] s[i]) by {
        Seq::lemma_filter_contains(s, keep, i);
    }
}

/// `filter` keeps the order of what it keeps.
pub proof fn lemma_filter_order<A>(s: Seq<A>, keep: spec_fn(A) -> bool)
    ensures
        forall|i: int, j: int|
            0 <= i < j < s.filter(keep).len() ==> in_order(
                s,
                #[trigger] s.filter(keep)[i],
                #[trigger] s.filter(keep)[j],
            ),
    decreases s.len(),
{
    let f = s.filter(keep);
    if s.len() == 0 {
        lemma_filter_empty(keep);
    } else {
        let r = s.drop_last();
        let x = s.last();
        assert(s =~= r.push(x));
        lemma_filter_step(r, x, keep);
        lemma_filter_order(r, keep);
        lemma_filter_members(r, keep);
        let g = r.filter(keep);
        assert forall|i: int, j: int| 0 <= i < j < f.len() implies in_order(
            s,
            #[trigger] f[i],
            #[trigger] f[j],
        ) by {
            if j < g.len() {
                assert(in_order(r, g[i], g[j]));
                let (a, b) = choose|a: int, b: int|
                    0 <= a < b < r.len() && r[a] == g[i] && r[b] == g[j];
                assert(s[a] == f[i] && s[b] == f[j]);
            } else {
                assert(f[j] == x);
                assert(r.contains(g[i]));
                let a = choose|a: int| 0 <= a < r.len() && r[a] == g[i];
                assert(s[a] == f[i] && s[s.len() - 1] == f[j]);
            }
        }
    }
}

/// Filtering with a test that every element passes changes nothing.
pub proof fn lemma_filter_all<A>(s: Seq<A>, keep: spec_fn(A) -> bool)
    requires
        forall|i: int| 0 <= i < s.len() ==> keep(#[trigger] s[i]),
    ensures
        s.filter(keep) == s,
    decreases s.len(),
{
    if s.len() == 0 {
        lemma_filter_empty(keep);
        assert(s =~= Seq::<A>::empty());
    } else {
        let r = s.drop_last();
        assert(s =~= r.push(s.last()));
        lemma_filter_step(r, s.last(), keep);
        lemma_filter_all(r, keep);
    }
}

/// Every element stands before all that `le` places after it.
pub open spec fn ordered<A>(s: Seq<A>, le: spec_fn(A, A) -> bool) -> bool {
    forall|i: int, j: int| 0 <= i < j < s.len() ==> le(#[trigger] s[i], #[trigger] s[j])
}

/// `le` is transitive.
pub open spec fn transitive<A>(le: spec_fn(A, A) -> bool) -> bool {
    forall|a: A, b: A, c: A| #[trigger] le(a, b) && #[trigger] le(b, c) ==> le(a, c)
}

/// Inserting `x` between what stands at or before it and what stands at or
/// after it keeps a sequence ordered.
pub proof fn lemma_insert_ordered<A>(s: Seq<A>, le: spec_fn(A, A) -> bool, p: int, x: A)
    requires
        ordered(s, le),
        transitive(le),
        0 <= p <= s.len(),
        p > 0 ==> le(s[p - 1], x),
        forall|k: int| p <= k < s.len() ==> le(x, #[trigger] s[k]),
    ensures
        ordered(s.insert(p, x), le),
{
    let t = s.insert(p, x);
    assert forall|i: int, j: int| 0 <= i < j < t.len() implies le(
        #[trigger] t[i],
        #[trigger] t[j],
    ) by {
        if j < p {
            assert(t[i] == s[i] && t[j] == s[j]);
        } else if j == p {
            assert(t[i] == s[i]);
            assert(t[j] == x);
            if i < p - 1 {
                assert(le(s[i], s[p - 1]));
                assert(le(s[p - 1], x));
            }
        } else if i < p {
            assert(t[i] == s[i] && t[j] == s[j - 1]);
            if i < j - 1 {
            } else {
            }
        } else if i == p {
            assert(t[i] == x && t[j] == s[j - 1]);
        } else {
            assert(t[i] == s[i - 1] && t[j] == s[j - 1]);
        }
    }
}

/// `filter` keeps a sequence ordered.
pub proof fn lemma_filter_ordered<A>(s: Seq<A>, keep: spec_fn(A) -> bool, le: spec_fn(A, A) -> bool)
    requires
        ordered(s, le),
    ensures
        ordered(s.filter(keep), le),
{
    lemma_filter_order(s, keep);
    let f = s.filter(keep);
    assert forall|i: int, j: int| 0 <= i < j < f.len() implies le(#[trigger] f[i], #[trigger] f[j]) by {
        assert(in_order(s, f[i], f[j]));
        let (a, b) = choose|a: int, b: int| 0 <= a < b < s.len() && s[a] == f[i] && s[b] == f[j];
        assert(le(s[a], s[b]));
    }
}

/// How often `x` occurs among what `filter` keeps: as often as before
/// where it passes the test, else not at all.
pub proof fn lemma_filter_count<A>(s: Seq<A>, keep: spec_fn(A) -> bool, x: A)
    ensures
        s.filter(keep).to_multiset().count(x) == if keep(x) {
            s.to_multiset().count(x)
        } else {
            0
        },
    decreases s.len(),
{
    broadcast use vstd::multiset::group_multiset_axioms;

    if s.len() == 0 {
        lemma_filter_empty(keep);
        assert(s =~= Seq::empty());
        s.to_multiset_ensures();
    } else {
        let r = s.drop_last();
        let y = s.last();
        assert(s =~= r.push(y));
        lemma_filter_step(r, y, keep);
        lemma_filter_count(r, keep, x);
        vstd::seq_lib::to_multiset_build(r, y);
        if keep(y) {
            vstd::seq_lib::to_multiset_build(r.filter(keep), y);
        }
    }
}

/// Sequences that hold the same elements as often hold the same after
/// `filter`.
pub proof fn lemma_filter_same_elements<A>(a: Seq<A>, b: Seq<A>, keep: spec_fn(A) -> bool)
    requires
        a.to_multiset() == b.to_multiset(),
    ensures
        a.filter(keep).to_multiset() == b.filter(keep).to_multiset(),
{
    assert forall|x: A|
        a.filter(keep).to_multiset().count(x) == b.filter(keep).to_multiset().count(x) by {
        lemma_filter_count(a, keep, x);
        lemma_filter_count(b, keep, x);
    }
    assert(a.filter(keep).to_multiset() =~= b.filter(keep).to_multiset());
}

} // verus!
