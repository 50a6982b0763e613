//! Sequence combinators used by the specifications.

use vstd::prelude::*;

verus! {

/// `f` applied to each element, the results joined in order.
pub open spec fn concat_map<A, B>(s: Seq<A>, f: spec_fn(A) -> Seq<B>) -> Seq<B>
    decreases s.len(),
{
    if s.len() == 0 {
        Seq::empty()
    } else {
        concat_map(s.drop_last(), f) + f(s.last())
    }
}

pub proof fn lemma_concat_map_step<A, B>(s: Seq<A>, i: int, f: spec_fn(A) -> Seq<B>)
    requires
        0 <= i < s.len(),
    ensures
        concat_map(s.take(i + 1), f) == concat_map(s.take(i), f) + f(s[i]),
{
    assert(s.take(i + 1).drop_last() =~= s.take(i));
}

pub proof fn lemma_concat_map_all<A, B>(s: Seq<A>, f: spec_fn(A) -> Seq<B>)
    ensures
        concat_map(s.take(s.len() as int), f) == concat_map(s, f),
{
    assert(s.take(s.len() as int) =~= s);
}

pub proof fn lemma_concat_map_empty<A, B>(s: Seq<A>, f: spec_fn(A) -> Seq<B>)
    ensures
        concat_map(s.take(0), f) == Seq::<B>::empty(),
{
    assert(s.take(0) =~= Seq::<A>::empty());
}

/// Where does element `k` of `concat_map(s, f)` come from: an element `s[i]`
/// and a position `j` in `f(s[i])`.
pub proof fn lemma_concat_map_index<A, B>(s: Seq<A>, f: spec_fn(A) -> Seq<B>, k: int) -> (ij: (int, int))
    requires
        0 <= k < concat_map(s, f).len(),
    ensures
        0 <= ij.0 < s.len(),
        0 <= ij.1 < f(s[ij.0]).len(),
        concat_map(s, f)[k] == f(s[ij.0])[ij.1],
    decreases s.len(),
{
    let t = s.drop_last();
    let prefix = concat_map(t, f);
    if k < prefix.len() {
        let (i, j) = lemma_concat_map_index(t, f, k);
        assert(s[i] == t[i]);
        (i, j)
    } else {
        (s.len() - 1, k - prefix.len())
    }
}

/// Every element of `f(s[i])` appears in `concat_map(s, f)`.
pub proof fn lemma_concat_map_member<A, B>(s: Seq<A>, f: spec_fn(A) -> Seq<B>, i: int, j: int)
    requires
        0 <= i < s.len(),
        0 <= j < f(s[i]).len(),
    ensures
        concat_map(s, f).contains(f(s[i])[j]),
    decreases s.len(),
{
    let t = s.drop_last();
    let prefix = concat_map(t, f);
    if i < s.len() - 1 {
        assert(s[i] == t[i]);
        lemma_concat_map_member(t, f, i, j);
        let k = choose|k: int| 0 <= k < prefix.len() && prefix[k] == f(s[i])[j];
        assert(concat_map(s, f)[k] == prefix[k]);
    } else {
        assert(concat_map(s, f)[prefix.len() + j] == f(s[i])[j]);
    }
}

/// `x` occurs in `concat_map(s, f)` exactly when it occurs in `f` of some element.
pub proof fn lemma_concat_map_contains<A, B>(s: Seq<A>, f: spec_fn(A) -> Seq<B>, x: B)
    ensures
        concat_map(s, f).contains(x) <==> exists|i: int, j: int|
            0 <= i < s.len() && 0 <= j < f(s[i]).len() && #[trigger] f(s[i])[j] == x,
{
    if concat_map(s, f).contains(x) {
        let k = choose|k: int| 0 <= k < concat_map(s, f).len() && concat_map(s, f)[k] == x;
        let (i, j) = lemma_concat_map_index(s, f, k);
        assert(f(s[i])[j] == x);
    }
    if exists|i: int, j: int| 0 <= i < s.len() && 0 <= j < f(s[i]).len() && #[trigger] f(s[i])[j] == x {
        let (i, j) = choose|i: int, j: int| 0 <= i < s.len() && 0 <= j < f(s[i]).len() && #[trigger] f(s[i])[j] == x;
        lemma_concat_map_member(s, f, i, j);
    }
}

/// `concat_map(s, f)` repeats no element when no `f(s[i])` repeats one and no two of
/// them share one.
pub proof fn lemma_concat_map_distinct<A, B>(s: Seq<A>, f: spec_fn(A) -> Seq<B>)
    requires
        forall|i: int| 0 <= i < s.len() ==> (#[trigger] f(s[i])).no_duplicates(),
        forall|i: int, j: int, x: B| #![trigger f(s[i]).contains(x), f(s[j]).contains(x)]
            0 <= i < j < s.len() && f(s[i]).contains(x) ==> !f(s[j]).contains(x),
    ensures
        concat_map(s, f).no_duplicates(),
    decreases s.len(),
{
    if s.len() > 0 {
        let t = s.drop_last();
        assert forall|i: int| 0 <= i < t.len() implies #[trigger] t[i] == s[i] by {}
        assert forall|i: int| 0 <= i < t.len() implies (#[trigger] f(t[i])).no_duplicates() by {
            assert(t[i] == s[i]);
        }
        assert forall|i: int, j: int, x: B| #![trigger f(t[i]).contains(x), f(t[j]).contains(x)]
            0 <= i < j < t.len() && f(t[i]).contains(x) implies !f(t[j]).contains(x) by {
            assert(t[i] == s[i] && t[j] == s[j]);
        }
        lemma_concat_map_distinct(t, f);
        let prefix = concat_map(t, f);
        let last = f(s.last());
        let all = concat_map(s, f);
        assert(all == prefix + last);
        assert(last == f(s[s.len() - 1]));
        assert forall|a: int, b: int| 0 <= a < b < all.len() implies all[a] != all[b] by {
            if b < prefix.len() {
                assert(all[a] == prefix[a] && all[b] == prefix[b]);
            } else if a >= prefix.len() {
                assert(all[a] == last[a - prefix.len()] && all[b] == last[b - prefix.len()]);
            } else {
                let (i, k) = lemma_concat_map_index(t, f, a);
                assert(all[a] == prefix[a]);
                assert(f(t[i])[k] == all[a]);
                assert(t[i] == s[i]);
                assert(f(s[i]).contains(all[a]));
                assert(all[b] == last[b - prefix.len()]);
                assert(last.contains(all[b]));
                if all[a] == all[b] {
                    assert(!f(s[s.len() - 1]).contains(all[a]));
                }
            }
        }
    }
}

/// Filtering out every element leaves nothing.
pub proof fn lemma_filter_none<A>(s: Seq<A>, p: spec_fn(A) -> bool)
    requires
        forall|i: int| 0 <= i < s.len() ==> !p(#[trigger] s[i]),
    ensures
        s.filter(p) == Seq::<A>::empty(),
{
    if s.filter(p).len() > 0 {
        let x = s.filter(p)[0];
        s.lemma_filter_pred(p, 0);
        assert(s.filter(p).contains(x));
        s.lemma_filter_contains_rev(p, x);
        let i = choose|i: int| 0 <= i < s.len() && s[i] == x;
        assert(!p(s[i]));
    }
    assert(s.filter(p) =~= Seq::<A>::empty());
}

/// Filtering keeps a sequence whose elements all pass.
pub proof fn lemma_filter_all<A>(s: Seq<A>, p: spec_fn(A) -> bool)
    requires
        forall|i: int| 0 <= i < s.len() ==> p(#[trigger] s[i]),
    ensures
        s.filter(p) == s,
    decreases s.len(),
{
    reveal(Seq::filter);
    if s.len() > 0 {
        let t = s.drop_last();
        assert forall|i: int| 0 <= i < t.len() implies p(#[trigger] t[i]) by {
            assert(t[i] == s[i]);
        }
        lemma_filter_all(t, p);
        assert(p(s[s.len() - 1]));
        assert(t.push(s.last()) =~= s);
    }
}

} // verus!

verus! {

/// Position of the first element that satisfies `p`.
pub open spec fn first_index<A>(s: Seq<A>, p: spec_fn(A) -> bool) -> Option<int>
    decreases s.len(),
{
    if s.len() == 0 {
        None
    } else {
        match first_index(s.drop_last(), p) {
            Some(i) => Some(i),
            None => if p(s.last()) {
                Some(s.len() - 1)
            } else {
                None
            },
        }
    }
}

pub proof fn lemma_first_index_step<A>(s: Seq<A>, p: spec_fn(A) -> bool, k: int)
    requires
        0 <= k < s.len(),
        first_index(s.take(k), p) is None,
    ensures
        first_index(s.take(k + 1), p) == (if p(s[k]) { Some(k) } else { None::<int> }),
{
    assert(s.take(k + 1).drop_last() =~= s.take(k));
}

pub proof fn lemma_first_index_empty<A>(s: Seq<A>, p: spec_fn(A) -> bool)
    ensures
        first_index(s.take(0), p) is None,
{
    assert(s.take(0) =~= Seq::<A>::empty());
}

/// Once found in a prefix, the first position stays the first in the whole sequence.
pub proof fn lemma_first_index_prefix<A>(s: Seq<A>, p: spec_fn(A) -> bool, k: int)
    requires
        0 <= k <= s.len(),
        first_index(s.take(k), p) is Some,
    ensures
        first_index(s, p) == first_index(s.take(k), p),
    decreases s.len() - k,
{
    if k < s.len() {
        assert(s.take(k + 1).drop_last() =~= s.take(k));
        lemma_first_index_prefix(s, p, k + 1);
    } else {
        assert(s.take(k) =~= s);
    }
}

pub proof fn lemma_first_index_bounds<A>(s: Seq<A>, p: spec_fn(A) -> bool)
    ensures
        first_index(s, p) matches Some(i) ==> 0 <= i < s.len() && p(s[i])
            && forall|j: int| 0 <= j < i ==> !p(#[trigger] s[j]),
        first_index(s, p) is None ==> forall|j: int| 0 <= j < s.len() ==> !p(#[trigger] s[j]),
    decreases s.len(),
{
    if s.len() > 0 {
        let t = s.drop_last();
        lemma_first_index_bounds(t, p);
        assert forall|j: int| 0 <= j < t.len() implies #[trigger] s[j] == t[j] by {}
    }
}

} // verus!
