//! Stable sorting by a total preorder, as `slice::sort_by` sorts.

use vstd::prelude::*;

verus! {

broadcast use vstd::seq_lib::group_to_multiset_ensures;

/// A type whose values are ordered by a total preorder over their views.
pub trait Ranked: View + Sized {
    /// `a` may stand before `b` in sorted order.
    spec fn ranked_le(a: Self::V, b: Self::V) -> bool;

    fn ranks_before_or_with(&self, other: &Self) -> (r: bool)
        ensures
            r == Self::ranked_le(self@, other@),
    ;

    proof fn lemma_ranked_total(a: Self::V, b: Self::V)
        ensures
            Self::ranked_le(a, b) || Self::ranked_le(b, a),
    ;

    proof fn lemma_ranked_transitive(a: Self::V, b: Self::V, c: Self::V)
        requires
            Self::ranked_le(a, b),
            Self::ranked_le(b, c),
        ensures
            Self::ranked_le(a, c),
    ;
}

/// The views of a sequence of values.
pub open spec fn views<T: View>(s: Seq<T>) -> Seq<T::V> {
    s.map_values(|x: T| x@)
}

/// The views of a sequence with one more value pushed.
pub proof fn lemma_views_push<T: View>(s: Seq<T>, x: T)
    ensures
        views(s.push(x)) == views(s).push(x@),
{
    assert(views(s.push(x)) =~= views(s).push(x@)) by {
        assert forall|i: int| 0 <= i < s.len() + 1 implies #[trigger] views(s.push(x))[i] == views(
            s,
        ).push(x@)[i] by {
            if i < s.len() {
                assert(s.push(x)[i] == s[i]);
            }
        }
    }
}

/// `x` put into `s` after every element that may stand before it and before the
/// rest, which keeps elements of equal rank in the order they came.
pub open spec fn insert_ranked<T: Ranked>(s: Seq<T::V>, x: T::V) -> Seq<T::V>
    decreases s.len(),
{
    if s.len() == 0 {
        seq![x]
    } else if T::ranked_le(s.last(), x) {
        s.push(x)
    } else {
        insert_ranked::<T>(s.drop_last(), x).push(s.last())
    }
}

/// The stable sort of `s`: its elements in rank order, those of equal rank in
/// the order they had in `s`.
pub open spec fn stable_sorted<T: Ranked>(s: Seq<T::V>) -> Seq<T::V>
    decreases s.len(),
{
    if s.len() == 0 {
        s
    } else {
        insert_ranked::<T>(stable_sorted::<T>(s.drop_last()), s.last())
    }
}

/// Every element may stand before each later one.
pub open spec fn is_ranked<T: Ranked>(s: Seq<T::V>) -> bool {
    forall|i: int, j: int| 0 <= i < j < s.len() ==> T::ranked_le(#[trigger] s[i], #[trigger] s[j])
}

proof fn lemma_insert_at<T: Ranked>(s: Seq<T::V>, x: T::V, p: int)
    requires
        0 <= p <= s.len(),
        p == 0 || T::ranked_le(s[p - 1], x),
        forall|m: int| p <= m < s.len() ==> !T::ranked_le(#[trigger] s[m], x),
    ensures
        insert_ranked::<T>(s, x) == s.insert(p, x),
    decreases s.len(),
{
    if s.len() == 0 {
        assert(s.insert(p, x) =~= seq![x]);
    } else if p == s.len() {
        assert(s.insert(p, x) =~= s.push(x));
    } else {
        assert(!T::ranked_le(s[s.len() - 1], x));
        let t = s.drop_last();
        assert(p == 0 || T::ranked_le(t[p - 1], x));
        lemma_insert_at::<T>(t, x, p);
        assert(t.insert(p, x).push(s.last()) =~= s.insert(p, x));
    }
}

/// Inserting keeps the multiset of elements, with `x` added.
pub proof fn lemma_insert_ranked_multiset<T: Ranked>(s: Seq<T::V>, x: T::V)
    ensures
        insert_ranked::<T>(s, x).to_multiset() == s.to_multiset().insert(x),
    decreases s.len(),
{
    if s.len() == 0 {
        assert(seq![x] =~= Seq::<T::V>::empty().push(x));
    } else if T::ranked_le(s.last(), x) {
    } else {
        let t = s.drop_last();
        lemma_insert_ranked_multiset::<T>(t, x);
        assert(t.push(s.last()) =~= s);
        assert(insert_ranked::<T>(s, x).to_multiset() =~= s.to_multiset().insert(x));
    }
}

/// Inserting into a sorted sequence gives a sorted sequence.
pub proof fn lemma_insert_ranked_sorted<T: Ranked>(s: Seq<T::V>, x: T::V)
    requires
        is_ranked::<T>(s),
    ensures
        is_ranked::<T>(insert_ranked::<T>(s, x)),
    decreases s.len(),
{
    if s.len() == 0 {
    } else if T::ranked_le(s.last(), x) {
        let r = s.push(x);
        assert forall|i: int, j: int| 0 <= i < j < r.len() implies T::ranked_le(
            #[trigger] r[i],
            #[trigger] r[j],
        ) by {
            if j == s.len() {
                if i < s.len() - 1 {
                    T::lemma_ranked_transitive(s[i], s[s.len() - 1], x);
                }
            } else {
                assert(r[i] == s[i] && r[j] == s[j]);
            }
        }
    } else {
        let t = s.drop_last();
        let last = s.last();
        assert(is_ranked::<T>(t)) by {
            assert forall|i: int, j: int| 0 <= i < j < t.len() implies T::ranked_le(
                #[trigger] t[i],
                #[trigger] t[j],
            ) by {
                assert(t[i] == s[i] && t[j] == s[j]);
            }
        }
        lemma_insert_ranked_sorted::<T>(t, x);
        lemma_insert_ranked_multiset::<T>(t, x);
        T::lemma_ranked_total(last, x);
        let inner = insert_ranked::<T>(t, x);
        let r = inner.push(last);
        assert forall|k: int| 0 <= k < inner.len() implies T::ranked_le(#[trigger] inner[k], last) by {
            let e = inner[k];
            assert(inner.contains(e));
            assert(inner.to_multiset().count(e) > 0);
            if e != x {
                assert(t.to_multiset().count(e) > 0);
                assert(t.contains(e));
                let m = choose|m: int| 0 <= m < t.len() && t[m] == e;
                assert(s[m] == e);
                assert(T::ranked_le(s[m], s[s.len() - 1]));
            }
        }
        assert forall|i: int, j: int| 0 <= i < j < r.len() implies T::ranked_le(
            #[trigger] r[i],
            #[trigger] r[j],
        ) by {
            if j == inner.len() {
                assert(r[i] == inner[i]);
            } else {
                assert(r[i] == inner[i] && r[j] == inner[j]);
            }
        }
    }
}

/// The stable sort keeps the multiset of elements.
pub proof fn lemma_stable_sorted_permutes<T: Ranked>(s: Seq<T::V>)
    ensures
        stable_sorted::<T>(s).to_multiset() == s.to_multiset(),
    decreases s.len(),
{
    if s.len() > 0 {
        lemma_stable_sorted_permutes::<T>(s.drop_last());
        lemma_insert_ranked_multiset::<T>(stable_sorted::<T>(s.drop_last()), s.last());
        assert(s.drop_last().push(s.last()) =~= s);
    }
}

/// The stable sort is sorted.
pub proof fn lemma_stable_sorted_is_ranked<T: Ranked>(s: Seq<T::V>)
    ensures
        is_ranked::<T>(stable_sorted::<T>(s)),
    decreases s.len(),
{
    if s.len() > 0 {
        lemma_stable_sorted_is_ranked::<T>(s.drop_last());
        lemma_insert_ranked_sorted::<T>(stable_sorted::<T>(s.drop_last()), s.last());
    }
}

/// Sorts `v` stably by rank, as `slice::sort_by` does with the comparison that the rank gives.
pub fn stable_sort<T: Ranked>(v: Vec<T>) -> (r: Vec<T>)
    ensures
        views(r@) == stable_sorted::<T>(views(v@)),
{
    let ghost all = views(v@);
    let ghost n = v@.len();
    let mut input = v;
    let mut out: Vec<T> = Vec::new();
    let ghost k: int = 0;
    assert(all.subrange(0, 0) =~= Seq::<T::V>::empty());
    while input.len() > 0
        invariant
            n == all.len(),
            0 <= k <= n,
            k + input@.len() == n,
            views(input@) == all.subrange(k, n as int),
            views(out@) == stable_sorted::<T>(all.subrange(0, k)),
        decreases input@.len(),
    {
        let ghost before = views(out@);
        let ghost before_in = input@;
        let x = input.remove(0);
        assert(x == before_in[0]);
        assert(views(before_in)[0] == before_in[0]@);
        assert(x@ == all[k]);
        assert forall|m: int| 0 <= m < input@.len() implies #[trigger] views(input@)[m] == all.subrange(
            k + 1,
            n as int,
        )[m] by {
            assert(input@[m] == before_in[m + 1]);
            assert(views(before_in)[m + 1] == before_in[m + 1]@);
        }
        assert(views(input@) =~= all.subrange(k + 1, n as int));
        let mut j = out.len();
        while j > 0 && !out[j - 1].ranks_before_or_with(&x)
            invariant
                j <= out@.len(),
                views(out@) == before,
                forall|m: int| j <= m < before.len() ==> !T::ranked_le(#[trigger] before[m], x@),
            decreases j,
        {
            j = j - 1;
        }
        proof {
            lemma_insert_at::<T>(before, x@, j as int);
            assert(all.subrange(0, k + 1).drop_last() =~= all.subrange(0, k));
        }
        out.insert(j, x);
        assert(views(out@) =~= before.insert(j as int, all[k]));
        proof {
            k = k + 1;
        }
    }
    assert(all.subrange(0, n as int) =~= all);
    out
}

} // verus!
