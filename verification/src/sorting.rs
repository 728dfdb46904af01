use vstd::prelude::*;
use vstd::seq_lib::to_multiset_update;

verus! {

/// A sequence is sorted when its values never decrease from left to right.
pub open spec fn sorted(s: Seq<i32>) -> bool {
    forall|i: int, j: int| 0 <= i < j < s.len() ==> s[i] <= s[j]
}

/// Exchanging the values at two positions of a sequence rearranges it but
/// keeps exactly the same collection of values.
pub proof fn lemma_swap_preserves_multiset(s: Seq<i32>, i: int, j: int)
    requires
        0 <= i < s.len(),
        0 <= j < s.len(),
        i != j,
    ensures
        s.update(i, s[j]).update(j, s[i]).to_multiset() == s.to_multiset(),
{
    broadcast use vstd::multiset::group_multiset_axioms;

    let s1 = s.update(i, s[j]);
    to_multiset_update(s, i, s[j]);
    to_multiset_update(s1, j, s[i]);
    assert(s1[j] == s[j]);
    assert(s.to_multiset().contains(s[i])) by {
        vstd::seq_lib::to_multiset_contains(s, s[i]);
        assert(s.contains(s[i]));
    }
    assert(s1.update(j, s[i]).to_multiset() =~= s.to_multiset());
}

/// The same exchange, seen through a window `[a, b)` that holds both
/// positions: the window's collection of values is unchanged too.
pub proof fn lemma_swap_in_range_preserves_multiset(s: Seq<i32>, a: int, b: int, i: int, j: int)
    requires
        0 <= a <= i < b <= s.len(),
        a <= j < b,
        i != j,
    ensures
        s.update(i, s[j]).update(j, s[i]).subrange(a, b).to_multiset() == s.subrange(
            a,
            b,
        ).to_multiset(),
{
    let t = s.subrange(a, b);
    assert(s.update(i, s[j]).update(j, s[i]).subrange(a, b) =~= t.update(i - a, t[j - a]).update(
        j - a,
        t[i - a],
    ));
    lemma_swap_preserves_multiset(t, i - a, j - a);
}

/// Two sequences holding the same collection of values contain the same
/// values.
pub proof fn lemma_multiset_same_contains(s1: Seq<i32>, s2: Seq<i32>)
    requires
        s1.to_multiset() == s2.to_multiset(),
    ensures
        forall|x: i32| s1.contains(x) == s2.contains(x),
{
    assert forall|x: i32| s1.contains(x) == s2.contains(x) by {
        vstd::seq_lib::to_multiset_contains(s1, x);
        vstd::seq_lib::to_multiset_contains(s2, x);
    }
}

} // verus!
