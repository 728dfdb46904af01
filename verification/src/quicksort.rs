use vstd::prelude::*;

use vstd::seq_lib::lemma_multiset_commutative;

use crate::sorting::lemma_multiset_same_contains;
use crate::sorting::lemma_swap_in_range_preserves_multiset;
use crate::sorting::sorted;

verus! {

/// Rearranges `arr[lo..=hi]` around the value that starts at position `hi`:
/// afterwards that value sits at the returned index, nothing greater stands
/// left of it and everything right of it is strictly greater. The rest of
/// the array and the window's collection of values are untouched.
fn partition(arr: &mut Vec<i32>, lo: usize, hi: usize) -> (idx: usize)
    requires
        lo <= hi < old(arr)@.len(),
    ensures
        final(arr)@.len() == old(arr)@.len(),
        lo <= idx <= hi,
        forall|k: int| 0 <= k < lo ==> final(arr)@[k] == old(arr)@[k],
        forall|k: int| hi < k < old(arr)@.len() ==> final(arr)@[k] == old(arr)@[k],
        final(arr)@.subrange(lo as int, hi + 1).to_multiset() == old(arr)@.subrange(
            lo as int,
            hi + 1,
        ).to_multiset(),
        forall|k: int| lo <= k < idx ==> final(arr)@[k] <= final(arr)@[idx as int],
        forall|k: int| idx < k <= hi ==> final(arr)@[k] > final(arr)@[idx as int],
{
    let pivot = arr[hi];
    let mut idx: usize = lo;
    let mut i: usize = lo;

    while i < hi
        invariant
            arr@.len() == old(arr)@.len(),
            lo <= idx <= i <= hi < arr@.len(),
            arr@[hi as int] == pivot,
            forall|k: int| 0 <= k < lo ==> arr@[k] == old(arr)@[k],
            forall|k: int| hi < k < arr@.len() ==> arr@[k] == old(arr)@[k],
            arr@.subrange(lo as int, hi + 1).to_multiset() == old(arr)@.subrange(
                lo as int,
                hi + 1,
            ).to_multiset(),
            forall|k: int| lo <= k < idx ==> arr@[k] <= pivot,
            forall|k: int| idx <= k < i ==> arr@[k] > pivot,
        decreases hi - i,
    {
        if arr[i] <= pivot {
            if idx != i {
                let ghost prev = arr@;
                let a = arr[i];
                let b = arr[idx];
                arr.set(i, b);
                arr.set(idx, a);
                proof {
                    lemma_swap_in_range_preserves_multiset(
                        prev,
                        lo as int,
                        hi + 1,
                        i as int,
                        idx as int,
                    );
                    assert(arr@ =~= prev.update(i as int, prev[idx as int]).update(
                        idx as int,
                        prev[i as int],
                    ));
                }
            }
            idx += 1;
        }
        i += 1;
    }

    let ghost prev = arr@;
    let a = arr[hi];
    let b = arr[idx];
    arr.set(hi, b);
    arr.set(idx, a);
    proof {
        if idx != hi {
            lemma_swap_in_range_preserves_multiset(
                prev,
                lo as int,
                hi + 1,
                hi as int,
                idx as int,
            );
            assert(arr@ =~= prev.update(hi as int, prev[idx as int]).update(
                idx as int,
                prev[hi as int],
            ));
        } else {
            assert(arr@ =~= prev);
        }
        assert(arr@[idx as int] == pivot);
    }
    idx
}

/// Sorts `arr[lo..=hi]` in place by recursive partitioning. Positions
/// outside the window keep their values, and the window keeps its collection
/// of values. An empty or one-element window is left as it is.
pub fn qs(arr: &mut Vec<i32>, lo: usize, hi: usize)
    requires
        hi < old(arr)@.len(),
    ensures
        final(arr)@.len() == old(arr)@.len(),
        forall|k: int| 0 <= k < lo ==> final(arr)@[k] == old(arr)@[k],
        forall|k: int| hi < k < old(arr)@.len() ==> final(arr)@[k] == old(arr)@[k],
        lo <= hi ==> final(arr)@.subrange(lo as int, hi + 1).to_multiset() == old(arr)@.subrange(
            lo as int,
            hi + 1,
        ).to_multiset(),
        forall|a: int, b: int| lo <= a < b <= hi ==> final(arr)@[a] <= final(arr)@[b],
        lo >= hi ==> final(arr)@ == old(arr)@,
    decreases hi + 1 - lo,
{
    if lo >= hi {
        return ;
    }

    let pivot_idx = partition(arr, lo, hi);
    let ghost s1 = arr@;

    if pivot_idx > lo {
        qs(arr, lo, pivot_idx - 1);
    }
    let ghost s2 = arr@;

    if pivot_idx < hi {
        qs(arr, pivot_idx + 1, hi);
    }

    proof {
        let p = pivot_idx as int;
        let n = old(arr)@.len() as int;

        // the second pass leaves everything at or left of the pivot alone
        assert(arr@.subrange(lo as int, p) =~= s2.subrange(lo as int, p));
        assert(arr@[p] == s2[p]);
        assert(s2[p] == s1[p]);

        // the first pass leaves everything at or right of the pivot alone
        assert(s2.subrange(p + 1, hi + 1) =~= s1.subrange(p + 1, hi + 1));

        // collections of values of the two side windows carry over to `s1`
        assert(s2.subrange(lo as int, p).to_multiset() == s1.subrange(lo as int, p).to_multiset())
            by {
            if pivot_idx > lo {
            } else {
                assert(s2.subrange(lo as int, p) =~= s1.subrange(lo as int, p));
            }
        }
        assert(arr@.subrange(lo as int, p).to_multiset() == s1.subrange(
            lo as int,
            p,
        ).to_multiset());
        assert(arr@.subrange(p + 1, hi + 1).to_multiset() == s1.subrange(
            p + 1,
            hi + 1,
        ).to_multiset()) by {
            if pivot_idx < hi {
                assert(arr@.subrange(p + 1, hi + 1).to_multiset() == s2.subrange(
                    p + 1,
                    hi + 1,
                ).to_multiset());
            } else {
                assert(arr@.subrange(p + 1, hi + 1) =~= s1.subrange(p + 1, hi + 1));
            }
        }

        // every value left of the pivot is bounded by it, every value right
        // of it exceeds it, and the two side windows are sorted
        assert forall|a: int, b: int| lo <= a < b <= hi implies arr@[a] <= arr@[b] by {
            if a < p {
                let fl = arr@.subrange(lo as int, p);
                assert(fl[a - lo] == arr@[a]);
                assert(fl.contains(arr@[a]));
                lemma_multiset_same_contains(fl, s1.subrange(lo as int, p));
                assert(s1.subrange(lo as int, p).contains(arr@[a]));
                let j = choose|j: int|
                    0 <= j < p - lo && #[trigger] s1.subrange(lo as int, p)[j] == arr@[a];
                assert(s1[lo + j] == arr@[a]);
                assert(s1[lo + j] <= s1[p]);
                assert(arr@[a] <= arr@[p]);
            }
            if b > p {
                let fr = arr@.subrange(p + 1, hi + 1);
                assert(fr[b - (p + 1)] == arr@[b]);
                assert(fr.contains(arr@[b]));
                lemma_multiset_same_contains(fr, s1.subrange(p + 1, hi + 1));
                assert(s1.subrange(p + 1, hi + 1).contains(arr@[b]));
                let j = choose|j: int|
                    0 <= j < hi - p && #[trigger] s1.subrange(p + 1, hi + 1)[j] == arr@[b];
                assert(s1[p + 1 + j] == arr@[b]);
                assert(s1[p + 1 + j] > s1[p]);
                assert(arr@[b] > arr@[p]);
            }
            if b < p {
                assert(arr@[a] == s2[a] && arr@[b] == s2[b]);
                assert(s2[a] <= s2[b]);
            }
            if a > p {
                assert(arr@[a] <= arr@[b]);
            }
        }

        // the whole window keeps its collection of values
        assert(s1.subrange(lo as int, hi + 1) =~= s1.subrange(lo as int, p) + seq![s1[p]]
            + s1.subrange(p + 1, hi + 1));
        assert(arr@.subrange(lo as int, hi + 1) =~= arr@.subrange(lo as int, p) + seq![arr@[p]]
            + arr@.subrange(p + 1, hi + 1));
        lemma_multiset_commutative(s1.subrange(lo as int, p), seq![s1[p]]);
        lemma_multiset_commutative(
            s1.subrange(lo as int, p) + seq![s1[p]],
            s1.subrange(p + 1, hi + 1),
        );
        lemma_multiset_commutative(arr@.subrange(lo as int, p), seq![arr@[p]]);
        lemma_multiset_commutative(
            arr@.subrange(lo as int, p) + seq![arr@[p]],
            arr@.subrange(p + 1, hi + 1),
        );
        assert(arr@.subrange(lo as int, hi + 1).to_multiset() == s1.subrange(
            lo as int,
            hi + 1,
        ).to_multiset());
    }
}

/// Sorts the whole array: the result is ordered and holds exactly the values
/// given.
pub fn quick_sort(arr: &mut Vec<i32>)
    ensures
        sorted(final(arr)@),
        final(arr)@.to_multiset() == old(arr)@.to_multiset(),
        final(arr)@.len() == old(arr)@.len(),
{
    if arr.len() <= 1 {
        return ;
    }

    let n = arr.len();
    qs(arr, 0, n - 1);
    proof {
        assert(arr@.subrange(0, n as int) =~= arr@);
        assert(old(arr)@.subrange(0, n as int) =~= old(arr)@);
    }
}

} // verus!
