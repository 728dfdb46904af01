use vstd::prelude::*;

use crate::sorting::lemma_swap_preserves_multiset;
use crate::sorting::sorted;

verus! {

/// Sorts in place by repeatedly bubbling the largest remaining value to the
/// end: the result is ordered and holds exactly the values given.
pub fn bubble_sort(arr: &mut Vec<i32>)
    ensures
        sorted(final(arr)@),
        final(arr)@.to_multiset() == old(arr)@.to_multiset(),
        final(arr)@.len() == old(arr)@.len(),
{
    let n = arr.len();
    let mut i: usize = 0;

    while i < n
        invariant
            arr@.len() == n,
            i <= n,
            arr@.to_multiset() == old(arr)@.to_multiset(),
            forall|a: int, b: int| n - i <= a < b < n ==> arr@[a] <= arr@[b],
            forall|a: int, b: int| 0 <= a < n - i <= b < n ==> arr@[a] <= arr@[b],
        decreases n - i,
    {
        let mut j: usize = 0;

        while j < n - 1 - i
            invariant
                arr@.len() == n,
                i < n,
                j <= n - 1 - i,
                arr@.to_multiset() == old(arr)@.to_multiset(),
                forall|a: int, b: int| n - i <= a < b < n ==> arr@[a] <= arr@[b],
                forall|a: int, b: int| 0 <= a < n - i <= b < n ==> arr@[a] <= arr@[b],
                forall|a: int| 0 <= a < j ==> arr@[a] <= arr@[j as int],
            decreases n - 1 - i - j,
        {
            if arr[j] > arr[j + 1] {
                let ghost prev = arr@;
                let temp = arr[j];
                let next = arr[j + 1];
                arr.set(j, next);
                arr.set(j + 1, temp);
                proof {
                    lemma_swap_preserves_multiset(prev, j as int, j + 1);
                    assert(arr@ =~= prev.update(j as int, prev[j + 1]).update(
                        j + 1,
                        prev[j as int],
                    ));
                }
            }
            j += 1;
        }

        i += 1;
    }
}

/// The same bubble sort, written with `for` loops over index ranges.
pub fn bubble_sort_idiomatic(arr: &mut Vec<i32>)
    ensures
        sorted(final(arr)@),
        final(arr)@.to_multiset() == old(arr)@.to_multiset(),
        final(arr)@.len() == old(arr)@.len(),
{
    let n = arr.len();

    for i in 0..n
        invariant
            arr@.len() == n,
            arr@.to_multiset() == old(arr)@.to_multiset(),
            forall|a: int, b: int| n - i <= a < b < n ==> arr@[a] <= arr@[b],
            forall|a: int, b: int| 0 <= a < n - i <= b < n ==> arr@[a] <= arr@[b],
    {
        for j in 0..n - 1 - i
            invariant
                arr@.len() == n,
                i < n,
                arr@.to_multiset() == old(arr)@.to_multiset(),
                forall|a: int, b: int| n - i <= a < b < n ==> arr@[a] <= arr@[b],
                forall|a: int, b: int| 0 <= a < n - i <= b < n ==> arr@[a] <= arr@[b],
                forall|a: int| 0 <= a < j ==> arr@[a] <= arr@[j as int],
        {
            if arr[j] > arr[j + 1] {
                let ghost prev = arr@;
                let temp = arr[j];
                let next = arr[j + 1];
                arr.set(j, next);
                arr.set(j + 1, temp);
                proof {
                    lemma_swap_preserves_multiset(prev, j as int, j + 1);
                    assert(arr@ =~= prev.update(j as int, prev[j + 1]).update(
                        j + 1,
                        prev[j as int],
                    ));
                }
            }
        }
    }
}

} // verus!
