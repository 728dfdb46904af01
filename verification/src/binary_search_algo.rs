use vstd::prelude::*;

verus! {

/// Binary search over a sorted five-element array: true exactly when
/// `needle` occurs in it. Each round halves the range that can still hold
/// the needle.
pub fn binary_search(hasystack: &[u32; 5], needle: u32) -> (r: bool)
    requires
        forall|i: int, j: int| 0 <= i < j < 5 ==> hasystack@[i] <= hasystack@[j],
    ensures
        r == (exists|i: int| 0 <= i < 5 && hasystack@[i] == needle),
{
    let mut low: usize = 0;
    let mut high: usize = hasystack.len();

    while low < high
        invariant
            forall|i: int, j: int| 0 <= i < j < 5 ==> hasystack@[i] <= hasystack@[j],
            low <= high <= 5,
            forall|i: int| 0 <= i < low ==> hasystack@[i] < needle,
            forall|i: int| high <= i < 5 ==> hasystack@[i] > needle,
        decreases high - low,
    {
        let middle = low + (high - low) / 2;
        let value = hasystack[middle];

        if value == needle {
            return true;
        } else if value > needle {
            high = middle;
        } else {
            low = middle + 1;
        }
    }

    false
}

} // verus!
