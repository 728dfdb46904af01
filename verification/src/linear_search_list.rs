use vstd::prelude::*;

verus! {

/// Linear scan over a five-element array: true exactly when `needle` occurs
/// in it.
pub fn linear_search(haystack: &[u32; 5], needle: u32) -> (r: bool)
    ensures
        r == (exists|i: int| 0 <= i < 5 && haystack@[i] == needle),
{
    let mut idx: usize = 0;

    while idx < haystack.len()
        invariant
            idx <= 5,
            forall|i: int| 0 <= i < idx ==> haystack@[i] != needle,
        decreases 5 - idx,
    {
        if haystack[idx] == needle {
            return true;
        }
        idx += 1;
    }

    false
}

} // verus!
