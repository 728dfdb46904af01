use vstd::prelude::*;

use crate::binary_node::BinaryNode;

verus! {

/// Structural comparison of two optional trees: true exactly when both have
/// the same shape and the same value at every position, which is the same as
/// the trees being equal as values.
pub fn compare(a: Option<&BinaryNode>, b: Option<&BinaryNode>) -> (r: bool)
    ensures
        r == (a == b),
    decreases a,
{
    match (a, b) {
        (None, None) => true,
        (None, Some(_)) | (Some(_), None) => false,
        (Some(x), Some(y)) => {
            let same = x.value == y.value && compare(
                BinaryNode::subtree_ref(&x.left),
                BinaryNode::subtree_ref(&y.left),
            ) && compare(BinaryNode::subtree_ref(&x.right), BinaryNode::subtree_ref(&y.right));
            proof {
                if same {
                    assert(*x =~= *y);
                } else {
                    assert(*x != *y);
                }
            }
            same
        }
    }
}

} // verus!
