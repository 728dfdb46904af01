use vstd::prelude::*;

use crate::binary_node::BinaryNode;

verus! {

/// The in-order listing of a subtree: the whole left subtree first, then the
/// node's own value, then the whole right subtree.
pub open spec fn in_order_seq(n: BinaryNode) -> Seq<i32>
    decreases n,
{
    opt_in_order_seq(n.left) + seq![n.value] + opt_in_order_seq(n.right)
}

/// The in-order listing of an optional subtree; an empty slot lists nothing.
pub open spec fn opt_in_order_seq(t: Option<Box<BinaryNode>>) -> Seq<i32>
    decreases t,
{
    match t {
        None => Seq::empty(),
        Some(b) => in_order_seq(*b),
    }
}

/// The in-order listing of an optional root.
pub open spec fn head_in_order_seq(t: Option<&BinaryNode>) -> Seq<i32> {
    match t {
        None => Seq::empty(),
        Some(n) => in_order_seq(*n),
    }
}

/// Appends the in-order listing of `curr` to `path`.
fn walk(curr: Option<&BinaryNode>, path: &mut Vec<i32>)
    ensures
        final(path)@ == old(path)@ + head_in_order_seq(curr),
    decreases curr,
{
    if let Some(node) = curr {
        walk(BinaryNode::subtree_ref(&node.left), path);
        path.push(node.value);
        walk(BinaryNode::subtree_ref(&node.right), path);
        proof {
            assert(path@ =~= old(path)@ + head_in_order_seq(curr));
        }
    } else {
        proof {
            assert(path@ =~= old(path)@ + head_in_order_seq(curr));
        }
    }
}

/// Collects the values of the tree in in-order.
pub fn in_order_search(head: Option<&BinaryNode>) -> (r: Vec<i32>)
    ensures
        r@ == head_in_order_seq(head),
{
    let mut path: Vec<i32> = Vec::new();
    walk(head, &mut path);
    path
}

} // verus!
