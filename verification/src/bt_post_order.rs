use vstd::prelude::*;

use crate::binary_node::BinaryNode;

verus! {

/// The post-order listing of a subtree: the whole left subtree first, then
/// the whole right subtree, then the node's own value.
pub open spec fn post_order_seq(n: BinaryNode) -> Seq<i32>
    decreases n,
{
    opt_post_order_seq(n.left) + opt_post_order_seq(n.right) + seq![n.value]
}

/// The post-order listing of an optional subtree; an empty slot lists nothing.
pub open spec fn opt_post_order_seq(t: Option<Box<BinaryNode>>) -> Seq<i32>
    decreases t,
{
    match t {
        None => Seq::empty(),
        Some(b) => post_order_seq(*b),
    }
}

/// The post-order listing of an optional root.
pub open spec fn head_post_order_seq(t: Option<&BinaryNode>) -> Seq<i32> {
    match t {
        None => Seq::empty(),
        Some(n) => post_order_seq(*n),
    }
}

/// Appends the post-order listing of `curr` to `path`.
fn walk(curr: Option<&BinaryNode>, path: &mut Vec<i32>)
    ensures
        final(path)@ == old(path)@ + head_post_order_seq(curr),
    decreases curr,
{
    if let Some(node) = curr {
        walk(BinaryNode::subtree_ref(&node.left), path);
        walk(BinaryNode::subtree_ref(&node.right), path);
        path.push(node.value);
        proof {
            assert(path@ =~= old(path)@ + head_post_order_seq(curr));
        }
    } else {
        proof {
            assert(path@ =~= old(path)@ + head_post_order_seq(curr));
        }
    }
}

/// Collects the values of the tree in post-order.
pub fn post_order_search(head: Option<&BinaryNode>) -> (r: Vec<i32>)
    ensures
        r@ == head_post_order_seq(head),
{
    let mut path: Vec<i32> = Vec::new();
    walk(head, &mut path);
    path
}

} // verus!
