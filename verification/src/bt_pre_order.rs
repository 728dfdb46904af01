use vstd::prelude::*;

use crate::binary_node::BinaryNode;

verus! {

/// The pre-order listing of a subtree: the node's own value first, then the
/// whole left subtree, then the whole right subtree.
pub open spec fn pre_order_seq(n: BinaryNode) -> Seq<i32>
    decreases n,
{
    seq![n.value] + opt_pre_order_seq(n.left) + opt_pre_order_seq(n.right)
}

/// The pre-order listing of an optional subtree; an empty slot lists nothing.
pub open spec fn opt_pre_order_seq(t: Option<Box<BinaryNode>>) -> Seq<i32>
    decreases t,
{
    match t {
        None => Seq::empty(),
        Some(b) => pre_order_seq(*b),
    }
}

/// The pre-order listing of an optional root.
pub open spec fn head_pre_order_seq(t: Option<&BinaryNode>) -> Seq<i32> {
    match t {
        None => Seq::empty(),
        Some(n) => pre_order_seq(*n),
    }
}

/// Appends the pre-order listing of `curr` to `path`.
fn walk(curr: Option<&BinaryNode>, path: &mut Vec<i32>)
    ensures
        final(path)@ == old(path)@ + head_pre_order_seq(curr),
    decreases curr,
{
    if let Some(node) = curr {
        path.push(node.value);
        walk(BinaryNode::subtree_ref(&node.left), path);
        walk(BinaryNode::subtree_ref(&node.right), path);
        proof {
            assert(path@ =~= old(path)@ + head_pre_order_seq(curr));
        }
    } else {
        proof {
            assert(path@ =~= old(path)@ + head_pre_order_seq(curr));
        }
    }
}

/// Collects the values of the tree in pre-order, by a recursive walk that
/// fills one growing path.
pub fn pre_order_search(head: Option<&BinaryNode>) -> (r: Vec<i32>)
    ensures
        r@ == head_pre_order_seq(head),
{
    let mut path: Vec<i32> = Vec::new();
    walk(head, &mut path);
    path
}

/// Collects the values of the tree in pre-order, building the listing
/// directly from the listings of the two subtrees.
pub fn pre_order_search_direct(head: Option<&BinaryNode>) -> (r: Vec<i32>)
    ensures
        r@ == head_pre_order_seq(head),
    decreases head,
{
    match head {
        None => Vec::new(),
        Some(node) => {
            let mut result = vec![node.value];
            let mut left = pre_order_search_direct(BinaryNode::subtree_ref(&node.left));
            result.append(&mut left);
            let mut right = pre_order_search_direct(BinaryNode::subtree_ref(&node.right));
            result.append(&mut right);
            proof {
                assert(result@ =~= head_pre_order_seq(head));
            }
            result
        }
    }
}

} // verus!
