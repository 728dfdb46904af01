use vstd::prelude::*;

use std::collections::VecDeque;

use crate::binary_node::BinaryNode;

verus! {

/// True when `needle` is the value of `n` or of a node on the chain of left
/// children below it.
pub open spec fn left_spine_contains(n: BinaryNode, needle: i32) -> bool
    decreases n,
{
    n.value == needle || (match n.left {
        Some(l) => left_spine_contains(*l, needle),
        None => false,
    })
}

/// The cost of examining the left spine below `n` through a queue that
/// enqueues the same child twice at each step.
spec fn spine_weight(n: BinaryNode) -> nat
    decreases n,
{
    match n.left {
        None => 1,
        Some(l) => 2 * spine_weight(*l) + 1,
    }
}

/// The combined cost of all nodes waiting in the queue.
spec fn queue_weight(s: Seq<&BinaryNode>) -> nat
    decreases s.len(),
{
    if s.len() == 0 {
        0
    } else {
        spine_weight(*s[0]) + queue_weight(s.drop_first())
    }
}

/// Whether some node waiting in the queue carries the needle on its left
/// spine.
spec fn queue_hits(s: Seq<&BinaryNode>, needle: i32) -> bool
    decreases s.len(),
{
    if s.len() == 0 {
        false
    } else {
        left_spine_contains(*s[0], needle) || queue_hits(s.drop_first(), needle)
    }
}

/// Appending a node to the queue adds its cost and its possible hit.
proof fn lemma_queue_push(s: Seq<&BinaryNode>, x: &BinaryNode, needle: i32)
    ensures
        queue_weight(s.push(x)) == queue_weight(s) + spine_weight(*x),
        queue_hits(s.push(x), needle) == (queue_hits(s, needle) || left_spine_contains(*x, needle)),
    decreases s.len(),
{
    if s.len() == 0 {
        assert(s.push(x)[0] == x);
        assert(s.push(x).drop_first() =~= Seq::<&BinaryNode>::empty());
        assert(queue_weight(s.push(x).drop_first()) == 0);
        assert(!queue_hits(s.push(x).drop_first(), needle));
    } else {
        lemma_queue_push(s.drop_first(), x, needle);
        assert(s.push(x)[0] == s[0]);
        assert(s.push(x).drop_first() =~= s.drop_first().push(x));
        assert(queue_weight(s.push(x)) == spine_weight(*s[0]) + queue_weight(
            s.drop_first().push(x),
        ));
        assert(queue_hits(s.push(x), needle) == (left_spine_contains(*s[0], needle) || queue_hits(
            s.drop_first().push(x),
            needle,
        )));
    }
}

/// Breadth-first search driven by a queue of pending nodes. Each step meant
/// to enqueue the two children reads the left slot both times, so the walk
/// only ever descends along left children: the search reports exactly
/// whether `needle` lies on the root's left spine.
pub fn bfs(head: Option<&BinaryNode>, needle: i32) -> (r: bool)
    ensures
        r == (head matches Some(n) && left_spine_contains(*n, needle)),
{
    let head_node = match head {
        Some(h) => h,
        None => {
            return false;
        }
    };

    let mut q: VecDeque<&BinaryNode> = VecDeque::new();
    q.push_back(head_node);
    proof {
        lemma_queue_push(Seq::empty(), head_node, needle);
    }

    while q.len() != 0
        invariant
            head == Some(head_node),
            queue_hits(q@, needle) == left_spine_contains(*head_node, needle),
        decreases queue_weight(q@),
    {
        let ghost before = q@;
        let curr = q.pop_front().unwrap();
        proof {
            assert(q@ =~= before.drop_first());
            assert(before[0] == curr);
            assert(queue_weight(before) == spine_weight(*curr) + queue_weight(q@));
            assert(queue_hits(before, needle) == (left_spine_contains(*curr, needle) || queue_hits(
                q@,
                needle,
            )));
        }

        if curr.value == needle {
            proof {
                assert(queue_hits(before, needle));
            }
            return true;
        }

        if let Some(left) = BinaryNode::subtree_ref(&curr.left) {
            proof {
                assert(spine_weight(*curr) == 2 * spine_weight(*left) + 1);
                assert(left_spine_contains(*curr, needle) == left_spine_contains(*left, needle));
                lemma_queue_push(q@, left, needle);
            }
            q.push_back(left);
        }

        if let Some(right) = BinaryNode::subtree_ref(&curr.left) {
            proof {
                lemma_queue_push(q@, right, needle);
            }
            q.push_back(right);
        }

        proof {
            if curr.left is None {
                assert(!left_spine_contains(*curr, needle));
                assert(spine_weight(*curr) == 1);
            }
        }
    }

    false
}

} // verus!
