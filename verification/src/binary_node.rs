use vstd::prelude::*;

verus! {

/// A binary tree node. Each of `left` and `right` either is absent or owns
/// its whole subtree; sharing between slots is impossible by construction.
#[derive(Debug, PartialEq)]
pub struct BinaryNode {
    pub value: i32,
    pub left: Option<Box<BinaryNode>>,
    pub right: Option<Box<BinaryNode>>,
}

impl BinaryNode {
    /// The set of values stored in the subtree rooted at `self`.
    pub open spec fn key_set(self) -> Set<int>
        decreases self,
    {
        Self::opt_key_set(self.left).union(Self::opt_key_set(self.right)).insert(
            self.value as int,
        )
    }

    /// The set of values stored in an optional subtree.
    pub open spec fn opt_key_set(t: Option<Box<BinaryNode>>) -> Set<int>
        decreases t,
    {
        match t {
            None => Set::empty(),
            Some(n) => n.key_set(),
        }
    }

    /// The number of nodes in the subtree rooted at `self`.
    pub open spec fn node_count(self) -> nat
        decreases self,
    {
        1 + Self::opt_node_count(self.left) + Self::opt_node_count(self.right)
    }

    /// The number of nodes in an optional subtree.
    pub open spec fn opt_node_count(t: Option<Box<BinaryNode>>) -> nat
        decreases t,
    {
        match t {
            None => 0,
            Some(n) => n.node_count(),
        }
    }

    /// The binary-search-tree ordering invariant: every value in the left
    /// subtree is strictly below the node's value, every value in the right
    /// subtree strictly above it, recursively.
    pub open spec fn ordered(self) -> bool
        decreases self,
    {
        &&& (forall|k: int| Self::opt_key_set(self.left).contains(k) ==> k < self.value as int)
        &&& (forall|k: int| Self::opt_key_set(self.right).contains(k) ==> k > self.value as int)
        &&& Self::opt_ordered(self.left)
        &&& Self::opt_ordered(self.right)
    }

    /// The ordering invariant for an optional subtree; an empty slot is ordered.
    pub open spec fn opt_ordered(t: Option<Box<BinaryNode>>) -> bool
        decreases t,
    {
        match t {
            None => true,
            Some(n) => n.ordered(),
        }
    }

    /// A fresh leaf holding `value`.
    pub fn new(value: i32) -> (n: Self)
        ensures
            n == (BinaryNode { value, left: None, right: None }),
            n.ordered(),
            n.key_set() == set![value as int],
            n.node_count() == 1,
    {
        let n = BinaryNode { value, left: None, right: None };
        proof {
            assert(n.key_set() =~= set![value as int]);
        }
        n
    }

    /// Borrows the node owned by a child slot, if there is one.
    pub fn subtree_ref(t: &Option<Box<BinaryNode>>) -> (r: Option<&BinaryNode>)
        ensures
            r is Some <==> *t is Some,
            r is Some ==> r->0 == t->0,
    {
        match t {
            Some(b) => Some(&**b),
            None => None,
        }
    }

    /// A node holding `value` with the given child slots.
    pub fn with_children(
        value: i32,
        left: Option<Box<BinaryNode>>,
        right: Option<Box<BinaryNode>>,
    ) -> (n: Self)
        ensures
            n == (BinaryNode { value, left, right }),
    {
        BinaryNode { value, left, right }
    }
}

impl Clone for BinaryNode {
    /// A deep copy: the clone is equal, as a value, to the original tree.
    fn clone(&self) -> (r: Self)
        ensures
            r == *self,
        decreases *self,
    {
        BinaryNode {
            value: self.value,
            left: match &self.left {
                Some(l) => Some(Box::new((**l).clone())),
                None => None,
            },
            right: match &self.right {
                Some(rt) => Some(Box::new((**rt).clone())),
                None => None,
            },
        }
    }
}

} // verus!
