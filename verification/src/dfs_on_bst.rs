use vstd::prelude::*;

use crate::binary_node::BinaryNode;

verus! {

impl BinaryNode {
    /// Searches an ordered tree for `needle`; true exactly when the value is
    /// stored somewhere in the subtree rooted at `self`.
    pub fn contains(&self, needle: i32) -> (r: bool)
        requires
            self.ordered(),
        ensures
            r == self.key_set().contains(needle as int),
        decreases *self,
    {
        if needle == self.value {
            true
        } else if needle < self.value {
            proof {
                assert(!Self::opt_key_set(self.right).contains(needle as int));
            }
            match &self.left {
                Some(l) => l.contains(needle),
                None => false,
            }
        } else {
            proof {
                assert(!Self::opt_key_set(self.left).contains(needle as int));
            }
            match &self.right {
                Some(r) => r.contains(needle),
                None => false,
            }
        }
    }

    /// Inserts `value` into an ordered tree, keeping it ordered. Inserting a
    /// value that is already present leaves the tree untouched.
    pub fn insert(&mut self, value: i32)
        requires
            old(self).ordered(),
        ensures
            final(self).ordered(),
            final(self).key_set() == old(self).key_set().insert(value as int),
            final(self).value == old(self).value,
            final(self).node_count() == old(self).node_count() + (if old(
                self,
            ).key_set().contains(value as int) {
                0int
            } else {
                1int
            }),
            old(self).key_set().contains(value as int) ==> *final(self) == *old(self),
        decreases *old(self),
    {
        if value < self.value {
            proof {
                assert(!Self::opt_key_set(self.right).contains(value as int));
                assert(Self::opt_ordered(self.left));
            }
            match self.left.take() {
                Some(mut l) => {
                    (&mut *l).insert(value);
                    self.left = Some(l);
                }
                None => {
                    self.left = Some(Box::new(BinaryNode::new(value)));
                }
            }
            proof {
                assert(Self::opt_ordered(self.left));
                assert(Self::opt_key_set(self.left) =~= Self::opt_key_set(old(self).left).insert(
                    value as int,
                ));
                assert(self.ordered());
                assert(self.key_set() =~= old(self).key_set().insert(value as int));
            }
        } else if value > self.value {
            proof {
                assert(!Self::opt_key_set(self.left).contains(value as int));
                assert(Self::opt_ordered(self.right));
            }
            match self.right.take() {
                Some(mut r) => {
                    (&mut *r).insert(value);
                    self.right = Some(r);
                }
                None => {
                    self.right = Some(Box::new(BinaryNode::new(value)));
                }
            }
            proof {
                assert(Self::opt_ordered(self.right));
                assert(Self::opt_key_set(self.right) =~= Self::opt_key_set(old(self).right).insert(
                    value as int,
                ));
                assert(self.ordered());
                assert(self.key_set() =~= old(self).key_set().insert(value as int));
            }
        } else {
            proof {
                assert(self.key_set().contains(value as int));
                assert(old(self).key_set().insert(value as int) =~= old(self).key_set());
            }
        }
    }

    /// Removes and returns the smallest value of the subtree rooted at
    /// `*node`, splicing the vacated slot. When the root of the subtree has no
    /// left child the tree is returned unchanged and its own value — which is
    /// then the minimum — is reported; callers that want removal descend only
    /// into subtrees that do have a left child.
    fn extract_min(node: &mut Box<BinaryNode>) -> (r: i32)
        requires
            old(node).ordered(),
        ensures
            final(node).ordered(),
            old(node).key_set().contains(r as int),
            forall|k: int| old(node).key_set().contains(k) ==> r as int <= k,
            old(node).left is Some ==> {
                &&& final(node).key_set() == old(node).key_set().remove(r as int)
                &&& final(node).node_count() == old(node).node_count() - 1
                &&& final(node).value == old(node).value
            },
            old(node).left is None ==> *final(node) == *old(node),
        decreases *old(node),
    {
        if node.left.is_none() {
            proof {
                assert(node.key_set().contains(node.value as int));
                assert(Self::opt_key_set(node.left) =~= Set::empty());
                assert forall|k: int| old(node).key_set().contains(k) implies node.value as int
                    <= k by {
                    if Self::opt_key_set(node.right).contains(k) {
                        assert(k > node.value as int);
                    }
                }
            }
            node.value
        } else {
            let mut l = node.left.take().unwrap();
            if l.left.is_none() {
                let min_value = l.value;
                node.left = l.right.take();
                proof {
                    let n0 = *old(node);
                    let l0 = *n0.left.unwrap();
                    assert(Self::opt_ordered(n0.left));
                    assert(l0.ordered());
                    assert(l0.left is None);
                    assert(Self::opt_key_set(l0.left) =~= Set::empty());
                    assert(l0.key_set() =~= Self::opt_key_set(l0.right).insert(l0.value as int));
                    assert(Self::opt_key_set(n0.left) == l0.key_set());
                    assert(Self::opt_key_set(n0.left).contains(l0.value as int));
                    // the minimum really is the least value of the whole subtree
                    assert forall|k: int| n0.key_set().contains(k) implies min_value as int
                        <= k by {
                        if Self::opt_key_set(n0.left).contains(k) {
                            if Self::opt_key_set(l0.right).contains(k) {
                                assert(k > l0.value as int);
                            }
                        } else if Self::opt_key_set(n0.right).contains(k) {
                            assert(k > n0.value as int);
                            assert((l0.value as int) < (n0.value as int));
                        } else {
                            assert((l0.value as int) < (n0.value as int));
                        }
                    }
                    assert(n0.key_set().contains(min_value as int));
                    assert(node.left == l0.right);
                    assert(!Self::opt_key_set(l0.right).contains(l0.value as int));
                    assert(!Self::opt_key_set(n0.right).contains(l0.value as int));
                    assert forall|k: int| Self::opt_key_set(node.left).contains(k) implies k < (
                    node.value as int) by {
                        assert(l0.key_set().contains(k));
                        assert(Self::opt_key_set(n0.left).contains(k));
                    }
                    assert(Self::opt_ordered(node.left));
                    assert(node.ordered());
                    assert(node.key_set() =~= n0.key_set().remove(min_value as int));
                    assert(Self::opt_node_count(n0.left) == l0.node_count());
                    assert(Self::opt_node_count(l0.left) == 0);
                    assert(l0.node_count() == 1 + Self::opt_node_count(l0.right));
                    assert(Self::opt_node_count(node.left) == Self::opt_node_count(l0.right));
                }
                min_value
            } else {
                let min_value = Self::extract_min(&mut l);
                node.left = Some(l);
                proof {
                    let n0 = *old(node);
                    let l0 = *n0.left.unwrap();
                    assert(Self::opt_ordered(n0.left));
                    assert(l0.ordered());
                    assert(l0.key_set().contains(min_value as int));
                    assert(Self::opt_key_set(n0.left) == l0.key_set());
                    assert(Self::opt_key_set(n0.left).contains(min_value as int));
                    assert forall|k: int| n0.key_set().contains(k) implies min_value as int
                        <= k by {
                        if Self::opt_key_set(n0.left).contains(k) {
                            assert(min_value as int <= k);
                        } else if Self::opt_key_set(n0.right).contains(k) {
                            assert(k > n0.value as int);
                            assert((min_value as int) < (n0.value as int));
                        } else {
                            assert((min_value as int) < (n0.value as int));
                        }
                    }
                    assert(Self::opt_ordered(node.left));
                    assert(node.ordered());
                    assert(Self::opt_key_set(node.left) == l0.key_set().remove(min_value as int));
                    assert((min_value as int) < (n0.value as int));
                    assert(!Self::opt_key_set(n0.right).contains(min_value as int));
                    assert(node.key_set() =~= n0.key_set().remove(min_value as int));
                    assert(Self::opt_node_count(n0.left) == l0.node_count());
                    assert(Self::opt_node_count(node.left) == l0.node_count() - 1);
                }
                min_value
            }
        }
    }

    /// Deletes `value` from the optional tree owned by the slot `*node`,
    /// reporting whether it was found. The slot is rewritten in place: a leaf
    /// disappears, a node with one child is replaced by that child, and a node
    /// with two children is replaced by its in-order successor, the minimum of
    /// the right subtree.
    pub fn delete_in_place(node: &mut Option<Box<BinaryNode>>, value: i32) -> (r: bool)
        requires
            Self::opt_ordered(*old(node)),
        ensures
            Self::opt_ordered(*final(node)),
            Self::opt_key_set(*final(node)) == Self::opt_key_set(*old(node)).remove(value as int),
            r == Self::opt_key_set(*old(node)).contains(value as int),
            Self::opt_node_count(*final(node)) == Self::opt_node_count(*old(node)) - (if Self::opt_key_set(
                *old(node),
            ).contains(value as int) {
                1int
            } else {
                0int
            }),
            !r ==> *final(node) == *old(node),
        decreases *old(node),
    {
        match node.take() {
            None => {
                proof {
                    assert(Self::opt_key_set(*old(node)) =~= Set::empty());
                    assert(Self::opt_key_set(*old(node)).remove(value as int) =~= Set::empty());
                }
                false
            }
            Some(mut n) => {
                proof {
                    let n0 = *old(node).unwrap();
                    assert(n0.ordered());
                    assert(Self::opt_ordered(n0.left));
                    assert(Self::opt_ordered(n0.right));
                }
                if value < n.value {
                    proof {
                        assert(!Self::opt_key_set(n.right).contains(value as int));
                    }
                    let r = Self::delete_in_place(&mut n.left, value);
                    *node = Some(n);
                    proof {
                        let n0 = *old(node).unwrap();
                        assert(node.unwrap().ordered());
                        assert(Self::opt_ordered(*node));
                        assert(Self::opt_key_set(*node) =~= n0.key_set().remove(value as int));
                        assert(n0.key_set().contains(value as int) == Self::opt_key_set(
                            n0.left,
                        ).contains(value as int));
                        assert(Self::opt_node_count(*old(node)) == n0.node_count());
                        assert(Self::opt_node_count(*node) == node.unwrap().node_count());
                        if !r {
                            assert(*node.unwrap() =~= n0);
                        }
                    }
                    r
                } else if value > n.value {
                    proof {
                        assert(!Self::opt_key_set(n.left).contains(value as int));
                    }
                    let r = Self::delete_in_place(&mut n.right, value);
                    *node = Some(n);
                    proof {
                        let n0 = *old(node).unwrap();
                        assert(node.unwrap().ordered());
                        assert(Self::opt_ordered(*node));
                        assert(Self::opt_key_set(*node) =~= n0.key_set().remove(value as int));
                        assert(n0.key_set().contains(value as int) == Self::opt_key_set(
                            n0.right,
                        ).contains(value as int));
                        assert(Self::opt_node_count(*old(node)) == n0.node_count());
                        assert(Self::opt_node_count(*node) == node.unwrap().node_count());
                        if !r {
                            assert(*node.unwrap() =~= n0);
                        }
                    }
                    r
                } else {
                    proof {
                        let n0 = *old(node).unwrap();
                        assert(!Self::opt_key_set(n0.left).contains(value as int));
                        assert(!Self::opt_key_set(n0.right).contains(value as int));
                        assert(n0.key_set().contains(value as int));
                    }
                    let left = n.left.take();
                    let right = n.right.take();
                    match (left, right) {
                        (None, None) => {
                            *node = None;
                            proof {
                                let n0 = *old(node).unwrap();
                                assert(n0.key_set() =~= set![n0.value as int]);
                                assert(Self::opt_key_set(*node) =~= n0.key_set().remove(
                                    value as int,
                                ));
                                assert(Self::opt_node_count(n0.left) == 0);
                                assert(Self::opt_node_count(n0.right) == 0);
                                assert(Self::opt_node_count(*old(node)) == n0.node_count());
                                assert(Self::opt_node_count(*node) == 0);
                            }
                        }
                        (Some(l), None) => {
                            *node = Some(l);
                            proof {
                                let n0 = *old(node).unwrap();
                                assert(Self::opt_ordered(*node));
                                assert(Self::opt_key_set(*node) =~= n0.key_set().remove(
                                    value as int,
                                ));
                                assert(Self::opt_node_count(n0.right) == 0);
                                assert(Self::opt_node_count(*old(node)) == n0.node_count());
                                assert(Self::opt_node_count(*node) == Self::opt_node_count(
                                    n0.left,
                                ));
                            }
                        }
                        (None, Some(rt)) => {
                            *node = Some(rt);
                            proof {
                                let n0 = *old(node).unwrap();
                                assert(Self::opt_ordered(*node));
                                assert(Self::opt_key_set(*node) =~= n0.key_set().remove(
                                    value as int,
                                ));
                                assert(Self::opt_node_count(n0.left) == 0);
                                assert(Self::opt_node_count(*old(node)) == n0.node_count());
                                assert(Self::opt_node_count(*node) == Self::opt_node_count(
                                    n0.right,
                                ));
                            }
                        }
                        (Some(l), Some(mut rt)) => {
                            if rt.left.is_none() {
                                rt.left = Some(l);
                                *node = Some(rt);
                                proof {
                                    let n0 = *old(node).unwrap();
                                    let l0 = *n0.left.unwrap();
                                    let r0 = *n0.right.unwrap();
                                    assert(l0.ordered());
                                    assert(r0.ordered());
                                    assert(r0.key_set().contains(r0.value as int));
                                    assert(Self::opt_key_set(r0.left) =~= Set::empty());
                                    let nn = *node.unwrap();
                                    assert(nn.value == r0.value);
                                    assert forall|k: int|
                                        Self::opt_key_set(nn.left).contains(k) implies k
                                        < nn.value as int by {
                                        assert(k < n0.value as int);
                                        assert((r0.value as int) > (n0.value as int));
                                    }
                                    assert(nn.ordered());
                                    assert(Self::opt_ordered(*node));
                                    assert(Self::opt_key_set(*node) =~= n0.key_set().remove(
                                        value as int,
                                    ));
                                    assert(Self::opt_node_count(*old(node)) == n0.node_count());
                                    assert(Self::opt_node_count(nn.left) == l0.node_count());
                                    assert(Self::opt_node_count(nn.right) == Self::opt_node_count(
                                        r0.right,
                                    ));
                                    assert(Self::opt_node_count(r0.left) == 0);
                                    assert(r0.node_count() == 1 + Self::opt_node_count(r0.right));
                                    assert(Self::opt_node_count(*node) == nn.node_count());
                                }
                            } else {
                                proof {
                                    let n0 = *old(node).unwrap();
                                    assert(Self::opt_ordered(n0.right));
                                    assert(rt.ordered());
                                }
                                let min_value = Self::extract_min(&mut rt);
                                *node = Some(
                                    Box::new(
                                        BinaryNode::with_children(min_value, Some(l), Some(rt)),
                                    ),
                                );
                                proof {
                                    let n0 = *old(node).unwrap();
                                    let l0 = *n0.left.unwrap();
                                    let r0 = *n0.right.unwrap();
                                    assert(l0.ordered());
                                    assert(r0.key_set().contains(min_value as int));
                                    assert((min_value as int) > (n0.value as int));
                                    let nn = *node.unwrap();
                                    assert(Self::opt_key_set(nn.left) == l0.key_set());
                                    assert(Self::opt_key_set(nn.right) == r0.key_set().remove(
                                        min_value as int,
                                    ));
                                    assert forall|k: int|
                                        Self::opt_key_set(nn.left).contains(k) implies k
                                        < nn.value as int by {
                                        assert(k < n0.value as int);
                                    }
                                    assert forall|k: int|
                                        Self::opt_key_set(nn.right).contains(k) implies k
                                        > nn.value as int by {
                                        assert(r0.key_set().contains(k));
                                        assert(min_value as int <= k);
                                        assert(k != min_value as int);
                                    }
                                    assert(nn.ordered());
                                    assert(Self::opt_ordered(*node));
                                    assert(Self::opt_key_set(*node) =~= n0.key_set().remove(
                                        value as int,
                                    ));
                                    assert(Self::opt_node_count(*old(node)) == n0.node_count());
                                    assert(Self::opt_node_count(nn.left) == l0.node_count());
                                    assert(Self::opt_node_count(nn.right) == r0.node_count() - 1);
                                    assert(Self::opt_node_count(*node) == nn.node_count());
                                }
                            }
                        }
                    }
                    true
                }
            }
        }
    }
}

/// Depth-first membership query on an optional root: an empty tree holds nothing.
pub fn dfs(head: Option<&BinaryNode>, needle: i32) -> (r: bool)
    requires
        head matches Some(n) ==> n.ordered(),
    ensures
        r == (head matches Some(n) && n.key_set().contains(needle as int)),
{
    match head {
        None => false,
        Some(node) => node.contains(needle),
    }
}

/// The key set reached from `s` by inserting every key of `ks` in order,
/// where each step adds exactly the inserted key — the effect that
/// `BinaryNode::insert` guarantees on `key_set`.
pub open spec fn keys_after_inserts(s: Set<int>, ks: Seq<int>) -> Set<int>
    decreases ks.len(),
{
    if ks.len() == 0 {
        s
    } else {
        keys_after_inserts(s.insert(ks[0]), ks.drop_first())
    }
}

/// Round trip: after inserting every key of `ks` into a tree whose key set is
/// `s`, a key is present exactly when it was inserted or was already there.
/// So `contains` answers true for every inserted key, and false for any key
/// neither inserted nor present before.
pub proof fn lemma_insert_round_trip(s: Set<int>, ks: Seq<int>)
    ensures
        forall|k: int|
            #[trigger] keys_after_inserts(s, ks).contains(k) <==> (s.contains(k) || ks.contains(
                k,
            )),
    decreases ks.len(),
{
    if ks.len() != 0 {
        lemma_insert_round_trip(s.insert(ks[0]), ks.drop_first());
        assert forall|k: int|
            #[trigger] keys_after_inserts(s, ks).contains(k) <==> (s.contains(k) || ks.contains(
                k,
            )) by {
            assert(keys_after_inserts(s, ks) == keys_after_inserts(
                s.insert(ks[0]),
                ks.drop_first(),
            ));
            if ks.contains(k) {
                let i = choose|i: int| 0 <= i < ks.len() && ks[i] == k;
                if i != 0 {
                    assert(ks.drop_first()[i - 1] == k);
                    assert(ks.drop_first().contains(k));
                }
            }
            if ks.drop_first().contains(k) {
                let i = choose|i: int| 0 <= i < ks.drop_first().len() && ks.drop_first()[i] == k;
                assert(ks[i + 1] == k);
                assert(ks.contains(k));
            }
            if ks[0] == k {
                assert(ks.contains(k));
            }
        }
    }
}

/// Deleting one key never disturbs another: membership of every other key in
/// the key set is the same before and after the removal that
/// `BinaryNode::delete_in_place` performs.
pub proof fn lemma_delete_preserves_other_keys(s: Set<int>, removed: int, other: int)
    requires
        other != removed,
    ensures
        s.remove(removed).contains(other) == s.contains(other),
{
}

} // verus!

