use vstd::prelude::*;

use vstd::pervasive::cloned;
use vstd::std_specs::cmp::PartialEqSpec;

verus! {

/// A sequential container addressed by position, with cheap access to both
/// ends through its public operations.
pub struct DoublyLinkedList<T> {
    items: Vec<T>,
}

impl<T> View for DoublyLinkedList<T> {
    type V = Seq<T>;

    /// The stored items, front of the list first.
    closed spec fn view(&self) -> Seq<T> {
        self.items@
    }
}

impl<T> DoublyLinkedList<T> {
    /// An empty list.
    pub fn new() -> (l: Self)
        ensures
            l@ == Seq::<T>::empty(),
    {
        DoublyLinkedList { items: Vec::new() }
    }

    /// The number of stored items.
    pub fn len(&self) -> (r: usize)
        ensures
            r == self@.len(),
    {
        self.items.len()
    }

    /// True exactly when nothing is stored.
    pub fn is_empty(&self) -> (r: bool)
        ensures
            r == (self@.len() == 0),
    {
        self.items.len() == 0
    }

    /// Adds `item` at the front of the list.
    pub fn prepend(&mut self, item: T)
        ensures
            final(self)@ == seq![item] + old(self)@,
    {
        self.items.insert(0, item);
        proof {
            assert(self.items@ =~= seq![item] + old(self)@);
        }
    }

    /// Adds `item` before position `idx`; `idx` may be one past the end, in
    /// which case the item goes at the back.
    pub fn insert_at(&mut self, item: T, idx: usize)
        requires
            idx <= old(self)@.len(),
        ensures
            final(self)@ == old(self)@.insert(idx as int, item),
    {
        if idx == self.items.len() {
            self.append(item);
            proof {
                assert(self@ =~= old(self)@.insert(idx as int, item));
            }
            return ;
        }

        if idx == 0 {
            self.prepend(item);
            proof {
                assert(self@ =~= old(self)@.insert(idx as int, item));
            }
            return ;
        }

        self.items.insert(idx, item);
    }

    /// Adds `item` at the back of the list.
    pub fn append(&mut self, item: T)
        ensures
            final(self)@ == old(self)@.push(item),
    {
        self.items.push(item);
    }

    /// Removes the first item that compares equal to `item` and returns it;
    /// `None`, and no change, when no item does.
    pub fn remove(&mut self, item: T) -> (r: Option<T>) where T: PartialEq + Clone
        ensures
            T::obeys_eq_spec() ==> match r {
                None => {
                    &&& final(self)@ == old(self)@
                    &&& forall|i: int|
                        0 <= i < old(self)@.len() ==> !(#[trigger] old(self)@[i]).eq_spec(&item)
                },
                Some(v) => exists|i: int|
                    {
                        &&& 0 <= i < old(self)@.len()
                        &&& (#[trigger] old(self)@[i]).eq_spec(&item)
                        &&& v == old(self)@[i]
                        &&& final(self)@ == old(self)@.remove(i)
                        &&& forall|j: int| 0 <= j < i ==> !(#[trigger] old(self)@[j]).eq_spec(
                            &item,
                        )
                    },
            },
    {
        let mut idx: usize = 0;

        while idx < self.items.len()
            invariant
                self@ == old(self)@,
                idx <= self@.len(),
                T::obeys_eq_spec() ==> forall|j: int|
                    0 <= j < idx ==> !(#[trigger] old(self)@[j]).eq_spec(&item),
            decreases self@.len() - idx,
        {
            if self.items[idx] == item {
                return self.remove_at(idx);
            }
            idx += 1;
        }

        None
    }

    /// Returns a copy of the item at position `idx`; `None` when the
    /// position is past the end.
    pub fn get(&self, idx: usize) -> (r: Option<T>) where T: Clone
        ensures
            idx >= self@.len() ==> r is None,
            idx < self@.len() ==> (r matches Some(v) && cloned(self@[idx as int], v)),
    {
        if idx >= self.items.len() {
            return None;
        }

        Some(self.items[idx].clone())
    }

    /// Removes and returns the item at position `idx`; `None`, and no
    /// change, when the position is past the end.
    pub fn remove_at(&mut self, idx: usize) -> (r: Option<T>) where T: Clone
        ensures
            idx >= old(self)@.len() ==> r is None && final(self)@ == old(self)@,
            idx < old(self)@.len() ==> {
                &&& r == Some(old(self)@[idx as int])
                &&& final(self)@ == old(self)@.remove(idx as int)
            },
    {
        if idx >= self.items.len() {
            return None;
        }

        let value = self.items.remove(idx);
        Some(value)
    }

    /// A cursor over the list from front to back, handing out copies.
    pub fn iter<'a>(&'a self) -> (it: DoublyLinkedListIter<'a, T>)
        ensures
            it.pending() == self@,
    {
        DoublyLinkedListIter { items: &self.items, pos: 0 }
    }
}

/// A position in a list being walked front to back.
pub struct DoublyLinkedListIter<'a, T> {
    items: &'a Vec<T>,
    pos: usize,
}

impl<'a, T> DoublyLinkedListIter<'a, T> {
    /// The items not yet handed out, in the order they will come.
    pub closed spec fn pending(&self) -> Seq<T> {
        if self.pos <= self.items@.len() {
            self.items@.skip(self.pos as int)
        } else {
            Seq::empty()
        }
    }

    /// A copy of the next item, or `None` once the walk is done.
    pub fn next(&mut self) -> (r: Option<T>) where T: Clone
        ensures
            old(self).pending().len() == 0 ==> r is None && final(self).pending() == old(
                self,
            ).pending(),
            old(self).pending().len() > 0 ==> {
                &&& (r matches Some(v) && cloned(old(self).pending().first(), v))
                &&& final(self).pending() == old(self).pending().drop_first()
            },
    {
        if self.pos < self.items.len() {
            let value = self.items[self.pos].clone();
            self.pos += 1;
            proof {
                assert(self.pending() =~= old(self).pending().drop_first());
                assert(old(self).pending().first() == self.items@[old(self).pos as int]);
            }
            Some(value)
        } else {
            None
        }
    }
}

} // verus!
