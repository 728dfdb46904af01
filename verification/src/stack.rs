use vstd::prelude::*;

verus! {

/// A last-in-first-out stack. `length` mirrors the number of stored items
/// and is exposed directly, as callers read it as a field.
pub struct Stack<T> {
    pub length: usize,
    items: Vec<T>,
}

impl<T> View for Stack<T> {
    type V = Seq<T>;

    /// The stored items, bottom of the stack first.
    closed spec fn view(&self) -> Seq<T> {
        self.items@
    }
}

impl<T> Stack<T> {
    /// The `length` field agrees with the number of stored items.
    pub closed spec fn well_formed(&self) -> bool {
        self.length == self@.len()
    }

    /// An empty stack.
    pub fn new() -> (s: Self)
        ensures
            s.well_formed(),
            s@ == Seq::<T>::empty(),
    {
        Stack { length: 0, items: Vec::new() }
    }

    /// Places `item` on top of the stack.
    pub fn push(&mut self, item: T)
        requires
            old(self).well_formed(),
        ensures
            final(self).well_formed(),
            final(self)@ == old(self)@.push(item),
    {
        self.items.push(item);
        self.length = self.items.len();
    }

    /// Removes and returns the top item; `None` on an empty stack, which is
    /// left unchanged.
    pub fn pop(&mut self) -> (r: Option<T>)
        requires
            old(self).well_formed(),
        ensures
            final(self).well_formed(),
            old(self)@.len() == 0 ==> r is None && final(self)@ == old(self)@,
            old(self)@.len() > 0 ==> {
                &&& r == Some(old(self)@.last())
                &&& final(self)@ == old(self)@.drop_last()
            },
    {
        match self.items.pop() {
            Some(v) => {
                self.length = self.items.len();
                Some(v)
            }
            None => None,
        }
    }

    /// Borrows the top item without removing it; `None` on an empty stack.
    pub fn peek(&self) -> (r: Option<&T>)
        requires
            self.well_formed(),
        ensures
            self@.len() == 0 ==> r is None,
            self@.len() > 0 ==> (r matches Some(v) && *v == self@.last()),
    {
        if self.items.len() == 0 {
            None
        } else {
            Some(&self.items[self.items.len() - 1])
        }
    }

    /// The number of stored items.
    pub fn len(&self) -> (r: usize)
        requires
            self.well_formed(),
        ensures
            r == self@.len(),
    {
        self.length
    }

    /// True exactly when nothing is stored.
    pub fn is_empty(&self) -> (r: bool)
        requires
            self.well_formed(),
        ensures
            r == (self@.len() == 0),
    {
        self.items.is_empty()
    }
}

impl<T> Default for Stack<T> {
    /// An empty stack, as `new` makes it.
    fn default() -> (s: Self)
        ensures
            s.well_formed(),
            s@ == Seq::<T>::empty(),
    {
        Self::new()
    }
}

} // verus!
