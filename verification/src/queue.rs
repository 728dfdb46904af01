use vstd::prelude::*;

verus! {

/// A first-in-first-out queue. `length` mirrors the number of stored items
/// and is exposed directly, as callers read it as a field.
pub struct Queue<T> {
    pub length: usize,
    items: Vec<T>,
}

/// The error a dequeue could report when the storage cannot release an item.
/// With exclusively owned storage this can never happen, so `dequeue` always
/// returns `Ok`.
#[derive(Debug)]
pub enum QueueError {
    MultipleReference,
}

impl<T> View for Queue<T> {
    type V = Seq<T>;

    /// The stored items, front of the queue first.
    closed spec fn view(&self) -> Seq<T> {
        self.items@
    }
}

impl<T> Queue<T> {
    /// The `length` field agrees with the number of stored items.
    pub closed spec fn well_formed(&self) -> bool {
        self.length == self@.len()
    }

    /// An empty queue.
    pub fn new() -> (q: Self)
        ensures
            q.well_formed(),
            q@ == Seq::<T>::empty(),
    {
        Queue { length: 0, items: Vec::new() }
    }

    /// Adds `item` at the back of the queue.
    pub fn enqueue(&mut self, item: T)
        requires
            old(self).well_formed(),
        ensures
            final(self).well_formed(),
            final(self)@ == old(self)@.push(item),
    {
        self.items.push(item);
        self.length = self.items.len();
    }

    /// Removes and returns the front item; `Ok(None)` on an empty queue,
    /// which is left unchanged. The error variant is never produced.
    pub fn dequeue(&mut self) -> (r: Result<Option<T>, QueueError>)
        requires
            old(self).well_formed(),
        ensures
            final(self).well_formed(),
            old(self)@.len() == 0 ==> (r matches Ok(v) && v is None && final(self)@ == old(self)@),
            old(self)@.len() > 0 ==> {
                &&& (r matches Ok(v) && v == Some(old(self)@.first()))
                &&& final(self)@ == old(self)@.drop_first()
            },
    {
        if self.items.len() == 0 {
            Ok(None)
        } else {
            let v = self.items.remove(0);
            self.length = self.items.len();
            proof {
                assert(self.items@ =~= old(self)@.drop_first());
            }
            Ok(Some(v))
        }
    }

    /// Borrows the front item without removing it; `None` on an empty queue.
    pub fn peek(&self) -> (r: Option<&T>)
        requires
            self.well_formed(),
        ensures
            self@.len() == 0 ==> r is None,
            self@.len() > 0 ==> (r matches Some(v) && *v == self@.first()),
    {
        if self.items.len() == 0 {
            None
        } else {
            Some(&self.items[0])
        }
    }

    /// True exactly when nothing is stored.
    pub fn is_empty(&self) -> (r: bool)
        requires
            self.well_formed(),
        ensures
            r == (self@.len() == 0),
    {
        self.length == 0
    }

    /// The number of stored items.
    pub fn len(&self) -> (r: usize)
        requires
            self.well_formed(),
        ensures
            r == self@.len(),
    {
        self.length
    }

    /// Like `dequeue`, with the impossible error case unwrapped away.
    pub fn dequeue_unchecked(&mut self) -> (r: Option<T>)
        requires
            old(self).well_formed(),
        ensures
            final(self).well_formed(),
            old(self)@.len() == 0 ==> r is None && final(self)@ == old(self)@,
            old(self)@.len() > 0 ==> {
                &&& r == Some(old(self)@.first())
                &&& final(self)@ == old(self)@.drop_first()
            },
    {
        self.dequeue().unwrap()
    }
}

impl<T> Default for Queue<T> {
    /// An empty queue, as `new` makes it.
    fn default() -> (q: Self)
        ensures
            q.well_formed(),
            q@ == Seq::<T>::empty(),
    {
        Self::new()
    }
}

} // verus!
