//! A bounded first-in-first-out queue that evicts its oldest element when a
//! push would exceed its capacity.

use vstd::prelude::*;

verus! {

/// A queue holding at most a fixed number of elements; pushing onto a full
/// queue drops the element at the front.
#[derive(Debug)]
pub struct Queue<T>(pub Vec<T>, usize);

impl<T> View for Queue<T> {
    type V = Seq<T>;

    closed spec fn view(&self) -> Seq<T> {
        self.0@
    }
}

impl<T> Queue<T> {
    /// The fixed capacity this queue was created with.
    pub closed spec fn capacity(self) -> usize {
        self.1
    }

    /// Creates an empty queue with the given capacity.
    pub fn new(max_size: usize) -> (q: Queue<T>)
        ensures
            q@ == Seq::<T>::empty(),
            q.capacity() == max_size,
    {
        Queue(Vec::with_capacity(max_size), max_size)
    }

    /// Appends a value; if the queue is at capacity, the front element is
    /// dropped first.
    pub fn push(&mut self, value: T)
        requires
            old(self)@.len() == 0 ==> old(self).capacity() != 0,
        ensures
            final(self).capacity() == old(self).capacity(),
            final(self)@ == (if old(self)@.len() == old(self).capacity() {
                old(self)@.subrange(1, old(self)@.len() as int).push(value)
            } else {
                old(self)@.push(value)
            }),
    {
        if self.0.len() == self.1 {
            self.0.remove(0);
            proof {
                assert(self.0@ =~= old(self)@.subrange(1, old(self)@.len() as int));
            }
        }
        self.0.push(value);
    }
}

} // verus!
