//! The pair of cursors that a ring with ordered delivery is described by.

use vstd::prelude::*;

verus! {

/// The position to consume next and the position to fill next.
#[derive(Clone, Copy, Debug, PartialEq, Eq, Structural)]
pub struct Cursors {
    pub head: usize,
    pub tail: usize,
}

impl Cursors {
    pub fn new() -> (cursors: Self)
        ensures
            cursors.head == 0,
            cursors.tail == 0,
    {
        Cursors { head: 0, tail: 0 }
    }

    /// The number of positions between the cursors. The subtraction
    /// wraps, so it stays right across a roll-over of the positions.
    pub fn len(&self) -> (n: usize)
        ensures
            self.head <= self.tail ==> n == self.tail - self.head,
            self.head > self.tail ==> n == usize::MAX - self.head + self.tail + 1,
    {
        self.tail.wrapping_sub(self.head)
    }

    /// Whether the cursors meet.
    pub fn is_empty(&self) -> (empty: bool)
        ensures
            empty == (self.head == self.tail),
    {
        self.len() == 0
    }

    /// Whether exactly `capacity` positions lie between the cursors.
    pub fn is_full(&self, capacity: usize) -> (full: bool)
        ensures
            self.head <= self.tail ==> full == (self.tail - self.head == capacity),
            self.head > self.tail ==> full == (usize::MAX - self.head + self.tail + 1 == capacity),
    {
        self.len() == capacity
    }
}

} // verus!
