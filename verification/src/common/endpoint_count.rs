//! How many live handles one side of a ring has.

use vstd::prelude::*;

verus! {

/// Counts live handles. The count starts at one, for the handle that a
/// split hands out.
#[derive(Clone, Copy, Debug, PartialEq, Eq, Structural)]
pub struct EndpointCount {
    pub live: usize,
}

impl EndpointCount {
    pub fn new() -> (count: Self)
        ensures
            count.live == 1,
    {
        EndpointCount { live: 1 }
    }

    /// Counts one more handle.
    pub fn register(&mut self)
        requires
            old(self).live < usize::MAX,
        ensures
            final(self).live == old(self).live + 1,
    {
        self.live = self.live + 1;
    }

    /// Counts one handle less and tells whether it was the last.
    pub fn release(&mut self) -> (last: bool)
        requires
            old(self).live > 0,
        ensures
            final(self).live == old(self).live - 1,
            last == (final(self).live == 0),
    {
        self.live = self.live - 1;
        self.live == 0
    }
}

} // verus!
