//! Whether one side of a ring has left for good.

use vstd::prelude::*;

verus! {

/// Set once, when the last endpoint of a side is gone; never cleared.
#[derive(Clone, Copy, Debug, PartialEq, Eq, Structural)]
pub struct CloseState {
    pub closed: bool,
}

impl CloseState {
    pub fn new() -> (state: Self)
        ensures
            !state.closed,
    {
        CloseState { closed: false }
    }

    pub fn close(&mut self)
        ensures
            final(self).closed,
    {
        self.closed = true;
    }

    pub fn is_closed(&self) -> (closed: bool)
        ensures
            closed == self.closed,
    {
        self.closed
    }
}

} // verus!
