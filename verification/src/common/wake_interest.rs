//! What a parked producer can do with a freed position.

use vstd::prelude::*;

verus! {

/// A parked producer's answer to the release of one position.
#[derive(Clone, Copy, Debug, PartialEq, Eq, Structural)]
pub enum WakeInterest {
    /// The position is in the batch that the producer announced.
    Reserved,
    /// The producer announced nothing; any release may serve it.
    Any,
    /// The producer is pinned to other positions and cannot use it.
    Declines,
}

} // verus!
