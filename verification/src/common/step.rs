//! What one lap of a blocking call, or one poll of an asynchronous one,
//! comes to.
//!
//! A blocking call alternates attempts with waiting. Each attempt is one
//! indivisible step of the ring, and its answer says what the caller has
//! to do next: return, spin for a moment and come back, or park until it
//! is unparked and come back. Before it asks a caller to park, the ring
//! has recorded that it sleeps, so no later step can miss it.

use vstd::prelude::*;

verus! {

/// One lap of a blocking push.
pub enum PushStep<T> {
    /// The call is over: the value went in, or came back because no
    /// consumer is left.
    Done(Result<(), T>),
    /// Nothing was free; spin and try again.
    Spin(T),
    /// Nothing was free; the caller is on record as asleep.
    Park(T),
}

/// One lap of a blocking reservation.
pub enum ReserveStep<W> {
    /// The call is over: with a reservation, or without one because no
    /// consumer is left.
    Done(Option<W>),
    /// Nothing was free; spin and try again.
    Spin,
    /// Nothing was free; the caller is on record as asleep.
    Park,
}

/// One lap of a blocking pop, of a value or of a reader.
pub enum PopStep<V> {
    /// The call is over: with a value, or without one because the ring
    /// is closed and empty.
    Done(Option<V>),
    /// Nothing was there; spin and try again.
    Spin,
    /// Nothing was there; the caller is on record as asleep.
    Park,
}

/// One lap of a blocking drain.
#[derive(Clone, Copy, Debug, PartialEq, Eq, Structural)]
pub enum DrainStep {
    /// The call is over: the ring is closed and empty.
    Done,
    /// Nothing is left for now; spin and try again.
    Spin,
    /// Nothing is left for now; the caller is on record as asleep.
    Park,
}

/// One poll of an asynchronous push.
pub enum PushPoll<T> {
    /// The future is complete.
    Ready(Result<(), T>),
    /// Nothing was free; the task is on record as waiting.
    Pending(T),
}

/// One poll of an asynchronous pop.
pub enum PopPoll<T> {
    /// The future is complete.
    Ready(Option<T>),
    /// Nothing was there; the task is on record as waiting.
    Pending,
}

} // verus!
