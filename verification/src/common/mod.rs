//! What the rings share: the bitmaps, waiters and counters that their
//! endpoints coordinate through.

pub mod bits;
pub mod close_state;
pub mod cursors;
pub mod endpoint_count;
pub mod laws;
pub mod park;
pub mod park_registry;
pub mod sole_waiter;
pub mod step;
pub mod wake_delivery;
pub mod wake_interest;
