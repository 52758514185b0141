//! Multi-producer, single-consumer ring with ordered delivery.
//!
//! Producers claim positions from one tail cursor, and the consumer takes
//! them in the order of the claims. A claim that is given up becomes a
//! tombstone, which the consumer skips.

pub mod consumer;
pub mod laws;
pub mod producer;
pub mod ring;
pub mod seq_slot;

pub use consumer::{Consumer, SlotReader};
pub use producer::{Producer, SlotWriter, WrittenSlot};
pub use ring::RingBuffer;
