//! Single-producer, single-consumer ring with ordered delivery.
//!
//! The producer writes at the tail and the consumer reads at the head.
//! Neither handle can be cloned, so each cursor has one owner.

pub mod consumer;
pub mod laws;
pub mod producer;
pub mod ring;

pub use consumer::{Consumer, SlotReader};
pub use producer::{Producer, SlotWriter, WrittenSlot};
pub use ring::RingBuffer;
