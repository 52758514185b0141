//! Single-producer, multi-consumer ring.
//!
//! One producer pushes in order. Consumers claim up to four consecutive
//! positions at a time from the head cursor and take them one by one, so
//! each of them sees the order of the pushes, and each value goes to
//! exactly one of them.

pub mod consumer;
pub mod done_word;
pub mod laws;
pub mod producer;
pub mod ring;

pub use consumer::{Consumer, SlotReader};
pub use producer::{Producer, SlotWriter, WrittenSlot};
pub use ring::RingBuffer;
