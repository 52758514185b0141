//! Multi-producer, multi-consumer ring whose consumers scan for what is
//! published, without any way to sleep.
//!
//! The slots, batches and scans are those of [`mpmc`](crate::mpmc).
//! There is no parking: a producer whose reserved positions are all held
//! up keeps asking for the lowest of them, and a consumer that finds
//! nothing returns.

pub mod consumer;
pub mod history;
pub mod laws;
pub mod producer;
pub mod ring;
pub mod session;

pub use consumer::Consumer;
pub use producer::{Producer, Refused};
pub use ring::RingBuffer;
