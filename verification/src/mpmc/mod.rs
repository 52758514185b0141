//! Multi-producer, multi-consumer ring with relaxed ordering.
//!
//! Producers reserve batches of positions from a shared claim cursor and
//! publish into whichever slot of their batch is free first. Consumers
//! scan the slots from a cursor of their own and claim the first
//! published one they meet; there is no shared head. Nothing orders the
//! values, not even those of one producer: what holds is that each comes
//! out once.

pub mod awaited_batch;
pub mod backstop_monitor;
pub mod config;
pub mod consumed_watermark;
pub mod consumer;
pub mod done_word;
pub mod history;
pub mod laws;
pub mod producer;
pub mod ready_word;
pub mod rescue_evidence;
pub mod ring;
pub mod ring_model;
pub mod ring_snapshot;
pub mod scan_budget;
pub mod session;
pub mod slot_table;
pub mod steps;

pub use config::{Cfg, Config, DefaultConfig};
pub use consumer::{Consumer, SlotReader};
pub use producer::{Producer, SlotWriter, WrittenSlot};
pub use ring::RingBuffer;
