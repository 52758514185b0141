//! Bounded ring buffers with every operation stated as a step on plain
//! state and proved against an abstract model.
//!
//! Each ring owns its slots and its shared words. A handle (`Producer`,
//! `Consumer`, a slot guard) owns what is private to one endpoint, and
//! every operation takes the handle together with the ring it works on.
//! One call is one indivisible step of the ring, so whoever shares a
//! ring between threads serializes the calls and performs the sleeping
//! and waking that the ring asks for.

pub mod capacity;
pub mod common;
pub mod mpmc;
pub mod mpmc_scan;
pub mod mpsc;
pub mod spmc;
pub mod spsc;
