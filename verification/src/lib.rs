//! A fixed-capacity, double-ended circular buffer for allocation-free,
//! interrupt-driven environments.
//!
//! `RingBuf<T, N>` stores up to `N` copyable elements and supports O(1)
//! insertion and removal at both ends. No operation blocks: a push into a
//! full buffer and a pop from an empty one fail immediately with
//! [`Error::WouldBlock`] and leave the buffer untouched.

pub mod buffer;
pub mod laws;

pub use buffer::Error;
pub use buffer::RingBuf;
