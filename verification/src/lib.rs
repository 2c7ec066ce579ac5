//! Verified core of a gaming-oriented UDP tunnel: configuration parsing,
//! packet framing, keystream obfuscation, forward error correction blocks,
//! reorder buffering and the per-packet decisions of the transmit and
//! receive pipelines.

pub mod clock;
pub mod crypto;
pub mod buffer;
pub mod protocol;
pub mod config;
pub mod fec;
pub mod jitter;
pub mod pipeline;
pub mod session;
