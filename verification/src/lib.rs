//! Decision core of an adaptive tuning daemon for wireless links.
//!
//! Every tick the daemon observes link telemetry and derives what to do about
//! traffic shaping, interrupt coalescing, power save and band steering. This
//! crate holds the filters and the stability gates that turn noisy readings
//! into rare, deliberate actions. It performs no I/O: the host reads the
//! counters and the clock, and carries out the actions that come back.

pub mod command;
pub mod config;
pub mod firmware;
pub mod fixed;
pub mod gate;
pub mod network;
pub mod text;
