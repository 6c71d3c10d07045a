//! Link telemetry and the decisions derived from it.

pub mod governor;
pub mod roam;
pub mod stats;
pub mod tc;
