//! Firmware for the wireless chip: what a download must hold to be deployed.

pub mod download;
