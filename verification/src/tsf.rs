//! t-sirji-fs — a device that serves one directory over sirji.
//!
//! The device's own configuration, its application protocol, and the decisions
//! it makes when a peer knocks: whether the ticket admits them, which path a
//! request names, and the order a listing comes in.

pub mod config;
pub mod proto;
pub mod serve;
pub mod enrol;

