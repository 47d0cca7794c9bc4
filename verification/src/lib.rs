//! sirji — a peer-to-peer network substrate.
//!
//! Two kinds of key, and keeping them apart is the whole design: a handshake key
//! is an address (what we listen on), a peer key is an identity (what we dial
//! from, shown to exactly one peer). This crate holds the logic that decides
//! things about them: the id52 text form, the known net in `network.toml`, the
//! sealed ticket, the keystore's layout, the operational settings, the daemon's
//! decisions, the doctor's verdicts, and the t-sirji-fs device that serves a
//! directory to the peers its parent admits.

pub mod codec;
pub mod keys;
pub mod id52;
pub mod text;
pub mod order;
pub mod config;
pub mod ticket;
pub mod proto;
pub mod daemon;
pub mod keystore;
pub mod settings;
pub mod tsf;
pub mod doctor;

