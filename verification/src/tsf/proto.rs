//! The t-sirji-fs application protocol.
//!
//! This is an app's own protocol, not part of sirji. sirji hands us an
//! authenticated stream and tells us who is on the other end; what we say over
//! it is entirely ours.

use vstd::prelude::*;

use crate::ticket::Ticket;

verus! {

/// The first line a caller sends: the ticket its parent issued, if any.
#[derive(Debug, Clone)]
pub struct Knock {
    pub ticket: Option<Ticket>,
}

/// A request.
#[derive(Debug, Clone)]
pub enum Ask {
    /// What is in this directory, relative to the served root?
    List { path: String },
    /// Send me this file.
    Get { path: String },
}

/// A reply.
#[derive(Debug, Clone)]
pub enum Say {
    /// The entries of a directory.
    Listing { entries: Vec<Entry> },
    /// The header for a file; `bytes` of content follow on the same stream.
    File { name: String, bytes: u64 },
    /// Refused, and why.
    No { reason: String },
}

/// One entry of a listing.
#[derive(Debug, Clone)]
pub struct Entry {
    pub name: String,
    pub dir: bool,
    pub bytes: u64,
}

} // verus!
