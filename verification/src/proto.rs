//! What sirjis say to each other, and what the CLI says to its daemon.
//!
//! The messages travel as JSON, one value per line; turning them into and out
//! of JSON is the embedding program's business. An invite additionally travels
//! by paste, QR and chat message as one line of base64url text, and that framing
//! is here.

use vstd::prelude::*;
use vstd::utf8::encode_utf8;

use crate::codec::{ascii_bytes, base64url_decode, base64url_encode, base64url_text, fault_text, is_base64url_symbol, DecodeFault};
use crate::text::{chars_of, lemma_trimmed_surrounded, owned, string_of, trim, trimmed, whitespace};
use crate::ticket::{base64url_decoded, base64url_refusal, Ticket};

verus! {

/// One JSON value per line, both directions, on every channel.
pub const NEWLINE: u8 = 10;

/// Opening message on a peer connection. The dialer's key is already known
/// from the transport, so this never carries identity.
#[derive(Debug, Clone)]
pub enum Hello {
    /// An existing relationship.
    Peer,
    /// A device of ours, connecting to claim its name and stay reachable, with
    /// the socket addresses it listens on.
    Device { hints: Vec<String> },
    /// First contact, answering an invite: `invited_to` is the key the other
    /// side minted for us and sent out of band.
    Invited { invited_to: String, addresses: Vec<String>, dns: Vec<String> },
}

/// The answer to a `Hello`.
#[derive(Debug, Clone)]
pub enum Welcome {
    /// Accepted, with the current address set so the caller can replace what
    /// it holds. (On the wire this variant is tagged `ok`.)
    Accepted { alias: String, addresses: Vec<String>, dns: Vec<String> },
    /// Refused, with a reason that is safe to say out loud.
    No { reason: String },
}

/// What may be asked once a connection has been greeted.
#[derive(Debug, Clone)]
pub enum Ask {
    /// Where is the device answering to `name`, and may `caller` reach it?
    Resolve { name: String, caller: String },
    /// Where is a sibling — another device of the same parent?
    ResolveLocal { name: String },
    /// Resolve `name@alias` on our behalf.
    ResolveFor { name: String, alias: String },
}

/// The answer to an `Ask`.
#[derive(Debug, Clone)]
pub enum Say {
    /// The device's id52, a ticket admitting the caller to it, and where it can
    /// be reached when we know.
    Resolved { device: String, ticket: Ticket, hints: Vec<String> },
    No { reason: String },
}

/// What the CLI asks its daemon.
#[derive(Debug, Clone)]
pub enum Request {
    Status,
    Invite { alias: String },
    Accept { alias: String, invite: Invite },
    Peers,
    DeviceInvite { name: String },
    Devices,
    NewAddress { alias: String },
}

/// What the daemon answers.
#[derive(Debug, Clone)]
pub enum Response {
    Status { home: String, addresses: Vec<AddressInfo>, peers: usize, pending: usize },
    Invite { invite: Invite },
    Accepted { alias: String },
    Peers { peers: Vec<PeerInfo> },
    Devices { devices: Vec<DeviceInfo> },
    NewAddress { alias: String, key: String },
    Error { message: String },
}

/// Everything the other side needs to reach us and recognise us.
#[derive(Debug, Clone)]
pub struct Invite {
    /// Our handshake keys — where to dial.
    pub addresses: Vec<String>,
    /// Our domains.
    pub dns: Vec<String>,
    /// The peer key we minted for them.
    pub identity: String,
    /// Socket addresses we were reachable at when the invite was made.
    pub hints: Vec<String>,
}

/// One of our addresses, for `status`.
#[derive(Debug, Clone)]
pub struct AddressInfo {
    pub alias: String,
    pub key: String,
    pub retired: bool,
    pub bound: bool,
    pub relays: Vec<RelayInfo>,
}

/// A home relay, and whether we are connected to it.
#[derive(Debug, Clone)]
pub struct RelayInfo {
    pub url: String,
    pub connected: bool,
    pub error: Option<String>,
}

/// One of our devices, for `devices`.
#[derive(Debug, Clone)]
pub struct DeviceInfo {
    pub name: String,
    pub keys: Vec<String>,
    pub pending: bool,
    pub live: bool,
}

/// One relationship, for `peers`.
#[derive(Debug, Clone)]
pub struct PeerInfo {
    pub alias: String,
    pub peer: Option<String>,
    pub mine: String,
    pub addresses: Vec<String>,
    pub reached_on: Option<String>,
}

/// The pasted text was not an invite.
#[derive(Debug, Clone, Copy, PartialEq, Eq)]
pub enum InviteError {
    /// The text is not base64url; the codec's reason, when it was asked.
    NotAnInvite { fault: Option<DecodeFault> },
}

/// What `decode` says when a pasted text is not an invite.
pub open spec fn invite_error_text(e: InviteError) -> Seq<char> {
    match e {
        InviteError::NotAnInvite { fault } => match fault {
            Some(f) => "not an invite: "@ + fault_text(f),
            None => "not an invite"@,
        },
    }
}

impl InviteError {
    /// What the refusal says.
    pub fn message(&self) -> (m: String)
        ensures
            m@ == invite_error_text(*self),
    {
        match self {
            InviteError::NotAnInvite { fault } => match fault {
                Some(f) => {
                    let mut m = owned("not an invite: ");
                    m.append(f.message().as_str());
                    m
                },
                None => owned("not an invite"),
            },
        }
    }
}

impl Invite {
    /// An invite's JSON as one line of text: base64url of the JSON's bytes,
    /// opaque enough not to be edited by hand, transparent enough to debug.
    /// The text is made of the base64url alphabet only, so it has no newline;
    /// pasted with any whitespace around it, it decodes back to the JSON.
    pub fn encode_json(json: &str) -> (text: String)
        requires
            encode_utf8(json@).len() <= usize::MAX / 512,
        ensures
            text@ == base64url_text(encode_utf8(json@)),
            forall|i: int| 0 <= i < text@.len() ==> is_base64url_symbol(#[trigger] text@[i]),
            base64url_decoded(ascii_bytes(text@)) == Some(encode_utf8(json@)),
            forall|before: Seq<char>, after: Seq<char>|
                (forall|i: int| 0 <= i < before.len() ==> whitespace(#[trigger] before[i])) && (forall|i: int|
                    0 <= i < after.len() ==> whitespace(#[trigger] after[i])) ==> #[trigger] base64url_decoded(
                    encode_utf8(trimmed(before + text@ + after)),
                ) == Some(encode_utf8(json@)),
    {
        let text = base64url_encode(json.as_bytes());
        proof {
            let b = ascii_bytes(text@);
            assert forall|i: int| 0 <= i < b.len() implies crate::codec::is_base64url_symbol(#[trigger] b[i] as char) by {
                assert(is_base64url_symbol(text@[i]));
            }
            assert forall|before: Seq<char>, after: Seq<char>|
                (forall|i: int| 0 <= i < before.len() ==> whitespace(#[trigger] before[i])) && (forall|i: int|
                    0 <= i < after.len() ==> whitespace(#[trigger] after[i])) implies #[trigger] base64url_decoded(
                    encode_utf8(trimmed(before + text@ + after)),
                ) == Some(encode_utf8(json@)) by {
                lemma_paste_keeps_invite(before, text@, after);
            }
        }
        text
    }

    /// The JSON bytes of a pasted invite: surrounding whitespace is ignored,
    /// and the rest must be base64url.
    pub fn decode_json(text: &str) -> (json: Result<Vec<u8>, InviteError>)
        ensures
            match json {
                Ok(bytes) => base64url_decoded(encode_utf8(trimmed(text@))) == Some(bytes@),
                Err(InviteError::NotAnInvite { fault }) => base64url_decoded(encode_utf8(trimmed(text@))) is None
                    && fault == base64url_refusal(encode_utf8(trimmed(text@))),
            },
    {
        let cs = chars_of(text);
        let t = string_of(trim(cs.as_slice()).as_slice());
        let input = t.as_str().as_bytes();
        if input.len() > usize::MAX / 8 {
            return Err(InviteError::NotAnInvite { fault: None });
        }
        match base64url_decode(input) {
            Ok(bytes) => Ok(bytes),
            Err(fault) => Err(InviteError::NotAnInvite { fault: Some(fault) }),
        }
    }
}

/// A pasted invite reads the same as the invite: whitespace around a
/// base64url text, such as a chat client or a shell adds, never changes what
/// `decode_json` makes of it. With `encode_json`, this gives back the JSON.
pub proof fn lemma_paste_keeps_invite(before: Seq<char>, text: Seq<char>, after: Seq<char>)
    requires
        forall|i: int| 0 <= i < before.len() ==> whitespace(#[trigger] before[i]),
        forall|i: int| 0 <= i < after.len() ==> whitespace(#[trigger] after[i]),
        forall|i: int| 0 <= i < text.len() ==> is_base64url_symbol(#[trigger] text[i]),
    ensures
        base64url_decoded(encode_utf8(trimmed(before + text + after))) == base64url_decoded(ascii_bytes(text)),
{
    if text.len() > 0 {
        assert(is_base64url_symbol(text[0]));
        assert(is_base64url_symbol(text.last()));
    }
    lemma_trimmed_surrounded(before, text, after);
    assert(vstd::utf8::is_ascii_chars(text)) by {
        assert forall|i: int| 0 <= i < text.len() implies '\0' <= #[trigger] text[i] <= '\u{7f}' by {
            assert(is_base64url_symbol(text[i]));
        }
    }
    crate::id52::lemma_ascii_encoding(text);
}

} // verus!
