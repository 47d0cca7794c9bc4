//! The sealed ticket.
//!
//! When a caller resolves `name@sirji`, that sirji returns the device's id52 and
//! a ticket. The device verifies the ticket and thereby learns who is knocking
//! and as what, without holding any identity state of its own. What must be true
//! is that a ticket cannot be forged or lent: the signature gives the first,
//! binding `caller` gives the second.

use vstd::prelude::*;
use vstd::utf8::encode_utf8;

use crate::codec::{
    ascii_bytes, base64url_decode, base64url_decoding, base64url_encode, base64url_text, fault_text,
    is_base64url_symbol, DecodeFault,
};
use crate::id52::{decode, decoding, encode, id52_error_text, id52_text, Id52Error};
use crate::text::{decimal, decimal_string, owned};
use crate::keys::{bytes32, public_of, signature_of, signature_verifies, PublicKey, SecretKey};

verus! {

/// How long a freshly minted ticket is good for, in seconds.
pub const LIFETIME_SECS: u64 = 300;

/// A ticket: who may reach which name, until when, signed by whom.
#[derive(Debug, Clone)]
pub struct Ticket {
    /// The name that was asked for.
    pub name: String,
    /// The key that will present this, as an id52.
    pub caller: String,
    /// Who the caller is, from the issuer's `network.toml`.
    pub alias: Option<String>,
    /// Unix seconds after which this is refused.
    pub valid_until: u64,
    /// The handshake key that signed, as an id52.
    pub issuer: String,
    /// The signature over the fields above, base64url.
    pub signature: String,
}

/// The four bytes of `n`, most significant first.
pub open spec fn be32(n: u32) -> Seq<u8> {
    seq![(n >> 24) as u8, ((n >> 16) & 0xff) as u8, ((n >> 8) & 0xff) as u8, (n & 0xff) as u8]
}

/// The eight bytes of `n`, most significant first.
pub open spec fn be64(n: u64) -> Seq<u8> {
    seq![
        (n >> 56) as u8,
        ((n >> 48) & 0xff) as u8,
        ((n >> 40) & 0xff) as u8,
        ((n >> 32) & 0xff) as u8,
        ((n >> 24) & 0xff) as u8,
        ((n >> 16) & 0xff) as u8,
        ((n >> 8) & 0xff) as u8,
        (n & 0xff) as u8,
    ]
}

/// A field as it is signed: its length as four big-endian bytes, then the bytes.
pub open spec fn framed(field: Seq<u8>) -> Seq<u8> {
    be32(field.len() as u32) + field
}

/// The alias as signed: an absent one is signed as the empty text.
pub open spec fn alias_text(alias: Option<Seq<char>>) -> Seq<char> {
    match alias {
        Some(a) => a,
        None => Seq::empty(),
    }
}

/// The exact bytes that are signed: the four text fields framed in order —
/// name, caller, alias, issuer — then the expiry as eight big-endian bytes.
pub open spec fn signed_message(
    name: Seq<char>,
    caller: Seq<char>,
    alias: Option<Seq<char>>,
    valid_until: u64,
    issuer: Seq<char>,
) -> Seq<u8> {
    framed(encode_utf8(name)) + framed(encode_utf8(caller)) + framed(encode_utf8(alias_text(alias)))
        + framed(encode_utf8(issuer)) + be64(valid_until)
}

/// The view of an optional string.
pub open spec fn opt_view(o: Option<String>) -> Option<Seq<char>> {
    match o {
        Some(s) => Some(s@),
        None => None,
    }
}

/// The view of an optional borrowed string.
pub open spec fn opt_str_view(o: Option<&str>) -> Option<Seq<char>> {
    match o {
        Some(s) => Some(s@),
        None => None,
    }
}

fn push_be32(out: &mut Vec<u8>, n: u32)
    ensures
        final(out)@ == old(out)@ + be32(n),
{
    out.push((n >> 24) as u8);
    out.push(((n >> 16) & 0xff) as u8);
    out.push(((n >> 8) & 0xff) as u8);
    out.push((n & 0xff) as u8);
    assert(out@ =~= old(out)@ + be32(n));
}

fn push_be64(out: &mut Vec<u8>, n: u64)
    ensures
        final(out)@ == old(out)@ + be64(n),
{
    out.push((n >> 56) as u8);
    out.push(((n >> 48) & 0xff) as u8);
    out.push(((n >> 40) & 0xff) as u8);
    out.push(((n >> 32) & 0xff) as u8);
    out.push(((n >> 24) & 0xff) as u8);
    out.push(((n >> 16) & 0xff) as u8);
    out.push(((n >> 8) & 0xff) as u8);
    out.push((n & 0xff) as u8);
    assert(out@ =~= old(out)@ + be64(n));
}

fn push_framed(out: &mut Vec<u8>, field: &str)
    ensures
        final(out)@ == old(out)@ + framed(encode_utf8(field@)),
{
    let bytes = field.as_bytes();
    push_be32(out, bytes.len() as u32);
    out.extend_from_slice(bytes);
    assert(out@ =~= old(out)@ + framed(encode_utf8(field@)));
}

/// The exact bytes that are signed.
///
/// Length-prefixed rather than concatenated, so no combination of field values
/// can be rearranged into a different ticket with the same signature.
pub fn signed_bytes(name: &str, caller: &str, alias: Option<&str>, valid_until: u64, issuer: &str) -> (out: Vec<u8>)
    ensures
        out@ == signed_message(name@, caller@, opt_str_view(alias), valid_until, issuer@),
{
    let mut out: Vec<u8> = Vec::new();
    push_framed(&mut out, name);
    push_framed(&mut out, caller);
    match alias {
        Some(a) => push_framed(&mut out, a),
        None => push_framed(&mut out, ""),
    }
    push_framed(&mut out, issuer);
    push_be64(&mut out, valid_until);
    proof {
        assert(alias is None ==> ""@ == Seq::<char>::empty()) by {
            reveal_strlit("");
        }
        assert(out@ =~= signed_message(name@, caller@, opt_str_view(alias), valid_until, issuer@));
    }
    out
}

proof fn lemma_be32_injective(a: u32, b: u32)
    requires
        be32(a) == be32(b),
    ensures
        a == b,
{
    assert(be32(a)[0] == be32(b)[0]);
    assert(be32(a)[1] == be32(b)[1]);
    assert(be32(a)[2] == be32(b)[2]);
    assert(be32(a)[3] == be32(b)[3]);
    assert(((a >> 24) as u8 == (b >> 24) as u8 && ((a >> 16) & 0xff) as u8 == ((b >> 16) & 0xff) as u8
        && ((a >> 8) & 0xff) as u8 == ((b >> 8) & 0xff) as u8 && (a & 0xff) as u8 == (b & 0xff) as u8)
        ==> a == b) by (bit_vector);
}

proof fn lemma_be64_injective(a: u64, b: u64)
    requires
        be64(a) == be64(b),
    ensures
        a == b,
{
    assert(be64(a)[0] == be64(b)[0]);
    assert(be64(a)[1] == be64(b)[1]);
    assert(be64(a)[2] == be64(b)[2]);
    assert(be64(a)[3] == be64(b)[3]);
    assert(be64(a)[4] == be64(b)[4]);
    assert(be64(a)[5] == be64(b)[5]);
    assert(be64(a)[6] == be64(b)[6]);
    assert(be64(a)[7] == be64(b)[7]);
    assert(((a >> 56) as u8 == (b >> 56) as u8 && ((a >> 48) & 0xff) as u8 == ((b >> 48) & 0xff) as u8
        && ((a >> 40) & 0xff) as u8 == ((b >> 40) & 0xff) as u8 && ((a >> 32) & 0xff) as u8 == ((b >> 32)
        & 0xff) as u8 && ((a >> 24) & 0xff) as u8 == ((b >> 24) & 0xff) as u8 && ((a >> 16) & 0xff) as u8
        == ((b >> 16) & 0xff) as u8 && ((a >> 8) & 0xff) as u8 == ((b >> 8) & 0xff) as u8 && (a & 0xff) as u8
        == (b & 0xff) as u8) ==> a == b) by (bit_vector);
}

/// A framed field can be read back off the front of whatever follows it.
proof fn lemma_framed_prefix(a: Seq<u8>, b: Seq<u8>, ra: Seq<u8>, rb: Seq<u8>)
    requires
        a.len() <= u32::MAX,
        b.len() <= u32::MAX,
        framed(a) + ra == framed(b) + rb,
    ensures
        a == b,
        ra == rb,
{
    let x = framed(a) + ra;
    let y = framed(b) + rb;
    assert(x.subrange(0, 4) =~= be32(a.len() as u32));
    assert(y.subrange(0, 4) =~= be32(b.len() as u32));
    lemma_be32_injective(a.len() as u32, b.len() as u32);
    assert(a.len() == b.len());
    assert(x.subrange(4, 4 + a.len() as int) =~= a);
    assert(y.subrange(4, 4 + b.len() as int) =~= b);
    assert(x.subrange(4 + a.len() as int, x.len() as int) =~= ra);
    assert(y.subrange(4 + b.len() as int, y.len() as int) =~= rb);
}

/// Two texts with the same UTF-8 encoding are the same text.
proof fn lemma_utf8_injective(a: Seq<char>, b: Seq<char>)
    requires
        encode_utf8(a) == encode_utf8(b),
    ensures
        a == b,
{
    vstd::utf8::encode_utf8_decode_utf8(a);
    vstd::utf8::encode_utf8_decode_utf8(b);
}

/// The byte-level reading of a signed message: four framed fields, then eight
/// bytes, can be taken apart again.
proof fn lemma_frames_injective(
    n1: Seq<u8>, c1: Seq<u8>, a1: Seq<u8>, i1: Seq<u8>, u1: u64,
    n2: Seq<u8>, c2: Seq<u8>, a2: Seq<u8>, i2: Seq<u8>, u2: u64,
)
    requires
        n1.len() <= u32::MAX, c1.len() <= u32::MAX, a1.len() <= u32::MAX, i1.len() <= u32::MAX,
        n2.len() <= u32::MAX, c2.len() <= u32::MAX, a2.len() <= u32::MAX, i2.len() <= u32::MAX,
        framed(n1) + framed(c1) + framed(a1) + framed(i1) + be64(u1)
            == framed(n2) + framed(c2) + framed(a2) + framed(i2) + be64(u2),
    ensures
        n1 == n2, c1 == c2, a1 == a2, i1 == i2, u1 == u2,
{
    let r1 = framed(c1) + framed(a1) + framed(i1) + be64(u1);
    let r2 = framed(c2) + framed(a2) + framed(i2) + be64(u2);
    assert(framed(n1) + framed(c1) + framed(a1) + framed(i1) + be64(u1) =~= framed(n1) + r1);
    assert(framed(n2) + framed(c2) + framed(a2) + framed(i2) + be64(u2) =~= framed(n2) + r2);
    lemma_framed_prefix(n1, n2, r1, r2);
    let s1 = framed(a1) + framed(i1) + be64(u1);
    let s2 = framed(a2) + framed(i2) + be64(u2);
    assert(r1 =~= framed(c1) + s1);
    assert(r2 =~= framed(c2) + s2);
    lemma_framed_prefix(c1, c2, s1, s2);
    let t1 = framed(i1) + be64(u1);
    let t2 = framed(i2) + be64(u2);
    assert(s1 =~= framed(a1) + t1);
    assert(s2 =~= framed(a2) + t2);
    lemma_framed_prefix(a1, a2, t1, t2);
    lemma_framed_prefix(i1, i2, be64(u1), be64(u2));
    lemma_be64_injective(u1, u2);
}

/// Fields cannot be shuffled across the boundary: two signed messages are equal
/// only when every field is, provided each text field is under 4 GiB of UTF-8
/// (the length prefix is four bytes). An absent alias and an empty one are
/// signed alike, so it is the alias text that is pinned down.
pub proof fn lemma_signed_message_injective(
    name1: Seq<char>,
    caller1: Seq<char>,
    alias1: Option<Seq<char>>,
    until1: u64,
    issuer1: Seq<char>,
    name2: Seq<char>,
    caller2: Seq<char>,
    alias2: Option<Seq<char>>,
    until2: u64,
    issuer2: Seq<char>,
)
    requires
        encode_utf8(name1).len() <= u32::MAX,
        encode_utf8(caller1).len() <= u32::MAX,
        encode_utf8(alias_text(alias1)).len() <= u32::MAX,
        encode_utf8(issuer1).len() <= u32::MAX,
        encode_utf8(name2).len() <= u32::MAX,
        encode_utf8(caller2).len() <= u32::MAX,
        encode_utf8(alias_text(alias2)).len() <= u32::MAX,
        encode_utf8(issuer2).len() <= u32::MAX,
        signed_message(name1, caller1, alias1, until1, issuer1) == signed_message(
            name2,
            caller2,
            alias2,
            until2,
            issuer2,
        ),
    ensures
        name1 == name2,
        caller1 == caller2,
        alias_text(alias1) == alias_text(alias2),
        until1 == until2,
        issuer1 == issuer2,
{
    lemma_frames_injective(
        encode_utf8(name1), encode_utf8(caller1), encode_utf8(alias_text(alias1)), encode_utf8(issuer1), until1,
        encode_utf8(name2), encode_utf8(caller2), encode_utf8(alias_text(alias2)), encode_utf8(issuer2), until2,
    );
    lemma_utf8_injective(name1, name2);
    lemma_utf8_injective(caller1, caller2);
    lemma_utf8_injective(alias_text(alias1), alias_text(alias2));
    lemma_utf8_injective(issuer1, issuer2);
}

/// `std::time::SystemTime`, carried through opaquely.
#[verifier::external_type_specification]
#[verifier::external_body]
pub struct ExSystemTime(std::time::SystemTime);

/// `std::time::SystemTime::now`: the clock, so nothing is promised of it.
#[verifier::external_body]
fn system_now() -> std::time::SystemTime {
    std::time::SystemTime::now()
}

/// `SystemTime::duration_since(UNIX_EPOCH)`, its error dropped. The answer
/// depends on the clock reading, so nothing is promised of it.
#[verifier::external_body]
fn since_epoch(t: &std::time::SystemTime) -> Option<std::time::Duration> {
    t.duration_since(std::time::UNIX_EPOCH).ok()
}

/// `Duration::as_secs`. Nothing is promised: a duration is opaque here.
#[verifier::external_body]
fn whole_seconds(d: &std::time::Duration) -> u64 {
    d.as_secs()
}

/// The current Unix time in whole seconds, or 0 if the clock reads earlier
/// than the epoch. What the clock says is not for the library to promise.
pub fn now() -> u64 {
    match since_epoch(&system_now()) {
        Some(d) => whole_seconds(&d),
        None => 0,
    }
}

/// What base64url decoding makes of `input`: nothing when it is too long to
/// measure or holds a byte outside the alphabet, and otherwise the bytes the
/// codec gives back, if it gives any.
pub open spec fn base64url_decoded(input: Seq<u8>) -> Option<Seq<u8>> {
    if input.len() > usize::MAX / 8 {
        None
    } else if exists|i: int| 0 <= i < input.len() && !is_base64url_symbol(#[trigger] input[i] as char) {
        None
    } else {
        match base64url_decoding(input) {
            Ok(bytes) => Some(bytes),
            Err(_) => None,
        }
    }
}

/// Why the codec refused `input`, when it was asked and refused.
pub open spec fn base64url_refusal(input: Seq<u8>) -> Option<DecodeFault> {
    if input.len() > usize::MAX / 8 {
        None
    } else {
        match base64url_decoding(input) {
            Ok(_) => None,
            Err(f) => Some(f),
        }
    }
}

/// Why a ticket was refused. Each check says which failed, so an operator
/// debugging a refusal does not have to guess.
#[derive(Debug, Clone)]
pub enum TicketError {
    /// The issuer is not one of the device's parents.
    NotOurParent { issuer: String },
    /// The key presenting the ticket is not the one it was issued to.
    NotPresentedBy { caller: String, presented: String },
    /// The ticket ran out this many seconds ago.
    Expired { seconds_ago: u64 },
    /// The issuer field is not an id52.
    BadIssuer { issuer: String, error: Id52Error },
    /// The signature is not base64url; the codec's reason, when it was asked.
    UnreadableSignature { fault: Option<DecodeFault> },
    /// The signature decodes to the wrong number of bytes.
    SignatureLength { len: usize },
    /// The signature does not verify.
    BadSignature,
}

/// What `verify` says when it refuses a ticket with `e`.
pub open spec fn ticket_error_text(e: TicketError) -> Seq<char> {
    match e {
        TicketError::NotOurParent { issuer } => "ticket was signed by "@ + issuer@ + ", which is not our parent"@,
        TicketError::NotPresentedBy { caller, presented } => "ticket was issued to "@ + caller@ + ", but "@
            + presented@ + " presented it"@,
        TicketError::Expired { seconds_ago } => "ticket expired "@ + decimal(seconds_ago as nat) + " seconds ago"@,
        TicketError::BadIssuer { issuer, error } => id52_error_text(error, issuer@),
        TicketError::UnreadableSignature { fault } => match fault {
            Some(f) => "unreadable signature: "@ + fault_text(f),
            None => "unreadable signature"@,
        },
        TicketError::SignatureLength { .. } => "a signature is 64 bytes"@,
        TicketError::BadSignature => "the signature does not verify"@,
    }
}

impl TicketError {
    /// What the refusal says.
    pub fn message(&self) -> (m: String)
        ensures
            m@ == ticket_error_text(*self),
    {
        match self {
            TicketError::NotOurParent { issuer } => {
                let mut m = owned("ticket was signed by ");
                m.append(issuer.as_str());
                m.append(", which is not our parent");
                m
            },
            TicketError::NotPresentedBy { caller, presented } => {
                let mut m = owned("ticket was issued to ");
                m.append(caller.as_str());
                m.append(", but ");
                m.append(presented.as_str());
                m.append(" presented it");
                m
            },
            TicketError::Expired { seconds_ago } => {
                let mut m = owned("ticket expired ");
                m.append(decimal_string(*seconds_ago).as_str());
                m.append(" seconds ago");
                m
            },
            TicketError::BadIssuer { issuer, error } => error.message(issuer.as_str()),
            TicketError::UnreadableSignature { fault } => match fault {
                Some(f) => {
                    let mut m = owned("unreadable signature: ");
                    m.append(f.message().as_str());
                    m
                },
                None => owned("unreadable signature"),
            },
            TicketError::SignatureLength { .. } => owned("a signature is 64 bytes"),
            TicketError::BadSignature => owned("the signature does not verify"),
        }
    }
}

/// Which check refused a ticket.
pub enum TicketFault {
    NotOurParent,
    NotPresentedBy,
    Expired,
    BadIssuer(Id52Error),
    UnreadableSignature,
    SignatureLength,
    BadSignature,
}

/// The check an error reports.
pub open spec fn fault_of(e: TicketError) -> TicketFault {
    match e {
        TicketError::NotOurParent { .. } => TicketFault::NotOurParent,
        TicketError::NotPresentedBy { .. } => TicketFault::NotPresentedBy,
        TicketError::Expired { .. } => TicketFault::Expired,
        TicketError::BadIssuer { error, .. } => TicketFault::BadIssuer(error),
        TicketError::UnreadableSignature { .. } => TicketFault::UnreadableSignature,
        TicketError::SignatureLength { .. } => TicketFault::SignatureLength,
        TicketError::BadSignature => TicketFault::BadSignature,
    }
}

/// `issuer` is one of `parents`.
pub open spec fn listed(parents: Seq<String>, issuer: Seq<char>) -> bool {
    exists|i: int| 0 <= i < parents.len() && #[trigger] parents[i]@ == issuer
}

/// The message a ticket's signature must cover.
pub open spec fn message_of(t: Ticket) -> Seq<u8> {
    signed_message(t.name@, t.caller@, opt_view(t.alias), t.valid_until, t.issuer@)
}

/// The first check a ticket fails when the key `presenter` shows it at time
/// `now` to a device whose parents are `parents`, if any: the issuer must be a
/// parent, the presenter the caller it names, the time not past its expiry, and
/// the signature must be 64 readable bytes that verify under the issuer's key.
pub open spec fn ticket_fault(t: Ticket, presenter: Seq<u8>, parents: Seq<String>, now: u64) -> Option<TicketFault> {
    if !listed(parents, t.issuer@) {
        Some(TicketFault::NotOurParent)
    } else if id52_text(presenter) != t.caller@ {
        Some(TicketFault::NotPresentedBy)
    } else if now > t.valid_until {
        Some(TicketFault::Expired)
    } else {
        match decoding(t.issuer@) {
            Err(e) => Some(TicketFault::BadIssuer(e)),
            Ok(key) => match base64url_decoded(encode_utf8(t.signature@)) {
                None => Some(TicketFault::UnreadableSignature),
                Some(sig) => if sig.len() != 64 {
                    Some(TicketFault::SignatureLength)
                } else if !signature_verifies(key, message_of(t), sig) {
                    Some(TicketFault::BadSignature)
                } else {
                    None
                },
            },
        }
    }
}

/// What an error says beyond which check failed.
pub open spec fn error_details(e: TicketError, t: Ticket, presenter: Seq<u8>, now: u64) -> bool {
    match e {
        TicketError::NotOurParent { issuer } => issuer == t.issuer,
        TicketError::NotPresentedBy { caller, presented } => caller == t.caller && presented@ == id52_text(presenter),
        TicketError::Expired { seconds_ago } => seconds_ago == now - t.valid_until,
        TicketError::BadIssuer { issuer, .. } => issuer == t.issuer,
        TicketError::UnreadableSignature { fault } => fault == base64url_refusal(encode_utf8(t.signature@)),
        TicketError::SignatureLength { len } => base64url_decoded(encode_utf8(t.signature@)) matches Some(sig)
            && sig.len() == len,
        _ => true,
    }
}

fn is_listed(parents: &[String], issuer: &String) -> (found: bool)
    ensures
        found == listed(parents@, issuer@),
{
    let mut i: usize = 0;
    while i < parents.len()
        invariant
            i <= parents@.len(),
            forall|j: int| 0 <= j < i ==> #[trigger] parents@[j]@ != issuer@,
        decreases parents@.len() - i,
    {
        if parents[i] == *issuer {
            assert(parents@[i as int]@ == issuer@);
            return true;
        }
        i = i + 1;
    }
    false
}

impl Ticket {
    /// Mint a ticket for `caller` to reach `name`, good until `valid_until`,
    /// signed by `issuer`.
    ///
    /// The issuer field is the id52 of the issuer's public key (and decodes back
    /// to it), and the signature is the base64url text of the issuer's signature
    /// over exactly the signed message of the ticket's fields.
    pub fn mint_at(issuer: &SecretKey, name: String, caller: String, alias: Option<String>, valid_until: u64) -> (t: Ticket)
        ensures
            t.name == name,
            t.caller == caller,
            t.alias == alias,
            t.valid_until == valid_until,
            t.issuer@ == id52_text(public_of(issuer@)),
            decoding(t.issuer@) == Ok::<Seq<u8>, Id52Error>(public_of(issuer@)),
            signature_of(issuer@, message_of(t)).len() == 64,
            t.signature@ == base64url_text(signature_of(issuer@, message_of(t))),
            base64url_decoded(encode_utf8(t.signature@)) == Some(signature_of(issuer@, message_of(t))),
            minted_by(t, issuer@),
    {
        let issuer_id = encode(&issuer.public());
        let alias_ref: Option<&str> = match &alias {
            Some(a) => Some(a.as_str()),
            None => None,
        };
        let message = signed_bytes(name.as_str(), caller.as_str(), alias_ref, valid_until, issuer_id.as_str());
        let signature = issuer.sign(message.as_slice());
        let text = base64url_encode(signature.as_slice());
        let t = Ticket { name, caller, alias, valid_until, issuer: issuer_id, signature: text };
        proof {
            assert(opt_str_view(alias_ref) == opt_view(t.alias));
            assert(message@ == message_of(t));
            let s = t.signature@;
            assert(vstd::utf8::is_ascii_chars(s)) by {
                assert forall|i: int| 0 <= i < s.len() implies '\0' <= #[trigger] s[i] <= '\u{7f}' by {
                    assert(is_base64url_symbol(s[i]));
                }
            }
            crate::id52::lemma_ascii_encoding(s);
            let b = encode_utf8(s);
            assert(b =~= ascii_bytes(s));
            assert forall|i: int| 0 <= i < b.len() implies is_base64url_symbol(#[trigger] b[i] as char) by {
                assert(is_base64url_symbol(s[i]));
            }
        }
        t
    }

    /// Mint a ticket good for `lifetime_secs` from now. The expiry saturates
    /// at the largest time rather than wrapping.
    pub fn mint(issuer: &SecretKey, name: String, caller: String, alias: Option<String>, lifetime_secs: u64) -> (t: Ticket)
        ensures
            t.name == name,
            t.caller == caller,
            t.alias == alias,
            t.valid_until >= lifetime_secs,
            exists|at: u64| #![trigger clock_reading(at)]
                clock_reading(at) && t.valid_until == expiry(at, lifetime_secs),
            t.issuer@ == id52_text(public_of(issuer@)),
            t.signature@ == base64url_text(signature_of(issuer@, message_of(t))),
            minted_by(t, issuer@),
    {
        let at = now();
        assert(clock_reading(at));
        let valid_until = at.saturating_add(lifetime_secs);
        assert(valid_until == expiry(at, lifetime_secs));
        Self::mint_at(issuer, name, caller, alias, valid_until)
    }

    /// Check a ticket presented by `caller` at time `now`, on behalf of a device
    /// whose parent is one of `parents`. Every condition is checked in turn and
    /// the error says which failed.
    pub fn verify_at(&self, caller: &PublicKey, parents: &[String], now: u64) -> (result: Result<(), TicketError>)
        ensures
            match result {
                Ok(()) => ticket_fault(*self, caller@, parents@, now) is None,
                Err(e) => ticket_fault(*self, caller@, parents@, now) == Some(fault_of(e))
                    && error_details(e, *self, caller@, now),
            },
            result is Ok ==> decoding(self.caller@) == Ok::<Seq<u8>, Id52Error>(caller@),
    {
        if !is_listed(parents, &self.issuer) {
            return Err(TicketError::NotOurParent { issuer: self.issuer.clone() });
        }
        let presented = encode(caller);
        if presented != self.caller {
            return Err(TicketError::NotPresentedBy { caller: self.caller.clone(), presented });
        }
        if now > self.valid_until {
            return Err(TicketError::Expired { seconds_ago: now - self.valid_until });
        }
        let issuer = match decode(self.issuer.as_str()) {
            Ok(k) => k,
            Err(error) => {
                return Err(TicketError::BadIssuer { issuer: self.issuer.clone(), error });
            },
        };
        let input = self.signature.as_str().as_bytes();
        if input.len() > usize::MAX / 8 {
            return Err(TicketError::UnreadableSignature { fault: None });
        }
        let raw = match base64url_decode(input) {
            Ok(raw) => raw,
            Err(fault) => {
                return Err(TicketError::UnreadableSignature { fault: Some(fault) });
            },
        };
        if raw.len() != 64 {
            return Err(TicketError::SignatureLength { len: raw.len() });
        }
        let mut sig = [0u8; 64];
        let mut i: usize = 0;
        while i < 64
            invariant
                i <= 64,
                raw@.len() == 64,
                sig@.len() == 64,
                forall|j: int| 0 <= j < i ==> sig@[j] == raw@[j],
            decreases 64 - i,
        {
            sig[i] = raw[i];
            i = i + 1;
        }
        assert(sig@ =~= raw@);
        let alias_ref: Option<&str> = match &self.alias {
            Some(a) => Some(a.as_str()),
            None => None,
        };
        let message = signed_bytes(
            self.name.as_str(),
            self.caller.as_str(),
            alias_ref,
            self.valid_until,
            self.issuer.as_str(),
        );
        assert(opt_str_view(alias_ref) == opt_view(self.alias));
        if !issuer.verify(message.as_slice(), &sig) {
            return Err(TicketError::BadSignature);
        }
        Ok(())
    }

    /// Check a ticket presented by `caller` now.
    pub fn verify(&self, caller: &PublicKey, parents: &[String]) -> (result: Result<(), TicketError>)
        ensures
            result is Ok ==> listed(parents@, self.issuer@),
            result is Ok ==> decoding(self.caller@) == Ok::<Seq<u8>, Id52Error>(caller@),
            exists|t: u64| #![trigger clock_reading(t)]
                clock_reading(t) && (result is Ok ==> t <= self.valid_until) && (listed(parents@, self.issuer@)
                    && id52_text(caller@) == self.caller@ && t > self.valid_until ==> result == Err::<(), TicketError>(
                    TicketError::Expired { seconds_ago: (t - self.valid_until) as u64 },
                )) && match result {
                    Ok(()) => ticket_fault(*self, caller@, parents@, t) is None,
                    Err(e) => ticket_fault(*self, caller@, parents@, t) == Some(fault_of(e))
                        && error_details(e, *self, caller@, t),
                },
    {
        let t = now();
        assert(clock_reading(t));
        self.verify_at(caller, parents, t)
    }
}

/// A ticket as `secret` minted it: the issuer field decodes to the public
/// half of `secret`, and the signature field decodes to the 64 bytes of the
/// signature `secret` makes over the ticket's message.
pub open spec fn minted_by(t: Ticket, secret: Seq<u8>) -> bool {
    &&& decoding(t.issuer@) == Ok::<Seq<u8>, Id52Error>(public_of(secret))
    &&& signature_of(secret, message_of(t)).len() == 64
    &&& base64url_decoded(encode_utf8(t.signature@)) == Some(signature_of(secret, message_of(t)))
}

/// What `verify_at` makes of a ticket that `mint_at` made: presented by the
/// key it names, to a device that lists its issuer, before it expires, it
/// passes exactly when the issuer's public key accepts the issuer's own
/// signature over the ticket's message. (Ed25519 accepts its own signatures
/// but for a signature whose `R` has small order, which strict verification
/// refuses.) Tampering with any field changes the signed message (see
/// `lemma_signed_message_injective`).
pub proof fn lemma_minted_ticket_passes(t: Ticket, secret: Seq<u8>, presenter: Seq<u8>, parents: Seq<String>, now: u64)
    requires
        minted_by(t, secret),
        listed(parents, t.issuer@),
        id52_text(presenter) == t.caller@,
        now <= t.valid_until,
    ensures
        ticket_fault(t, presenter, parents, now) is None <==> signature_verifies(
            public_of(secret),
            message_of(t),
            signature_of(secret, message_of(t)),
        ),
        !signature_verifies(public_of(secret), message_of(t), signature_of(secret, message_of(t)))
            ==> ticket_fault(t, presenter, parents, now) == Some(TicketFault::BadSignature),
{
}


/// When a ticket minted at `at` for `lifetime_secs` runs out: the sum, or
/// the largest time where the sum would not fit.
pub open spec fn expiry(at: u64, lifetime_secs: u64) -> u64 {
    if at + lifetime_secs > u64::MAX {
        u64::MAX
    } else {
        (at + lifetime_secs) as u64
    }
}

/// `t` is a reading `now` can give: the clock's whole seconds at some call.
pub open spec fn clock_reading(t: u64) -> bool {
    call_ensures(now, (), t)
}

/// A ticket's lifetime runs from its minting: it ends no earlier than the
/// lifetime itself, no later than the minting time plus the lifetime, and
/// exactly then whenever that sum is a time at all.
pub proof fn lemma_expiry_is_minting_plus_lifetime(at: u64, lifetime_secs: u64)
    ensures
        lifetime_secs <= expiry(at, lifetime_secs) <= at + lifetime_secs,
        at <= expiry(at, lifetime_secs),
        at + lifetime_secs <= u64::MAX ==> expiry(at, lifetime_secs) == at + lifetime_secs,
{
}

/// Expiry is checked against the time of presentation: a ticket passes only
/// at a time no later than its `valid_until`; once that time is past, a
/// ticket from a listed issuer presented by its own caller is refused as
/// expired, by the seconds since; and a ticket that passes at some time
/// passes at every earlier time too.
pub proof fn lemma_expiry_checked_against_now(t: Ticket, presenter: Seq<u8>, parents: Seq<String>, now: u64, earlier: u64)
    ensures
        ticket_fault(t, presenter, parents, now) is None ==> now <= t.valid_until,
        listed(parents, t.issuer@) && id52_text(presenter) == t.caller@ && now > t.valid_until
            ==> ticket_fault(t, presenter, parents, now) == Some(TicketFault::Expired),
        ticket_fault(t, presenter, parents, now) is None && earlier <= now
            ==> ticket_fault(t, presenter, parents, earlier) is None,
{
}

/// A ticket minted at clock reading `at` for `lifetime_secs` is refused as
/// expired whenever it is presented after `at + lifetime_secs`, however
/// genuine it is otherwise.
pub proof fn lemma_minted_ticket_expires(
    t: Ticket,
    at: u64,
    lifetime_secs: u64,
    presenter: Seq<u8>,
    parents: Seq<String>,
    now: u64,
)
    requires
        t.valid_until == expiry(at, lifetime_secs),
        now > at + lifetime_secs,
        listed(parents, t.issuer@),
        id52_text(presenter) == t.caller@,
    ensures
        ticket_fault(t, presenter, parents, now) == Some(TicketFault::Expired),
{
    lemma_expiry_is_minting_plus_lifetime(at, lifetime_secs);
}

} // verus!
