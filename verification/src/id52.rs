//! id52 — the text form of a public key.
//!
//! An ed25519 public key is 32 bytes, which is 51.2 base32 characters, so 52
//! unpadded. The alphabet is base32hex, lowercase: the DNSSEC alphabet, which is
//! domain-safe and sorts in the same order as the underlying bytes.

use vstd::prelude::*;
use vstd::utf8::{encode_utf8, is_ascii_chars, is_ascii_chars_encode_utf8};

use crate::codec::{
    ascii_bytes, ascii_lower, ascii_upper, base32hex_decode, base32hex_decoding, base32hex_encode, DecodeFault,
    base32hex_text, is_base32hex_symbol, lowercase_of, to_lowercase, to_uppercase, uppercase_of,
};
use crate::codec::fault_text;
use crate::keys::{bytes32, is_curve_point, PublicKey};
use crate::text::{debug_of, debug_str, decimal, decimal_string, owned};

verus! {

/// Every id52 is exactly this long. 32 bytes, base32, unpadded.
pub const LEN: usize = 52;

/// A character of the canonical (lowercase) id52 alphabet.
pub open spec fn is_id52_symbol(c: char) -> bool {
    ('0' <= c && c <= '9') || ('a' <= c && c <= 'v')
}

/// The id52 of a key's bytes: their base32hex text, lower-cased.
pub open spec fn id52_text(key: Seq<u8>) -> Seq<char> {
    lowercase_of(base32hex_text(key))
}

/// What std's upper-casing makes of a text; on ASCII text that is the ASCII
/// upper-casing, which is spelled out so it can be reasoned about.
pub open spec fn upper(text: Seq<char>) -> Seq<char> {
    if is_ascii_chars(text) {
        text.map_values(|c: char| ascii_upper(c))
    } else {
        uppercase_of(text)
    }
}

/// What base32hex decoding makes of `input`: nothing when it is too long to
/// measure, and otherwise the bytes the codec gives back, if it gives any.
pub open spec fn base32hex_decoded(input: Seq<u8>) -> Option<Seq<u8>> {
    if input.len() > usize::MAX / 8 {
        None
    } else {
        match base32hex_decoding(input) {
            Ok(bytes) => Some(bytes),
            Err(_) => None,
        }
    }
}

/// Why the codec refused `input`, when it was asked and refused.
pub open spec fn base32hex_refusal(input: Seq<u8>) -> Option<DecodeFault> {
    if input.len() > usize::MAX / 8 {
        None
    } else {
        match base32hex_decoding(input) {
            Ok(_) => None,
            Err(f) => Some(f),
        }
    }
}

/// Why a text is not an id52.
#[derive(Debug, Clone, Copy, PartialEq, Eq)]
pub enum Id52Error {
    /// It is not 52 bytes long.
    WrongLength { len: usize },
    /// It is not base32hex; the codec's reason, when it was asked (it is
    /// not asked about a text too long to measure).
    NotBase32hex { fault: Option<DecodeFault> },
    /// It decodes, but not to 32 bytes.
    WrongSize { len: usize },
    /// The 32 bytes are not a public key.
    NotAKey,
}

/// What `decode` says when it refuses `text` with `e`.
pub open spec fn id52_error_text(e: Id52Error, text: Seq<char>) -> Seq<char> {
    match e {
        Id52Error::WrongLength { len } => "an id52 is 52 characters, got "@ + decimal(len as nat) + ": "@ + debug_of(
            text,
        ),
        Id52Error::NotBase32hex { fault } => match fault {
            Some(f) => "not a valid id52: "@ + fault_text(f),
            None => "not a valid id52"@,
        },
        Id52Error::WrongSize { .. } => "an id52 must decode to 32 bytes"@,
        Id52Error::NotAKey => "data is not a valid public key"@,
    }
}

impl Id52Error {
    /// What the refusal says about `text`, the text that was refused.
    pub fn message(&self, text: &str) -> (m: String)
        ensures
            m@ == id52_error_text(*self, text@),
    {
        match self {
            Id52Error::WrongLength { len } => {
                let mut m = owned("an id52 is 52 characters, got ");
                m.append(decimal_string(*len as u64).as_str());
                m.append(": ");
                m.append(debug_str(text).as_str());
                m
            },
            Id52Error::NotBase32hex { fault } => match fault {
                Some(f) => {
                    let mut m = owned("not a valid id52: ");
                    m.append(f.message().as_str());
                    m
                },
                None => owned("not a valid id52"),
            },
            Id52Error::WrongSize { .. } => owned("an id52 must decode to 32 bytes"),
            Id52Error::NotAKey => owned("data is not a valid public key"),
        }
    }
}

/// What `decode` makes of a text: the key's bytes, or why there are none.
pub open spec fn decoding(text: Seq<char>) -> Result<Seq<u8>, Id52Error> {
    let len = encode_utf8(text).len();
    if len != LEN {
        Err(Id52Error::WrongLength { len: len as usize })
    } else {
        match base32hex_decoded(encode_utf8(upper(text))) {
            None => Err(Id52Error::NotBase32hex { fault: base32hex_refusal(encode_utf8(upper(text))) }),
            Some(bytes) => if bytes.len() != 32 {
                Err(Id52Error::WrongSize { len: bytes.len() as usize })
            } else if !is_curve_point(bytes) {
                Err(Id52Error::NotAKey)
            } else {
                Ok(bytes)
            },
        }
    }
}

/// The encoding of an ASCII text is its bytes, one per character.
pub proof fn lemma_ascii_encoding(text: Seq<char>)
    requires
        is_ascii_chars(text),
    ensures
        encode_utf8(text) == ascii_bytes(text),
{
    is_ascii_chars_encode_utf8(text);
    assert(encode_utf8(text) =~= ascii_bytes(text));
}

/// Render a public key as its id52.
///
/// The text is 52 characters of the lowercase alphabet, it is already in lower
/// case, and `decode` gives the key back from it — and from its upper-case
/// form, which carries no ambiguity in base32hex.
pub fn encode(key: &PublicKey) -> (text: String)
    ensures
        text@ == id52_text(key@),
        text@.len() == LEN,
        forall|i: int| 0 <= i < text@.len() ==> is_id52_symbol(#[trigger] text@[i]),
        text@.map_values(|c: char| ascii_lower(c)) == text@,
        decoding(text@) == Ok::<Seq<u8>, Id52Error>(key@),
        decoding(text@.map_values(|c: char| ascii_upper(c))) == Ok::<Seq<u8>, Id52Error>(key@),
{
    let bytes = key.as_bytes();
    let upper_text = base32hex_encode(bytes.as_slice());
    proof {
        assert(is_ascii_chars(upper_text@)) by {
            assert forall|i: int| 0 <= i < upper_text@.len() implies '\0' <= #[trigger] upper_text@[i] <= '\u{7f}' by {
                assert(is_base32hex_symbol(upper_text@[i]));
            }
        }
    }
    let text = to_lowercase(upper_text.as_str());
    proof {
        let u = upper_text@;
        let t = text@;
        assert(t.len() == LEN);
        assert forall|i: int| 0 <= i < t.len() implies is_id52_symbol(#[trigger] t[i]) by {
            assert(is_base32hex_symbol(u[i]));
            assert(t[i] == ascii_lower(u[i]));
        }
        assert(is_ascii_chars(t)) by {
            assert forall|i: int| 0 <= i < t.len() implies '\0' <= #[trigger] t[i] <= '\u{7f}' by {
                assert(is_id52_symbol(t[i]));
            }
        }
        assert(t.map_values(|c: char| ascii_lower(c)) =~= t) by {
            assert forall|i: int| 0 <= i < t.len() implies ascii_lower(t[i]) == t[i] by {
                assert(is_id52_symbol(t[i]));
            }
        }
        let tu = t.map_values(|c: char| ascii_upper(c));
        assert(tu =~= u) by {
            assert forall|i: int| 0 <= i < t.len() implies #[trigger] tu[i] == u[i] by {
                assert(is_base32hex_symbol(u[i]));
                assert(t[i] == ascii_lower(u[i]));
            }
        }
        assert(is_ascii_chars(tu)) by {
            assert forall|i: int| 0 <= i < tu.len() implies '\0' <= #[trigger] tu[i] <= '\u{7f}' by {
                assert(is_base32hex_symbol(u[i]));
            }
        }
        lemma_ascii_encoding(t);
        lemma_ascii_encoding(u);
        assert(upper(t) == u);
        assert(encode_utf8(t).len() == LEN);
        let ub = encode_utf8(u);
        assert(ub == ascii_bytes(u));
        assert(!exists|i: int| 0 <= i < ub.len() && !is_base32hex_symbol(#[trigger] ub[i] as char)) by {
            assert forall|i: int| 0 <= i < ub.len() implies is_base32hex_symbol(#[trigger] ub[i] as char) by {
                assert(is_base32hex_symbol(u[i]));
                assert(ub[i] == u[i] as u8);
            }
        }
        assert(base32hex_decoded(ub) == Some(key@));
        // The upper-case form decodes the same way.
        assert(tu.map_values(|c: char| ascii_upper(c)) =~= u) by {
            assert forall|i: int| 0 <= i < tu.len() implies ascii_upper(tu[i]) == u[i] by {
                assert(is_base32hex_symbol(u[i]));
            }
        }
        lemma_ascii_encoding(tu);
        assert(upper(tu) == u);
    }
    text
}

/// Parse an id52 back into a public key.
///
/// Exactly 52 bytes are required; the text is upper-cased (so a key someone
/// shouted at us is accepted) and decoded as base32hex, which must give 32 bytes
/// that are a curve point.
pub fn decode(s: &str) -> (key: Result<PublicKey, Id52Error>)
    ensures
        match key {
            Ok(k) => decoding(s@) == Ok::<Seq<u8>, Id52Error>(k@),
            Err(e) => decoding(s@) == Err::<Seq<u8>, Id52Error>(e),
        },
{
    let len = s.as_bytes().len();
    if len != LEN {
        return Err(Id52Error::WrongLength { len });
    }
    let upper_text = to_uppercase(s);
    let raw = upper_text.as_str().as_bytes();
    assert(upper_text@ == upper(s@));
    assert(raw@ == encode_utf8(upper(s@)));
    if raw.len() > usize::MAX / 8 {
        return Err(Id52Error::NotBase32hex { fault: None });
    }
    match base32hex_decode(raw) {
        Err(fault) => Err(Id52Error::NotBase32hex { fault: Some(fault) }),
        Ok(bytes) => {
            if bytes.len() != 32 {
                Err(Id52Error::WrongSize { len: bytes.len() })
            } else {
                let arr = bytes32(bytes.as_slice());
                match PublicKey::from_bytes(&arr) {
                    Ok(k) => Ok(k),
                    Err(_) => Err(Id52Error::NotAKey),
                }
            }
        }
    }
}

} // verus!
