//! The text codecs the library leans on: base32hex and base64url from
//! `data-encoding`, and Unicode case mapping from std.
//!
//! Each outside function appears once, behind a wrapper whose result is tied to
//! its arguments by a named spec function, together with the short facts that
//! the crate's documentation states (its encodings are deterministic, correct,
//! canonical, and emit only their alphabet).

use vstd::prelude::*;
use vstd::utf8::is_ascii_chars;

use crate::text::{decimal, decimal_string, owned};

verus! {

/// The base32hex alphabet as `data-encoding` emits it: `0-9` then `A-V`.
pub open spec fn is_base32hex_symbol(c: char) -> bool {
    ('0' <= c && c <= '9') || ('A' <= c && c <= 'V')
}

/// The base64url alphabet: `A-Z`, `a-z`, `0-9`, `-` and `_`.
pub open spec fn is_base64url_symbol(c: char) -> bool {
    ||| ('A' <= c && c <= 'Z')
    ||| ('a' <= c && c <= 'z')
    ||| ('0' <= c && c <= '9')
    ||| c == '-'
    ||| c == '_'
}

/// The bytes of an ASCII text, one per character.
pub open spec fn ascii_bytes(text: Seq<char>) -> Seq<u8> {
    text.map_values(|c: char| c as u8)
}

/// ASCII lower-casing of one character; everything else is left alone.
pub open spec fn ascii_lower(c: char) -> char {
    if 'A' <= c && c <= 'Z' {
        ((c as u32) + 32) as char
    } else {
        c
    }
}

/// ASCII upper-casing of one character; everything else is left alone.
pub open spec fn ascii_upper(c: char) -> char {
    if 'a' <= c && c <= 'z' {
        ((c as u32) - 32) as char
    } else {
        c
    }
}

/// Why `data-encoding` refused an input.
#[derive(Debug, Clone, Copy, PartialEq, Eq)]
pub enum DecodeKind {
    /// Invalid length.
    Length,
    /// Invalid symbol.
    Symbol,
    /// Non-zero trailing bits.
    Trailing,
    /// Invalid padding length.
    Padding,
}

/// Where and why `data-encoding` refused an input.
#[derive(Debug, Clone, Copy, PartialEq, Eq)]
pub struct DecodeFault {
    pub kind: DecodeKind,
    pub position: usize,
}

/// How `data-encoding` describes a refusal: the kind, then ` at ` and the
/// position.
pub open spec fn fault_text(f: DecodeFault) -> Seq<char> {
    let kind = match f.kind {
        DecodeKind::Length => "invalid length"@,
        DecodeKind::Symbol => "invalid symbol"@,
        DecodeKind::Trailing => "non-zero trailing bits"@,
        DecodeKind::Padding => "invalid padding length"@,
    };
    kind + " at "@ + decimal(f.position as nat)
}

impl DecodeFault {
    /// How `data-encoding` describes the refusal.
    pub fn message(&self) -> (m: String)
        ensures
            m@ == fault_text(*self),
    {
        let mut m = owned(
            match self.kind {
                DecodeKind::Length => "invalid length",
                DecodeKind::Symbol => "invalid symbol",
                DecodeKind::Trailing => "non-zero trailing bits",
                DecodeKind::Padding => "invalid padding length",
            },
        );
        m.append(" at ");
        m.append(decimal_string(self.position as u64).as_str());
        m
    }
}

/// Unpadded base32hex text of `bytes`, as `BASE32HEX_NOPAD.encode` renders it.
pub uninterp spec fn base32hex_text(bytes: Seq<u8>) -> Seq<char>;

/// What `BASE32HEX_NOPAD.decode` gives back for `input`: the bytes, or where
/// and why it refuses the input.
pub uninterp spec fn base32hex_decoding(input: Seq<u8>) -> Result<Seq<u8>, DecodeFault>;

/// Unpadded base64url text of `bytes`, as `BASE64URL_NOPAD.encode` renders it.
pub uninterp spec fn base64url_text(bytes: Seq<u8>) -> Seq<char>;

/// What `BASE64URL_NOPAD.decode` gives back for `input`: the bytes, or where
/// and why it refuses the input.
pub uninterp spec fn base64url_decoding(input: Seq<u8>) -> Result<Seq<u8>, DecodeFault>;

/// What std's `str::to_lowercase` makes of a text.
pub uninterp spec fn lowercase_of(text: Seq<char>) -> Seq<char>;

/// What std's `str::to_uppercase` makes of a text.
pub uninterp spec fn uppercase_of(text: Seq<char>) -> Seq<char>;

/// `data_encoding::BASE32HEX_NOPAD.encode`.
///
/// Trusted: the text is the named encoding of the input; it is `ceil(8n/5)`
/// characters of the base32hex alphabet (RFC 4648, unpadded); and decoding it
/// gives the input back (the crate documents its encodings as correct).
/// `encode_len` may panic above `usize::MAX / 512` bytes, so that is excluded.
#[verifier::external_body]
pub(crate) fn base32hex_encode(bytes: &[u8]) -> (text: String)
    requires
        bytes@.len() <= usize::MAX / 512,
    ensures
        text@ == base32hex_text(bytes@),
        text@.len() == (8 * bytes@.len() + 4) / 5,
        forall|i: int| 0 <= i < text@.len() ==> is_base32hex_symbol(#[trigger] text@[i]),
        base32hex_decoding(ascii_bytes(text@)) is Ok && base32hex_decoding(ascii_bytes(text@))->Ok_0 == bytes@,
{
    data_encoding::BASE32HEX_NOPAD.encode(bytes)
}

/// `data_encoding::BASE32HEX_NOPAD.decode`.
///
/// Trusted: the result is the named decoding of the input, and any byte outside
/// the alphabet makes it fail (the crate reports such a byte as `Symbol`).
/// `decode_len` may panic above `usize::MAX / 8` bytes, so that is excluded.
#[verifier::external_body]
pub(crate) fn base32hex_decode(input: &[u8]) -> (bytes: Result<Vec<u8>, DecodeFault>)
    requires
        input@.len() <= usize::MAX / 8,
    ensures
        match bytes {
            Ok(b) => base32hex_decoding(input@) is Ok && base32hex_decoding(input@)->Ok_0 == b@,
            Err(f) => base32hex_decoding(input@) is Err && base32hex_decoding(input@)->Err_0 == f,
        },
        (exists|i: int| 0 <= i < input@.len() && !is_base32hex_symbol(#[trigger] input@[i] as char))
            ==> bytes is Err,
{
    match data_encoding::BASE32HEX_NOPAD.decode(input) {
        Ok(bytes) => Ok(bytes),
        Err(e) => Err(DecodeFault {
            kind: match e.kind {
                data_encoding::DecodeKind::Length => DecodeKind::Length,
                data_encoding::DecodeKind::Symbol => DecodeKind::Symbol,
                data_encoding::DecodeKind::Trailing => DecodeKind::Trailing,
                data_encoding::DecodeKind::Padding => DecodeKind::Padding,
            },
            position: e.position,
        }),
    }
}

/// `data_encoding::BASE64URL_NOPAD.encode`.
///
/// Trusted: the text is the named encoding of the input, `ceil(4n/3)`
/// characters of the base64url alphabet (RFC 4648, unpadded), and decoding it
/// gives the input back.
#[verifier::external_body]
pub(crate) fn base64url_encode(bytes: &[u8]) -> (text: String)
    requires
        bytes@.len() <= usize::MAX / 512,
    ensures
        text@ == base64url_text(bytes@),
        text@.len() == (4 * bytes@.len() + 2) / 3,
        forall|i: int| 0 <= i < text@.len() ==> is_base64url_symbol(#[trigger] text@[i]),
        base64url_decoding(ascii_bytes(text@)) is Ok && base64url_decoding(ascii_bytes(text@))->Ok_0 == bytes@,
{
    data_encoding::BASE64URL_NOPAD.encode(bytes)
}

/// `data_encoding::BASE64URL_NOPAD.decode`.
///
/// Trusted: the result is the named decoding of the input; a byte outside the
/// alphabet makes it fail.
#[verifier::external_body]
pub(crate) fn base64url_decode(input: &[u8]) -> (bytes: Result<Vec<u8>, DecodeFault>)
    requires
        input@.len() <= usize::MAX / 8,
    ensures
        match bytes {
            Ok(b) => base64url_decoding(input@) is Ok && base64url_decoding(input@)->Ok_0 == b@,
            Err(f) => base64url_decoding(input@) is Err && base64url_decoding(input@)->Err_0 == f,
        },
        (exists|i: int| 0 <= i < input@.len() && !is_base64url_symbol(#[trigger] input@[i] as char))
            ==> bytes is Err,
{
    match data_encoding::BASE64URL_NOPAD.decode(input) {
        Ok(bytes) => Ok(bytes),
        Err(e) => Err(DecodeFault {
            kind: match e.kind {
                data_encoding::DecodeKind::Length => DecodeKind::Length,
                data_encoding::DecodeKind::Symbol => DecodeKind::Symbol,
                data_encoding::DecodeKind::Trailing => DecodeKind::Trailing,
                data_encoding::DecodeKind::Padding => DecodeKind::Padding,
            },
            position: e.position,
        }),
    }
}

/// std's `str::to_lowercase`.
///
/// Trusted: the result is the named lower-casing of the input, and on ASCII
/// input it is the ASCII lower-casing, character for character.
#[verifier::external_body]
pub(crate) fn to_lowercase(text: &str) -> (lower: String)
    ensures
        lower@ == lowercase_of(text@),
        is_ascii_chars(text@) ==> lower@ == text@.map_values(|c: char| ascii_lower(c)),
{
    text.to_lowercase()
}

/// std's `str::to_uppercase`.
///
/// Trusted: the result is the named upper-casing of the input, and on ASCII
/// input it is the ASCII upper-casing, character for character.
#[verifier::external_body]
pub(crate) fn to_uppercase(text: &str) -> (upper: String)
    ensures
        upper@ == uppercase_of(text@),
        is_ascii_chars(text@) ==> upper@ == text@.map_values(|c: char| ascii_upper(c)),
{
    text.to_uppercase()
}

} // verus!
