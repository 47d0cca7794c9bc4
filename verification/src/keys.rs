//! Ed25519 keys as plain bytes.
//!
//! The library holds a public key as its 32 compressed bytes, with the invariant
//! that they decompress to a curve point, and a secret key as its 32 seed bytes.
//! Everything that needs the curve — checking a point, deriving the public half,
//! signing, verifying — is done by `iroh`'s own key types, behind the wrappers
//! below.

use vstd::prelude::*;
use vstd::array::ArrayAdditionalExecFns;

verus! {

/// Whether `iroh::PublicKey::from_bytes` accepts these 32 bytes, i.e. whether
/// they decompress to a point of the curve.
pub uninterp spec fn is_curve_point(bytes: Seq<u8>) -> bool;

/// The public half `iroh::SecretKey::public` derives from a 32-byte seed.
pub uninterp spec fn public_of(secret: Seq<u8>) -> Seq<u8>;

/// The signature `iroh::SecretKey::sign` makes over `message` (ed25519 signing
/// is deterministic).
pub uninterp spec fn signature_of(secret: Seq<u8>, message: Seq<u8>) -> Seq<u8>;

/// Whether `iroh::PublicKey::verify` accepts `signature` over `message`.
pub uninterp spec fn signature_verifies(public: Seq<u8>, message: Seq<u8>, signature: Seq<u8>) -> bool;

/// `iroh::PublicKey::from_bytes`, reduced to whether it succeeds.
#[verifier::external_body]
fn curve_point_checks(bytes: &[u8; 32]) -> (ok: bool)
    ensures
        ok == is_curve_point(bytes@),
{
    iroh::PublicKey::from_bytes(bytes).is_ok()
}

/// `iroh::SecretKey::public`, on the seed bytes.
///
/// Trusted: the result is the named public half of the seed, and it is a valid
/// point (iroh documents that `from_bytes` never fails on a key's own bytes).
#[verifier::external_body]
fn derive_public(secret: &[u8; 32]) -> (public: [u8; 32])
    ensures
        public@ == public_of(secret@),
        is_curve_point(public@),
{
    *iroh::SecretKey::from_bytes(secret).public().as_bytes()
}

/// `iroh::SecretKey::sign`, on the seed bytes.
///
/// Trusted: the result is the named signature of the message under the seed.
/// Whether the seed's public half accepts it is left unsaid: verification is
/// ed25519-dalek's `verify_strict`, which refuses a signature whose `R` has
/// small order, and nothing here rules that out for every message.
#[verifier::external_body]
fn sign_with(secret: &[u8; 32], message: &[u8]) -> (signature: [u8; 64])
    ensures
        signature@ == signature_of(secret@, message@),
{
    iroh::SecretKey::from_bytes(secret).sign(message).to_bytes()
}

/// `iroh::PublicKey::verify`, on the key's and the signature's bytes.
///
/// Trusted: the answer is the named verdict. The key must be a valid point,
/// which is what lets `from_bytes` succeed.
#[verifier::external_body]
fn verify_with(public: &[u8; 32], message: &[u8], signature: &[u8; 64]) -> (ok: bool)
    requires
        is_curve_point(public@),
    ensures
        ok == signature_verifies(public@, message@, signature@),
{
    match iroh::PublicKey::from_bytes(public) {
        Ok(key) => key.verify(message, &iroh::Signature::from_bytes(signature)).is_ok(),
        Err(_) => false,
    }
}

/// The first 32 bytes of a slice, as an array.
pub fn bytes32(v: &[u8]) -> (out: [u8; 32])
    requires
        v@.len() == 32,
    ensures
        out@ == v@,
{
    let mut out = [0u8; 32];
    let mut i: usize = 0;
    while i < 32
        invariant
            i <= 32,
            v@.len() == 32,
            out@.len() == 32,
            forall|j: int| 0 <= j < i ==> out@[j] == v@[j],
        decreases 32 - i,
    {
        out[i] = v[i];
        i = i + 1;
    }
    assert(out@ =~= v@);
    out
}

/// The bytes were not a point of the curve.
#[derive(Debug, Clone, Copy, PartialEq, Eq)]
pub enum KeyParsingError {
    InvalidKeyData,
}

/// An ed25519 public key: 32 bytes that are known to be a curve point.
#[derive(Debug, Clone, Copy)]
pub struct PublicKey {
    bytes: [u8; 32],
}

impl View for PublicKey {
    type V = Seq<u8>;

    closed spec fn view(&self) -> Seq<u8> {
        self.bytes@
    }
}

impl PartialEq for PublicKey {
    fn eq(&self, other: &Self) -> (same: bool) {
        let mut i: usize = 0;
        while i < 32
            invariant
                i <= 32,
                forall|j: int| 0 <= j < i ==> self.bytes@[j] == other.bytes@[j],
            decreases 32 - i,
        {
            if self.bytes[i] != other.bytes[i] {
                return false;
            }
            i = i + 1;
        }
        assert(self.bytes@ =~= other.bytes@);
        true
    }
}

impl Eq for PublicKey {}

impl vstd::std_specs::cmp::PartialEqSpecImpl for PublicKey {
    open spec fn obeys_eq_spec() -> bool {
        true
    }

    open spec fn eq_spec(&self, other: &Self) -> bool {
        self@ == other@
    }
}

impl PublicKey {
    #[verifier::type_invariant]
    spec fn wf(self) -> bool {
        is_curve_point(self.bytes@)
    }

    /// The key whose compressed form is `bytes`, if they are a curve point.
    pub fn from_bytes(bytes: &[u8; 32]) -> (key: Result<PublicKey, KeyParsingError>)
        ensures
            key is Ok <==> is_curve_point(bytes@),
            key matches Ok(k) ==> k@ == bytes@,
    {
        if curve_point_checks(bytes) {
            Ok(PublicKey { bytes: *bytes })
        } else {
            Err(KeyParsingError::InvalidKeyData)
        }
    }

    /// The 32 compressed bytes.
    pub fn as_bytes(&self) -> (bytes: &[u8; 32])
        ensures
            bytes@ == self@,
            self@.len() == 32,
            is_curve_point(self@),
    {
        proof {
            use_type_invariant(self);
        }
        &self.bytes
    }

    /// Whether `signature` is this key's signature over `message`.
    pub fn verify(&self, message: &[u8], signature: &[u8; 64]) -> (ok: bool)
        ensures
            ok == signature_verifies(self@, message@, signature@),
    {
        proof {
            use_type_invariant(self);
        }
        verify_with(&self.bytes, message, signature)
    }

    /// Two keys are the same key exactly when their bytes are.
    pub proof fn lemma_eq_by_bytes(a: PublicKey, b: PublicKey)
        ensures
            a@ == b@ <==> a == b,
    {
        if a@ == b@ {
            assert(a.bytes@ =~= b.bytes@);
            assert(a.bytes == b.bytes);
        }
    }
}

/// An ed25519 secret key, held as its 32-byte seed.
#[derive(Clone)]
pub struct SecretKey {
    bytes: [u8; 32],
}

impl View for SecretKey {
    type V = Seq<u8>;

    closed spec fn view(&self) -> Seq<u8> {
        self.bytes@
    }
}

impl SecretKey {
    /// A fresh key, from iroh's `SecretKey::generate`.
    ///
    /// Trusted: nothing is promised of the seed; it comes from the system's
    /// randomness.
    #[verifier::external_body]
    pub fn generate() -> (secret: SecretKey) {
        SecretKey { bytes: iroh::SecretKey::generate().to_bytes() }
    }

    /// Every 32 bytes are a seed.
    pub fn from_bytes(bytes: &[u8; 32]) -> (secret: SecretKey)
        ensures
            secret@ == bytes@,
    {
        SecretKey { bytes: *bytes }
    }

    /// The seed.
    pub fn to_bytes(&self) -> (bytes: [u8; 32])
        ensures
            bytes@ == self@,
    {
        self.bytes
    }

    /// The public half.
    pub fn public(&self) -> (public: PublicKey)
        ensures
            public@ == public_of(self@),
    {
        let bytes = derive_public(&self.bytes);
        PublicKey { bytes }
    }

    /// The signature over `message`.
    pub fn sign(&self, message: &[u8]) -> (signature: [u8; 64])
        ensures
            signature@ == signature_of(self@, message@),
    {
        sign_with(&self.bytes, message)
    }
}

} // verus!
