//! Cryptographic primitives.
//!
//! Hashing, signature verification and random numbers all come from `ring`; no
//! cryptography is implemented here. What `ring` computes has a name in the contracts
//! (`sha256_of`, `signature_valid`), and everything that is decided around it is
//! stated over these names.

use ring::rand::SecureRandom;

use vstd::prelude::*;

use crate::bytes::take_32;
use crate::credential::{freshly_made, Challenge};
use crate::error::{outcome, Failure, WebAuthnError};

verus! {

/// The longest message, in bytes, that can be hashed: its length in bits is a 64-bit
/// number.
pub const MAX_HASHED_LEN: u64 = 0x1FFF_FFFF_FFFF_FFFF;

/// The longest input to a ceremony, in bytes: what is hashed holds at most one such
/// input and a few short parts besides.
pub const MAX_INPUT_LEN: u64 = 0x1FFF_FFFF_FFFF_0000;

/// A signature scheme.
#[derive(Debug, Clone, Copy, PartialEq, Eq, Structural)]
pub enum Scheme {
    /// ECDSA on P-256 with SHA-256 and a DER-encoded signature.
    Es256,
    /// ECDSA on P-256 with SHA-256 and a signature of the form `r || s`.
    Es256Fixed,
    /// ECDSA on P-384 with SHA-384 and a DER-encoded signature.
    Es384,
    /// Ed25519.
    EdDsa,
    /// RSA PKCS#1 v1.5 with SHA-256 and a key of 2048 to 8192 bits.
    Rs256,
}

/// SHA-256 of a message.
pub uninterp spec fn sha256_of(data: Seq<u8>) -> Seq<u8>;

/// SHA-384 of a message.
pub uninterp spec fn sha384_of(data: Seq<u8>) -> Seq<u8>;

/// Whether a signature of a message verifies under a public key.
pub uninterp spec fn signature_valid(
    scheme: Scheme,
    key: Seq<u8>,
    message: Seq<u8>,
    signature: Seq<u8>,
) -> bool;

/// `ring::digest::digest` with `SHA256`: 32 bytes that depend on `data` alone. It
/// panics on a message whose length in bits does not fit 64 bits.
#[verifier::external_body]
fn ring_sha256(data: &[u8]) -> (hash: Vec<u8>)
    requires
        data@.len() <= MAX_HASHED_LEN,
    ensures
        hash@ == sha256_of(data@),
        hash@.len() == 32,
{
    ring::digest::digest(&ring::digest::SHA256, data).as_ref().to_vec()
}

/// `ring::digest::digest` with `SHA384`: 48 bytes that depend on `data` alone. It
/// panics on a message whose length in bits does not fit 64 bits.
#[verifier::external_body]
fn ring_sha384(data: &[u8]) -> (hash: Vec<u8>)
    requires
        data@.len() <= MAX_HASHED_LEN,
    ensures
        hash@ == sha384_of(data@),
        hash@.len() == 48,
{
    ring::digest::digest(&ring::digest::SHA384, data).as_ref().to_vec()
}

/// `ring::signature::UnparsedPublicKey::verify`: whether `key` parses as a key of the
/// scheme and `signature` is a valid signature of `message` under it. It hashes the
/// message, for Ed25519 behind 64 more bytes, and panics where that is too long.
#[verifier::external_body]
fn ring_verify(scheme: Scheme, key: &[u8], message: &[u8], signature: &[u8]) -> (valid: bool)
    requires
        message@.len() + 64 <= MAX_HASHED_LEN,
    ensures
        valid == signature_valid(scheme, key@, message@, signature@),
{
    let algorithm: &'static dyn ring::signature::VerificationAlgorithm = match scheme {
        Scheme::Es256 => &ring::signature::ECDSA_P256_SHA256_ASN1,
        Scheme::Es256Fixed => &ring::signature::ECDSA_P256_SHA256_FIXED,
        Scheme::Es384 => &ring::signature::ECDSA_P384_SHA384_ASN1,
        Scheme::EdDsa => &ring::signature::ED25519,
        Scheme::Rs256 => &ring::signature::RSA_PKCS1_2048_8192_SHA256,
    };
    ring::signature::UnparsedPublicKey::new(algorithm, key).verify(message, signature).is_ok()
}

/// `ring::rand::SystemRandom::fill` on a buffer of `len` bytes: the filled buffer, or
/// `None` if the system gives no random bytes. Nothing is said of the bytes themselves.
/// The buffer must not be too long for memory.
#[verifier::external_body]
pub(crate) fn ring_random(len: usize) -> (bytes: Option<Vec<u8>>)
    requires
        len <= isize::MAX,
    ensures
        bytes matches Some(b) ==> b@.len() == len,
{
    let mut bytes = vec![0u8; len];
    match ring::rand::SystemRandom::new().fill(&mut bytes) {
        Ok(()) => Some(bytes),
        Err(_) => None,
    }
}

/// Whether a buffer is one that the system's random number generator filled when asked for
/// `len` bytes, or its refusal.
pub closed spec fn drawn(len: usize, filled: Option<Vec<u8>>) -> bool {
    call_ensures(ring_random, (len,), filled)
}

/// What [`ring_random`] gives was drawn from the generator.
pub(crate) proof fn lemma_drawn(len: usize, filled: Option<Vec<u8>>)
    requires
        call_ensures(ring_random, (len,), filled),
    ensures
        drawn(len, filled),
{
}

/// SHA-256 of `data`.
pub fn sha256(data: &[u8]) -> (hash: [u8; 32])
    requires
        data@.len() <= MAX_HASHED_LEN,
    ensures
        hash@ == sha256_of(data@),
        hash@.len() == 32,
{
    let hash = ring_sha256(data);
    assert(hash@.take(32) =~= hash@);
    take_32(hash.as_slice())
}

/// SHA-384 of `data`.
pub fn sha384(data: &[u8]) -> (hash: Vec<u8>)
    requires
        data@.len() <= MAX_HASHED_LEN,
    ensures
        hash@ == sha384_of(data@),
        hash@.len() == 48,
{
    ring_sha384(data)
}

/// The failure of the random number generator.
pub open spec fn no_randomness() -> Failure {
    Failure::InvalidClientData("system random number generator failed to produce bytes"@)
}

/// Turns what the random number generator gave into a result.
pub fn random_result(filled: Option<Vec<u8>>) -> (r: Result<Vec<u8>, WebAuthnError>)
    ensures
        outcome(r) == match filled {
            Some(bytes) => Ok(bytes@),
            None => Err(no_randomness()),
        },
{
    match filled {
        Some(bytes) => Ok(bytes),
        None => Err(
            WebAuthnError::InvalidClientData(
                "system random number generator failed to produce bytes".to_string(),
            ),
        ),
    }
}

/// Generates `len` random bytes with the system's generator: exactly as many, unless
/// the generator fails.
pub fn random_bytes(len: usize) -> (r: Result<Vec<u8>, WebAuthnError>)
    requires
        len <= isize::MAX,
    ensures
        match r {
            Ok(bytes) => bytes@.len() == len,
            Err(e) => e@ == no_randomness(),
        },
        exists|filled: Option<Vec<u8>>|
            #[trigger] drawn(len, filled) && outcome(r) == match filled {
                Some(bytes) => Ok(bytes@),
                None => Err(no_randomness()),
            },
{
    let filled = ring_random(len);
    proof {
        lemma_drawn(len, filled);
    }
    random_result(filled)
}

/// What a signature check returns.
pub open spec fn signature_check(
    scheme: Scheme,
    key: Seq<u8>,
    message: Seq<u8>,
    signature: Seq<u8>,
) -> Result<(), Failure> {
    signature_result(signature_valid(scheme, key, message, signature))
}

/// What a signature check returns, by whether the signature is valid.
pub open spec fn signature_result(valid: bool) -> Result<(), Failure> {
    if valid {
        Ok(())
    } else {
        Err(Failure::SignatureVerificationFailed)
    }
}

/// Turns the verdict on a signature into a result.
pub fn accept_signature(valid: bool) -> (r: Result<(), WebAuthnError>)
    ensures
        outcome(r) == signature_result(valid),
{
    if valid {
        Ok(())
    } else {
        Err(WebAuthnError::SignatureVerificationFailed)
    }
}

/// Verifies an ES256 signature (ECDSA P-256 with SHA-256, DER-encoded) under a 65-byte
/// uncompressed point `0x04 || x || y`.
pub fn verify_es256(
    public_key_uncompressed: &[u8],
    message: &[u8],
    signature: &[u8],
) -> (r: Result<(), WebAuthnError>)
    requires
        message@.len() + 64 <= MAX_HASHED_LEN,
    ensures
        outcome(r) == signature_check(
            Scheme::Es256,
            public_key_uncompressed@,
            message@,
            signature@,
        ),
{
    accept_signature(ring_verify(Scheme::Es256, public_key_uncompressed, message, signature))
}

/// Verifies an ES256 signature in the `r || s` form of JSON Web Signatures.
pub fn verify_es256_jws(
    public_key_uncompressed: &[u8],
    message: &[u8],
    signature: &[u8],
) -> (r: Result<(), WebAuthnError>)
    requires
        message@.len() + 64 <= MAX_HASHED_LEN,
    ensures
        outcome(r) == signature_check(
            Scheme::Es256Fixed,
            public_key_uncompressed@,
            message@,
            signature@,
        ),
{
    accept_signature(ring_verify(Scheme::Es256Fixed, public_key_uncompressed, message, signature))
}

/// Verifies an ES384 signature (ECDSA P-384 with SHA-384, DER-encoded) under a 97-byte
/// uncompressed point `0x04 || x || y`.
pub fn verify_es384(
    public_key_uncompressed: &[u8],
    message: &[u8],
    signature: &[u8],
) -> (r: Result<(), WebAuthnError>)
    requires
        message@.len() + 64 <= MAX_HASHED_LEN,
    ensures
        outcome(r) == signature_check(
            Scheme::Es384,
            public_key_uncompressed@,
            message@,
            signature@,
        ),
{
    accept_signature(ring_verify(Scheme::Es384, public_key_uncompressed, message, signature))
}

/// Verifies an Ed25519 signature under a raw 32-byte public key.
pub fn verify_eddsa(public_key: &[u8], message: &[u8], signature: &[u8]) -> (r: Result<
    (),
    WebAuthnError,
>)
    requires
        message@.len() + 64 <= MAX_HASHED_LEN,
    ensures
        outcome(r) == signature_check(Scheme::EdDsa, public_key@, message@, signature@),
{
    accept_signature(ring_verify(Scheme::EdDsa, public_key, message, signature))
}

/// Verifies an RS256 signature (RSA PKCS#1 v1.5 with SHA-256) under a DER-encoded
/// `RSAPublicKey`.
pub fn verify_rs256(public_key_der: &[u8], message: &[u8], signature: &[u8]) -> (r: Result<
    (),
    WebAuthnError,
>)
    requires
        message@.len() + 64 <= MAX_HASHED_LEN,
    ensures
        outcome(r) == signature_check(Scheme::Rs256, public_key_der@, message@, signature@),
{
    accept_signature(ring_verify(Scheme::Rs256, public_key_der, message, signature))
}

/// Generates a fresh 32-byte [`Challenge`]; see [`Challenge::new`].
pub fn generate_challenge() -> (r: Result<Challenge, WebAuthnError>)
    ensures
        match r {
            Ok(challenge) => challenge.bytes@.len() == 32,
            Err(e) => e@ == no_randomness(),
        },
        freshly_made(outcome(r)),
{
    Challenge::new()
}

/// A signature is accepted exactly if it is valid for its scheme, key and message.
pub proof fn law_valid_signatures_are_accepted(
    scheme: Scheme,
    key: Seq<u8>,
    message: Seq<u8>,
    signature: Seq<u8>,
)
    ensures
        signature_valid(scheme, key, message, signature) <==> signature_check(
            scheme,
            key,
            message,
            signature,
        ) == Ok::<(), Failure>(()),
        !signature_valid(scheme, key, message, signature) <==> signature_check(
            scheme,
            key,
            message,
            signature,
        ) == Err::<(), Failure>(Failure::SignatureVerificationFailed),
{
}

} // verus!
