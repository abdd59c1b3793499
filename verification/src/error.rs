//! The errors of the library.
//!
//! Every message aids debugging without holding key bytes or challenge values.

use vstd::prelude::*;
use vstd::string::StringExecFns;

use crate::text::{decimal, decimal_text, join, join3, signed_decimal, signed_decimal_text};

verus! {

/// All errors that ceremony verification can return.
#[derive(Debug)]
#[non_exhaustive]
pub enum WebAuthnError {
    /// The client data JSON could not be decoded or is structurally invalid.
    InvalidClientData(String),
    /// The challenge inside the client data does not match the issued challenge.
    ChallengeMismatch,
    /// The `origin` field in the client data does not match the expected origin.
    OriginMismatch {
        /// The origin that the relying party accepts.
        expected: String,
        /// The origin that the client reported.
        got: String,
    },
    /// The RP ID hash in authenticator data does not equal SHA-256(rp_id).
    RpIdHashMismatch,
    /// The User Present (UP) flag is not set in the authenticator data flags byte.
    UserNotPresent,
    /// The User Verification (UV) flag is not set, but the relying party requires it.
    UserNotVerified,
    /// The attestation object could not be decoded or is missing required fields.
    InvalidAttestationObject(String),
    /// The authenticator data bytes are malformed or too short.
    InvalidAuthenticatorData(String),
    /// The COSE public key inside the credential data is invalid.
    InvalidPublicKey(String),
    /// A signature does not verify: the message was tampered with, or signed by another key.
    SignatureVerificationFailed,
    /// The sign count in the assertion is not greater than the stored sign count.
    SignCountInvalid {
        /// The sign count on record.
        stored: u32,
        /// The sign count in the assertion.
        received: u32,
    },
    /// A CBOR decoding step failed.
    CborDecodeError(String),
    /// A base64url decoding step failed.
    Base64DecodeError(String),
    /// The challenge was issued too long ago and is no longer valid.
    ChallengeExpired,
    /// The challenge has already been consumed by a previous ceremony.
    ///
    /// Only returned when single-use challenges are enforced.
    ChallengePreviouslyUsed,
    /// The COSE algorithm identifier is not supported.
    UnsupportedAlgorithm(i64),
    /// The client data says `crossOrigin: true`, which the relying party rejects.
    CrossOriginNotAllowed,
    /// The credential is backup-eligible, which the relying party rejects.
    BackupEligibleNotAllowed,
    /// The credential is not backup-eligible, which the relying party requires.
    BackupEligibilityRequired,
    /// The Backup Eligibility flag differs from the value recorded at registration.
    BackupEligibilityChanged,
    /// The `x5c` certificate chain of an attestation statement is broken.
    AttestationChainInvalid(String),
    /// The root of the `x5c` chain is not signed by any configured trust anchor.
    AttestationRootUntrusted,
    /// The attestation certificate names another authenticator model than the
    /// authenticator data does.
    AttestationAaguidMismatch,
    /// The attestation leaf certificate is itself a certificate authority.
    AttestationCertIsCa,
    /// The `credential_id` field of an assertion response is empty.
    MissingCredentialId,
    /// The metadata BLOB does not have the expected structure.
    MdsBlobMalformed(String),
    /// The certificate chain of the metadata BLOB is broken.
    MdsChainInvalid(String),
    /// The certificate chain of the metadata BLOB does not end in the trusted root.
    MdsRootUntrusted,
    /// The signature of the metadata BLOB does not verify.
    MdsSignatureInvalid,
}

/// What an error says: its kind, with the characters of its texts.
pub ghost enum Failure {
    InvalidClientData(Seq<char>),
    ChallengeMismatch,
    OriginMismatch { expected: Seq<char>, got: Seq<char> },
    RpIdHashMismatch,
    UserNotPresent,
    UserNotVerified,
    InvalidAttestationObject(Seq<char>),
    InvalidAuthenticatorData(Seq<char>),
    InvalidPublicKey(Seq<char>),
    SignatureVerificationFailed,
    SignCountInvalid { stored: u32, received: u32 },
    CborDecodeError(Seq<char>),
    Base64DecodeError(Seq<char>),
    ChallengeExpired,
    ChallengePreviouslyUsed,
    UnsupportedAlgorithm(i64),
    CrossOriginNotAllowed,
    BackupEligibleNotAllowed,
    BackupEligibilityRequired,
    BackupEligibilityChanged,
    AttestationChainInvalid(Seq<char>),
    AttestationRootUntrusted,
    AttestationAaguidMismatch,
    AttestationCertIsCa,
    MissingCredentialId,
    MdsBlobMalformed(Seq<char>),
    MdsChainInvalid(Seq<char>),
    MdsRootUntrusted,
    MdsSignatureInvalid,
}

impl View for WebAuthnError {
    type V = Failure;

    open spec fn view(&self) -> Failure {
        match self {
            WebAuthnError::InvalidClientData(m) => Failure::InvalidClientData(m@),
            WebAuthnError::ChallengeMismatch => Failure::ChallengeMismatch,
            WebAuthnError::OriginMismatch { expected, got } => Failure::OriginMismatch {
                expected: expected@,
                got: got@,
            },
            WebAuthnError::RpIdHashMismatch => Failure::RpIdHashMismatch,
            WebAuthnError::UserNotPresent => Failure::UserNotPresent,
            WebAuthnError::UserNotVerified => Failure::UserNotVerified,
            WebAuthnError::InvalidAttestationObject(m) => Failure::InvalidAttestationObject(m@),
            WebAuthnError::InvalidAuthenticatorData(m) => Failure::InvalidAuthenticatorData(m@),
            WebAuthnError::InvalidPublicKey(m) => Failure::InvalidPublicKey(m@),
            WebAuthnError::SignatureVerificationFailed => Failure::SignatureVerificationFailed,
            WebAuthnError::SignCountInvalid { stored, received } => Failure::SignCountInvalid {
                stored: *stored,
                received: *received,
            },
            WebAuthnError::CborDecodeError(m) => Failure::CborDecodeError(m@),
            WebAuthnError::Base64DecodeError(m) => Failure::Base64DecodeError(m@),
            WebAuthnError::ChallengeExpired => Failure::ChallengeExpired,
            WebAuthnError::ChallengePreviouslyUsed => Failure::ChallengePreviouslyUsed,
            WebAuthnError::UnsupportedAlgorithm(alg) => Failure::UnsupportedAlgorithm(*alg),
            WebAuthnError::CrossOriginNotAllowed => Failure::CrossOriginNotAllowed,
            WebAuthnError::BackupEligibleNotAllowed => Failure::BackupEligibleNotAllowed,
            WebAuthnError::BackupEligibilityRequired => Failure::BackupEligibilityRequired,
            WebAuthnError::BackupEligibilityChanged => Failure::BackupEligibilityChanged,
            WebAuthnError::AttestationChainInvalid(m) => Failure::AttestationChainInvalid(m@),
            WebAuthnError::AttestationRootUntrusted => Failure::AttestationRootUntrusted,
            WebAuthnError::AttestationAaguidMismatch => Failure::AttestationAaguidMismatch,
            WebAuthnError::AttestationCertIsCa => Failure::AttestationCertIsCa,
            WebAuthnError::MissingCredentialId => Failure::MissingCredentialId,
            WebAuthnError::MdsBlobMalformed(m) => Failure::MdsBlobMalformed(m@),
            WebAuthnError::MdsChainInvalid(m) => Failure::MdsChainInvalid(m@),
            WebAuthnError::MdsRootUntrusted => Failure::MdsRootUntrusted,
            WebAuthnError::MdsSignatureInvalid => Failure::MdsSignatureInvalid,
        }
    }
}

/// The meaning of a fallible result: the view of its value, or what its error says.
pub open spec fn outcome<T: View>(r: Result<T, WebAuthnError>) -> Result<T::V, Failure> {
    match r {
        Ok(v) => Ok(v@),
        Err(e) => Err(e@),
    }
}

/// The message of an error.
pub open spec fn failure_message(failure: Failure) -> Seq<char> {
    match failure {
        Failure::InvalidClientData(m) => "Invalid client data: "@ + m,
        Failure::ChallengeMismatch => "Challenge mismatch: expected challenge does not match response"@,
        Failure::OriginMismatch { expected, got } => "Origin mismatch: expected "@ + expected + ", got "@
            + got,
        Failure::RpIdHashMismatch => "RP ID hash mismatch"@,
        Failure::UserNotPresent => "User Present flag not set"@,
        Failure::UserNotVerified => "User Verification flag not set"@,
        Failure::InvalidAttestationObject(m) => "Invalid attestation object: "@ + m,
        Failure::InvalidAuthenticatorData(m) => "Invalid authenticator data: "@ + m,
        Failure::InvalidPublicKey(m) => "Invalid public key: "@ + m,
        Failure::SignatureVerificationFailed => "Signature verification failed"@,
        Failure::SignCountInvalid { stored, received } => "Sign count invalid: stored "@ + decimal(
            stored as nat,
        ) + ", received "@ + decimal(received as nat),
        Failure::CborDecodeError(m) => "CBOR decode error: "@ + m,
        Failure::Base64DecodeError(m) => "Base64 decode error: "@ + m,
        Failure::ChallengeExpired => "Challenge expired"@,
        Failure::ChallengePreviouslyUsed => "Challenge was already used in a previous ceremony"@,
        Failure::UnsupportedAlgorithm(alg) => "Unsupported algorithm: "@ + signed_decimal(alg as int),
        Failure::CrossOriginNotAllowed => "Cross-origin credential use is not permitted by this relying party"@,
        Failure::BackupEligibleNotAllowed => "Credential is backup-eligible but this relying party does not permit backed-up credentials"@,
        Failure::BackupEligibilityRequired => "Credential is not backup-eligible but this relying party requires backup-eligible credentials"@,
        Failure::BackupEligibilityChanged => "Backup Eligibility flag changed since registration — credential may have been substituted"@,
        Failure::AttestationChainInvalid(m) => "Attestation certificate chain invalid: "@ + m,
        Failure::AttestationRootUntrusted => "Attestation root certificate is not trusted by any configured trust anchor"@,
        Failure::AttestationAaguidMismatch => "Attestation certificate AAGUID extension does not match authenticatorData AAGUID"@,
        Failure::AttestationCertIsCa => "Attestation certificate is a certificate authority"@,
        Failure::MissingCredentialId => "Missing credential ID: response.credential_id must not be empty"@,
        Failure::MdsBlobMalformed(m) => "Metadata BLOB malformed: "@ + m,
        Failure::MdsChainInvalid(m) => "Metadata BLOB certificate chain invalid: "@ + m,
        Failure::MdsRootUntrusted => "Metadata BLOB root certificate is not signed by the trust root"@,
        Failure::MdsSignatureInvalid => "Metadata BLOB signature verification failed"@,
    }
}

impl WebAuthnError {
    /// The message of this error, for display.
    pub fn message(&self) -> (s: String)
        ensures
            s@ == failure_message(self@),
    {
        match self {
            WebAuthnError::InvalidClientData(m) => join("Invalid client data: ", m.as_str()),
            WebAuthnError::ChallengeMismatch => "Challenge mismatch: expected challenge does not match response".to_string(),
            WebAuthnError::OriginMismatch { expected, got } => join3(
                "Origin mismatch: expected ",
                expected.as_str(),
                ", got ",
            ).concat(got.as_str()),
            WebAuthnError::RpIdHashMismatch => "RP ID hash mismatch".to_string(),
            WebAuthnError::UserNotPresent => "User Present flag not set".to_string(),
            WebAuthnError::UserNotVerified => "User Verification flag not set".to_string(),
            WebAuthnError::InvalidAttestationObject(m) => join("Invalid attestation object: ", m.as_str()),
            WebAuthnError::InvalidAuthenticatorData(m) => join("Invalid authenticator data: ", m.as_str()),
            WebAuthnError::InvalidPublicKey(m) => join("Invalid public key: ", m.as_str()),
            WebAuthnError::SignatureVerificationFailed => "Signature verification failed".to_string(),
            WebAuthnError::SignCountInvalid { stored, received } => join3(
                "Sign count invalid: stored ",
                decimal_text(*stored as u64).as_str(),
                ", received ",
            ).concat(decimal_text(*received as u64).as_str()),
            WebAuthnError::CborDecodeError(m) => join("CBOR decode error: ", m.as_str()),
            WebAuthnError::Base64DecodeError(m) => join("Base64 decode error: ", m.as_str()),
            WebAuthnError::ChallengeExpired => "Challenge expired".to_string(),
            WebAuthnError::ChallengePreviouslyUsed => "Challenge was already used in a previous ceremony".to_string(),
            WebAuthnError::UnsupportedAlgorithm(alg) => join(
                "Unsupported algorithm: ",
                signed_decimal_text(*alg).as_str(),
            ),
            WebAuthnError::CrossOriginNotAllowed => "Cross-origin credential use is not permitted by this relying party".to_string(),
            WebAuthnError::BackupEligibleNotAllowed => "Credential is backup-eligible but this relying party does not permit backed-up credentials".to_string(),
            WebAuthnError::BackupEligibilityRequired => "Credential is not backup-eligible but this relying party requires backup-eligible credentials".to_string(),
            WebAuthnError::BackupEligibilityChanged => "Backup Eligibility flag changed since registration — credential may have been substituted".to_string(),
            WebAuthnError::AttestationChainInvalid(m) => join("Attestation certificate chain invalid: ", m.as_str()),
            WebAuthnError::AttestationRootUntrusted => "Attestation root certificate is not trusted by any configured trust anchor".to_string(),
            WebAuthnError::AttestationAaguidMismatch => "Attestation certificate AAGUID extension does not match authenticatorData AAGUID".to_string(),
            WebAuthnError::AttestationCertIsCa => "Attestation certificate is a certificate authority".to_string(),
            WebAuthnError::MissingCredentialId => "Missing credential ID: response.credential_id must not be empty".to_string(),
            WebAuthnError::MdsBlobMalformed(m) => join("Metadata BLOB malformed: ", m.as_str()),
            WebAuthnError::MdsChainInvalid(m) => join("Metadata BLOB certificate chain invalid: ", m.as_str()),
            WebAuthnError::MdsRootUntrusted => "Metadata BLOB root certificate is not signed by the trust root".to_string(),
            WebAuthnError::MdsSignatureInvalid => "Metadata BLOB signature verification failed".to_string(),
        }
    }
}

/// Messages hold their details behind what kind of failure they tell.
pub proof fn law_messages_hold_details(m: Seq<char>, other: Seq<char>, a: u32, b: u32, alg: i64)
    ensures
        failure_message(Failure::InvalidClientData(m)) == "Invalid client data: "@ + m,
        failure_message(Failure::InvalidAttestationObject(m)) == "Invalid attestation object: "@
            + m,
        failure_message(Failure::InvalidAuthenticatorData(m)) == "Invalid authenticator data: "@
            + m,
        failure_message(Failure::InvalidPublicKey(m)) == "Invalid public key: "@ + m,
        failure_message(Failure::CborDecodeError(m)) == "CBOR decode error: "@ + m,
        failure_message(Failure::Base64DecodeError(m)) == "Base64 decode error: "@ + m,
        failure_message(Failure::AttestationChainInvalid(m))
            == "Attestation certificate chain invalid: "@ + m,
        failure_message(Failure::MdsBlobMalformed(m)) == "Metadata BLOB malformed: "@ + m,
        failure_message(Failure::MdsChainInvalid(m)) == "Metadata BLOB certificate chain invalid: "@
            + m,
        failure_message(Failure::OriginMismatch { expected: m, got: other })
            == "Origin mismatch: expected "@ + m + ", got "@ + other,
        failure_message(Failure::SignCountInvalid { stored: a, received: b })
            == "Sign count invalid: stored "@ + decimal(a as nat) + ", received "@ + decimal(
            b as nat,
        ),
        failure_message(Failure::UnsupportedAlgorithm(alg)) == "Unsupported algorithm: "@
            + signed_decimal(alg as int),
{
}

} // verus!
