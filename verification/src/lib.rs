//! Relying-party side of WebAuthn: registration and authentication ceremonies,
//! attestation statements and the FIDO metadata service.
//!
//! Every decision is stated as a contract over mathematical models and proved. The
//! models are values without representation: an error is viewed as a
//! [`error::Failure`], a decoded data item as a [`data::Item`], and so on. What comes
//! from outside crates (hashes, signatures, CBOR, JSON, base64, X.509) has a name in the
//! contracts, and the functions beside it that take such a result as an argument are
//! pinned down without it.
//!
//! A ceremony takes three steps: options for the client
//! ([`RelyingParty::begin_registration`], [`RelyingParty::authentication_options`]), the
//! client's work, and the verification of its response
//! ([`RelyingParty::verify_registration`], [`RelyingParty::verify_authentication`]).

pub mod algorithm;
pub mod attestation;
pub mod authentication;
pub mod authenticator_data;
pub mod bytes;
pub mod challenge;
pub mod client_data;
pub mod credential;
pub mod crypto;
pub mod data;
pub mod der;
pub mod encoding;
pub mod error;
pub mod extensions;
pub mod json;
pub mod laws;
pub mod metadata;
pub mod options;
pub mod registration;
pub mod text;
pub mod tpm;
pub mod used_challenges;
pub mod x509;

pub use algorithm::{COSE_EDDSA, COSE_ES256, COSE_ES384, COSE_RS256};
pub use authentication::AuthenticatorAssertionResponse;
pub use challenge::{is_expired, is_expired_with_max_age, CHALLENGE_MAX_AGE_SECS};
pub use credential::{
    AttestationType, AuthenticationResult, AuthenticatorAttestationResponse, Challenge, Credential,
    PublicKey, RegistrationResult,
};
pub use crypto::{generate_challenge, random_bytes, sha256};
pub use data::DataItem;
pub use der::rsa_components_to_der;
pub use error::WebAuthnError;
pub use extensions::{CredProps, ExtensionMap, ExtensionView, PrfExtension, PrfValues};
pub use metadata::{verify_and_parse_mds_blob, AuthenticatorStatus, StatusMap};
pub use options::{
    AttestationPreference, AuthenticationOptions, AuthenticatorAttachment, AuthenticatorSelection,
    AuthenticatorTransport, PublicKeyCredentialDescriptor, RegistrationOptions,
    ResidentKeyRequirement, UserEntity, UserVerificationRequirement,
};
pub use registration::RelyingParty;
