//! The authentication ceremony.

use std::time::SystemTime;

use vstd::prelude::*;
use vstd::utf8::encode_utf8;

use crate::attestation::{after, check_claim, uncompressed, uncompressed_point, ClaimModel, SignedClaim};
use crate::authenticator_data::{
    authenticator_data, law_parsed_data_is_consistent, parse_authenticator_data,
    AuthenticatorData, AuthenticatorDataModel,
};
use crate::bytes::{bytes_equal, concat_bytes, contents, copy_bytes};
use crate::challenge::CHALLENGE_MAX_AGE_SECS;
use crate::client_data::{client_data, parse_client_data, policy_check, validate_with_policy};
use crate::credential::{
    age_between, current_time, freshly_made, lemma_clock_read, older_than, read_from_clock,
    AuthenticationModel, AuthenticationResult, Challenge,
    ChallengeModel, Credential, CredentialModel, PublicKey, PublicKeyModel,
};
use crate::crypto::{
    no_randomness, sha256, sha256_of, signature_valid, Scheme, MAX_HASHED_LEN, MAX_INPUT_LEN,
};
use crate::data::maybe;
use crate::der::{rsa_components_to_der, rsa_public_key};
use crate::error::{outcome, Failure, WebAuthnError};
use crate::options::{
    describe_credentials, plain_descriptors, AuthenticationOptions, AuthenticationOptionsModel,
    UserVerificationRequirement,
};
use crate::registration::{backup_check, consume_challenge, RelyingParty, RelyingPartyModel};

verus! {

/// What the client returns from an assertion, as decoded bytes.
#[derive(Debug, Clone)]
pub struct AuthenticatorAssertionResponse {
    /// UTF-8 bytes of the `clientDataJSON` object.
    pub client_data_json: Vec<u8>,
    /// Bytes of the `authenticatorData` structure.
    pub authenticator_data: Vec<u8>,
    /// The signature, in the form of the credential's algorithm.
    pub signature: Vec<u8>,
    /// User handle, where the authenticator gives one.
    pub user_handle: Option<Vec<u8>>,
    /// The ID of the credential that the authenticator used.
    pub credential_id: Vec<u8>,
}

/// The check of the client data of an assertion.
pub open spec fn assertion_check(
    rp: RelyingPartyModel,
    challenge: Seq<u8>,
    client_data_json: Seq<u8>,
) -> Result<(), Failure> {
    match client_data(client_data_json) {
        Err(failure) => Err(failure),
        Ok(parsed) => policy_check(
            parsed,
            "webauthn.get"@,
            challenge,
            rp.allowed_origins,
            rp.reject_cross_origin,
        ),
    }
}

/// The check of authenticator data at authentication: relying party, user presence, user
/// verification, backup policy, and backup eligibility as it was at registration, in
/// this order.
pub open spec fn authentication_check(
    rp: RelyingPartyModel,
    stored: CredentialModel,
    data: AuthenticatorDataModel,
    rp_id_hash: Seq<u8>,
) -> Result<(), Failure> {
    if data.rp_id_hash != rp_id_hash {
        Err(Failure::RpIdHashMismatch)
    } else if !data.flags.user_present {
        Err(Failure::UserNotPresent)
    } else if rp.require_user_verification && !data.flags.user_verified {
        Err(Failure::UserNotVerified)
    } else {
        after(
            backup_check(rp, data.flags),
            if data.flags.backup_eligible != stored.backup_eligible {
                Err(Failure::BackupEligibilityChanged)
            } else {
                Ok(())
            },
        )
    }
}

/// The claim of an assertion: the credential key signed the message.
pub open spec fn assertion_claim(
    key: PublicKeyModel,
    message: Seq<u8>,
    signature: Seq<u8>,
) -> Result<ClaimModel, Failure> {
    match key {
        PublicKeyModel::ES256 { x, y } => Ok(
            ClaimModel { scheme: Scheme::Es256, key: uncompressed(x, y), message, signature },
        ),
        PublicKeyModel::ES384 { x, y } => Ok(
            ClaimModel { scheme: Scheme::Es384, key: uncompressed(x, y), message, signature },
        ),
        PublicKeyModel::EdDSA(key) => Ok(
            ClaimModel { scheme: Scheme::EdDsa, key, message, signature },
        ),
        PublicKeyModel::RS256 { n, e } => match rsa_public_key(n, e) {
            Ok(key) => Ok(ClaimModel { scheme: Scheme::Rs256, key, message, signature }),
            Err(failure) => Err(failure),
        },
    }
}

/// The check of an assertion's signature.
pub open spec fn assertion_signature(
    key: PublicKeyModel,
    message: Seq<u8>,
    signature: Seq<u8>,
) -> Result<(), Failure> {
    match assertion_claim(key, message, signature) {
        Ok(claim) => claim.check(),
        Err(failure) => Err(failure),
    }
}

/// Whether a sign count may follow the stored one: it must be greater, unless both are
/// zero, which is an authenticator without a counter.
pub open spec fn count_accepted(stored: nat, received: nat) -> bool {
    received > stored || (received == 0 && stored == 0)
}

/// The check of the sign count.
pub open spec fn count_check(stored: nat, received: nat) -> Result<(), Failure> {
    if count_accepted(stored, received) {
        Ok(())
    } else {
        Err(Failure::SignCountInvalid { stored: stored as u32, received: received as u32 })
    }
}

/// The result of a successful authentication.
pub open spec fn authenticated(
    stored: CredentialModel,
    data: AuthenticatorDataModel,
) -> AuthenticationModel {
    AuthenticationModel {
        credential_id: stored.id,
        new_sign_count: data.sign_count,
        user_present: data.flags.user_present,
        user_verified: data.flags.user_verified,
        backup_eligible: data.flags.backup_eligible,
        backup_state: data.flags.backup_state,
        extensions: data.extensions,
    }
}

/// What authentication decides on authenticator data, once the client data is accepted.
pub open spec fn assertion_decision(
    rp: RelyingPartyModel,
    stored: CredentialModel,
    auth_data: Seq<u8>,
    client_data_hash: Seq<u8>,
    signature: Seq<u8>,
) -> Result<AuthenticationModel, Failure> {
    match authenticator_data(auth_data) {
        Err(failure) => Err(failure),
        Ok(data) => after(
            authentication_check(rp, stored, data, sha256_of(encode_utf8(stored.rp_id))),
            after(
                assertion_signature(stored.public_key, auth_data + client_data_hash, signature),
                after(
                    count_check(stored.sign_count, data.sign_count),
                    Ok(authenticated(stored, data)),
                ),
            ),
        ),
    }
}

/// The authentication ceremony: its result and the relying party afterwards, by whether
/// the challenge is expired. The challenge is consumed as soon as the client data has
/// been accepted, whatever comes after.
pub open spec fn authentication(
    rp: RelyingPartyModel,
    expired: bool,
    stored: CredentialModel,
    challenge: Seq<u8>,
    client_data_json: Seq<u8>,
    auth_data: Seq<u8>,
    signature: Seq<u8>,
) -> (Result<AuthenticationModel, Failure>, RelyingPartyModel) {
    if expired {
        (Err(Failure::ChallengeExpired), rp)
    } else {
        match assertion_check(rp, challenge, client_data_json) {
            Err(failure) => (Err(failure), rp),
            Ok(_) => match consume_challenge(rp, challenge) {
                Err(failure) => (Err(failure), rp),
                Ok(consumed) => (
                    assertion_decision(
                        rp,
                        stored,
                        auth_data,
                        sha256_of(client_data_json),
                        signature,
                    ),
                    consumed,
                ),
            },
        }
    }
}

/// Reads the claim of an assertion.
pub fn read_assertion_claim(key: &PublicKey, message: Vec<u8>, signature: &[u8]) -> (r: Result<
    SignedClaim,
    WebAuthnError,
>)
    ensures
        outcome(r) == assertion_claim(key@, message@, signature@),
        r matches Ok(claim) ==> claim.message@ == message@,
{
    let signature = copy_bytes(signature);
    match key {
        PublicKey::ES256 { x, y } => {
            let key = uncompressed_point(x.as_slice(), y.as_slice());
            Ok(SignedClaim { scheme: Scheme::Es256, key, message, signature })
        },
        PublicKey::ES384 { x, y } => {
            let key = uncompressed_point(x.as_slice(), y.as_slice());
            Ok(SignedClaim { scheme: Scheme::Es384, key, message, signature })
        },
        PublicKey::EdDSA(key) => {
            let key = copy_bytes(key.as_slice());
            Ok(SignedClaim { scheme: Scheme::EdDsa, key, message, signature })
        },
        PublicKey::RS256 { n, e } => match rsa_components_to_der(n.as_slice(), e.as_slice()) {
            Ok(key) => Ok(SignedClaim { scheme: Scheme::Rs256, key, message, signature }),
            Err(e) => Err(e),
        },
    }
}

/// Checks a sign count against the stored one.
pub fn check_sign_count(stored: u32, received: u32) -> (r: Result<(), WebAuthnError>)
    ensures
        outcome(r) == count_check(stored as nat, received as nat),
{
    if (stored > 0 || received > 0) && received <= stored {
        Err(WebAuthnError::SignCountInvalid { stored, received })
    } else {
        Ok(())
    }
}

/// The authentication options of a relying party for a challenge.
pub open spec fn authentication_options_of(
    rp: RelyingPartyModel,
    challenge: ChallengeModel,
    allowed: Seq<Seq<u8>>,
) -> AuthenticationOptionsModel {
    AuthenticationOptionsModel {
        challenge,
        timeout_ms: 300_000,
        rp_id: rp.id,
        allow_credentials: plain_descriptors(allowed),
        user_verification: if rp.require_user_verification {
            UserVerificationRequirement::Required
        } else {
            UserVerificationRequirement::Preferred
        },
    }
}

impl RelyingParty {
    /// Authentication options with a given challenge.
    pub fn authentication_options_for(
        &self,
        challenge: Challenge,
        allow_credentials: &Vec<Vec<u8>>,
    ) -> (options: AuthenticationOptions)
        ensures
            options@ == authentication_options_of(
                self@,
                challenge@,
                contents(allow_credentials@),
            ),
    {
        AuthenticationOptions {
            challenge,
            timeout_ms: 300_000,
            rp_id: self.id.clone(),
            allow_credentials: describe_credentials(allow_credentials),
            user_verification: if self.require_user_verification {
                UserVerificationRequirement::Required
            } else {
                UserVerificationRequirement::Preferred
            },
        }
    }

    /// Begins an authentication: options with a fresh challenge of 32 bytes, to be sent to
    /// the client. Keep the challenge for [`RelyingParty::verify_authentication`]. Without
    /// credential IDs the authenticator picks any credential of this relying party. Fails
    /// only where the system gives no random bytes.
    pub fn authentication_options(&self, allow_credentials: &Vec<Vec<u8>>) -> (r: Result<
        AuthenticationOptions,
        WebAuthnError,
    >)
        ensures
            match r {
                Ok(options) => freshly_made(Ok(options@.challenge)),
                Err(e) => freshly_made(Err(e@)),
            },
            match r {
                Ok(options) => options@.challenge.bytes.len() == 32 && options@
                    == authentication_options_of(
                    self@,
                    options@.challenge,
                    contents(allow_credentials@),
                ),
                Err(e) => e@ == no_randomness(),
            },
    {
        match Challenge::new() {
            Ok(challenge) => Ok(self.authentication_options_for(challenge, allow_credentials)),
            Err(e) => Err(e),
        }
    }

    /// Extracts credential ID and user handle from an assertion response, to look the
    /// credential up by. An empty credential ID is an error.
    pub fn begin_authentication(&self, response: &AuthenticatorAssertionResponse) -> (r: Result<
        (Vec<u8>, Option<Vec<u8>>),
        WebAuthnError,
    >)
        ensures
            match r {
                Ok((id, handle)) => response.credential_id@.len() > 0 && id@
                    == response.credential_id@ && maybe(handle) == maybe(response.user_handle),
                Err(e) => response.credential_id@.len() == 0 && e@ == Failure::MissingCredentialId,
            },
    {
        if response.credential_id.is_empty() {
            return Err(WebAuthnError::MissingCredentialId);
        }
        let handle = match &response.user_handle {
            Some(handle) => Some(copy_bytes(handle.as_slice())),
            None => None,
        };
        Ok((copy_bytes(response.credential_id.as_slice()), handle))
    }

    /// Checks the client data of an assertion.
    pub fn check_assertion(&self, challenge: &[u8], client_data_json: &[u8]) -> (r: Result<
        (),
        WebAuthnError,
    >)
        ensures
            outcome(r) == assertion_check(self@, challenge@, client_data_json@),
    {
        match parse_client_data(client_data_json) {
            Ok(parsed) => validate_with_policy(
                &parsed,
                "webauthn.get",
                challenge,
                &self.allowed_origins,
                self.reject_cross_origin,
            ),
            Err(e) => Err(e),
        }
    }

    /// Checks the authenticator data of an assertion against the hash of the credential's
    /// relying party ID, the policy and the stored credential.
    pub fn check_authentication_data(
        &self,
        stored: &Credential,
        data: &AuthenticatorData,
        rp_id_hash: &[u8; 32],
    ) -> (r: Result<(), WebAuthnError>)
        ensures
            outcome(r) == authentication_check(self@, stored@, data@, rp_id_hash@),
    {
        if !bytes_equal(data.rp_id_hash.as_slice(), rp_id_hash.as_slice()) {
            return Err(WebAuthnError::RpIdHashMismatch);
        }
        if !data.flags.user_present {
            return Err(WebAuthnError::UserNotPresent);
        }
        if self.require_user_verification && !data.flags.user_verified {
            return Err(WebAuthnError::UserNotVerified);
        }
        if let Err(e) = self.check_backup_policy(&data.flags) {
            return Err(e);
        }
        if data.flags.backup_eligible != stored.backup_eligible {
            return Err(WebAuthnError::BackupEligibilityChanged);
        }
        Ok(())
    }

    fn assert_credential(
        &self,
        stored: &Credential,
        auth_data_bytes: &[u8],
        client_data_hash: &[u8; 32],
        signature: &[u8],
    ) -> (r: Result<AuthenticationResult, WebAuthnError>)
        requires
            encode_utf8(stored@.rp_id).len() <= MAX_HASHED_LEN,
            auth_data_bytes@.len() <= MAX_INPUT_LEN,
        ensures
            outcome(r) == assertion_decision(
                self@,
                stored@,
                auth_data_bytes@,
                client_data_hash@,
                signature@,
            ),
    {
        let auth_data = match parse_authenticator_data(auth_data_bytes) {
            Ok(auth_data) => auth_data,
            Err(e) => return Err(e),
        };
        proof {
            law_parsed_data_is_consistent(auth_data_bytes@);
        }
        let rp_id_hash = sha256(stored.rp_id.as_str().as_bytes());
        if let Err(e) = self.check_authentication_data(stored, &auth_data, &rp_id_hash) {
            return Err(e);
        }
        let message = concat_bytes(auth_data.raw.as_slice(), client_data_hash.as_slice());
        let claim = match read_assertion_claim(&stored.public_key, message, signature) {
            Ok(claim) => claim,
            Err(e) => return Err(e),
        };
        if let Err(e) = check_claim(&claim) {
            return Err(e);
        }
        if let Err(e) = check_sign_count(stored.sign_count, auth_data.sign_count) {
            return Err(e);
        }
        Ok(
            AuthenticationResult {
                credential_id: copy_bytes(stored.id.as_slice()),
                new_sign_count: auth_data.sign_count,
                user_present: auth_data.flags.user_present,
                user_verified: auth_data.flags.user_verified,
                backup_eligible: auth_data.flags.backup_eligible,
                backup_state: auth_data.flags.backup_state,
                extensions: auth_data.extensions,
            },
        )
    }

    /// The authentication ceremony, given whether the challenge is expired.
    pub fn authenticate(
        &mut self,
        expired: bool,
        stored_credential: &Credential,
        challenge: &[u8],
        response: &AuthenticatorAssertionResponse,
    ) -> (r: Result<AuthenticationResult, WebAuthnError>)
        requires
            encode_utf8(stored_credential@.rp_id).len() <= MAX_HASHED_LEN,
            response.client_data_json@.len() <= MAX_HASHED_LEN,
            response.authenticator_data@.len() <= MAX_INPUT_LEN,
        ensures
            (outcome(r), final(self)@) == authentication(
                old(self)@,
                expired,
                stored_credential@,
                challenge@,
                response.client_data_json@,
                response.authenticator_data@,
                response.signature@,
            ),
    {
        if expired {
            return Err(WebAuthnError::ChallengeExpired);
        }
        if let Err(e) = self.check_assertion(challenge, response.client_data_json.as_slice()) {
            return Err(e);
        }
        if let Err(e) = self.use_challenge(challenge) {
            return Err(e);
        }
        let client_data_hash = sha256(response.client_data_json.as_slice());
        self.assert_credential(
            stored_credential,
            response.authenticator_data.as_slice(),
            &client_data_hash,
            response.signature.as_slice(),
        )
    }

    /// Verifies an assertion response. On success, store the new sign count.
    ///
    /// The outcome is that of [`RelyingParty::authenticate`], where the challenge is expired
    /// if it is more than five minutes old at the time of the call.
    pub fn verify_authentication(
        &mut self,
        stored_credential: &Credential,
        challenge: &Challenge,
        response: &AuthenticatorAssertionResponse,
    ) -> (r: Result<AuthenticationResult, WebAuthnError>)
        requires
            encode_utf8(stored_credential@.rp_id).len() <= MAX_HASHED_LEN,
            response.client_data_json@.len() <= MAX_HASHED_LEN,
            response.authenticator_data@.len() <= MAX_INPUT_LEN,
        ensures
            exists|now: SystemTime|
                read_from_clock(now) && (outcome(r), final(self)@) == #[trigger] authentication(
                    old(self)@,
                    older_than(age_between(challenge.created_at, now), CHALLENGE_MAX_AGE_SECS),
                    stored_credential@,
                    challenge.bytes@,
                    response.client_data_json@,
                    response.authenticator_data@,
                    response.signature@,
                ),
    {
        let now = current_time();
        let expired = challenge.is_expired_at(&now, CHALLENGE_MAX_AGE_SECS);
        proof {
            lemma_clock_read(now);
        }
        let r = self.authenticate(expired, stored_credential, challenge.bytes.as_slice(), response);
        assert((outcome(r), self@) == authentication(
            old(self)@,
            older_than(age_between(challenge.created_at, now), CHALLENGE_MAX_AGE_SECS),
            stored_credential@,
            challenge.bytes@,
            response.client_data_json@,
            response.authenticator_data@,
            response.signature@,
        ));
        r
    }
}

/// The options for an assertion hold the challenge, the relying party's ID and the given
/// credentials in order, and demand user verification exactly where the relying party does.
pub proof fn law_authentication_options(
    rp: RelyingPartyModel,
    challenge: ChallengeModel,
    allowed: Seq<Seq<u8>>,
)
    ensures
        ({
            let options = authentication_options_of(rp, challenge, allowed);
            &&& options.challenge == challenge
            &&& options.rp_id == rp.id
            &&& options.timeout_ms == 300_000
            &&& options.allow_credentials.len() == allowed.len()
            &&& forall|i: int|
                0 <= i < allowed.len() ==> {
                    &&& (#[trigger] options.allow_credentials[i]).id == allowed[i]
                    &&& options.allow_credentials[i].transports is None
                }
            &&& options.user_verification == if rp.require_user_verification {
                UserVerificationRequirement::Required
            } else {
                UserVerificationRequirement::Preferred
            }
        }),
{
}

/// An assertion's signature is checked by the scheme of the credential key: ES256 and ES384
/// under the uncompressed point, EdDSA under the raw key, RS256 under the DER form of modulus
/// and exponent. It is accepted exactly if it is valid.
pub proof fn law_assertion_signatures(key: PublicKeyModel, message: Seq<u8>, signature: Seq<u8>)
    ensures
        ({
            let (scheme, form) = match key {
                PublicKeyModel::ES256 { x, y } => (Scheme::Es256, Ok(seq![0x04u8] + x + y)),
                PublicKeyModel::ES384 { x, y } => (Scheme::Es384, Ok(seq![0x04u8] + x + y)),
                PublicKeyModel::EdDSA(raw) => (Scheme::EdDsa, Ok(raw)),
                PublicKeyModel::RS256 { n, e } => (Scheme::Rs256, rsa_public_key(n, e)),
            };
            assertion_signature(key, message, signature) == match form {
                Err(failure) => Err(failure),
                Ok(form) => if signature_valid(scheme, form, message, signature) {
                    Ok(())
                } else {
                    Err(Failure::SignatureVerificationFailed)
                },
            }
        }),
{
}

} // verus!
