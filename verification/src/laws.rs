//! What holds of ceremonies as a whole.

use std::time::SystemTime;

use vstd::prelude::*;
use vstd::utf8::{encode_utf8, valid_utf8};

use crate::attestation::attestation_verdict;
use crate::authentication::{
    assertion_check, assertion_signature, authentication, authentication_check, count_accepted,
};
use crate::authenticator_data::{
    authenticator_data, law_parsed_data_is_consistent, AuthenticatorDataModel, CoseKeyModel,
};
use crate::challenge::CHALLENGE_MAX_AGE_SECS;
use crate::client_data::{client_data, law_accepted_client_data_is_bound, policy_check};
use crate::credential::{
    age_between, older_than, AttestationType, AuthenticationModel, ChallengeModel, CredentialModel,
    PublicKeyModel, RegistrationModel,
};
use crate::crypto::{sha256_of, signature_valid, Scheme};
use crate::der::rsa_public_key;
use crate::error::Failure;
use crate::options::UserModel;
use crate::registration::{
    creation_check, law_allowed_algorithms_decide, object_bytes, registration, registration_options,
    RelyingPartyModel,
};

verus! {

/// Client data that belongs to a ceremony: of its type, with its challenge, from an
/// allowed origin, and without a cross-origin use that the relying party rejects.
pub open spec fn bound_client_data(
    rp: RelyingPartyModel,
    ceremony: Seq<char>,
    challenge: Seq<u8>,
    client_data_json: Seq<u8>,
) -> bool {
    client_data(client_data_json) matches Ok(parsed) && {
        &&& parsed.type_ == ceremony
        &&& parsed.challenge_bytes == challenge
        &&& rp.allowed_origins.contains(parsed.origin)
        &&& !(rp.reject_cross_origin && parsed.cross_origin == Some(true))
    }
}

/// Whether a challenge may be used: it has not been, where single use is enforced.
pub open spec fn unused(rp: RelyingPartyModel, challenge: Seq<u8>) -> bool {
    rp.used_challenges matches Some(used) ==> !used.contains(challenge)
}

/// Authenticator data that the relying party accepts: bound to the relying party ID, with
/// the user present, and in line with the backup policy.
pub open spec fn acceptable_data(
    rp: RelyingPartyModel,
    rp_id: Seq<char>,
    data: AuthenticatorDataModel,
) -> bool {
    &&& data.rp_id_hash == sha256_of(encode_utf8(rp_id))
    &&& data.flags.user_present
    &&& !(rp.reject_backup_eligible && data.flags.backup_eligible)
    &&& !(rp.require_backup_eligible && !data.flags.backup_eligible)
}

/// Whether an assertion's signature over a message verifies under the credential key.
pub open spec fn properly_signed(
    stored: CredentialModel,
    message: Seq<u8>,
    signature: Seq<u8>,
) -> bool {
    match stored.public_key {
        PublicKeyModel::ES256 { x, y } => signature_valid(
            Scheme::Es256,
            seq![0x04u8] + x + y,
            message,
            signature,
        ),
        PublicKeyModel::ES384 { x, y } => signature_valid(
            Scheme::Es384,
            seq![0x04u8] + x + y,
            message,
            signature,
        ),
        PublicKeyModel::EdDSA(key) => signature_valid(Scheme::EdDsa, key, message, signature),
        PublicKeyModel::RS256 { n, e } => rsa_public_key(n, e) matches Ok(key) && signature_valid(
            Scheme::Rs256,
            key,
            message,
            signature,
        ),
    }
}

/// The credential key for a COSE key.
pub open spec fn credential_key(key: CoseKeyModel) -> PublicKeyModel {
    match key {
        CoseKeyModel::EC2 { x, y, .. } => if x.len() == 32 {
            PublicKeyModel::ES256 { x, y }
        } else {
            PublicKeyModel::ES384 { x, y }
        },
        CoseKeyModel::OKP { x, .. } => PublicKeyModel::EdDSA(x),
        CoseKeyModel::RSA { n, e, .. } => PublicKeyModel::RS256 { n, e },
    }
}

/// Whether a relying party accepts new credentials with a key: it lists no algorithms, or the
/// key's.
pub open spec fn algorithm_allowed(rp: RelyingPartyModel, key: PublicKeyModel) -> bool {
    rp.allowed_algorithms.len() == 0 || rp.allowed_algorithms.contains(
        match key {
            PublicKeyModel::ES256 { .. } => -7i64,
            PublicKeyModel::ES384 { .. } => -35i64,
            PublicKeyModel::EdDSA(_) => -8i64,
            PublicKeyModel::RS256 { .. } => -257i64,
        },
    )
}

/// Everything that an assertion has to fulfil.
pub open spec fn valid_assertion(
    rp: RelyingPartyModel,
    stored: CredentialModel,
    challenge: Seq<u8>,
    client_data_json: Seq<u8>,
    auth_data: Seq<u8>,
    signature: Seq<u8>,
) -> bool {
    &&& bound_client_data(rp, "webauthn.get"@, challenge, client_data_json)
    &&& unused(rp, challenge)
    &&& authenticator_data(auth_data) matches Ok(data) && {
        &&& acceptable_data(rp, stored.rp_id, data)
        &&& rp.require_user_verification ==> data.flags.user_verified
        &&& data.flags.backup_eligible == stored.backup_eligible
        &&& count_accepted(stored.sign_count, data.sign_count)
    }
    &&& properly_signed(stored, auth_data + sha256_of(client_data_json), signature)
}

/// An assertion is accepted exactly if its challenge is not expired and it fulfils every
/// condition. The result then reports the authenticator data, and what is to be stored as
/// the new sign count is the one received.
pub proof fn law_authentication_accepts_valid_assertions(
    rp: RelyingPartyModel,
    expired: bool,
    stored: CredentialModel,
    challenge: Seq<u8>,
    client_data_json: Seq<u8>,
    auth_data: Seq<u8>,
    signature: Seq<u8>,
)
    ensures
        authentication(
            rp,
            expired,
            stored,
            challenge,
            client_data_json,
            auth_data,
            signature,
        ).0 is Ok <==> !expired && valid_assertion(
            rp,
            stored,
            challenge,
            client_data_json,
            auth_data,
            signature,
        ),
        authentication(
            rp,
            expired,
            stored,
            challenge,
            client_data_json,
            auth_data,
            signature,
        ).0 matches Ok(result) ==> authenticator_data(auth_data) matches Ok(data) && {
            &&& result.credential_id == stored.id
            &&& result.new_sign_count == data.sign_count
            &&& result.user_present
            &&& result.user_verified == data.flags.user_verified
            &&& result.backup_eligible == data.flags.backup_eligible
            &&& result.backup_state == data.flags.backup_state
            &&& result.extensions == data.extensions
        },
{
    reveal_strlit("webauthn.get");
    if let Ok(parsed) = client_data(client_data_json) {
        law_accepted_client_data_is_bound(
            parsed,
            "webauthn.get"@,
            challenge,
            rp.allowed_origins,
            rp.reject_cross_origin,
        );
    }
}

/// An accepted assertion never lowers the sign count, and raises it unless the
/// authenticator does not count at all.
pub proof fn law_sign_count_rises(
    rp: RelyingPartyModel,
    expired: bool,
    stored: CredentialModel,
    challenge: Seq<u8>,
    client_data_json: Seq<u8>,
    auth_data: Seq<u8>,
    signature: Seq<u8>,
)
    ensures
        authentication(
            rp,
            expired,
            stored,
            challenge,
            client_data_json,
            auth_data,
            signature,
        ).0 matches Ok(result) ==> result.new_sign_count > stored.sign_count || (
        result.new_sign_count == 0 && stored.sign_count == 0),
{
    law_authentication_accepts_valid_assertions(
        rp,
        expired,
        stored,
        challenge,
        client_data_json,
        auth_data,
        signature,
    );
}

/// Once an assertion with a non-zero sign count has been accepted and that count stored, no
/// assertion with a count that is not higher is accepted, with whatever challenge, client
/// data and signature and by whatever relying party. Where it passes every other check, the
/// error tells both counts.
pub proof fn law_counts_that_do_not_rise_are_rejected(
    rp: RelyingPartyModel,
    expired: bool,
    stored: CredentialModel,
    challenge: Seq<u8>,
    client_data_json: Seq<u8>,
    auth_data: Seq<u8>,
    signature: Seq<u8>,
    later_rp: RelyingPartyModel,
    later_expired: bool,
    later_challenge: Seq<u8>,
    later_client_data_json: Seq<u8>,
    later_auth_data: Seq<u8>,
    later_signature: Seq<u8>,
)
    ensures
        ({
            let accepted = authentication(
                rp,
                expired,
                stored,
                challenge,
                client_data_json,
                auth_data,
                signature,
            ).0;
            accepted matches Ok(result) ==> authenticator_data(later_auth_data) matches Ok(data)
                ==> result.new_sign_count > 0 && data.sign_count <= result.new_sign_count ==> {
                let updated = CredentialModel { sign_count: result.new_sign_count, ..stored };
                let later = authentication(
                    later_rp,
                    later_expired,
                    updated,
                    later_challenge,
                    later_client_data_json,
                    later_auth_data,
                    later_signature,
                ).0;
                &&& later is Err
                &&& ({
                    &&& !later_expired
                    &&& assertion_check(later_rp, later_challenge, later_client_data_json) is Ok
                    &&& unused(later_rp, later_challenge)
                    &&& authentication_check(
                        later_rp,
                        updated,
                        data,
                        sha256_of(encode_utf8(stored.rp_id)),
                    ) is Ok
                    &&& assertion_signature(
                        stored.public_key,
                        later_auth_data + sha256_of(later_client_data_json),
                        later_signature,
                    ) is Ok
                }) ==> later == Err::<AuthenticationModel, Failure>(
                    Failure::SignCountInvalid {
                        stored: result.new_sign_count as u32,
                        received: data.sign_count as u32,
                    },
                )
            }
        }),
{
}

/// A replay is rejected: once an assertion with a non-zero sign count has been accepted and
/// that count stored, the same authenticator data is never accepted again, with whatever
/// challenge, client data and signature and by whatever relying party.
pub proof fn law_replayed_authenticator_data_is_rejected(
    rp: RelyingPartyModel,
    expired: bool,
    stored: CredentialModel,
    challenge: Seq<u8>,
    client_data_json: Seq<u8>,
    auth_data: Seq<u8>,
    signature: Seq<u8>,
    later_rp: RelyingPartyModel,
    later_expired: bool,
    later_challenge: Seq<u8>,
    later_client_data_json: Seq<u8>,
    later_signature: Seq<u8>,
)
    ensures
        authentication(
            rp,
            expired,
            stored,
            challenge,
            client_data_json,
            auth_data,
            signature,
        ).0 matches Ok(result) ==> result.new_sign_count > 0 ==> authentication(
            later_rp,
            later_expired,
            CredentialModel { sign_count: result.new_sign_count, ..stored },
            later_challenge,
            later_client_data_json,
            auth_data,
            later_signature,
        ).0 is Err,
{
    law_counts_that_do_not_rise_are_rejected(
        rp,
        expired,
        stored,
        challenge,
        client_data_json,
        auth_data,
        signature,
        later_rp,
        later_expired,
        later_challenge,
        later_client_data_json,
        auth_data,
        later_signature,
    );
}

/// Everything that a registration has to fulfil.
pub open spec fn valid_registration(
    rp: RelyingPartyModel,
    challenge: Seq<u8>,
    client_data_json: Seq<u8>,
    attestation_object: Seq<u8>,
) -> bool {
    &&& valid_utf8(client_data_json)
    &&& bound_client_data(rp, "webauthn.create"@, challenge, client_data_json)
    &&& unused(rp, challenge)
    &&& object_bytes(attestation_object) matches Ok((fmt, auth_data, att_stmt)) && {
        authenticator_data(auth_data) matches Ok(data) && {
            &&& acceptable_data(rp, rp.id, data)
            &&& data.attested_credential_data matches Some(credential) && {
                &&& algorithm_allowed(rp, credential_key(credential.public_key))
                &&& attestation_verdict(
                    fmt,
                    att_stmt,
                    auth_data,
                    sha256_of(client_data_json),
                    credential_key(credential.public_key),
                    credential.credential_id,
                    rp.trust_anchors,
                    credential.aaguid,
                ) is Ok
            }
        }
    }
}

/// A registration is accepted exactly if its challenge is not expired and it fulfils every
/// condition. The credential then holds what the authenticator data says, bound to the
/// relying party and the user.
pub proof fn law_registration_accepts_valid_responses(
    rp: RelyingPartyModel,
    expired: bool,
    challenge: Seq<u8>,
    client_data_json: Seq<u8>,
    attestation_object: Seq<u8>,
    user_id: Seq<u8>,
    at: SystemTime,
)
    ensures
        registration(rp, expired, challenge, client_data_json, attestation_object, user_id, at).0 is Ok
            <==> !expired && valid_registration(
            rp,
            challenge,
            client_data_json,
            attestation_object,
        ),
        registration(
            rp,
            expired,
            challenge,
            client_data_json,
            attestation_object,
            user_id,
            at,
        ).0 matches Ok(result) ==> {
            &&& object_bytes(attestation_object) matches Ok((fmt, auth_data, att_stmt)) && {
                authenticator_data(auth_data) matches Ok(data) && {
                    &&& data.attested_credential_data matches Some(attested) && {
                        &&& result.credential.id == attested.credential_id
                        &&& result.credential.public_key == credential_key(attested.public_key)
                        &&& attestation_verdict(
                            fmt,
                            att_stmt,
                            auth_data,
                            sha256_of(client_data_json),
                            result.credential.public_key,
                            attested.credential_id,
                            rp.trust_anchors,
                            attested.aaguid,
                        ) == Ok::<AttestationType, Failure>(result.attestation_type)
                    }
                    &&& result.credential.sign_count == data.sign_count
                    &&& result.credential.backup_eligible == data.flags.backup_eligible
                    &&& result.credential.backup_state == data.flags.backup_state
                    &&& result.extensions == data.extensions
                }
            }
            &&& result.credential.user_id == user_id
            &&& result.credential.rp_id == rp.id
            &&& result.credential.created_at == at
            &&& result.backup_eligible == result.credential.backup_eligible
            &&& result.backup_state == result.credential.backup_state
        },
{
    reveal_strlit("webauthn.create");
    if let Ok(parsed) = client_data(client_data_json) {
        law_accepted_client_data_is_bound(
            parsed,
            "webauthn.create"@,
            challenge,
            rp.allowed_origins,
            rp.reject_cross_origin,
        );
    }
    if let Ok((_, auth_data, _)) = object_bytes(attestation_object) {
        law_parsed_data_is_consistent(auth_data);
        if let Ok(data) = authenticator_data(auth_data) {
            law_allowed_algorithms_decide(rp, data);
        }
    }
}

/// How a registration fails, in the order of its checks: expiry, client data, single use, the
/// attestation object, its authenticator data, relying party, user presence, backup policy,
/// credential data, algorithm, and the attestation statement.
pub proof fn law_registration_failures(
    rp: RelyingPartyModel,
    expired: bool,
    challenge: Seq<u8>,
    client_data_json: Seq<u8>,
    attestation_object: Seq<u8>,
    user_id: Seq<u8>,
    at: SystemTime,
)
    ensures
        ({
            let result = registration(
                rp,
                expired,
                challenge,
                client_data_json,
                attestation_object,
                user_id,
                at,
            ).0;
            let fails = |failure: Failure| result == Err::<RegistrationModel, Failure>(failure);
            if expired {
                fails(Failure::ChallengeExpired)
            } else if creation_check(rp, challenge, client_data_json) is Err {
                fails(creation_check(rp, challenge, client_data_json)->Err_0)
            } else if !unused(rp, challenge) {
                fails(Failure::ChallengePreviouslyUsed)
            } else {
                match object_bytes(attestation_object) {
                    Err(failure) => fails(failure),
                    Ok((fmt, auth_data, att_stmt)) => match authenticator_data(auth_data) {
                        Err(failure) => fails(failure),
                        Ok(data) => if data.rp_id_hash != sha256_of(encode_utf8(rp.id)) {
                            fails(Failure::RpIdHashMismatch)
                        } else if !data.flags.user_present {
                            fails(Failure::UserNotPresent)
                        } else if rp.reject_backup_eligible && data.flags.backup_eligible {
                            fails(Failure::BackupEligibleNotAllowed)
                        } else if rp.require_backup_eligible && !data.flags.backup_eligible {
                            fails(Failure::BackupEligibilityRequired)
                        } else {
                            match data.attested_credential_data {
                                None => result matches Err(failure)
                                    && failure is InvalidAuthenticatorData,
                                Some(attested) => {
                                    let key = credential_key(attested.public_key);
                                    if !algorithm_allowed(rp, key) {
                                        fails(Failure::UnsupportedAlgorithm(key.algorithm()))
                                    } else {
                                        match attestation_verdict(
                                            fmt,
                                            att_stmt,
                                            auth_data,
                                            sha256_of(client_data_json),
                                            key,
                                            attested.credential_id,
                                            rp.trust_anchors,
                                            attested.aaguid,
                                        ) {
                                            Err(failure) => fails(failure),
                                            Ok(_) => result is Ok,
                                        }
                                    }
                                },
                            }
                        },
                    },
                }
            }
        }),
{
    if let Ok((_, auth_data, _)) = object_bytes(attestation_object) {
        law_parsed_data_is_consistent(auth_data);
        if let Ok(data) = authenticator_data(auth_data) {
            law_allowed_algorithms_decide(rp, data);
        }
    }
}

/// How an authentication fails, in the order of its checks: expiry, client data, single use,
/// authenticator data, relying party, user presence, user verification, backup policy, backup
/// eligibility, signature and sign count.
pub proof fn law_authentication_failures(
    rp: RelyingPartyModel,
    expired: bool,
    stored: CredentialModel,
    challenge: Seq<u8>,
    client_data_json: Seq<u8>,
    auth_data: Seq<u8>,
    signature: Seq<u8>,
)
    ensures
        ({
            let result = authentication(
                rp,
                expired,
                stored,
                challenge,
                client_data_json,
                auth_data,
                signature,
            ).0;
            let fails = |failure: Failure| result == Err::<AuthenticationModel, Failure>(failure);
            if expired {
                fails(Failure::ChallengeExpired)
            } else if assertion_check(rp, challenge, client_data_json) is Err {
                fails(assertion_check(rp, challenge, client_data_json)->Err_0)
            } else if !unused(rp, challenge) {
                fails(Failure::ChallengePreviouslyUsed)
            } else {
                match authenticator_data(auth_data) {
                    Err(failure) => fails(failure),
                    Ok(data) => if data.rp_id_hash != sha256_of(encode_utf8(stored.rp_id)) {
                        fails(Failure::RpIdHashMismatch)
                    } else if !data.flags.user_present {
                        fails(Failure::UserNotPresent)
                    } else if rp.require_user_verification && !data.flags.user_verified {
                        fails(Failure::UserNotVerified)
                    } else if rp.reject_backup_eligible && data.flags.backup_eligible {
                        fails(Failure::BackupEligibleNotAllowed)
                    } else if rp.require_backup_eligible && !data.flags.backup_eligible {
                        fails(Failure::BackupEligibilityRequired)
                    } else if data.flags.backup_eligible != stored.backup_eligible {
                        fails(Failure::BackupEligibilityChanged)
                    } else if !properly_signed(
                        stored,
                        auth_data + sha256_of(client_data_json),
                        signature,
                    ) {
                        fails(Failure::SignatureVerificationFailed) || (
                        stored.public_key matches PublicKeyModel::RS256 { n, e } && rsa_public_key(
                            n,
                            e,
                        ) is Err && fails(rsa_public_key(n, e)->Err_0))
                    } else if stored.sign_count >= data.sign_count && (stored.sign_count > 0
                        || data.sign_count > 0) {
                        fails(
                            Failure::SignCountInvalid {
                                stored: stored.sign_count as u32,
                                received: data.sign_count as u32,
                            },
                        )
                    } else {
                        result is Ok
                    },
                }
            }
        }),
{
}

/// A registered credential has an ID of 1 to 1023 bytes, an algorithm that the registration
/// options offered, and is backed up only if it is eligible for backup.
pub proof fn law_registered_credentials_are_sound(
    rp: RelyingPartyModel,
    expired: bool,
    challenge: ChallengeModel,
    client_data_json: Seq<u8>,
    attestation_object: Seq<u8>,
    user_id: Seq<u8>,
    user: UserModel,
    excluded: Seq<Seq<u8>>,
    at: SystemTime,
)
    ensures
        registration(
            rp,
            expired,
            challenge.bytes,
            client_data_json,
            attestation_object,
            user_id,
            at,
        ).0 matches Ok(result) ==> {
            &&& 1 <= result.credential.id.len() <= 1023
            &&& result.credential.backup_state ==> result.credential.backup_eligible
            &&& registration_options(
                rp,
                challenge,
                user,
                excluded,
            ).pub_key_cred_params.contains(result.credential.public_key.algorithm())
        },
{
    law_registration_accepts_valid_responses(
        rp,
        expired,
        challenge.bytes,
        client_data_json,
        attestation_object,
        user_id,
        at,
    );
    if let Ok(result) = registration(
        rp,
        expired,
        challenge.bytes,
        client_data_json,
        attestation_object,
        user_id,
        at,
    ).0 {
        if let Ok((_, auth_data, _)) = object_bytes(attestation_object) {
            law_parsed_data_is_consistent(auth_data);
        }
        let offered = registration_options(rp, challenge, user, excluded).pub_key_cred_params;
        let alg = result.credential.public_key.algorithm();
        if rp.allowed_algorithms.len() == 0 {
            assert(offered[0] == alg || offered[1] == alg || offered[2] == alg || offered[3]
                == alg);
        }
    }
}

/// A ceremony changes nothing of the relying party but the set of consumed challenges, and
/// that only by adding the ceremony's own challenge; without enforcement it changes
/// nothing at all.
pub proof fn law_ceremonies_keep_the_policy(
    rp: RelyingPartyModel,
    expired: bool,
    stored: CredentialModel,
    challenge: Seq<u8>,
    client_data_json: Seq<u8>,
    payload: Seq<u8>,
    extra: Seq<u8>,
    at: SystemTime,
)
    ensures
        ({
            let registered = registration(
                rp,
                expired,
                challenge,
                client_data_json,
                payload,
                extra,
                at,
            ).1;
            let authenticated = authentication(
                rp,
                expired,
                stored,
                challenge,
                client_data_json,
                payload,
                extra,
            ).1;
            &&& registered == rp || (rp.used_challenges matches Some(used) && registered == (
            RelyingPartyModel { used_challenges: Some(used.insert(challenge)), ..rp }))
            &&& authenticated == rp || (rp.used_challenges matches Some(used) && authenticated == (
            RelyingPartyModel { used_challenges: Some(used.insert(challenge)), ..rp }))
        }),
{
}

/// Where single use is enforced, a challenge whose client data was accepted is consumed,
/// whether or not the ceremony succeeds.
pub proof fn law_accepted_challenges_are_consumed(
    rp: RelyingPartyModel,
    stored: CredentialModel,
    challenge: Seq<u8>,
    client_data_json: Seq<u8>,
    payload: Seq<u8>,
    extra: Seq<u8>,
    at: SystemTime,
)
    requires
        rp.used_challenges is Some,
    ensures
        creation_check(rp, challenge, client_data_json) is Ok ==> !unused(
            registration(rp, false, challenge, client_data_json, payload, extra, at).1,
            challenge,
        ),
        assertion_check(rp, challenge, client_data_json) is Ok ==> !unused(
            authentication(rp, false, stored, challenge, client_data_json, payload, extra).1,
            challenge,
        ),
{
}

/// A consumed challenge is of no more use: no registration and no authentication with it
/// succeeds, and one with acceptable client data is told that the challenge was used.
pub proof fn law_consumed_challenges_are_rejected(
    rp: RelyingPartyModel,
    expired: bool,
    stored: CredentialModel,
    challenge: Seq<u8>,
    client_data_json: Seq<u8>,
    payload: Seq<u8>,
    extra: Seq<u8>,
    at: SystemTime,
)
    requires
        !unused(rp, challenge),
    ensures
        registration(rp, expired, challenge, client_data_json, payload, extra, at).0 is Err,
        authentication(
            rp,
            expired,
            stored,
            challenge,
            client_data_json,
            payload,
            extra,
        ).0 is Err,
        !expired && creation_check(rp, challenge, client_data_json) is Ok ==> registration(
            rp,
            expired,
            challenge,
            client_data_json,
            payload,
            extra,
            at,
        ).0 == Err::<RegistrationModel, Failure>(Failure::ChallengePreviouslyUsed),
        !expired && assertion_check(rp, challenge, client_data_json) is Ok ==> authentication(
            rp,
            expired,
            stored,
            challenge,
            client_data_json,
            payload,
            extra,
        ).0 == Err::<AuthenticationModel, Failure>(Failure::ChallengePreviouslyUsed),
{
}

/// A used challenge stays used, whatever ceremonies follow.
pub proof fn law_consumed_challenges_stay_consumed(
    rp: RelyingPartyModel,
    used: Seq<u8>,
    expired: bool,
    stored: CredentialModel,
    challenge: Seq<u8>,
    client_data_json: Seq<u8>,
    payload: Seq<u8>,
    extra: Seq<u8>,
    at: SystemTime,
)
    requires
        !unused(rp, used),
    ensures
        !unused(
            registration(rp, expired, challenge, client_data_json, payload, extra, at).1,
            used,
        ),
        !unused(
            authentication(
                rp,
                expired,
                stored,
                challenge,
                client_data_json,
                payload,
                extra,
            ).1,
            used,
        ),
{
}

/// A challenge is used once: where single use is enforced and a first ceremony got past the
/// checks of expiry and client data, whether it then succeeded or not, a later ceremony with
/// the same challenge that gets past them too is told that the challenge was used. The later
/// one may be of either kind and held by another relying party, with another policy, as long
/// as that one consumes from the same set: other ceremonies may have added to the set in
/// between.
pub proof fn law_challenges_are_used_once(
    rp: RelyingPartyModel,
    stored: CredentialModel,
    challenge: Seq<u8>,
    client_data_json: Seq<u8>,
    payload: Seq<u8>,
    extra: Seq<u8>,
    at: SystemTime,
    after: RelyingPartyModel,
    later_rp: RelyingPartyModel,
    later_stored: CredentialModel,
    later_client_data_json: Seq<u8>,
    later_payload: Seq<u8>,
    later_extra: Seq<u8>,
    later_at: SystemTime,
)
    requires
        rp.used_challenges is Some,
        ({
            ||| creation_check(rp, challenge, client_data_json) is Ok && after == registration(
                rp,
                false,
                challenge,
                client_data_json,
                payload,
                extra,
                at,
            ).1
            ||| assertion_check(rp, challenge, client_data_json) is Ok && after == authentication(
                rp,
                false,
                stored,
                challenge,
                client_data_json,
                payload,
                extra,
            ).1
        }),
        after.used_challenges matches Some(used) && later_rp.used_challenges matches Some(later)
            && used.subset_of(later),
    ensures
        creation_check(later_rp, challenge, later_client_data_json) is Ok ==> registration(
            later_rp,
            false,
            challenge,
            later_client_data_json,
            later_payload,
            later_extra,
            later_at,
        ).0 == Err::<RegistrationModel, Failure>(Failure::ChallengePreviouslyUsed),
        assertion_check(later_rp, challenge, later_client_data_json) is Ok ==> authentication(
            later_rp,
            false,
            later_stored,
            challenge,
            later_client_data_json,
            later_payload,
            later_extra,
        ).0 == Err::<AuthenticationModel, Failure>(Failure::ChallengePreviouslyUsed),
{
    law_accepted_challenges_are_consumed(
        rp,
        stored,
        challenge,
        client_data_json,
        payload,
        extra,
        at,
    );
    law_consumed_challenges_are_rejected(
        later_rp,
        false,
        later_stored,
        challenge,
        later_client_data_json,
        later_payload,
        later_extra,
        later_at,
    );
}

/// The demand for user verification binds authentication only: a registration has the same
/// outcome, and consumes the same challenge, with it and without.
pub proof fn law_registration_ignores_the_user_verification_policy(
    rp: RelyingPartyModel,
    required: bool,
    expired: bool,
    challenge: Seq<u8>,
    client_data_json: Seq<u8>,
    attestation_object: Seq<u8>,
    user_id: Seq<u8>,
    at: SystemTime,
)
    ensures
        ({
            let other = RelyingPartyModel { require_user_verification: required, ..rp };
            let (result, left) = registration(
                rp,
                expired,
                challenge,
                client_data_json,
                attestation_object,
                user_id,
                at,
            );
            registration(
                other,
                expired,
                challenge,
                client_data_json,
                attestation_object,
                user_id,
                at,
            ) == (result, RelyingPartyModel { require_user_verification: required, ..left })
        }),
{
}

/// An expired challenge ends a ceremony before anything else is looked at.
pub proof fn law_expired_challenges_are_rejected(
    rp: RelyingPartyModel,
    stored: CredentialModel,
    challenge: Seq<u8>,
    client_data_json: Seq<u8>,
    payload: Seq<u8>,
    extra: Seq<u8>,
    at: SystemTime,
)
    ensures
        registration(rp, true, challenge, client_data_json, payload, extra, at) == (
            Err::<RegistrationModel, Failure>(Failure::ChallengeExpired),
            rp,
        ),
        authentication(rp, true, stored, challenge, client_data_json, payload, extra) == (
            Err::<AuthenticationModel, Failure>(Failure::ChallengeExpired),
            rp,
        ),
{
}

/// A registered credential can be used: an assertion for the same relying party is accepted
/// if its client data is bound to the ceremony, its challenge is unused, its authenticator
/// data has the user present, the backup eligibility of the registration and a higher sign
/// count, and it is signed by the registered key. The backup policy need not be looked at
/// again.
pub proof fn law_registered_credentials_authenticate(
    rp: RelyingPartyModel,
    challenge: Seq<u8>,
    client_data_json: Seq<u8>,
    attestation_object: Seq<u8>,
    user_id: Seq<u8>,
    later_challenge: Seq<u8>,
    later_client_data_json: Seq<u8>,
    auth_data: Seq<u8>,
    signature: Seq<u8>,
    at: SystemTime,
)
    ensures
        ({
            let (result, after) = registration(
                rp,
                false,
                challenge,
                client_data_json,
                attestation_object,
                user_id,
                at,
            );
            result matches Ok(registered) ==> authenticator_data(auth_data) matches Ok(data) ==> ({
                &&& bound_client_data(
                    after,
                    "webauthn.get"@,
                    later_challenge,
                    later_client_data_json,
                )
                &&& unused(after, later_challenge)
                &&& data.rp_id_hash == sha256_of(encode_utf8(rp.id))
                &&& data.flags.user_present
                &&& rp.require_user_verification ==> data.flags.user_verified
                &&& data.flags.backup_eligible == registered.backup_eligible
                &&& data.sign_count > registered.credential.sign_count
                &&& properly_signed(
                    registered.credential,
                    auth_data + sha256_of(later_client_data_json),
                    signature,
                )
            }) ==> authentication(
                after,
                false,
                registered.credential,
                later_challenge,
                later_client_data_json,
                auth_data,
                signature,
            ).0 is Ok
        }),
{
    let (result, after) = registration(
        rp,
        false,
        challenge,
        client_data_json,
        attestation_object,
        user_id,
        at,
    );
    law_registration_accepts_valid_responses(
        rp,
        false,
        challenge,
        client_data_json,
        attestation_object,
        user_id,
        at,
    );
    if let Ok(registered) = result {
        law_authentication_accepts_valid_assertions(
            after,
            false,
            registered.credential,
            later_challenge,
            later_client_data_json,
            auth_data,
            signature,
        );
    }
}

/// A ceremony that is accepted took place within five minutes of the creation of its
/// challenge, and not before it.
pub proof fn law_accepted_challenges_are_in_time(
    rp: RelyingPartyModel,
    created_at: SystemTime,
    now: SystemTime,
    stored: CredentialModel,
    challenge: Seq<u8>,
    client_data_json: Seq<u8>,
    payload: Seq<u8>,
    extra: Seq<u8>,
    at: SystemTime,
)
    ensures
        ({
            let expired = older_than(age_between(created_at, now), CHALLENGE_MAX_AGE_SECS);
            let registered = registration(
                rp,
                expired,
                challenge,
                client_data_json,
                payload,
                extra,
                at,
            ).0;
            let authenticated = authentication(
                rp,
                expired,
                stored,
                challenge,
                client_data_json,
                payload,
                extra,
            ).0;
            registered is Ok || authenticated is Ok ==> (age_between(created_at, now) matches Some(
                (seconds, nanos),
            ) && (seconds < 300 || (seconds == 300 && nanos == 0)))
        }),
{
}

/// The client data of a ceremony is checked for the ceremony's own type, by the relying
/// party's origins and its policy on cross-origin use; at registration it must be UTF-8.
pub proof fn law_ceremonies_check_their_client_data(
    rp: RelyingPartyModel,
    challenge: Seq<u8>,
    client_data_json: Seq<u8>,
)
    ensures
        creation_check(rp, challenge, client_data_json) is Ok <==> valid_utf8(client_data_json)
            && bound_client_data(rp, "webauthn.create"@, challenge, client_data_json),
        assertion_check(rp, challenge, client_data_json) is Ok <==> bound_client_data(
            rp,
            "webauthn.get"@,
            challenge,
            client_data_json,
        ),
        !valid_utf8(client_data_json) ==> (creation_check(
            rp,
            challenge,
            client_data_json,
        ) matches Err(failure) && failure is InvalidClientData),
        client_data(client_data_json) matches Err(failure) ==> {
            &&& assertion_check(rp, challenge, client_data_json) == Err::<(), Failure>(failure)
            &&& valid_utf8(client_data_json) ==> creation_check(rp, challenge, client_data_json)
                == Err::<(), Failure>(failure)
        },
        client_data(client_data_json) matches Ok(parsed) ==> {
            &&& assertion_check(rp, challenge, client_data_json) == policy_check(
                parsed,
                "webauthn.get"@,
                challenge,
                rp.allowed_origins,
                rp.reject_cross_origin,
            )
            &&& valid_utf8(client_data_json) ==> creation_check(rp, challenge, client_data_json)
                == policy_check(
                parsed,
                "webauthn.create"@,
                challenge,
                rp.allowed_origins,
                rp.reject_cross_origin,
            )
        },
{
    reveal_strlit("webauthn.create");
    reveal_strlit("webauthn.get");
    if let Ok(parsed) = client_data(client_data_json) {
        law_accepted_client_data_is_bound(
            parsed,
            "webauthn.create"@,
            challenge,
            rp.allowed_origins,
            rp.reject_cross_origin,
        );
        law_accepted_client_data_is_bound(
            parsed,
            "webauthn.get"@,
            challenge,
            rp.allowed_origins,
            rp.reject_cross_origin,
        );
    }
}

} // verus!
