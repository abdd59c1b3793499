//! The relying party and its registration ceremony.

use std::time::SystemTime;

use vstd::prelude::*;
use vstd::utf8::{encode_utf8, valid_utf8};

use crate::algorithm::{COSE_EDDSA, COSE_ES256, COSE_ES384, COSE_RS256};
use crate::attestation::{after, attestation_verdict, verify};
use crate::authenticator_data::{
    authenticator_data, law_parsed_data_is_consistent, parse_authenticator_data, AttestedModel,
    AuthenticatorData, AuthenticatorDataModel, AuthenticatorFlags, CoseKey, CoseKeyModel,
};
use crate::bytes::{bytes_equal, contents, copy_bytes};
use crate::challenge::CHALLENGE_MAX_AGE_SECS;
use crate::client_data::{client_data, parse_client_data, policy_check, validate_with_policy};
use crate::credential::{
    age_between, current_time, freshly_made, lemma_clock_read, older_than, read_from_clock,
    AttestationType, AuthenticatorAttestationResponse,
    Challenge, ChallengeModel, Credential, CredentialModel, PublicKey, PublicKeyModel,
    RegistrationModel, RegistrationResult,
};
use crate::crypto::{no_randomness, sha256, sha256_of, MAX_HASHED_LEN, MAX_INPUT_LEN};
use crate::data::{
    cbor_item, decode_cbor, entries, fits, lemma_dict, lemma_fits, lemma_fits_more, maybe,
    DataItem, Item,
};
use crate::error::{outcome, Failure, WebAuthnError};
use crate::options::{
    describe_credentials, plain_descriptors, AttestationPreference, AuthenticatorSelection,
    RegistrationOptions, RegistrationOptionsModel, UserEntity, UserModel,
};
use crate::text::{join, text_equal, texts};
use crate::used_challenges::UsedChallenges;

verus! {

/// A relying party: its identity and its policy.
///
/// Create one per application configuration with [`RelyingParty::new`] or
/// [`RelyingParty::with_origins`] and the methods that set the policy.
#[derive(Debug)]
pub struct RelyingParty {
    /// Relying party ID, e.g. `"example.com"`.
    pub id: String,
    /// The origins that are accepted, compared exactly.
    pub allowed_origins: Vec<String>,
    /// Name for display.
    pub name: String,
    /// Whether assertions need the User Verified flag.
    pub require_user_verification: bool,
    /// Whether client data with `crossOrigin: true` is rejected.
    pub reject_cross_origin: bool,
    /// COSE algorithms accepted at registration; any supported one, if empty.
    pub allowed_algorithms: Vec<i64>,
    /// Whether credentials must be backup-eligible.
    pub require_backup_eligible: bool,
    /// Whether backup-eligible credentials are rejected.
    pub reject_backup_eligible: bool,
    /// DER-encoded roots for attestation; any root is accepted, if empty.
    pub trust_anchors: Vec<Vec<u8>>,
    /// The challenges consumed so far, where single use is enforced.
    pub used_challenges: Option<UsedChallenges>,
    /// Selection criteria for registration options.
    pub default_authenticator_selection: Option<AuthenticatorSelection>,
}

/// The mathematical form of a [`RelyingParty`].
pub ghost struct RelyingPartyModel {
    pub id: Seq<char>,
    pub allowed_origins: Seq<Seq<char>>,
    pub name: Seq<char>,
    pub require_user_verification: bool,
    pub reject_cross_origin: bool,
    pub allowed_algorithms: Seq<i64>,
    pub require_backup_eligible: bool,
    pub reject_backup_eligible: bool,
    pub trust_anchors: Seq<Seq<u8>>,
    pub used_challenges: Option<Set<Seq<u8>>>,
    pub default_authenticator_selection: Option<AuthenticatorSelection>,
}

impl View for RelyingParty {
    type V = RelyingPartyModel;

    open spec fn view(&self) -> RelyingPartyModel {
        RelyingPartyModel {
            id: self.id@,
            allowed_origins: texts(self.allowed_origins@),
            name: self.name@,
            require_user_verification: self.require_user_verification,
            reject_cross_origin: self.reject_cross_origin,
            allowed_algorithms: self.allowed_algorithms@,
            require_backup_eligible: self.require_backup_eligible,
            reject_backup_eligible: self.reject_backup_eligible,
            trust_anchors: contents(self.trust_anchors@),
            used_challenges: maybe(self.used_challenges),
            default_authenticator_selection: self.default_authenticator_selection,
        }
    }
}

/// A relying party with the default policy.
pub open spec fn default_party(
    id: Seq<char>,
    allowed_origins: Seq<Seq<char>>,
    name: Seq<char>,
) -> RelyingPartyModel {
    RelyingPartyModel {
        id,
        allowed_origins,
        name,
        require_user_verification: false,
        reject_cross_origin: false,
        allowed_algorithms: Seq::empty(),
        require_backup_eligible: false,
        reject_backup_eligible: false,
        trust_anchors: Seq::empty(),
        used_challenges: None,
        default_authenticator_selection: None,
    }
}

/// `std::str::from_utf8`: succeeds exactly on valid UTF-8.
#[verifier::external_body]
fn is_utf8(bytes: &[u8]) -> (valid: bool)
    ensures
        valid == valid_utf8(bytes@),
{
    std::str::from_utf8(bytes).is_ok()
}

/// The failure for an attestation object without the expected contents.
pub open spec fn bad_object(message: Seq<char>) -> Failure {
    Failure::InvalidAttestationObject(message)
}

fn reject_object(message: &str) -> (e: WebAuthnError)
    ensures
        e@ == bad_object(message@),
{
    WebAuthnError::InvalidAttestationObject(message.to_string())
}

/// The members of an attestation object that have been read.
pub ghost struct ObjectModel {
    pub fmt: Option<Seq<char>>,
    pub auth_data: Option<Result<Seq<u8>, Failure>>,
    pub att_stmt: Option<Item>,
}

/// The members of an attestation object's entries. A later entry replaces an earlier one
/// with the same key, but a `fmt` that is no text is passed over.
pub open spec fn object_members(m: Seq<(Item, Item)>) -> ObjectModel
    decreases m.len(),
{
    if m.len() == 0 {
        ObjectModel { fmt: None, auth_data: None, att_stmt: None }
    } else {
        let earlier = object_members(m.drop_last());
        let (key, value) = m.last();
        if key == Item::Text("fmt"@) {
            match value {
                Item::Text(s) => ObjectModel { fmt: Some(s), ..earlier },
                _ => earlier,
            }
        } else if key == Item::Text("authData"@) {
            match value {
                Item::Bytes(b) => ObjectModel { auth_data: Some(Ok(b)), ..earlier },
                _ => ObjectModel {
                    auth_data: Some(
                        Err(bad_object("authData must be CBOR bytes, not another type"@)),
                    ),
                    ..earlier
                },
            }
        } else if key == Item::Text("attStmt"@) {
            ObjectModel { att_stmt: Some(value), ..earlier }
        } else {
            earlier
        }
    }
}

/// An attestation object: format, authenticator data and statement.
pub type AttestationObjectModel = (Seq<char>, Seq<u8>, Item);

/// What a decoded attestation object stands for.
pub open spec fn object_of(v: Item) -> Result<AttestationObjectModel, Failure> {
    match v {
        Item::Dict(m) => {
            let members = object_members(m);
            match (members.fmt, members.auth_data, members.att_stmt) {
                (None, _, _) => Err(bad_object("missing required field: fmt"@)),
                (Some(_), None, _) => Err(bad_object("missing required field: authData"@)),
                (Some(_), Some(Err(failure)), _) => Err(failure),
                (Some(_), Some(Ok(_)), None) => Err(
                    bad_object("missing required field: attStmt"@),
                ),
                (Some(fmt), Some(Ok(auth_data)), Some(att_stmt)) => Ok(
                    (fmt, auth_data, att_stmt),
                ),
            }
        },
        _ => Err(bad_object("attestation object must be a CBOR map"@)),
    }
}

/// What attestation object bytes stand for.
pub open spec fn object_bytes(data: Seq<u8>) -> Result<AttestationObjectModel, Failure> {
    match cbor_item(data) {
        Ok((v, _)) => object_of(v),
        Err(message) => Err(Failure::CborDecodeError("attestation object: "@ + message)),
    }
}

proof fn lemma_object_fits(m: Seq<(Item, Item)>, n: nat)
    requires
        fits(Item::Dict(m), n),
    ensures
        object_members(m).auth_data matches Some(Ok(b)) ==> b.len() <= n,
        object_members(m).att_stmt matches Some(v) ==> fits(v, n),
    decreases m.len(),
{
    if m.len() > 0 {
        lemma_fits(Item::Dict(m), n);
        let init = m.drop_last();
        assert(fits(Item::Dict(init), n)) by {
            assert forall|i: int| 0 <= i < init.len() implies fits((#[trigger] init[i]).0, n)
                && fits(init[i].1, n) by {
                assert(init[i] == m[i]);
            }
        }
        lemma_object_fits(init, n);
        assert(fits(m[m.len() - 1].1, n));
    }
}

/// Reads format, authenticator data and statement out of a decoded attestation object.
pub fn attestation_object_from_item(v: DataItem) -> (r: Result<
    (String, Vec<u8>, DataItem),
    WebAuthnError,
>)
    ensures
        match r {
            Ok((fmt, auth_data, att_stmt)) => object_of(v@) == Ok::<
                AttestationObjectModel,
                Failure,
            >((fmt@, auth_data@, att_stmt@)),
            Err(e) => object_of(v@) == Err::<AttestationObjectModel, Failure>(e@),
        },
{
    let map = match v {
        DataItem::Dict(m) => m,
        _ => return Err(reject_object("attestation object must be a CBOR map")),
    };
    proof {
        lemma_dict(map);
    }
    let ghost all = entries(map@);
    let mut fmt: Option<String> = None;
    let mut auth_data: Option<Result<Vec<u8>, WebAuthnError>> = None;
    let mut att_stmt: Option<DataItem> = None;
    for entry in iter: map
        invariant
            all == entries(iter.seq()),
            object_members(all.take(iter.index() as int)).fmt == maybe(fmt),
            object_members(all.take(iter.index() as int)).auth_data == match auth_data {
                Some(r) => Some(outcome(r)),
                None => None,
            },
            object_members(all.take(iter.index() as int)).att_stmt == maybe(att_stmt),
    {
        proof {
            let n = iter.index() as int;
            assert(all.take(n + 1).drop_last() =~= all.take(n));
            assert(all.take(n + 1).last() == (entry.0@, entry.1@));
        }
        if let DataItem::Text(key) = entry.0 {
            if text_equal(key.as_str(), "fmt") {
                if let DataItem::Text(s) = entry.1 {
                    fmt = Some(s);
                }
            } else if text_equal(key.as_str(), "authData") {
                auth_data = match entry.1 {
                    DataItem::Bytes(b) => Some(Ok(b)),
                    _ => Some(
                        Err(reject_object("authData must be CBOR bytes, not another type")),
                    ),
                };
            } else if text_equal(key.as_str(), "attStmt") {
                att_stmt = Some(entry.1);
            }
        }
    }
    assert(all.take(all.len() as int) =~= all);
    let fmt = match fmt {
        Some(fmt) => fmt,
        None => return Err(reject_object("missing required field: fmt")),
    };
    let auth_data = match auth_data {
        Some(Ok(auth_data)) => auth_data,
        Some(Err(e)) => return Err(e),
        None => return Err(reject_object("missing required field: authData")),
    };
    match att_stmt {
        Some(att_stmt) => Ok((fmt, auth_data, att_stmt)),
        None => Err(reject_object("missing required field: attStmt")),
    }
}

/// Decodes an attestation object.
pub fn parse_attestation_object(data: &[u8]) -> (r: Result<
    (String, Vec<u8>, DataItem),
    WebAuthnError,
>)
    ensures
        match r {
            Ok((fmt, auth_data, att_stmt)) => object_bytes(data@) == Ok::<
                AttestationObjectModel,
                Failure,
            >((fmt@, auth_data@, att_stmt@)) && auth_data@.len() <= data@.len() && fits(
                att_stmt@,
                data@.len(),
            ),
            Err(e) => object_bytes(data@) == Err::<AttestationObjectModel, Failure>(e@),
        },
{
    match decode_cbor(data) {
        Ok((v, _)) => {
            proof {
                if let Item::Dict(m) = v@ {
                    lemma_object_fits(m, data@.len());
                }
            }
            attestation_object_from_item(v)
        },
        Err(message) => Err(
            WebAuthnError::CborDecodeError(join("attestation object: ", message.as_str())),
        ),
    }
}

/// The relying party after a challenge has been consumed, where single use is enforced.
pub open spec fn consume_challenge(rp: RelyingPartyModel, challenge: Seq<u8>) -> Result<
    RelyingPartyModel,
    Failure,
> {
    match rp.used_challenges {
        None => Ok(rp),
        Some(used) => if used.contains(challenge) {
            Err(Failure::ChallengePreviouslyUsed)
        } else {
            Ok(RelyingPartyModel { used_challenges: Some(used.insert(challenge)), ..rp })
        },
    }
}

/// The policy on backup eligibility.
pub open spec fn backup_check(rp: RelyingPartyModel, flags: AuthenticatorFlags) -> Result<
    (),
    Failure,
> {
    if rp.reject_backup_eligible && flags.backup_eligible {
        Err(Failure::BackupEligibleNotAllowed)
    } else if rp.require_backup_eligible && !flags.backup_eligible {
        Err(Failure::BackupEligibilityRequired)
    } else {
        Ok(())
    }
}

/// The check of authenticator data at registration: relying party, user presence and
/// backup policy, in this order.
pub open spec fn registration_check(
    rp: RelyingPartyModel,
    data: AuthenticatorDataModel,
    rp_id_hash: Seq<u8>,
) -> Result<(), Failure> {
    if data.rp_id_hash != rp_id_hash {
        Err(Failure::RpIdHashMismatch)
    } else if !data.flags.user_present {
        Err(Failure::UserNotPresent)
    } else {
        backup_check(rp, data.flags)
    }
}

/// The credential key for a COSE key.
pub open spec fn public_key_of(key: CoseKeyModel) -> Result<PublicKeyModel, Failure> {
    match key {
        CoseKeyModel::EC2 { alg, x, y, .. } => if alg == COSE_ES256 {
            Ok(PublicKeyModel::ES256 { x, y })
        } else if alg == COSE_ES384 {
            Ok(PublicKeyModel::ES384 { x, y })
        } else {
            Err(Failure::UnsupportedAlgorithm(alg))
        },
        CoseKeyModel::OKP { alg, x } => if alg == COSE_EDDSA {
            Ok(PublicKeyModel::EdDSA(x))
        } else {
            Err(Failure::UnsupportedAlgorithm(alg))
        },
        CoseKeyModel::RSA { n, e, .. } => Ok(PublicKeyModel::RS256 { n, e }),
    }
}

/// The algorithm by which a COSE key is looked up among the allowed ones.
pub open spec fn listed_algorithm(key: CoseKeyModel) -> i64 {
    match key {
        CoseKeyModel::EC2 { alg, .. } => alg,
        CoseKeyModel::OKP { alg, .. } => alg,
        CoseKeyModel::RSA { .. } => COSE_RS256,
    }
}

/// The new credential's data and key: they must be there, and the algorithm allowed.
pub open spec fn new_key(rp: RelyingPartyModel, data: AuthenticatorDataModel) -> Result<
    (AttestedModel, PublicKeyModel),
    Failure,
> {
    match data.attested_credential_data {
        None => Err(
            Failure::InvalidAuthenticatorData(
                "attested credential data (AT flag) is required for registration"@,
            ),
        ),
        Some(credential) => {
            let alg = listed_algorithm(credential.public_key);
            if rp.allowed_algorithms.len() > 0 && !rp.allowed_algorithms.contains(alg) {
                Err(Failure::UnsupportedAlgorithm(alg))
            } else {
                match public_key_of(credential.public_key) {
                    Ok(key) => Ok((credential, key)),
                    Err(failure) => Err(failure),
                }
            }
        },
    }
}

/// The result of a registration with a credential that has been attested.
pub open spec fn registered(
    rp: RelyingPartyModel,
    data: AuthenticatorDataModel,
    credential: AttestedModel,
    public_key: PublicKeyModel,
    attestation_type: AttestationType,
    user_id: Seq<u8>,
    at: SystemTime,
) -> RegistrationModel {
    RegistrationModel {
        credential: CredentialModel {
            id: credential.credential_id,
            public_key,
            sign_count: data.sign_count,
            user_id,
            rp_id: rp.id,
            created_at: at,
            backup_eligible: data.flags.backup_eligible,
            backup_state: data.flags.backup_state,
        },
        attestation_type,
        backup_eligible: data.flags.backup_eligible,
        backup_state: data.flags.backup_state,
        extensions: data.extensions,
    }
}

/// What registration decides on an attestation object, once the client data is accepted.
pub open spec fn object_decision(
    rp: RelyingPartyModel,
    object: Seq<u8>,
    client_data_hash: Seq<u8>,
    user_id: Seq<u8>,
    at: SystemTime,
) -> Result<RegistrationModel, Failure> {
    match object_bytes(object) {
        Err(failure) => Err(failure),
        Ok((fmt, auth_data, att_stmt)) => match authenticator_data(auth_data) {
            Err(failure) => Err(failure),
            Ok(data) => after(
                registration_check(rp, data, sha256_of(encode_utf8(rp.id))),
                match new_key(rp, data) {
                    Err(failure) => Err(failure),
                    Ok((credential, key)) => match attestation_verdict(
                        fmt,
                        att_stmt,
                        auth_data,
                        client_data_hash,
                        key,
                        credential.credential_id,
                        rp.trust_anchors,
                        credential.aaguid,
                    ) {
                        Err(failure) => Err(failure),
                        Ok(attestation_type) => Ok(
                            registered(rp, data, credential, key, attestation_type, user_id, at),
                        ),
                    },
                },
            ),
        },
    }
}

/// The check of the client data of a registration.
pub open spec fn creation_check(
    rp: RelyingPartyModel,
    challenge: Seq<u8>,
    client_data_json: Seq<u8>,
) -> Result<(), Failure> {
    if !valid_utf8(client_data_json) {
        Err(Failure::InvalidClientData("clientDataJSON is not valid UTF-8"@))
    } else {
        match client_data(client_data_json) {
            Err(failure) => Err(failure),
            Ok(parsed) => policy_check(
                parsed,
                "webauthn.create"@,
                challenge,
                rp.allowed_origins,
                rp.reject_cross_origin,
            ),
        }
    }
}

/// The registration ceremony: its result and the relying party afterwards, by whether
/// the challenge is expired and the time `at` of registration. The challenge is consumed
/// as soon as the client data has been accepted, whatever comes after.
pub open spec fn registration(
    rp: RelyingPartyModel,
    expired: bool,
    challenge: Seq<u8>,
    client_data_json: Seq<u8>,
    attestation_object: Seq<u8>,
    user_id: Seq<u8>,
    at: SystemTime,
) -> (Result<RegistrationModel, Failure>, RelyingPartyModel) {
    if expired {
        (Err(Failure::ChallengeExpired), rp)
    } else {
        match creation_check(rp, challenge, client_data_json) {
            Err(failure) => (Err(failure), rp),
            Ok(_) => match consume_challenge(rp, challenge) {
                Err(failure) => (Err(failure), rp),
                Ok(consumed) => (
                    object_decision(
                        rp,
                        attestation_object,
                        sha256_of(client_data_json),
                        user_id,
                        at,
                    ),
                    consumed,
                ),
            },
        }
    }
}

/// Turns a COSE key into a credential key.
pub fn public_key_from_cose(key: CoseKey) -> (r: Result<PublicKey, WebAuthnError>)
    ensures
        outcome(r) == public_key_of(key@),
{
    match key {
        CoseKey::EC2 { alg, x, y, .. } => {
            if alg == COSE_ES256 {
                Ok(PublicKey::ES256 { x, y })
            } else if alg == COSE_ES384 {
                Ok(PublicKey::ES384 { x, y })
            } else {
                Err(WebAuthnError::UnsupportedAlgorithm(alg))
            }
        },
        CoseKey::OKP { alg, x } => {
            if alg == COSE_EDDSA {
                Ok(PublicKey::EdDSA(x))
            } else {
                Err(WebAuthnError::UnsupportedAlgorithm(alg))
            }
        },
        CoseKey::RSA { n, e, .. } => Ok(PublicKey::RS256 { n, e }),
    }
}

impl RelyingParty {
    /// Consumes a challenge where single use is enforced.
    pub fn use_challenge(&mut self, challenge: &[u8]) -> (r: Result<(), WebAuthnError>)
        ensures
            match r {
                Ok(()) => consume_challenge(old(self)@, challenge@) == Ok::<
                    RelyingPartyModel,
                    Failure,
                >(final(self)@),
                Err(e) => consume_challenge(old(self)@, challenge@) == Err::<
                    RelyingPartyModel,
                    Failure,
                >(e@) && final(self)@ == old(self)@,
            },
    {
        let mut taken: Option<UsedChallenges> = None;
        std::mem::swap(&mut taken, &mut self.used_challenges);
        match taken {
            None => Ok(()),
            Some(mut used) => {
                let ghost before = used@;
                let fresh = used.consume(challenge);
                assert(!fresh ==> used@ =~= before);
                self.used_challenges = Some(used);
                if fresh {
                    Ok(())
                } else {
                    Err(WebAuthnError::ChallengePreviouslyUsed)
                }
            },
        }
    }

    /// Applies the policy on backup eligibility.
    pub fn check_backup_policy(&self, flags: &AuthenticatorFlags) -> (r: Result<(), WebAuthnError>)
        ensures
            outcome(r) == backup_check(self@, *flags),
    {
        if self.reject_backup_eligible && flags.backup_eligible {
            return Err(WebAuthnError::BackupEligibleNotAllowed);
        }
        if self.require_backup_eligible && !flags.backup_eligible {
            return Err(WebAuthnError::BackupEligibilityRequired);
        }
        Ok(())
    }

    /// Checks the authenticator data of a registration against the hash of the relying
    /// party ID and the policy.
    pub fn check_registration_data(&self, data: &AuthenticatorData, rp_id_hash: &[u8; 32]) -> (r:
        Result<(), WebAuthnError>)
        ensures
            outcome(r) == registration_check(self@, data@, rp_id_hash@),
    {
        if !bytes_equal(data.rp_id_hash.as_slice(), rp_id_hash.as_slice()) {
            return Err(WebAuthnError::RpIdHashMismatch);
        }
        if !data.flags.user_present {
            return Err(WebAuthnError::UserNotPresent);
        }
        self.check_backup_policy(&data.flags)
    }

    /// Whether an algorithm is allowed at registration.
    pub fn allows_algorithm(&self, alg: i64) -> (allowed: bool)
        ensures
            allowed == (self@.allowed_algorithms.len() == 0 || self@.allowed_algorithms.contains(
                alg,
            )),
    {
        if self.allowed_algorithms.is_empty() {
            return true;
        }
        let mut i: usize = 0;
        while i < self.allowed_algorithms.len()
            invariant
                i <= self.allowed_algorithms@.len(),
                self.allowed_algorithms@.len() > 0,
                forall|k: int| 0 <= k < i ==> self.allowed_algorithms@[k] != alg,
            decreases self.allowed_algorithms.len() - i,
        {
            if self.allowed_algorithms[i] == alg {
                assert(self@.allowed_algorithms.contains(alg));
                return true;
            }
            i += 1;
        }
        false
    }

    /// Checks the client data of a registration.
    pub fn check_creation(&self, challenge: &[u8], client_data_json: &[u8]) -> (r: Result<
        (),
        WebAuthnError,
    >)
        ensures
            outcome(r) == creation_check(self@, challenge@, client_data_json@),
    {
        if !is_utf8(client_data_json) {
            return Err(
                WebAuthnError::InvalidClientData("clientDataJSON is not valid UTF-8".to_string()),
            );
        }
        match parse_client_data(client_data_json) {
            Ok(parsed) => validate_with_policy(
                &parsed,
                "webauthn.create",
                challenge,
                &self.allowed_origins,
                self.reject_cross_origin,
            ),
            Err(e) => Err(e),
        }
    }

    fn register_object(
        &self,
        object: &[u8],
        client_data_hash: &[u8; 32],
        user_id: &[u8],
        at: SystemTime,
    ) -> (r: Result<RegistrationResult, WebAuthnError>)
        requires
            encode_utf8(self@.id).len() <= MAX_HASHED_LEN,
            object@.len() <= MAX_INPUT_LEN,
        ensures
            outcome(r) == object_decision(self@, object@, client_data_hash@, user_id@, at),
    {
        let (fmt, auth_data_bytes, att_stmt) = match parse_attestation_object(object) {
            Ok(found) => found,
            Err(e) => return Err(e),
        };
        let auth_data = match parse_authenticator_data(auth_data_bytes.as_slice()) {
            Ok(auth_data) => auth_data,
            Err(e) => return Err(e),
        };
        let ghost data = auth_data@;
        proof {
            law_parsed_data_is_consistent(auth_data_bytes@);
            lemma_fits_more(att_stmt@, object@.len(), MAX_INPUT_LEN as nat);
        }
        let rp_id_hash = sha256(self.id.as_str().as_bytes());
        if let Err(e) = self.check_registration_data(&auth_data, &rp_id_hash) {
            return Err(e);
        }
        let sign_count: u32 = auth_data.sign_count;
        let flags = auth_data.flags;
        let extensions = auth_data.extensions;
        let credential = match auth_data.attested_credential_data {
            Some(credential) => credential,
            None => return Err(
                WebAuthnError::InvalidAuthenticatorData(
                    "attested credential data (AT flag) is required for registration".to_string(),
                ),
            ),
        };
        let alg: i64 = match &credential.public_key {
            CoseKey::EC2 { alg, .. } => *alg,
            CoseKey::OKP { alg, .. } => *alg,
            CoseKey::RSA { .. } => COSE_RS256,
        };
        if !self.allows_algorithm(alg) {
            return Err(WebAuthnError::UnsupportedAlgorithm(alg));
        }
        let public_key = match public_key_from_cose(credential.public_key) {
            Ok(public_key) => public_key,
            Err(e) => return Err(e),
        };
        let attestation_type = match verify(
            fmt.as_str(),
            &att_stmt,
            auth_data_bytes.as_slice(),
            client_data_hash,
            &public_key,
            credential.credential_id.as_slice(),
            &self.trust_anchors,
            &credential.aaguid,
        ) {
            Ok(attestation_type) => attestation_type,
            Err(e) => return Err(e),
        };
        Ok(
            RegistrationResult {
                credential: Credential {
                    id: credential.credential_id,
                    public_key,
                    sign_count,
                    user_id: copy_bytes(user_id),
                    rp_id: self.id.clone(),
                    created_at: at,
                    backup_eligible: flags.backup_eligible,
                    backup_state: flags.backup_state,
                },
                attestation_type,
                backup_eligible: flags.backup_eligible,
                backup_state: flags.backup_state,
                extensions,
            },
        )
    }

    /// The registration ceremony, given whether the challenge is expired and the time to
    /// record for the credential.
    pub fn register(
        &mut self,
        expired: bool,
        challenge: &[u8],
        response: &AuthenticatorAttestationResponse,
        user_id: &[u8],
        at: SystemTime,
    ) -> (r: Result<RegistrationResult, WebAuthnError>)
        requires
            encode_utf8(old(self)@.id).len() <= MAX_HASHED_LEN,
            response.client_data_json@.len() <= MAX_HASHED_LEN,
            response.attestation_object@.len() <= MAX_INPUT_LEN,
        ensures
            (outcome(r), final(self)@) == registration(
                old(self)@,
                expired,
                challenge@,
                response.client_data_json@,
                response.attestation_object@,
                user_id@,
                at,
            ),
    {
        if expired {
            return Err(WebAuthnError::ChallengeExpired);
        }
        if let Err(e) = self.check_creation(challenge, response.client_data_json.as_slice()) {
            return Err(e);
        }
        if let Err(e) = self.use_challenge(challenge) {
            return Err(e);
        }
        let client_data_hash = sha256(response.client_data_json.as_slice());
        self.register_object(
            response.attestation_object.as_slice(),
            &client_data_hash,
            user_id,
            at,
        )
    }

    /// Verifies a registration response. On success, store the credential.
    ///
    /// The outcome is that of [`RelyingParty::register`], where the challenge is expired if it
    /// is more than five minutes old at the time of the call, and the credential's time of
    /// registration is read from the clock too.
    pub fn verify_registration(
        &mut self,
        challenge: &Challenge,
        response: &AuthenticatorAttestationResponse,
        user_id: &[u8],
    ) -> (r: Result<RegistrationResult, WebAuthnError>)
        requires
            encode_utf8(old(self)@.id).len() <= MAX_HASHED_LEN,
            response.client_data_json@.len() <= MAX_HASHED_LEN,
            response.attestation_object@.len() <= MAX_INPUT_LEN,
        ensures
            exists|now: SystemTime, at: SystemTime|
                read_from_clock(now) && read_from_clock(at) && (outcome(r), final(self)@)
                    == #[trigger] registration(
                    old(self)@,
                    older_than(age_between(challenge.created_at, now), CHALLENGE_MAX_AGE_SECS),
                    challenge.bytes@,
                    response.client_data_json@,
                    response.attestation_object@,
                    user_id@,
                    at,
                ),
    {
        let now = current_time();
        let expired = challenge.is_expired_at(&now, CHALLENGE_MAX_AGE_SECS);
        let at = current_time();
        proof {
            lemma_clock_read(now);
            lemma_clock_read(at);
        }
        let r = self.register(expired, challenge.bytes.as_slice(), response, user_id, at);
        assert((outcome(r), self@) == registration(
            old(self)@,
            older_than(age_between(challenge.created_at, now), CHALLENGE_MAX_AGE_SECS),
            challenge.bytes@,
            response.client_data_json@,
            response.attestation_object@,
            user_id@,
            at,
        ));
        r
    }
}

impl RelyingParty {
    /// A relying party that accepts a single origin.
    pub fn new(id: &str, origin: &str, name: &str) -> (rp: Self)
        ensures
            rp@ == default_party(id@, seq![origin@], name@),
    {
        let mut origins: Vec<String> = Vec::new();
        origins.push(origin.to_string());
        assert(texts(origins@) =~= seq![origin@]);
        RelyingParty::with_origins(id, origins, name)
    }

    /// A relying party that accepts several origins.
    pub fn with_origins(id: &str, origins: Vec<String>, name: &str) -> (rp: Self)
        ensures
            rp@ == default_party(id@, texts(origins@), name@),
    {
        let rp = RelyingParty {
            id: id.to_string(),
            allowed_origins: origins,
            name: name.to_string(),
            require_user_verification: false,
            reject_cross_origin: false,
            allowed_algorithms: Vec::new(),
            require_backup_eligible: false,
            reject_backup_eligible: false,
            trust_anchors: Vec::new(),
            used_challenges: None,
            default_authenticator_selection: None,
        };
        assert(contents(rp.trust_anchors@) =~= Seq::<Seq<u8>>::empty());
        rp
    }

    /// Sets whether assertions need the User Verified flag.
    pub fn require_user_verification(self, required: bool) -> (rp: Self)
        ensures
            rp@ == (RelyingPartyModel { require_user_verification: required, ..self@ }),
    {
        let mut rp = self;
        rp.require_user_verification = required;
        rp
    }

    /// Sets whether client data with `crossOrigin: true` is rejected.
    pub fn reject_cross_origin(self, reject: bool) -> (rp: Self)
        ensures
            rp@ == (RelyingPartyModel { reject_cross_origin: reject, ..self@ }),
    {
        let mut rp = self;
        rp.reject_cross_origin = reject;
        rp
    }

    /// Restricts the COSE algorithms accepted at registration.
    pub fn allowed_algorithms(self, algs: Vec<i64>) -> (rp: Self)
        ensures
            rp@ == (RelyingPartyModel { allowed_algorithms: algs@, ..self@ }),
    {
        let mut rp = self;
        rp.allowed_algorithms = algs;
        rp
    }

    /// Sets whether credentials must be backup-eligible.
    pub fn require_backup_eligible(self, required: bool) -> (rp: Self)
        ensures
            rp@ == (RelyingPartyModel { require_backup_eligible: required, ..self@ }),
    {
        let mut rp = self;
        rp.require_backup_eligible = required;
        rp
    }

    /// Sets whether backup-eligible credentials are rejected.
    pub fn reject_backup_eligible(self, reject: bool) -> (rp: Self)
        ensures
            rp@ == (RelyingPartyModel { reject_backup_eligible: reject, ..self@ }),
    {
        let mut rp = self;
        rp.reject_backup_eligible = reject;
        rp
    }

    /// Sets the DER-encoded root certificates that attestation chains must end in.
    pub fn trust_anchors(self, roots: Vec<Vec<u8>>) -> (rp: Self)
        ensures
            rp@ == (RelyingPartyModel { trust_anchors: contents(roots@), ..self@ }),
    {
        let mut rp = self;
        rp.trust_anchors = roots;
        rp
    }

    /// Starts or stops the enforcement of single-use challenges. Either way the set of
    /// consumed challenges starts anew.
    pub fn enforce_single_use_challenges(self, enforce: bool) -> (rp: Self)
        ensures
            rp@ == (RelyingPartyModel {
                used_challenges: if enforce {
                    Some(Set::empty())
                } else {
                    None
                },
                ..self@
            }),
    {
        let mut rp = self;
        rp.used_challenges = if enforce {
            Some(UsedChallenges::new())
        } else {
            None
        };
        rp
    }

    /// Sets the selection criteria for registration options.
    pub fn default_authenticator_selection(self, sel: AuthenticatorSelection) -> (rp: Self)
        ensures
            rp@ == (RelyingPartyModel { default_authenticator_selection: Some(sel), ..self@ }),
    {
        let mut rp = self;
        rp.default_authenticator_selection = Some(sel);
        rp
    }

    /// Registration options with a given challenge.
    pub fn registration_options_for(
        &self,
        challenge: Challenge,
        user: UserEntity,
        exclude_credentials: &Vec<Vec<u8>>,
    ) -> (options: RegistrationOptions)
        ensures
            options@ == registration_options(
                self@,
                challenge@,
                user@,
                contents(exclude_credentials@),
            ),
    {
        let pub_key_cred_params = if self.allowed_algorithms.is_empty() {
            let all: Vec<i64> = vec![COSE_ES256, COSE_ES384, COSE_EDDSA, COSE_RS256];
            assert(all@ =~= seq![COSE_ES256, COSE_ES384, COSE_EDDSA, COSE_RS256]);
            all
        } else {
            let copy = self.allowed_algorithms.clone();
            assert(copy@ =~= self.allowed_algorithms@);
            copy
        };
        RegistrationOptions {
            challenge,
            rp_id: self.id.clone(),
            rp_name: self.name.clone(),
            user,
            pub_key_cred_params,
            timeout_ms: 300_000,
            attestation: AttestationPreference::NoAttestation,
            exclude_credentials: describe_credentials(exclude_credentials),
            authenticator_selection: self.default_authenticator_selection,
        }
    }

    /// Begins a registration: options with a fresh challenge of 32 bytes, to be sent to
    /// the client. Keep the challenge for [`RelyingParty::verify_registration`]. Fails
    /// only where the system gives no random bytes.
    pub fn begin_registration(&self, user: UserEntity, exclude_credentials: &Vec<Vec<u8>>) -> (r:
        Result<RegistrationOptions, WebAuthnError>)
        ensures
            match r {
                Ok(options) => freshly_made(Ok(options@.challenge)),
                Err(e) => freshly_made(Err(e@)),
            },
            match r {
                Ok(options) => options@.challenge.bytes.len() == 32 && options@ == registration_options(
                    self@,
                    options@.challenge,
                    user@,
                    contents(exclude_credentials@),
                ),
                Err(e) => e@ == no_randomness(),
            },
    {
        match Challenge::new() {
            Ok(challenge) => Ok(
                self.registration_options_for(challenge, user, exclude_credentials),
            ),
            Err(e) => Err(e),
        }
    }
}

/// The registration options of a relying party for a challenge: the allowed algorithms,
/// or all supported ones where none is set, and five minutes to answer.
pub open spec fn registration_options(
    rp: RelyingPartyModel,
    challenge: ChallengeModel,
    user: UserModel,
    excluded: Seq<Seq<u8>>,
) -> RegistrationOptionsModel {
    RegistrationOptionsModel {
        challenge,
        rp_id: rp.id,
        rp_name: rp.name,
        user,
        pub_key_cred_params: if rp.allowed_algorithms.len() == 0 {
            seq![COSE_ES256, COSE_ES384, COSE_EDDSA, COSE_RS256]
        } else {
            rp.allowed_algorithms
        },
        timeout_ms: 300_000,
        attestation: AttestationPreference::NoAttestation,
        exclude_credentials: plain_descriptors(excluded),
        authenticator_selection: rp.default_authenticator_selection,
    }
}

/// The allowed algorithms decide on a new credential's key: it is accepted exactly if none are
/// listed or its own algorithm is. What is kept is the credential's data as it is, and the
/// coordinates, the raw key, or modulus and exponent of its key.
pub proof fn law_allowed_algorithms_decide(rp: RelyingPartyModel, data: AuthenticatorDataModel)
    requires
        data.attested_credential_data matches Some(credential)
            ==> credential.public_key.well_formed(),
    ensures
        data.attested_credential_data is None ==> (new_key(rp, data) matches Err(failure)
            && failure is InvalidAuthenticatorData),
        data.attested_credential_data matches Some(credential) ==> {
            let alg: i64 = match credential.public_key {
                CoseKeyModel::EC2 { x, .. } => if x.len() == 32 {
                    -7i64
                } else {
                    -35i64
                },
                CoseKeyModel::OKP { .. } => -8i64,
                CoseKeyModel::RSA { .. } => -257i64,
            };
            let allowed = rp.allowed_algorithms.len() == 0 || rp.allowed_algorithms.contains(alg);
            &&& credential.public_key.algorithm() == alg
            &&& !allowed ==> new_key(rp, data) == Err::<(AttestedModel, PublicKeyModel), Failure>(
                Failure::UnsupportedAlgorithm(alg),
            )
            &&& allowed ==> new_key(rp, data) == Ok::<(AttestedModel, PublicKeyModel), Failure>(
                (
                    credential,
                    match credential.public_key {
                        CoseKeyModel::EC2 { x, y, .. } => if x.len() == 32 {
                            PublicKeyModel::ES256 { x, y }
                        } else {
                            PublicKeyModel::ES384 { x, y }
                        },
                        CoseKeyModel::OKP { x, .. } => PublicKeyModel::EdDSA(x),
                        CoseKeyModel::RSA { n, e, .. } => PublicKeyModel::RS256 { n, e },
                    },
                ),
            )
        },
{
}

/// An attestation object's members are those of its entries: a further entry sets the member
/// of its name and no other, where it has the right type; a wrong type counts for the
/// authenticator data and is passed over for the format.
pub proof fn law_attestation_object_entries(m: Seq<(Item, Item)>, key: Item, value: Item)
    ensures
        object_members(Seq::empty()) == (ObjectModel { fmt: None, auth_data: None, att_stmt: None }),
        ({
            let before = object_members(m);
            let after = object_members(m.push((key, value)));
            &&& key == Item::Text("fmt"@) ==> after == match value {
                Item::Text(fmt) => ObjectModel { fmt: Some(fmt), ..before },
                _ => before,
            }
            &&& key == Item::Text("attStmt"@) ==> after == (ObjectModel {
                att_stmt: Some(value),
                ..before
            })
            &&& key == Item::Text("authData"@) ==> {
                &&& after.fmt == before.fmt
                &&& after.att_stmt == before.att_stmt
                &&& match value {
                    Item::Bytes(bytes) => after.auth_data == Some(Ok::<Seq<u8>, Failure>(bytes)),
                    _ => after.auth_data matches Some(Err(failure))
                        && failure is InvalidAttestationObject,
                }
            }
            &&& key != Item::Text("fmt"@) && key != Item::Text("attStmt"@) && key != Item::Text(
                "authData"@,
            ) ==> after == before
        }),
{
    let longer = m.push((key, value));
    assert(longer.drop_last() =~= m);
    assert(longer.last() == (key, value));
    reveal_strlit("fmt");
    reveal_strlit("attStmt");
    reveal_strlit("authData");
    assert("fmt"@.len() == 3 && "attStmt"@.len() == 7 && "authData"@.len() == 8);
}

/// An attestation object is complete exactly if it is a map with a format, authenticator data
/// and a statement; it is read from the data item at the start of its bytes.
pub proof fn law_attestation_objects(data: Seq<u8>, object: AttestationObjectModel)
    ensures
        object_bytes(data) == Ok::<AttestationObjectModel, Failure>(object) <==> (cbor_item(
            data,
        ) matches Ok((Item::Dict(m), _)) && object_members(m) == (ObjectModel {
            fmt: Some(object.0),
            auth_data: Some(Ok(object.1)),
            att_stmt: Some(object.2),
        })),
        cbor_item(data) is Err ==> (object_bytes(data) matches Err(failure)
            && failure is CborDecodeError),
        cbor_item(data) is Ok ==> (object_bytes(data) matches Err(failure)
            ==> failure is InvalidAttestationObject),
{
    if let Ok((Item::Dict(m), _)) = cbor_item(data) {
        lemma_object_failures(m);
    }
}

proof fn lemma_object_failures(m: Seq<(Item, Item)>)
    ensures
        object_members(m).auth_data matches Some(Err(failure))
            ==> failure is InvalidAttestationObject,
    decreases m.len(),
{
    if m.len() > 0 {
        lemma_object_failures(m.drop_last());
    }
}

/// A relying party starts without any restriction beyond its ID and its origins, and offers
/// ES256, ES384, EdDSA and RS256, or else just the algorithms that it allows.
pub proof fn law_registration_options(
    rp: RelyingPartyModel,
    challenge: ChallengeModel,
    user: UserModel,
    excluded: Seq<Seq<u8>>,
    id: Seq<char>,
    origins: Seq<Seq<char>>,
    name: Seq<char>,
)
    ensures
        ({
            let options = registration_options(rp, challenge, user, excluded);
            &&& options.challenge == challenge
            &&& options.user == user
            &&& options.rp_id == rp.id
            &&& options.rp_name == rp.name
            &&& options.timeout_ms == 300_000
            &&& options.attestation == AttestationPreference::NoAttestation
            &&& options.authenticator_selection == rp.default_authenticator_selection
            &&& options.exclude_credentials.len() == excluded.len()
            &&& forall|i: int|
                0 <= i < excluded.len() ==> {
                    &&& (#[trigger] options.exclude_credentials[i]).id == excluded[i]
                    &&& options.exclude_credentials[i].transports is None
                }
            &&& rp.allowed_algorithms.len() > 0 ==> options.pub_key_cred_params
                == rp.allowed_algorithms
            &&& rp.allowed_algorithms.len() == 0 ==> options.pub_key_cred_params == seq![
                -7i64,
                -35i64,
                -8i64,
                -257i64,
            ]
        }),
        ({
            let fresh = default_party(id, origins, name);
            &&& fresh.id == id
            &&& fresh.allowed_origins == origins
            &&& fresh.name == name
            &&& !fresh.require_user_verification
            &&& !fresh.reject_cross_origin
            &&& !fresh.require_backup_eligible
            &&& !fresh.reject_backup_eligible
            &&& fresh.allowed_algorithms.len() == 0
            &&& fresh.trust_anchors.len() == 0
            &&& fresh.used_challenges is None
            &&& fresh.default_authenticator_selection is None
        }),
{
}

} // verus!
