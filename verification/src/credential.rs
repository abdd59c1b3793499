//! Stored credentials, challenges and the results of ceremonies.

use std::time::SystemTime;

use vstd::prelude::*;

use crate::algorithm::{COSE_EDDSA, COSE_ES256, COSE_ES384, COSE_RS256};
use crate::crypto::{drawn, lemma_drawn, no_randomness, random_result, ring_random};
use crate::data::{maybe, Item};
use crate::error::{outcome, Failure, WebAuthnError};
use crate::extensions::{ExtensionMap, ExtensionView};

verus! {

/// A point in time.
#[verifier::external_type_specification]
#[verifier::external_body]
pub struct ExSystemTime(std::time::SystemTime);

/// `SystemTime::clone`: the same point in time, since `SystemTime` is `Copy`.
pub assume_specification[ <std::time::SystemTime as Clone>::clone ](
    time: &std::time::SystemTime,
) -> (copy: std::time::SystemTime)
    ensures
        copy == *time,
;

/// `SystemTime::now`: the time of the call, of which nothing is said.
#[verifier::external_body]
pub(crate) fn current_time() -> SystemTime {
    SystemTime::now()
}

/// Whether a point in time is one that reading the system clock gave.
pub closed spec fn read_from_clock(now: SystemTime) -> bool {
    call_ensures(current_time, (), now)
}

/// What [`current_time`] gives is a reading of the clock.
pub(crate) proof fn lemma_clock_read(now: SystemTime)
    requires
        call_ensures(current_time, (), now),
    ensures
        read_from_clock(now),
{
}

/// The time from `earlier` to `now` in whole seconds and nanoseconds beyond them, or `None`
/// if `earlier` is the later of the two.
pub uninterp spec fn age_between(
    earlier: std::time::SystemTime,
    now: std::time::SystemTime,
) -> Option<(u64, u32)>;

/// `SystemTime::duration_since`: the time from `earlier` to `now`, which depends on the two
/// alone; `None` stands for its error, that `earlier` is the later one.
#[verifier::external_body]
fn time_between(earlier: &SystemTime, now: &SystemTime) -> (age: Option<(u64, u32)>)
    ensures
        age == age_between(*earlier, *now),
{
    match now.duration_since(*earlier) {
        Ok(age) => Some((age.as_secs(), age.subsec_nanos())),
        Err(_) => None,
    }
}

/// A credential public key.
#[derive(Debug, Clone)]
pub enum PublicKey {
    /// P-256 ECDSA key (COSE alg `-7`): the 32-byte affine coordinates.
    ES256 {
        /// X coordinate.
        x: Vec<u8>,
        /// Y coordinate.
        y: Vec<u8>,
    },
    /// P-384 ECDSA key (COSE alg `-35`): the 48-byte affine coordinates.
    ES384 {
        /// X coordinate.
        x: Vec<u8>,
        /// Y coordinate.
        y: Vec<u8>,
    },
    /// Ed25519 key (COSE alg `-8`): the raw 32-byte public key.
    EdDSA(Vec<u8>),
    /// RSA PKCS#1 v1.5 SHA-256 key (COSE alg `-257`).
    RS256 {
        /// Big-endian modulus.
        n: Vec<u8>,
        /// Big-endian public exponent.
        e: Vec<u8>,
    },
}

/// The mathematical form of [`PublicKey`].
pub ghost enum PublicKeyModel {
    ES256 { x: Seq<u8>, y: Seq<u8> },
    ES384 { x: Seq<u8>, y: Seq<u8> },
    EdDSA(Seq<u8>),
    RS256 { n: Seq<u8>, e: Seq<u8> },
}

impl View for PublicKey {
    type V = PublicKeyModel;

    open spec fn view(&self) -> PublicKeyModel {
        match self {
            PublicKey::ES256 { x, y } => PublicKeyModel::ES256 { x: x@, y: y@ },
            PublicKey::ES384 { x, y } => PublicKeyModel::ES384 { x: x@, y: y@ },
            PublicKey::EdDSA(key) => PublicKeyModel::EdDSA(key@),
            PublicKey::RS256 { n, e } => PublicKeyModel::RS256 { n: n@, e: e@ },
        }
    }
}

impl PublicKeyModel {
    /// The COSE algorithm identifier of a key.
    pub open spec fn algorithm(self) -> i64 {
        match self {
            PublicKeyModel::ES256 { .. } => COSE_ES256,
            PublicKeyModel::ES384 { .. } => COSE_ES384,
            PublicKeyModel::EdDSA(_) => COSE_EDDSA,
            PublicKeyModel::RS256 { .. } => COSE_RS256,
        }
    }

    /// The name of a key's type.
    pub open spec fn key_type(self) -> Seq<char> {
        match self {
            PublicKeyModel::ES256 { .. } => "EC2 P-256"@,
            PublicKeyModel::ES384 { .. } => "EC2 P-384"@,
            PublicKeyModel::EdDSA(_) => "OKP Ed25519"@,
            PublicKeyModel::RS256 { .. } => "RSA 2048"@,
        }
    }
}

impl PublicKey {
    /// The COSE algorithm identifier of this key.
    pub fn algorithm(&self) -> (alg: i64)
        ensures
            alg == self@.algorithm(),
    {
        match self {
            PublicKey::ES256 { .. } => COSE_ES256,
            PublicKey::ES384 { .. } => COSE_ES384,
            PublicKey::EdDSA(_) => COSE_EDDSA,
            PublicKey::RS256 { .. } => COSE_RS256,
        }
    }

    /// A human-readable description of the key type.
    pub fn key_type(&self) -> (name: &'static str)
        ensures
            name@ == self@.key_type(),
    {
        match self {
            PublicKey::ES256 { .. } => "EC2 P-256",
            PublicKey::ES384 { .. } => "EC2 P-384",
            PublicKey::EdDSA(_) => "OKP Ed25519",
            PublicKey::RS256 { .. } => "RSA 2048",
        }
    }
}

/// A registered credential, to be stored by its `id`.
#[derive(Debug, Clone)]
pub struct Credential {
    /// Opaque byte string that identifies this credential.
    pub id: Vec<u8>,
    /// The credential's public key.
    pub public_key: PublicKey,
    /// Counter maintained by the authenticator, used to detect clones.
    pub sign_count: u32,
    /// Application-defined identifier of the user.
    pub user_id: Vec<u8>,
    /// Relying party ID, e.g. `"example.com"`.
    pub rp_id: String,
    /// When this credential was registered.
    pub created_at: SystemTime,
    /// Whether the credential is eligible for backup. Never changes after registration.
    pub backup_eligible: bool,
    /// Whether the credential was backed up at registration.
    pub backup_state: bool,
}

/// The mathematical form of a [`Credential`].
pub ghost struct CredentialModel {
    pub id: Seq<u8>,
    pub public_key: PublicKeyModel,
    pub sign_count: nat,
    pub user_id: Seq<u8>,
    pub rp_id: Seq<char>,
    pub created_at: SystemTime,
    pub backup_eligible: bool,
    pub backup_state: bool,
}

impl View for Credential {
    type V = CredentialModel;

    open spec fn view(&self) -> CredentialModel {
        CredentialModel {
            id: self.id@,
            public_key: self.public_key@,
            sign_count: self.sign_count as nat,
            user_id: self.user_id@,
            rp_id: self.rp_id@,
            created_at: self.created_at,
            backup_eligible: self.backup_eligible,
            backup_state: self.backup_state,
        }
    }
}

/// What the client returns from the creation of a credential, as decoded bytes.
#[derive(Debug, Clone)]
pub struct AuthenticatorAttestationResponse {
    /// UTF-8 bytes of the `clientDataJSON` object.
    pub client_data_json: Vec<u8>,
    /// CBOR bytes of the `attestationObject`.
    pub attestation_object: Vec<u8>,
}

/// A challenge issued by the relying party before a ceremony.
///
/// Use each challenge at most once, and within a short time.
#[derive(Debug, Clone)]
pub struct Challenge {
    /// 32 random bytes.
    pub bytes: Vec<u8>,
    /// When this challenge was generated.
    pub created_at: SystemTime,
}

/// The mathematical form of a [`Challenge`].
pub ghost struct ChallengeModel {
    pub bytes: Seq<u8>,
    pub created_at: SystemTime,
}

impl View for Challenge {
    type V = ChallengeModel;

    open spec fn view(&self) -> ChallengeModel {
        ChallengeModel { bytes: self.bytes@, created_at: self.created_at }
    }
}

/// Whether an age, in seconds and nanoseconds, is more than `ttl_secs` seconds. An age that
/// is unknown, because the clock went backwards, counts as more.
pub open spec fn older_than(age: Option<(u64, u32)>, ttl_secs: u64) -> bool {
    match age {
        Some((seconds, nanos)) => seconds > ttl_secs || (seconds == ttl_secs && nanos > 0),
        None => true,
    }
}

/// Decides expiry by age.
pub fn age_expired(age: Option<(u64, u32)>, ttl_secs: u64) -> (expired: bool)
    ensures
        expired == older_than(age, ttl_secs),
{
    match age {
        Some((seconds, nanos)) => seconds > ttl_secs || (seconds == ttl_secs && nanos > 0),
        None => true,
    }
}

/// Makes a challenge of what the random number generator gave and the time read.
pub fn challenge_from(filled: Option<Vec<u8>>, now: SystemTime) -> (r: Result<
    Challenge,
    WebAuthnError,
>)
    ensures
        outcome(r) == match filled {
            Some(bytes) => Ok(ChallengeModel { bytes: bytes@, created_at: now }),
            None => Err(no_randomness()),
        },
{
    match random_result(filled) {
        Ok(bytes) => Ok(Challenge { bytes, created_at: now }),
        Err(e) => Err(e),
    }
}

/// Whether an outcome is that of making a challenge now: the 32 bytes that the system's
/// random number generator gave and a time that was read from the clock, or the failure of
/// the generator.
pub open spec fn freshly_made(r: Result<ChallengeModel, Failure>) -> bool {
    exists|filled: Option<Vec<u8>>, now: SystemTime|
        #[trigger] drawn(32, filled) && #[trigger] read_from_clock(now) && r == match filled {
            Some(bytes) => Ok(ChallengeModel { bytes: bytes@, created_at: now }),
            None => Err(no_randomness()),
        }
}

impl Challenge {
    /// Generates a fresh challenge: the 32 bytes that the random number generator gives and
    /// the time of the call, by [`challenge_from`]. Fails only where the system gives no
    /// random bytes.
    pub fn new() -> (r: Result<Self, WebAuthnError>)
        ensures
            match r {
                Ok(challenge) => challenge.bytes@.len() == 32,
                Err(e) => e@ == no_randomness(),
            },
            freshly_made(outcome(r)),
    {
        let filled = ring_random(32);
        let now = current_time();
        proof {
            lemma_drawn(32, filled);
            lemma_clock_read(now);
        }
        challenge_from(filled, now)
    }

    /// Whether this challenge is older than `ttl_secs` seconds at the time `now`. One that
    /// was created later than that counts as expired.
    pub fn is_expired_at(&self, now: &SystemTime, ttl_secs: u64) -> (expired: bool)
        ensures
            expired == older_than(age_between(self.created_at, *now), ttl_secs),
    {
        age_expired(time_between(&self.created_at, now), ttl_secs)
    }

    /// Whether this challenge is older than `ttl_secs` seconds by the system clock: the
    /// answer of [`Challenge::is_expired_at`] for the time of the call.
    pub fn is_expired(&self, ttl_secs: u64) -> (expired: bool)
        ensures
            exists|now: SystemTime|
                #[trigger] read_from_clock(now) && expired == older_than(
                    age_between(self.created_at, now),
                    ttl_secs,
                ),
    {
        let now = current_time();
        proof {
            lemma_clock_read(now);
        }
        self.is_expired_at(&now, ttl_secs)
    }
}

/// A longer limit never expires what a shorter one leaves valid.
pub proof fn law_expiry_is_monotone(age: Option<(u64, u32)>, shorter: u64, longer: u64)
    requires
        shorter <= longer,
    ensures
        older_than(age, longer) ==> older_than(age, shorter),
{
}

/// A challenge exactly as old as the limit is not expired, and one a nanosecond older is.
pub proof fn law_expiry_at_the_limit(ttl_secs: u64)
    ensures
        !older_than(Some((ttl_secs, 0)), ttl_secs),
        older_than(Some((ttl_secs, 1)), ttl_secs),
{
}

/// How the authenticator attested the new credential.
#[derive(Debug, Clone, Copy, PartialEq, Eq, Structural)]
pub enum AttestationType {
    /// No attestation that the library verifies.
    NoAttestation,
    /// Signed by the credential key itself.
    SelfAttestation,
    /// Signed by an attestation key whose certificate chain is in order. No trust
    /// anchors are configured, so its root was not checked.
    Basic,
    /// Like [`AttestationType::Basic`], with the root signed by a configured trust anchor.
    BasicVerified,
}

impl View for AttestationType {
    type V = AttestationType;

    open spec fn view(&self) -> AttestationType {
        *self
    }
}

/// Successful outcome of a registration ceremony.
#[derive(Debug)]
pub struct RegistrationResult {
    /// The newly registered credential, to be stored.
    pub credential: Credential,
    /// How the authenticator attested it.
    pub attestation_type: AttestationType,
    /// Whether the credential is eligible for backup.
    pub backup_eligible: bool,
    /// Whether the credential was backed up at the time of registration.
    pub backup_state: bool,
    /// Extension outputs, or `None` if the ED flag was not set.
    pub extensions: Option<ExtensionMap>,
}

/// The mathematical form of a [`RegistrationResult`].
pub ghost struct RegistrationModel {
    pub credential: CredentialModel,
    pub attestation_type: AttestationType,
    pub backup_eligible: bool,
    pub backup_state: bool,
    pub extensions: Option<Map<Seq<char>, Item>>,
}

impl View for RegistrationResult {
    type V = RegistrationModel;

    open spec fn view(&self) -> RegistrationModel {
        RegistrationModel {
            credential: self.credential@,
            attestation_type: self.attestation_type,
            backup_eligible: self.backup_eligible,
            backup_state: self.backup_state,
            extensions: maybe(self.extensions),
        }
    }
}

impl RegistrationResult {
    /// Typed access to the extension outputs.
    pub fn extensions(&self) -> (view: Option<ExtensionView<'_>>)
        ensures
            match view {
                Some(v) => self@.extensions == Some(v.raw()),
                None => self@.extensions is None,
            },
    {
        match &self.extensions {
            Some(outputs) => Some(ExtensionView::new(outputs)),
            None => None,
        }
    }
}

/// Successful outcome of an authentication ceremony.
#[derive(Debug)]
pub struct AuthenticationResult {
    /// The credential ID used to authenticate.
    pub credential_id: Vec<u8>,
    /// The sign count of this ceremony, to be stored with the credential.
    pub new_sign_count: u32,
    /// Whether the User Present flag was set.
    pub user_present: bool,
    /// Whether the User Verified flag was set.
    pub user_verified: bool,
    /// Whether the credential is eligible for backup.
    pub backup_eligible: bool,
    /// Whether the credential is currently backed up.
    pub backup_state: bool,
    /// Extension outputs, or `None` if the ED flag was not set.
    pub extensions: Option<ExtensionMap>,
}

/// The mathematical form of an [`AuthenticationResult`].
pub ghost struct AuthenticationModel {
    pub credential_id: Seq<u8>,
    pub new_sign_count: nat,
    pub user_present: bool,
    pub user_verified: bool,
    pub backup_eligible: bool,
    pub backup_state: bool,
    pub extensions: Option<Map<Seq<char>, Item>>,
}

impl View for AuthenticationResult {
    type V = AuthenticationModel;

    open spec fn view(&self) -> AuthenticationModel {
        AuthenticationModel {
            credential_id: self.credential_id@,
            new_sign_count: self.new_sign_count as nat,
            user_present: self.user_present,
            user_verified: self.user_verified,
            backup_eligible: self.backup_eligible,
            backup_state: self.backup_state,
            extensions: maybe(self.extensions),
        }
    }
}

impl AuthenticationResult {
    /// Typed access to the extension outputs.
    pub fn extensions(&self) -> (view: Option<ExtensionView<'_>>)
        ensures
            match view {
                Some(v) => self@.extensions == Some(v.raw()),
                None => self@.extensions is None,
            },
    {
        match &self.extensions {
            Some(outputs) => Some(ExtensionView::new(outputs)),
            None => None,
        }
    }
}

/// A challenge is expired exactly if its age in nanoseconds is more than the limit, or is
/// unknown.
pub proof fn law_expiry_by_nanoseconds(seconds: u64, nanos: u32, ttl_secs: u64)
    requires
        nanos < 1_000_000_000,
    ensures
        older_than(Some((seconds, nanos)), ttl_secs) <==> seconds * 1_000_000_000 + nanos > ttl_secs
            * 1_000_000_000,
        older_than(None, ttl_secs),
{
}

/// The COSE algorithm of a key follows from its kind.
pub proof fn law_key_algorithms(a: Seq<u8>, b: Seq<u8>)
    ensures
        (PublicKeyModel::ES256 { x: a, y: b }).algorithm() == -7,
        (PublicKeyModel::ES384 { x: a, y: b }).algorithm() == -35,
        PublicKeyModel::EdDSA(a).algorithm() == -8,
        (PublicKeyModel::RS256 { n: a, e: b }).algorithm() == -257,
        (PublicKeyModel::ES256 { x: a, y: b }).key_type() == "EC2 P-256"@,
        (PublicKeyModel::ES384 { x: a, y: b }).key_type() == "EC2 P-384"@,
        PublicKeyModel::EdDSA(a).key_type() == "OKP Ed25519"@,
        (PublicKeyModel::RS256 { n: a, e: b }).key_type() == "RSA 2048"@,
{
}

} // verus!
