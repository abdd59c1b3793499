//! Status reports of the FIDO Metadata Service.
//!
//! The metadata BLOB is a signed JSON Web Token that the caller fetches. Here its
//! certificate chain and signature are verified, and its payload becomes a map from
//! authenticator model (AAGUID) to the statuses reported of it.

use vstd::prelude::*;
use vstd::utf8::encode_utf8;

use crate::bytes::{append_bytes, bytes_equal, contents, copy_bytes};
use crate::crypto::{signature_valid, verify_es256_jws, Scheme, MAX_HASHED_LEN};
use crate::data::{
    field_repeats, find_field, fits, is_record, items, law_members, law_text_fields, lemma_array,
    lemma_fits, maybe, member, no_entry, only_entry, read_text_field, record_field, record_shaped,
    repeats, text_field, DataItem, Item,
};
use crate::encoding::{base64_bytes, decode_base64, Alphabet};
use crate::error::{outcome, Failure, WebAuthnError};
use crate::json::{decode_json_as, json_value, Shape};
use crate::text::{decimal, decimal_text, join, join3, text_equal, texts};
use crate::x509::{
    cert_signed_by, chain_fault, checkable, extract_ec_p256_public_key_from_cert, law_chain_order,
    linked, p256_key, signed_by, verify_chain_order,
};

verus! {

/// The status of an authenticator model. New statuses may be added.
#[derive(Debug, Clone, Copy, PartialEq, Eq, Hash, Structural)]
#[non_exhaustive]
pub enum AuthenticatorStatus {
    /// Not FIDO certified.
    NotFidoCertified,
    /// FIDO certified.
    FidoCertified,
    /// The user verification method is compromised.
    UserVerificationBypass,
    /// The attestation key is compromised.
    AttestationKeyCompromise,
    /// User keys can be extracted or used remotely.
    UserKeyRemoteCompromise,
    /// User keys can be extracted or used with physical access.
    UserKeyPhysicalCompromise,
    /// An update is available; not itself a compromise.
    UpdateAvailable,
    /// Revoked: must no longer be trusted.
    Revoked,
    /// Certification is asserted by the vendor only.
    SelfAssertionSubmitted,
    /// FIDO certified at level 1.
    FidoCertifiedL1,
    /// FIDO certified at level 1+.
    FidoCertifiedL1Plus,
    /// FIDO certified at level 2.
    FidoCertifiedL2,
    /// FIDO certified at level 2+.
    FidoCertifiedL2Plus,
    /// FIDO certified at level 3.
    FidoCertifiedL3,
    /// FIDO certified at level 3+.
    FidoCertifiedL3Plus,
}

/// The statuses that are evidence of a compromise.
pub open spec fn compromised(status: AuthenticatorStatus) -> bool {
    ||| status == AuthenticatorStatus::Revoked
    ||| status == AuthenticatorStatus::AttestationKeyCompromise
    ||| status == AuthenticatorStatus::UserKeyRemoteCompromise
    ||| status == AuthenticatorStatus::UserKeyPhysicalCompromise
    ||| status == AuthenticatorStatus::UserVerificationBypass
}

/// The name of a status in the metadata service.
pub open spec fn wire_name(status: AuthenticatorStatus) -> Seq<char> {
    match status {
        AuthenticatorStatus::NotFidoCertified => "NOT_FIDO_CERTIFIED"@,
        AuthenticatorStatus::FidoCertified => "FIDO_CERTIFIED"@,
        AuthenticatorStatus::UserVerificationBypass => "USER_VERIFICATION_BYPASS"@,
        AuthenticatorStatus::AttestationKeyCompromise => "ATTESTATION_KEY_COMPROMISE"@,
        AuthenticatorStatus::UserKeyRemoteCompromise => "USER_KEY_REMOTE_COMPROMISE"@,
        AuthenticatorStatus::UserKeyPhysicalCompromise => "USER_KEY_PHYSICAL_COMPROMISE"@,
        AuthenticatorStatus::UpdateAvailable => "UPDATE_AVAILABLE"@,
        AuthenticatorStatus::Revoked => "REVOKED"@,
        AuthenticatorStatus::SelfAssertionSubmitted => "SELF_ASSERTION_SUBMITTED"@,
        AuthenticatorStatus::FidoCertifiedL1 => "FIDO_CERTIFIED_L1"@,
        AuthenticatorStatus::FidoCertifiedL1Plus => "FIDO_CERTIFIED_L1plus"@,
        AuthenticatorStatus::FidoCertifiedL2 => "FIDO_CERTIFIED_L2"@,
        AuthenticatorStatus::FidoCertifiedL2Plus => "FIDO_CERTIFIED_L2plus"@,
        AuthenticatorStatus::FidoCertifiedL3 => "FIDO_CERTIFIED_L3"@,
        AuthenticatorStatus::FidoCertifiedL3Plus => "FIDO_CERTIFIED_L3plus"@,
    }
}

impl AuthenticatorStatus {
    /// Whether this status means that the model should no longer be trusted.
    pub fn is_compromised(&self) -> (bad: bool)
        ensures
            bad == compromised(*self),
    {
        matches!(
            self,
            AuthenticatorStatus::Revoked
                | AuthenticatorStatus::AttestationKeyCompromise
                | AuthenticatorStatus::UserKeyRemoteCompromise
                | AuthenticatorStatus::UserKeyPhysicalCompromise
                | AuthenticatorStatus::UserVerificationBypass
        )
    }

    /// The name of this status in the metadata service.
    pub fn as_str(&self) -> (name: &'static str)
        ensures
            name@ == wire_name(*self),
    {
        match self {
            AuthenticatorStatus::NotFidoCertified => "NOT_FIDO_CERTIFIED",
            AuthenticatorStatus::FidoCertified => "FIDO_CERTIFIED",
            AuthenticatorStatus::UserVerificationBypass => "USER_VERIFICATION_BYPASS",
            AuthenticatorStatus::AttestationKeyCompromise => "ATTESTATION_KEY_COMPROMISE",
            AuthenticatorStatus::UserKeyRemoteCompromise => "USER_KEY_REMOTE_COMPROMISE",
            AuthenticatorStatus::UserKeyPhysicalCompromise => "USER_KEY_PHYSICAL_COMPROMISE",
            AuthenticatorStatus::UpdateAvailable => "UPDATE_AVAILABLE",
            AuthenticatorStatus::Revoked => "REVOKED",
            AuthenticatorStatus::SelfAssertionSubmitted => "SELF_ASSERTION_SUBMITTED",
            AuthenticatorStatus::FidoCertifiedL1 => "FIDO_CERTIFIED_L1",
            AuthenticatorStatus::FidoCertifiedL1Plus => "FIDO_CERTIFIED_L1plus",
            AuthenticatorStatus::FidoCertifiedL2 => "FIDO_CERTIFIED_L2",
            AuthenticatorStatus::FidoCertifiedL2Plus => "FIDO_CERTIFIED_L2plus",
            AuthenticatorStatus::FidoCertifiedL3 => "FIDO_CERTIFIED_L3",
            AuthenticatorStatus::FidoCertifiedL3Plus => "FIDO_CERTIFIED_L3plus",
        }
    }
}

/// No two statuses have the same name.
pub proof fn law_wire_names_differ(a: AuthenticatorStatus, b: AuthenticatorStatus)
    ensures
        wire_name(a) == wire_name(b) ==> a == b,
{
    reveal_strlit("NOT_FIDO_CERTIFIED");
    assert("NOT_FIDO_CERTIFIED"@.len() == 18);
    reveal_strlit("FIDO_CERTIFIED");
    assert("FIDO_CERTIFIED"@.len() == 14);
    reveal_strlit("USER_VERIFICATION_BYPASS");
    assert("USER_VERIFICATION_BYPASS"@.len() == 24);
    reveal_strlit("ATTESTATION_KEY_COMPROMISE");
    assert("ATTESTATION_KEY_COMPROMISE"@.len() == 26);
    reveal_strlit("USER_KEY_REMOTE_COMPROMISE");
    assert("USER_KEY_REMOTE_COMPROMISE"@.len() == 26);
    reveal_strlit("USER_KEY_PHYSICAL_COMPROMISE");
    assert("USER_KEY_PHYSICAL_COMPROMISE"@.len() == 28);
    reveal_strlit("UPDATE_AVAILABLE");
    assert("UPDATE_AVAILABLE"@.len() == 16);
    reveal_strlit("REVOKED");
    assert("REVOKED"@.len() == 7);
    reveal_strlit("SELF_ASSERTION_SUBMITTED");
    assert("SELF_ASSERTION_SUBMITTED"@.len() == 24);
    reveal_strlit("FIDO_CERTIFIED_L1");
    assert("FIDO_CERTIFIED_L1"@.len() == 17);
    reveal_strlit("FIDO_CERTIFIED_L1plus");
    assert("FIDO_CERTIFIED_L1plus"@.len() == 21);
    reveal_strlit("FIDO_CERTIFIED_L2");
    assert("FIDO_CERTIFIED_L2"@.len() == 17);
    reveal_strlit("FIDO_CERTIFIED_L2plus");
    assert("FIDO_CERTIFIED_L2plus"@.len() == 21);
    reveal_strlit("FIDO_CERTIFIED_L3");
    assert("FIDO_CERTIFIED_L3"@.len() == 17);
    reveal_strlit("FIDO_CERTIFIED_L3plus");
    assert("FIDO_CERTIFIED_L3plus"@.len() == 21);
    assert("USER_VERIFICATION_BYPASS"@[0] == 'U' && "SELF_ASSERTION_SUBMITTED"@[0] == 'S');
    assert("ATTESTATION_KEY_COMPROMISE"@[0] == 'A' && "USER_KEY_REMOTE_COMPROMISE"@[0] == 'U');
    assert("FIDO_CERTIFIED_L1"@[16] == '1' && "FIDO_CERTIFIED_L1plus"@[16] == '1');
    assert("FIDO_CERTIFIED_L2"@[16] == '2' && "FIDO_CERTIFIED_L2plus"@[16] == '2');
    assert("FIDO_CERTIFIED_L3"@[16] == '3' && "FIDO_CERTIFIED_L3plus"@[16] == '3');
}

/// The status with a given name.
pub open spec fn status_named(name: Seq<char>) -> Option<AuthenticatorStatus> {
    if exists|status: AuthenticatorStatus| wire_name(status) == name {
        Some(choose|status: AuthenticatorStatus| wire_name(status) == name)
    } else {
        None
    }
}

/// Reading a status by its name gives it back.
pub proof fn law_status_reads_back(status: AuthenticatorStatus)
    ensures
        status_named(wire_name(status)) == Some(status),
{
    let chosen = choose|s: AuthenticatorStatus| wire_name(s) == wire_name(status);
    assert(wire_name(chosen) == wire_name(status));
    law_wire_names_differ(chosen, status);
}

fn all_statuses() -> (all: Vec<AuthenticatorStatus>)
    ensures
        forall|status: AuthenticatorStatus| all@.contains(status),
{
    let all: Vec<AuthenticatorStatus> = vec![
        AuthenticatorStatus::NotFidoCertified,
        AuthenticatorStatus::FidoCertified,
        AuthenticatorStatus::UserVerificationBypass,
        AuthenticatorStatus::AttestationKeyCompromise,
        AuthenticatorStatus::UserKeyRemoteCompromise,
        AuthenticatorStatus::UserKeyPhysicalCompromise,
        AuthenticatorStatus::UpdateAvailable,
        AuthenticatorStatus::Revoked,
        AuthenticatorStatus::SelfAssertionSubmitted,
        AuthenticatorStatus::FidoCertifiedL1,
        AuthenticatorStatus::FidoCertifiedL1Plus,
        AuthenticatorStatus::FidoCertifiedL2,
        AuthenticatorStatus::FidoCertifiedL2Plus,
        AuthenticatorStatus::FidoCertifiedL3,
        AuthenticatorStatus::FidoCertifiedL3Plus,
    ];
    assert forall|status: AuthenticatorStatus| all@.contains(status) by {
        match status {
            AuthenticatorStatus::NotFidoCertified => assert(all@[0] == status),
            AuthenticatorStatus::FidoCertified => assert(all@[1] == status),
            AuthenticatorStatus::UserVerificationBypass => assert(all@[2] == status),
            AuthenticatorStatus::AttestationKeyCompromise => assert(all@[3] == status),
            AuthenticatorStatus::UserKeyRemoteCompromise => assert(all@[4] == status),
            AuthenticatorStatus::UserKeyPhysicalCompromise => assert(all@[5] == status),
            AuthenticatorStatus::UpdateAvailable => assert(all@[6] == status),
            AuthenticatorStatus::Revoked => assert(all@[7] == status),
            AuthenticatorStatus::SelfAssertionSubmitted => assert(all@[8] == status),
            AuthenticatorStatus::FidoCertifiedL1 => assert(all@[9] == status),
            AuthenticatorStatus::FidoCertifiedL1Plus => assert(all@[10] == status),
            AuthenticatorStatus::FidoCertifiedL2 => assert(all@[11] == status),
            AuthenticatorStatus::FidoCertifiedL2Plus => assert(all@[12] == status),
            AuthenticatorStatus::FidoCertifiedL3 => assert(all@[13] == status),
            AuthenticatorStatus::FidoCertifiedL3Plus => assert(all@[14] == status),
        }
    }
    all
}

/// Finds a status by its name.
pub fn status_from_wire(s: &str) -> (r: Option<AuthenticatorStatus>)
    ensures
        r == status_named(s@),
{
    let all = all_statuses();
    let mut i: usize = 0;
    while i < all.len()
        invariant
            i <= all@.len(),
            forall|k: int| 0 <= k < i ==> wire_name(#[trigger] all@[k]) != s@,
        decreases all.len() - i,
    {
        if text_equal(all[i].as_str(), s) {
            proof {
                law_status_reads_back(all@[i as int]);
            }
            return Some(all[i]);
        }
        i += 1;
    }
    proof {
        if status_named(s@) is Some {
            let status = choose|status: AuthenticatorStatus| wire_name(status) == s@;
            assert(all@.contains(status));
        }
    }
    None
}

/// A byte string without its hyphens.
pub open spec fn without_hyphens(text: Seq<u8>) -> Seq<u8>
    decreases text.len(),
{
    if text.len() == 0 {
        text
    } else if text.last() == 0x2D {
        without_hyphens(text.drop_last())
    } else {
        without_hyphens(text.drop_last()).push(text.last())
    }
}

/// The value of a hexadecimal digit in ASCII.
pub open spec fn hex_digit(c: u8) -> Option<u8> {
    if 0x30 <= c <= 0x39 {
        Some((c - 0x30) as u8)
    } else if 0x41 <= c <= 0x46 {
        Some((c - 0x41 + 10) as u8)
    } else if 0x61 <= c <= 0x66 {
        Some((c - 0x61 + 10) as u8)
    } else {
        None
    }
}

/// The byte that two hexadecimal digits stand for.
pub open spec fn hex_pair(hi: u8, lo: u8) -> Option<u8> {
    match (hex_digit(hi), hex_digit(lo)) {
        (Some(h), Some(l)) => Some((h * 16 + l) as u8),
        _ => None,
    }
}

/// The sixteen bytes that a UUID in ASCII stands for; hyphens may stand anywhere.
pub open spec fn aaguid_of(text: Seq<u8>) -> Option<Seq<u8>> {
    let digits = without_hyphens(text);
    if digits.len() == 32 && forall|i: int|
        0 <= i < 16 ==> #[trigger] hex_pair(digits[2 * i], digits[2 * i + 1]) is Some {
        Some(Seq::new(16, |i: int| hex_pair(digits[2 * i], digits[2 * i + 1])->0))
    } else {
        None
    }
}

fn read_hex_digit(c: u8) -> (r: Option<u8>)
    ensures
        r == hex_digit(c),
        r matches Some(d) ==> d < 16,
{
    if 0x30 <= c && c <= 0x39 {
        Some(c - 0x30)
    } else if 0x41 <= c && c <= 0x46 {
        Some(c - 0x41 + 10)
    } else if 0x61 <= c && c <= 0x66 {
        Some(c - 0x61 + 10)
    } else {
        None
    }
}

fn read_hex_pair(hi: u8, lo: u8) -> (r: Option<u8>)
    ensures
        r == hex_pair(hi, lo),
{
    match (read_hex_digit(hi), read_hex_digit(lo)) {
        (Some(h), Some(l)) => Some(h * 16 + l),
        _ => None,
    }
}

fn drop_hyphens(text: &[u8]) -> (digits: Vec<u8>)
    ensures
        digits@ == without_hyphens(text@),
{
    let mut digits: Vec<u8> = Vec::new();
    let mut i: usize = 0;
    while i < text.len()
        invariant
            i <= text@.len(),
            digits@ == without_hyphens(text@.take(i as int)),
        decreases text.len() - i,
    {
        let ghost longer = text@.take(i + 1);
        assert(longer.drop_last() =~= text@.take(i as int));
        assert(longer.last() == text@[i as int]);
        if text[i] != 0x2D {
            digits.push(text[i]);
        }
        i += 1;
    }
    assert(text@.take(text@.len() as int) =~= text@);
    digits
}

/// Parses a UUID such as `12345678-1234-1234-1234-123456789abc`; `None` where the text
/// without hyphens is not thirty-two hexadecimal digits.
pub fn parse_aaguid(s: &str) -> (r: Option<[u8; 16]>)
    ensures
        maybe(r) == aaguid_of(encode_utf8(s@)),
{
    let digits = drop_hyphens(s.as_bytes());
    if digits.len() != 32 {
        return None;
    }
    let mut bytes: [u8; 16] = [0u8; 16];
    let mut i: usize = 0;
    while i < 16
        invariant
            i <= 16,
            digits@.len() == 32,
            digits@ == without_hyphens(encode_utf8(s@)),
            forall|k: int|
                0 <= k < i ==> #[trigger] hex_pair(digits@[2 * k], digits@[2 * k + 1]) == Some(
                    bytes@[k],
                ),
        decreases 16 - i,
    {
        match read_hex_pair(digits[2 * i], digits[2 * i + 1]) {
            Some(byte) => {
                bytes[i] = byte;
            },
            None => {
                assert(hex_pair(digits@[2 * i as int], digits@[2 * i as int + 1]) is None);
                return None;
            },
        }
        i += 1;
    }
    assert(bytes@ =~= aaguid_of(encode_utf8(s@))->0);
    Some(bytes)
}

/// One entry of the metadata payload.
#[derive(Debug)]
pub struct MdsEntry {
    /// The authenticator model, where the entry names one.
    pub aaguid: Option<String>,
    /// The statuses reported of it.
    pub statuses: Vec<String>,
}

/// The mathematical form of an [`MdsEntry`].
pub ghost struct EntryModel {
    pub aaguid: Option<Seq<char>>,
    pub statuses: Seq<Seq<char>>,
}

impl View for MdsEntry {
    type V = EntryModel;

    open spec fn view(&self) -> EntryModel {
        EntryModel { aaguid: maybe(self.aaguid), statuses: texts(self.statuses@) }
    }
}

/// What the entries of a list hold.
pub open spec fn entry_models(list: Seq<MdsEntry>) -> Seq<EntryModel> {
    list.map_values(|e: MdsEntry| e@)
}

/// The statuses whose names are known, in order.
pub open spec fn known_statuses(names: Seq<Seq<char>>) -> Seq<AuthenticatorStatus>
    decreases names.len(),
{
    if names.len() == 0 {
        Seq::empty()
    } else {
        let earlier = known_statuses(names.drop_last());
        match status_named(names.last()) {
            Some(status) => earlier.push(status),
            None => earlier,
        }
    }
}

/// Statuses by authenticator model.
pub type StatusModel = Map<Seq<u8>, Seq<AuthenticatorStatus>>;

/// A map in which the statuses of one model are extended.
pub open spec fn extended(
    map: StatusModel,
    aaguid: Seq<u8>,
    statuses: Seq<AuthenticatorStatus>,
) -> StatusModel {
    map.insert(
        aaguid,
        if map.dom().contains(aaguid) {
            map[aaguid] + statuses
        } else {
            statuses
        },
    )
}

/// The statuses of a payload's entries. An entry without a readable AAGUID is skipped; a
/// status that is not known is skipped alone; entries of one model are joined.
pub open spec fn collected(list: Seq<EntryModel>) -> StatusModel
    decreases list.len(),
{
    if list.len() == 0 {
        Map::empty()
    } else {
        let earlier = collected(list.drop_last());
        match list.last().aaguid {
            Some(text) => match aaguid_of(encode_utf8(text)) {
                Some(aaguid) => extended(earlier, aaguid, known_statuses(list.last().statuses)),
                None => earlier,
            },
            None => earlier,
        }
    }
}

/// Statuses by authenticator model.
#[derive(Debug)]
pub struct StatusMap {
    models: Vec<([u8; 16], Vec<AuthenticatorStatus>)>,
}

/// The map that a list of models stands for.
pub closed spec fn status_map(models: Seq<([u8; 16], Vec<AuthenticatorStatus>)>) -> StatusModel
    decreases models.len(),
{
    if models.len() == 0 {
        Map::empty()
    } else {
        status_map(models.drop_last()).insert(models.last().0@, models.last().1@)
    }
}

spec fn models_distinct(models: Seq<([u8; 16], Vec<AuthenticatorStatus>)>) -> bool {
    forall|i: int, j: int| 0 <= i < j < models.len() ==> models[i].0@ != models[j].0@
}

proof fn lemma_status_map(models: Seq<([u8; 16], Vec<AuthenticatorStatus>)>)
    requires
        models_distinct(models),
    ensures
        forall|i: int|
            0 <= i < models.len() ==> status_map(models).dom().contains((#[trigger] models[i]).0@)
                && status_map(models)[models[i].0@] == models[i].1@,
        forall|k: Seq<u8>| #[trigger]
            status_map(models).dom().contains(k) ==> exists|i: int|
                0 <= i < models.len() && (#[trigger] models[i]).0@ == k,
    decreases models.len(),
{
    if models.len() > 0 {
        let init = models.drop_last();
        lemma_status_map(init);
        assert forall|i: int| 0 <= i < models.len() implies status_map(models).dom().contains(
            (#[trigger] models[i]).0@,
        ) && status_map(models)[models[i].0@] == models[i].1@ by {
            if i < init.len() {
                assert(init[i] == models[i]);
            }
        }
        assert forall|k: Seq<u8>| #[trigger] status_map(models).dom().contains(k) implies exists|
            i: int,
        | 0 <= i < models.len() && (#[trigger] models[i]).0@ == k by {
            if k == models.last().0@ {
                assert(models[models.len() - 1].0@ == k);
            } else {
                assert(status_map(init).dom().contains(k));
                let i = choose|i: int| 0 <= i < init.len() && (#[trigger] init[i]).0@ == k;
                assert(models[i] == init[i]);
            }
        }
    }
}

impl View for StatusMap {
    type V = StatusModel;

    closed spec fn view(&self) -> StatusModel {
        status_map(self.models@)
    }
}

impl StatusMap {
    /// No model stands in the list twice.
    #[verifier::type_invariant]
    spec fn no_duplicates(self) -> bool {
        models_distinct(self.models@)
    }

    /// An empty map.
    pub fn new() -> (map: Self)
        ensures
            map@ == Map::<Seq<u8>, Seq<AuthenticatorStatus>>::empty(),
    {
        StatusMap { models: Vec::new() }
    }

    fn position(&self, aaguid: &[u8; 16]) -> (r: Option<usize>)
        ensures
            match r {
                Some(i) => i < self.models@.len() && self.models@[i as int].0@ == aaguid@,
                None => forall|k: int|
                    0 <= k < self.models@.len() ==> (#[trigger] self.models@[k]).0@ != aaguid@,
            },
    {
        let mut i: usize = 0;
        while i < self.models.len()
            invariant
                i <= self.models@.len(),
                forall|k: int| 0 <= k < i ==> (#[trigger] self.models@[k]).0@ != aaguid@,
            decreases self.models.len() - i,
        {
            if bytes_equal(self.models[i].0.as_slice(), aaguid.as_slice()) {
                return Some(i);
            }
            i += 1;
        }
        None
    }

    /// The statuses of a model, or `None` if nothing is reported of it.
    pub fn get(&self, aaguid: &[u8; 16]) -> (r: Option<&Vec<AuthenticatorStatus>>)
        ensures
            maybe(r) == if self@.dom().contains(aaguid@) {
                Some(self@[aaguid@])
            } else {
                None
            },
    {
        proof {
            use_type_invariant(self);
            lemma_status_map(self.models@);
        }
        match self.position(aaguid) {
            Some(i) => Some(&self.models[i].1),
            None => None,
        }
    }

    /// The models of which something is reported, each once.
    pub fn aaguids(&self) -> (keys: Vec<[u8; 16]>)
        ensures
            forall|k: Seq<u8>| #[trigger]
                self@.dom().contains(k) <==> exists|i: int|
                    0 <= i < keys@.len() && (#[trigger] keys@[i])@ == k,
            forall|i: int, j: int| 0 <= i < j < keys@.len() ==> keys@[i]@ != keys@[j]@,
    {
        proof {
            use_type_invariant(self);
            lemma_status_map(self.models@);
        }
        let mut keys: Vec<[u8; 16]> = Vec::new();
        let mut i: usize = 0;
        while i < self.models.len()
            invariant
                i <= self.models@.len(),
                keys@.len() == i,
                forall|k: int| 0 <= k < i ==> (#[trigger] keys@[k])@ == self.models@[k].0@,
            decreases self.models.len() - i,
        {
            keys.push(self.models[i].0);
            i += 1;
        }
        proof {
            assert forall|k: Seq<u8>| #[trigger] self@.dom().contains(k) <==> exists|i: int|
                0 <= i < keys@.len() && (#[trigger] keys@[i])@ == k by {
                if self@.dom().contains(k) {
                    let j = choose|j: int|
                        0 <= j < self.models@.len() && (#[trigger] self.models@[j]).0@ == k;
                    assert(keys@[j]@ == k);
                }
                if exists|i: int| 0 <= i < keys@.len() && (#[trigger] keys@[i])@ == k {
                    let j = choose|i: int| 0 <= i < keys@.len() && (#[trigger] keys@[i])@ == k;
                    assert(self.models@[j].0@ == k);
                }
            }
        }
        keys
    }

    /// Adds statuses to those of a model.
    pub fn extend(&mut self, aaguid: [u8; 16], statuses: Vec<AuthenticatorStatus>)
        ensures
            final(self)@ == extended(old(self)@, aaguid@, statuses@),
    {
        let mut models: Vec<([u8; 16], Vec<AuthenticatorStatus>)> = Vec::new();
        proof {
            use_type_invariant(&*self);
        }
        let ghost before = self.models@;
        let ghost added = statuses@;
        let at = self.position(&aaguid);
        std::mem::swap(&mut models, &mut self.models);
        match at {
            Some(i) => {
                let mut tail = statuses;
                let mut joined = models[i].1.clone();
                assert(joined@ =~= before[i as int].1@);
                joined.append(&mut tail);
                models[i] = (aaguid, joined);
            },
            None => {
                models.push((aaguid, statuses));
            },
        }
        proof {
            assert(models_distinct(models@));
            lemma_status_map(before);
            lemma_status_map(models@);
            let i = if at is Some {
                at->0 as int
            } else {
                before.len() as int
            };
            assert(models@[i].0@ == aaguid@);
            let expected = extended(status_map(before), aaguid@, added);
            assert forall|k: Seq<u8>|
                status_map(models@).dom().contains(k) == expected.dom().contains(k) by {
                if status_map(before).dom().contains(k) {
                    let j = choose|j: int| 0 <= j < before.len() && (#[trigger] before[j]).0@ == k;
                    assert(models@[j].0@ == k);
                }
                if status_map(models@).dom().contains(k) && k != aaguid@ {
                    let j = choose|j: int|
                        0 <= j < models@.len() && (#[trigger] models@[j]).0@ == k;
                    assert(before[j].0@ == k);
                }
            }
            assert forall|k: Seq<u8>| status_map(models@).dom().contains(k) implies status_map(
                models@,
            )[k] == expected[k] by {
                let j = choose|j: int| 0 <= j < models@.len() && (#[trigger] models@[j]).0@ == k;
                if k != aaguid@ {
                    assert(before[j] == models@[j]);
                } else if at is Some {
                    assert(before[i].0@ == k);
                    assert(models@[i].1@ =~= before[i].1@ + added);
                } else if status_map(before).dom().contains(k) {
                    let b = choose|b: int| 0 <= b < before.len() && (#[trigger] before[b]).0@ == k;
                    assert(before[b].0@ != aaguid@);
                }
            }
            assert(status_map(models@) =~= expected);
        }
        self.models = models;
    }
}

fn read_known_statuses(names: &Vec<String>) -> (statuses: Vec<AuthenticatorStatus>)
    ensures
        statuses@ == known_statuses(texts(names@)),
{
    let ghost all = texts(names@);
    let mut statuses: Vec<AuthenticatorStatus> = Vec::new();
    let mut i: usize = 0;
    while i < names.len()
        invariant
            i <= names@.len(),
            all == texts(names@),
            statuses@ == known_statuses(all.take(i as int)),
        decreases names.len() - i,
    {
        let ghost longer = all.take(i + 1);
        assert(longer.drop_last() =~= all.take(i as int));
        assert(longer.last() == names@[i as int]@);
        if let Some(status) = status_from_wire(names[i].as_str()) {
            statuses.push(status);
        }
        i += 1;
    }
    assert(all.take(all.len() as int) =~= all);
    statuses
}

/// Collects the statuses of a payload's entries.
pub fn collect_statuses(list: &Vec<MdsEntry>) -> (map: StatusMap)
    ensures
        map@ == collected(entry_models(list@)),
{
    let ghost all = entry_models(list@);
    let mut map = StatusMap::new();
    let mut i: usize = 0;
    while i < list.len()
        invariant
            i <= list@.len(),
            all == entry_models(list@),
            map@ == collected(all.take(i as int)),
        decreases list.len() - i,
    {
        let ghost longer = all.take(i + 1);
        assert(longer.drop_last() =~= all.take(i as int));
        assert(longer.last() == list@[i as int]@);
        if let Some(text) = &list[i].aaguid {
            if let Some(aaguid) = parse_aaguid(text.as_str()) {
                map.extend(aaguid, read_known_statuses(&list[i].statuses));
            }
        }
        i += 1;
    }
    assert(all.take(all.len() as int) =~= all);
    map
}

/// The parts of a byte string between its dots.
pub open spec fn split_dots(text: Seq<u8>) -> Seq<Seq<u8>>
    decreases text.len(),
{
    if text.len() == 0 {
        seq![Seq::empty()]
    } else {
        let earlier = split_dots(text.drop_last());
        if text.last() == 0x2E {
            earlier.push(Seq::empty())
        } else {
            earlier.drop_last().push(earlier.last().push(text.last()))
        }
    }
}

/// Splits a byte string at its dots.
pub fn split_at_dots(text: &[u8]) -> (parts: Vec<Vec<u8>>)
    ensures
        contents(parts@) == split_dots(text@),
        forall|i: int| 0 <= i < parts@.len() ==> (#[trigger] parts@[i])@.len() <= text@.len(),
{
    let mut parts: Vec<Vec<u8>> = Vec::new();
    let mut current: Vec<u8> = Vec::new();
    let mut i: usize = 0;
    assert(contents(parts@).push(current@) =~= split_dots(text@.take(0)));
    while i < text.len()
        invariant
            i <= text@.len(),
            current@.len() <= i,
            forall|k: int| 0 <= k < parts@.len() ==> (#[trigger] parts@[k])@.len() <= text@.len(),
            contents(parts@).push(current@) == split_dots(text@.take(i as int)),
        decreases text.len() - i,
    {
        let ghost longer = text@.take(i + 1);
        let ghost earlier = contents(parts@).push(current@);
        assert(longer.drop_last() =~= text@.take(i as int));
        assert(longer.last() == text@[i as int]);
        if text[i] == 0x2E {
            let mut fresh: Vec<u8> = Vec::new();
            std::mem::swap(&mut fresh, &mut current);
            let ghost before = parts@;
            parts.push(fresh);
            assert(contents(parts@) =~= contents(before).push(fresh@));
            assert(contents(parts@) =~= earlier);
        } else {
            current.push(text[i]);
            assert(contents(parts@).push(current@) =~= earlier.drop_last().push(
                earlier.last().push(text@[i as int]),
            ));
        }
        i += 1;
    }
    let ghost before = parts@;
    parts.push(current);
    assert(text@.take(text@.len() as int) =~= text@);
    assert(contents(parts@) =~= contents(before).push(current@));
    parts
}

/// The failure for a malformed metadata BLOB.
pub open spec fn bad_blob(message: Seq<char>) -> Failure {
    Failure::MdsBlobMalformed(message)
}

fn reject_blob(message: String) -> (e: WebAuthnError)
    ensures
        e@ == bad_blob(message@),
{
    WebAuthnError::MdsBlobMalformed(message)
}

/// A signed token taken apart: header, payload, signature, and what was signed.
#[derive(Debug)]
pub struct Token {
    /// The header's JSON bytes.
    pub header: Vec<u8>,
    /// The payload's JSON bytes.
    pub payload: Vec<u8>,
    /// The signature, `r || s`.
    pub signature: Vec<u8>,
    /// The encoded header and payload with the dot between them.
    pub signed: Vec<u8>,
}

/// The mathematical form of a [`Token`].
pub ghost struct TokenModel {
    pub header: Seq<u8>,
    pub payload: Seq<u8>,
    pub signature: Seq<u8>,
    pub signed: Seq<u8>,
}

impl View for Token {
    type V = TokenModel;

    open spec fn view(&self) -> TokenModel {
        TokenModel {
            header: self.header@,
            payload: self.payload@,
            signature: self.signature@,
            signed: self.signed@,
        }
    }
}

/// The token in a BLOB: three parts in base64url with dots between them.
pub open spec fn token_of(blob: Seq<u8>) -> Result<TokenModel, Failure> {
    let parts = split_dots(blob);
    if parts.len() != 3 {
        Err(bad_blob("expected 3 dot-separated JWT segments, got "@ + decimal(parts.len())))
    } else {
        match (
            base64_bytes(Alphabet::UrlSafeNoPad, parts[0]),
            base64_bytes(Alphabet::UrlSafeNoPad, parts[1]),
            base64_bytes(Alphabet::UrlSafeNoPad, parts[2]),
        ) {
            (Err(e), _, _) => Err(bad_blob("failed to base64url-decode JOSE header: "@ + e)),
            (Ok(_), Err(e), _) => Err(bad_blob("failed to base64url-decode payload: "@ + e)),
            (Ok(_), Ok(_), Err(e)) => Err(
                bad_blob("failed to base64url-decode signature: "@ + e),
            ),
            (Ok(header), Ok(payload), Ok(signature)) => Ok(
                TokenModel {
                    header,
                    payload,
                    signature,
                    signed: parts[0] + seq![0x2Eu8] + parts[1],
                },
            ),
        }
    }
}

proof fn lemma_split_len(text: Seq<u8>)
    ensures
        split_dots(text).len() >= 1,
        split_dots(text).len() == 3 ==> split_dots(text)[0].len() + split_dots(text)[1].len()
            + split_dots(text)[2].len() + 2 == text.len(),
        split_dots(text).len() == 2 ==> split_dots(text)[0].len() + split_dots(text)[1].len() + 1
            == text.len(),
        split_dots(text).len() == 1 ==> split_dots(text)[0].len() == text.len(),
    decreases text.len(),
{
    if text.len() > 0 {
        lemma_split_len(text.drop_last());
    }
}

/// Takes a BLOB apart.
pub fn parse_token(blob: &[u8]) -> (r: Result<Token, WebAuthnError>)
    ensures
        outcome(r) == token_of(blob@),
        r matches Ok(token) ==> token.header@.len() <= blob@.len() && token.signed@.len()
            <= blob@.len(),
{
    let parts = split_at_dots(blob);
    proof {
        lemma_split_len(blob@);
    }
    assert(parts@.len() == contents(parts@).len());
    if parts.len() != 3 {
        return Err(
            reject_blob(
                join(
                    "expected 3 dot-separated JWT segments, got ",
                    decimal_text(parts.len() as u64).as_str(),
                ),
            ),
        );
    }
    assert(contents(parts@)[0] == parts@[0]@);
    assert(contents(parts@)[1] == parts@[1]@);
    assert(contents(parts@)[2] == parts@[2]@);
    let header = match decode_base64(Alphabet::UrlSafeNoPad, parts[0].as_slice()) {
        Ok(header) => header,
        Err(e) => return Err(
            reject_blob(join("failed to base64url-decode JOSE header: ", e.as_str())),
        ),
    };
    let payload = match decode_base64(Alphabet::UrlSafeNoPad, parts[1].as_slice()) {
        Ok(payload) => payload,
        Err(e) => return Err(
            reject_blob(join("failed to base64url-decode payload: ", e.as_str())),
        ),
    };
    let signature = match decode_base64(Alphabet::UrlSafeNoPad, parts[2].as_slice()) {
        Ok(signature) => signature,
        Err(e) => return Err(
            reject_blob(join("failed to base64url-decode signature: ", e.as_str())),
        ),
    };
    let mut signed = copy_bytes(parts[0].as_slice());
    signed.push(0x2E);
    append_bytes(&mut signed, parts[1].as_slice());
    assert(signed@ =~= parts@[0]@ + seq![0x2Eu8] + parts@[1]@);
    Ok(Token { header, payload, signature, signed })
}

/// The texts in an array of texts.
pub open spec fn text_list(a: Seq<Item>) -> Option<Seq<Seq<char>>>
    decreases a.len(),
{
    if a.len() == 0 {
        Some(Seq::empty())
    } else {
        match (text_list(a.drop_last()), a.last()) {
            (Some(earlier), Item::Text(s)) => Some(earlier.push(s)),
            _ => None,
        }
    }
}

/// The algorithm and the certificates of a token header.
pub type HeaderModel = (Seq<char>, Seq<Seq<char>>);

/// What a header's JSON value stands for, or what is wrong with it. Without `x5c` there
/// are no certificates.
pub open spec fn header_of(v: Item) -> Result<HeaderModel, Seq<char>> {
    if !is_record(v, 1, 2) {
        Err("invalid type: expected a JOSE header object"@)
    } else {
        match text_field(v, "alg"@, 0) {
            Err(e) => Err(e),
            Ok(alg) => if repeats(v, "x5c"@) {
                Err("duplicate field `x5c`"@)
            } else {
                match record_field(v, "x5c"@, 1) {
                    None => Ok((alg, Seq::empty())),
                    Some(Item::Array(a)) => match text_list(a) {
                        Some(list) => Ok((alg, list)),
                        None => Err("invalid type for field `x5c`: expected strings"@),
                    },
                    Some(_) => Err("invalid type for field `x5c`: expected strings"@),
                }
            },
        }
    }
}

fn read_text_list(a: &Vec<DataItem>) -> (r: Option<Vec<String>>)
    ensures
        match r {
            Some(list) => text_list(items(a@)) == Some(texts(list@)),
            None => text_list(items(a@)) is None,
        },
{
    let ghost all = items(a@);
    let mut list: Vec<String> = Vec::new();
    let mut i: usize = 0;
    assert(texts(list@) =~= Seq::<Seq<char>>::empty());
    while i < a.len()
        invariant
            i <= a@.len(),
            all == items(a@),
            text_list(all.take(i as int)) == Some(texts(list@)),
        decreases a.len() - i,
    {
        let ghost longer = all.take(i + 1);
        assert(longer.drop_last() =~= all.take(i as int));
        assert(longer.last() == a@[i as int]@);
        match &a[i] {
            DataItem::Text(s) => {
                let ghost before = list@;
                list.push(s.clone());
                assert(texts(list@) =~= texts(before).push(s@));
            },
            _ => {
                proof {
                    lemma_text_list_stays(all, i + 1);
                }
                return None;
            },
        }
        i += 1;
    }
    assert(all.take(all.len() as int) =~= all);
    Some(list)
}

proof fn lemma_text_list_stays(a: Seq<Item>, n: int)
    requires
        0 <= n <= a.len(),
        text_list(a.take(n)) is None,
    ensures
        text_list(a) is None,
    decreases a.len(),
{
    if n < a.len() {
        assert(a.drop_last().take(n) =~= a.take(n));
        lemma_text_list_stays(a.drop_last(), n);
    } else {
        assert(a.take(n) =~= a);
    }
}

/// Reads a token header out of its JSON value.
pub fn header_from_item(v: &DataItem) -> (r: Result<(String, Vec<String>), String>)
    ensures
        match r {
            Ok((alg, x5c)) => header_of(v@) == Ok::<HeaderModel, Seq<char>>((alg@, texts(x5c@))),
            Err(e) => header_of(v@) == Err::<HeaderModel, Seq<char>>(e@),
        },
{
    if !record_shaped(v, 1, 2) {
        return Err("invalid type: expected a JOSE header object".to_string());
    }
    let alg = match read_text_field(v, "alg", 0) {
        Ok(alg) => alg,
        Err(e) => return Err(e),
    };
    if field_repeats(v, "x5c") {
        return Err("duplicate field `x5c`".to_string());
    }
    match find_field(v, "x5c", 1) {
        None => {
            let none: Vec<String> = Vec::new();
            assert(texts(none@) =~= Seq::<Seq<char>>::empty());
            Ok((alg, none))
        },
        Some(DataItem::Array(a)) => {
            proof {
                lemma_array(*a);
            }
            match read_text_list(a) {
                Some(list) => Ok((alg, list)),
                None => Err("invalid type for field `x5c`: expected strings".to_string()),
            }
        },
        Some(_) => Err("invalid type for field `x5c`: expected strings".to_string()),
    }
}

/// The certificates in a header's `x5c`, in standard base64.
pub open spec fn decoded_certs(list: Seq<Seq<char>>) -> Result<Seq<Seq<u8>>, Failure>
    decreases list.len(),
{
    if list.len() == 0 {
        Ok(Seq::empty())
    } else {
        match decoded_certs(list.drop_last()) {
            Err(failure) => Err(failure),
            Ok(certs) => match base64_bytes(Alphabet::Standard, encode_utf8(list.last())) {
                Ok(der) => Ok(certs.push(der)),
                Err(e) => Err(
                    bad_blob(
                        "failed to base64-decode x5c["@ + decimal((list.len() - 1) as nat) + "]: "@
                            + e,
                    ),
                ),
            },
        }
    }
}

proof fn lemma_certs_failure_stays(list: Seq<Seq<char>>, n: int)
    requires
        0 <= n <= list.len(),
        decoded_certs(list.take(n)) is Err,
    ensures
        decoded_certs(list) == decoded_certs(list.take(n)),
    decreases list.len(),
{
    if n < list.len() {
        assert(list.drop_last().take(n) =~= list.take(n));
        lemma_certs_failure_stays(list.drop_last(), n);
    } else {
        assert(list.take(n) =~= list);
    }
}

fn decode_certs(list: &Vec<String>) -> (r: Result<Vec<Vec<u8>>, WebAuthnError>)
    requires
        forall|i: int|
            0 <= i < list@.len() ==> encode_utf8((#[trigger] list@[i])@).len() + 64
                <= MAX_HASHED_LEN,
    ensures
        match r {
            Ok(certs) => decoded_certs(texts(list@)) == Ok::<Seq<Seq<u8>>, Failure>(
                contents(certs@),
            ) && certs@.len() == list@.len() && checkable(contents(certs@)),
            Err(e) => decoded_certs(texts(list@)) == Err::<Seq<Seq<u8>>, Failure>(e@),
        },
{
    let ghost all = texts(list@);
    let mut certs: Vec<Vec<u8>> = Vec::new();
    let mut i: usize = 0;
    assert(contents(certs@) =~= Seq::<Seq<u8>>::empty());
    while i < list.len()
        invariant
            i <= list@.len(),
            certs@.len() == i,
            all == texts(list@),
            forall|k: int|
                0 <= k < list@.len() ==> encode_utf8((#[trigger] list@[k])@).len() + 64
                    <= MAX_HASHED_LEN,
            decoded_certs(all.take(i as int)) == Ok::<Seq<Seq<u8>>, Failure>(contents(certs@)),
            forall|k: int| 0 <= k < i ==> (#[trigger] certs@[k])@.len() + 64 <= MAX_HASHED_LEN,
        decreases list.len() - i,
    {
        let ghost longer = all.take(i + 1);
        assert(longer.drop_last() =~= all.take(i as int));
        assert(longer.last() == list@[i as int]@);
        match decode_base64(Alphabet::Standard, list[i].as_str().as_bytes()) {
            Ok(der) => {
                let ghost before = certs@;
                certs.push(der);
                assert(contents(certs@) =~= contents(before).push(der@));
            },
            Err(e) => {
                proof {
                    lemma_certs_failure_stays(all, i + 1);
                }
                return Err(
                    reject_blob(
                        join(
                            join3(
                                "failed to base64-decode x5c[",
                                decimal_text(i as u64).as_str(),
                                "]: ",
                            ).as_str(),
                            e.as_str(),
                        ),
                    ),
                );
            },
        }
        i += 1;
    }
    assert(all.take(all.len() as int) =~= all);
    assert forall|k: int| 0 <= k < contents(certs@).len() implies (#[trigger] contents(
        certs@,
    )[k]).len() + 64 <= MAX_HASHED_LEN by {
        assert(contents(certs@)[k] == certs@[k]@);
    }
    Ok(certs)
}

/// The certificates of a header with the algorithm `ES256`; there must be some.
pub open spec fn header_certs(header: HeaderModel) -> Result<Seq<Seq<u8>>, Failure> {
    if header.0 != "ES256"@ {
        Err(bad_blob("unsupported JWS alg \""@ + header.0 + "\", expected \"ES256\""@))
    } else if header.1.len() == 0 {
        Err(bad_blob("JOSE header x5c must be a non-empty certificate chain"@))
    } else {
        decoded_certs(header.1)
    }
}

/// The certificates of a token, by its header's JSON bytes.
pub open spec fn token_certs(header: Seq<u8>) -> Result<Seq<Seq<u8>>, Failure> {
    let fields = match json_value(header, Shape::Header) {
        Ok(v) => header_of(v),
        Err(e) => Err(e),
    };
    match fields {
        Err(e) => Err(bad_blob("failed to parse JOSE header JSON: "@ + e)),
        Ok(fields) => header_certs(fields),
    }
}

proof fn lemma_header_fits(v: Item, n: nat)
    requires
        fits(v, n),
    ensures
        header_of(v) matches Ok(header) ==> forall|i: int|
            0 <= i < header.1.len() ==> encode_utf8(#[trigger] header.1[i]).len() <= n,
{
    if let Ok(_) = header_of(v) {
        lemma_fits(v, n);
        if let Item::Dict(m) = v {
            lemma_member_fits(m, "x5c"@, n);
        }
        if let Some(Item::Array(a)) = record_field(v, "x5c"@, 1) {
            lemma_text_list_fits(a, n);
        }
    }
}

proof fn lemma_member_fits(m: Seq<(Item, Item)>, key: Seq<char>, n: nat)
    requires
        forall|i: int| 0 <= i < m.len() ==> fits((#[trigger] m[i]).1, n),
    ensures
        member(m, key) matches Some(v) ==> fits(v, n),
    decreases m.len(),
{
    if m.len() > 0 {
        let rest = m.drop_first();
        assert forall|i: int| 0 <= i < rest.len() implies fits((#[trigger] rest[i]).1, n) by {
            assert(rest[i] == m[i + 1]);
        }
        lemma_member_fits(rest, key, n);
    }
}

proof fn lemma_text_list_fits(a: Seq<Item>, n: nat)
    requires
        fits(Item::Array(a), n),
    ensures
        text_list(a) matches Some(list) ==> list.len() == a.len() && forall|i: int|
            0 <= i < list.len() ==> encode_utf8(#[trigger] list[i]).len() <= n,
    decreases a.len(),
{
    if a.len() > 0 {
        lemma_fits(Item::Array(a), n);
        let init = a.drop_last();
        assert(fits(Item::Array(init), n)) by {
            assert forall|i: int| 0 <= i < init.len() implies fits(#[trigger] init[i], n) by {
                assert(init[i] == a[i]);
            }
        }
        lemma_text_list_fits(init, n);
        assert(fits(a[a.len() - 1], n));
    }
}

fn read_token_certs(header: &[u8]) -> (r: Result<Vec<Vec<u8>>, WebAuthnError>)
    requires
        header@.len() + 64 <= MAX_HASHED_LEN,
    ensures
        match r {
            Ok(certs) => token_certs(header@) == Ok::<Seq<Seq<u8>>, Failure>(contents(certs@))
                && certs@.len() > 0 && checkable(contents(certs@)),
            Err(e) => token_certs(header@) == Err::<Seq<Seq<u8>>, Failure>(e@),
        },
{
    let v = match decode_json_as(header, Shape::Header) {
        Ok(v) => v,
        Err(e) => return Err(
            reject_blob(join("failed to parse JOSE header JSON: ", e.as_str())),
        ),
    };
    let (alg, x5c) = match header_from_item(&v) {
        Ok(fields) => fields,
        Err(e) => return Err(
            reject_blob(join("failed to parse JOSE header JSON: ", e.as_str())),
        ),
    };
    proof {
        lemma_header_fits(v@, header@.len());
        assert forall|i: int| 0 <= i < x5c@.len() implies encode_utf8((#[trigger] x5c@[i])@).len()
            + 64 <= MAX_HASHED_LEN by {
            assert(texts(x5c@)[i] == x5c@[i]@);
        }
    }
    if !text_equal(alg.as_str(), "ES256") {
        return Err(
            reject_blob(join3("unsupported JWS alg \"", alg.as_str(), "\", expected \"ES256\"")),
        );
    }
    if x5c.is_empty() {
        return Err(
            reject_blob("JOSE header x5c must be a non-empty certificate chain".to_string()),
        );
    }
    decode_certs(&x5c)
}

/// The verdict on a token's certificates and signature: the chain is in order, the trust
/// root signed its root, and the leaf's key signed the token. Under a leaf without a P-256
/// key no signature is valid.
pub open spec fn token_verdict(
    certs: Seq<Seq<u8>>,
    trust_root: Seq<u8>,
    signed: Seq<u8>,
    signature: Seq<u8>,
) -> Result<(), Failure> {
    match chain_fault(certs) {
        Some(fault) => Err(Failure::MdsChainInvalid(fault)),
        None => if !signed_by(certs.last(), trust_root) {
            Err(Failure::MdsRootUntrusted)
        } else {
            match p256_key(certs[0]) {
                Err(_) => Err(Failure::MdsSignatureInvalid),
                Ok(key) => if signature_valid(Scheme::Es256Fixed, key, signed, signature) {
                    Ok(())
                } else {
                    Err(Failure::MdsSignatureInvalid)
                },
            }
        },
    }
}

fn verify_token(certs: &Vec<Vec<u8>>, trust_root: &[u8], signed: &[u8], signature: &[u8]) -> (r:
    Result<(), WebAuthnError>)
    requires
        certs@.len() > 0,
        checkable(contents(certs@)),
        signed@.len() + 64 <= MAX_HASHED_LEN,
    ensures
        outcome(r) == token_verdict(contents(certs@), trust_root@, signed@, signature@),
{
    if let Err(fault) = verify_chain_order(certs) {
        return Err(WebAuthnError::MdsChainInvalid(fault));
    }
    let root = &certs[certs.len() - 1];
    assert(contents(certs@).last() == root@);
    assert(contents(certs@)[0] == certs@[0]@);
    if !cert_signed_by(root.as_slice(), trust_root) {
        return Err(WebAuthnError::MdsRootUntrusted);
    }
    let key = match extract_ec_p256_public_key_from_cert(certs[0].as_slice()) {
        Ok(key) => key,
        Err(_) => return Err(WebAuthnError::MdsSignatureInvalid),
    };
    match verify_es256_jws(key.as_slice(), signed, signature) {
        Ok(()) => Ok(()),
        Err(_) => Err(WebAuthnError::MdsSignatureInvalid),
    }
}

/// The name of the status in a status report.
pub open spec fn report_status(v: Item) -> Result<Seq<char>, Seq<char>> {
    if !is_record(v, 1, 1) {
        Err("invalid type: expected a status report object"@)
    } else {
        text_field(v, "status"@, 0)
    }
}

/// The names of the statuses in a list of status reports.
pub open spec fn report_list(a: Seq<Item>) -> Result<Seq<Seq<char>>, Seq<char>>
    decreases a.len(),
{
    if a.len() == 0 {
        Ok(Seq::empty())
    } else {
        match report_list(a.drop_last()) {
            Err(e) => Err(e),
            Ok(earlier) => match report_status(a.last()) {
                Ok(status) => Ok(earlier.push(status)),
                Err(e) => Err(e),
            },
        }
    }
}

/// The AAGUID of an entry: absent and null are the same.
pub open spec fn entry_aaguid(v: Item) -> Result<Option<Seq<char>>, Seq<char>> {
    if repeats(v, "aaguid"@) {
        Err("duplicate field `aaguid`"@)
    } else {
        match record_field(v, "aaguid"@, 0) {
            None => Ok(None),
            Some(Item::Null) => Ok(None),
            Some(Item::Text(s)) => Ok(Some(s)),
            Some(_) => Err("invalid type for field `aaguid`: expected a string"@),
        }
    }
}

/// The statuses of an entry; none where it has no reports.
pub open spec fn entry_statuses(v: Item) -> Result<Seq<Seq<char>>, Seq<char>> {
    if repeats(v, "statusReports"@) {
        Err("duplicate field `statusReports`"@)
    } else {
        match record_field(v, "statusReports"@, 1) {
            None => Ok(Seq::empty()),
            Some(Item::Array(a)) => report_list(a),
            Some(_) => Err("invalid type for field `statusReports`: expected a list"@),
        }
    }
}

/// An entry of the payload.
pub open spec fn entry_of(v: Item) -> Result<EntryModel, Seq<char>> {
    if !is_record(v, 1, 2) {
        Err("invalid type: expected an entry object"@)
    } else {
        match (entry_aaguid(v), entry_statuses(v)) {
            (Err(e), _) => Err(e),
            (Ok(_), Err(e)) => Err(e),
            (Ok(aaguid), Ok(statuses)) => Ok(EntryModel { aaguid, statuses }),
        }
    }
}

/// The entries in a list.
pub open spec fn entry_list(a: Seq<Item>) -> Result<Seq<EntryModel>, Seq<char>>
    decreases a.len(),
{
    if a.len() == 0 {
        Ok(Seq::empty())
    } else {
        match entry_list(a.drop_last()) {
            Err(e) => Err(e),
            Ok(earlier) => match entry_of(a.last()) {
                Ok(entry) => Ok(earlier.push(entry)),
                Err(e) => Err(e),
            },
        }
    }
}

/// The entries of a payload; none where it has no list of them.
pub open spec fn payload_of(v: Item) -> Result<Seq<EntryModel>, Seq<char>> {
    if !is_record(v, 0, 1) {
        Err("invalid type: expected a payload object"@)
    } else if repeats(v, "entries"@) {
        Err("duplicate field `entries`"@)
    } else {
        match record_field(v, "entries"@, 0) {
            None => Ok(Seq::empty()),
            Some(Item::Array(a)) => entry_list(a),
            Some(_) => Err("invalid type for field `entries`: expected a list"@),
        }
    }
}

proof fn lemma_reports_failure_stays(a: Seq<Item>, n: int)
    requires
        0 <= n <= a.len(),
        report_list(a.take(n)) is Err,
    ensures
        report_list(a) == report_list(a.take(n)),
    decreases a.len(),
{
    if n < a.len() {
        assert(a.drop_last().take(n) =~= a.take(n));
        lemma_reports_failure_stays(a.drop_last(), n);
    } else {
        assert(a.take(n) =~= a);
    }
}

proof fn lemma_entries_failure_stays(a: Seq<Item>, n: int)
    requires
        0 <= n <= a.len(),
        entry_list(a.take(n)) is Err,
    ensures
        entry_list(a) == entry_list(a.take(n)),
    decreases a.len(),
{
    if n < a.len() {
        assert(a.drop_last().take(n) =~= a.take(n));
        lemma_entries_failure_stays(a.drop_last(), n);
    } else {
        assert(a.take(n) =~= a);
    }
}

fn read_report(v: &DataItem) -> (r: Result<String, String>)
    ensures
        match r {
            Ok(s) => report_status(v@) == Ok::<Seq<char>, Seq<char>>(s@),
            Err(e) => report_status(v@) == Err::<Seq<char>, Seq<char>>(e@),
        },
{
    if !record_shaped(v, 1, 1) {
        return Err("invalid type: expected a status report object".to_string());
    }
    read_text_field(v, "status", 0)
}

fn read_reports(a: &Vec<DataItem>) -> (r: Result<Vec<String>, String>)
    ensures
        match r {
            Ok(list) => report_list(items(a@)) == Ok::<Seq<Seq<char>>, Seq<char>>(texts(list@)),
            Err(e) => report_list(items(a@)) == Err::<Seq<Seq<char>>, Seq<char>>(e@),
        },
{
    let ghost all = items(a@);
    let mut list: Vec<String> = Vec::new();
    let mut i: usize = 0;
    assert(texts(list@) =~= Seq::<Seq<char>>::empty());
    while i < a.len()
        invariant
            i <= a@.len(),
            all == items(a@),
            report_list(all.take(i as int)) == Ok::<Seq<Seq<char>>, Seq<char>>(texts(list@)),
        decreases a.len() - i,
    {
        let ghost longer = all.take(i + 1);
        assert(longer.drop_last() =~= all.take(i as int));
        assert(longer.last() == a@[i as int]@);
        match read_report(&a[i]) {
            Ok(status) => {
                let ghost before = list@;
                list.push(status);
                assert(texts(list@) =~= texts(before).push(status@));
            },
            Err(e) => {
                proof {
                    lemma_reports_failure_stays(all, i + 1);
                }
                return Err(e);
            },
        }
        i += 1;
    }
    assert(all.take(all.len() as int) =~= all);
    Ok(list)
}

fn read_entry_aaguid(v: &DataItem) -> (r: Result<Option<String>, String>)
    ensures
        match r {
            Ok(s) => entry_aaguid(v@) == Ok::<Option<Seq<char>>, Seq<char>>(maybe(s)),
            Err(e) => entry_aaguid(v@) == Err::<Option<Seq<char>>, Seq<char>>(e@),
        },
{
    if field_repeats(v, "aaguid") {
        return Err("duplicate field `aaguid`".to_string());
    }
    match find_field(v, "aaguid", 0) {
        None => Ok(None),
        Some(DataItem::Null) => Ok(None),
        Some(DataItem::Text(s)) => Ok(Some(s.clone())),
        Some(_) => Err("invalid type for field `aaguid`: expected a string".to_string()),
    }
}

fn read_entry_statuses(v: &DataItem) -> (r: Result<Vec<String>, String>)
    ensures
        match r {
            Ok(list) => entry_statuses(v@) == Ok::<Seq<Seq<char>>, Seq<char>>(texts(list@)),
            Err(e) => entry_statuses(v@) == Err::<Seq<Seq<char>>, Seq<char>>(e@),
        },
{
    if field_repeats(v, "statusReports") {
        return Err("duplicate field `statusReports`".to_string());
    }
    match find_field(v, "statusReports", 1) {
        None => {
            let none: Vec<String> = Vec::new();
            assert(texts(none@) =~= Seq::<Seq<char>>::empty());
            Ok(none)
        },
        Some(DataItem::Array(a)) => {
            proof {
                lemma_array(*a);
            }
            read_reports(a)
        },
        Some(_) => Err("invalid type for field `statusReports`: expected a list".to_string()),
    }
}

fn read_entry(v: &DataItem) -> (r: Result<MdsEntry, String>)
    ensures
        match r {
            Ok(entry) => entry_of(v@) == Ok::<EntryModel, Seq<char>>(entry@),
            Err(e) => entry_of(v@) == Err::<EntryModel, Seq<char>>(e@),
        },
{
    if !record_shaped(v, 1, 2) {
        return Err("invalid type: expected an entry object".to_string());
    }
    let aaguid = match read_entry_aaguid(v) {
        Ok(aaguid) => aaguid,
        Err(e) => return Err(e),
    };
    match read_entry_statuses(v) {
        Ok(statuses) => Ok(MdsEntry { aaguid, statuses }),
        Err(e) => Err(e),
    }
}

fn read_entries(a: &Vec<DataItem>) -> (r: Result<Vec<MdsEntry>, String>)
    ensures
        match r {
            Ok(list) => entry_list(items(a@)) == Ok::<Seq<EntryModel>, Seq<char>>(
                entry_models(list@),
            ),
            Err(e) => entry_list(items(a@)) == Err::<Seq<EntryModel>, Seq<char>>(e@),
        },
{
    let ghost all = items(a@);
    let mut list: Vec<MdsEntry> = Vec::new();
    let mut i: usize = 0;
    assert(entry_models(list@) =~= Seq::<EntryModel>::empty());
    while i < a.len()
        invariant
            i <= a@.len(),
            all == items(a@),
            entry_list(all.take(i as int)) == Ok::<Seq<EntryModel>, Seq<char>>(
                entry_models(list@),
            ),
        decreases a.len() - i,
    {
        let ghost longer = all.take(i + 1);
        assert(longer.drop_last() =~= all.take(i as int));
        assert(longer.last() == a@[i as int]@);
        match read_entry(&a[i]) {
            Ok(entry) => {
                let ghost before = list@;
                list.push(entry);
                assert(entry_models(list@) =~= entry_models(before).push(entry@));
            },
            Err(e) => {
                proof {
                    lemma_entries_failure_stays(all, i + 1);
                }
                return Err(e);
            },
        }
        i += 1;
    }
    assert(all.take(all.len() as int) =~= all);
    Ok(list)
}

/// Reads the entries of a payload out of its JSON value.
pub fn payload_from_item(v: &DataItem) -> (r: Result<Vec<MdsEntry>, String>)
    ensures
        match r {
            Ok(list) => payload_of(v@) == Ok::<Seq<EntryModel>, Seq<char>>(entry_models(list@)),
            Err(e) => payload_of(v@) == Err::<Seq<EntryModel>, Seq<char>>(e@),
        },
{
    if !record_shaped(v, 0, 1) {
        return Err("invalid type: expected a payload object".to_string());
    }
    if field_repeats(v, "entries") {
        return Err("duplicate field `entries`".to_string());
    }
    match find_field(v, "entries", 0) {
        None => {
            let none: Vec<MdsEntry> = Vec::new();
            assert(entry_models(none@) =~= Seq::<EntryModel>::empty());
            Ok(none)
        },
        Some(DataItem::Array(a)) => {
            proof {
                lemma_array(*a);
            }
            read_entries(a)
        },
        Some(_) => Err("invalid type for field `entries`: expected a list".to_string()),
    }
}

/// The statuses in a payload's JSON bytes.
pub open spec fn payload_statuses(payload: Seq<u8>) -> Result<StatusModel, Failure> {
    let list = match json_value(payload, Shape::Payload) {
        Ok(v) => payload_of(v),
        Err(e) => Err(e),
    };
    match list {
        Err(e) => Err(bad_blob("failed to parse BLOB payload JSON: "@ + e)),
        Ok(list) => Ok(collected(list)),
    }
}

fn read_payload(payload: &[u8]) -> (r: Result<StatusMap, WebAuthnError>)
    ensures
        outcome(r) == payload_statuses(payload@),
{
    let list = match decode_json_as(payload, Shape::Payload) {
        Ok(v) => payload_from_item(&v),
        Err(e) => Err(e),
    };
    match list {
        Ok(list) => Ok(collect_statuses(&list)),
        Err(e) => Err(reject_blob(join("failed to parse BLOB payload JSON: ", e.as_str()))),
    }
}

/// The statuses in a metadata BLOB: its token, its certificates, the verdict on them, and
/// its payload, in this order.
pub open spec fn blob_statuses(blob: Seq<u8>, trust_root: Seq<u8>) -> Result<
    StatusModel,
    Failure,
> {
    match token_of(blob) {
        Err(failure) => Err(failure),
        Ok(token) => match token_certs(token.header) {
            Err(failure) => Err(failure),
            Ok(certs) => match token_verdict(certs, trust_root, token.signed, token.signature) {
                Err(failure) => Err(failure),
                Ok(_) => payload_statuses(token.payload),
            },
        },
    }
}

/// Verifies and parses a metadata BLOB, a JSON Web Token in compact form.
///
/// `trust_root` is the DER-encoded root certificate that must have signed the root of the
/// BLOB's certificate chain. The signature must be ES256 in the form `r || s`.
pub fn verify_and_parse_mds_blob(blob: &str, trust_root: &[u8]) -> (r: Result<
    StatusMap,
    WebAuthnError,
>)
    requires
        encode_utf8(blob@).len() + 64 <= MAX_HASHED_LEN,
    ensures
        outcome(r) == blob_statuses(encode_utf8(blob@), trust_root@),
{
    let token = match parse_token(blob.as_bytes()) {
        Ok(token) => token,
        Err(e) => return Err(e),
    };
    let certs = match read_token_certs(token.header.as_slice()) {
        Ok(certs) => certs,
        Err(e) => return Err(e),
    };
    match verify_token(&certs, trust_root, token.signed.as_slice(), token.signature.as_slice()) {
        Ok(()) => read_payload(token.payload.as_slice()),
        Err(e) => Err(e),
    }
}

/// A status that is not known is skipped alone: the others are kept, in order.
pub proof fn law_unknown_status_is_skipped(
    before: Seq<Seq<char>>,
    unknown: Seq<char>,
    behind: Seq<Seq<char>>,
)
    requires
        status_named(unknown) is None,
    ensures
        known_statuses(before.push(unknown) + behind) == known_statuses(before + behind),
    decreases behind.len(),
{
    if behind.len() == 0 {
        assert((before.push(unknown) + behind).drop_last() =~= before);
        assert(before + behind =~= before);
    } else {
        law_unknown_status_is_skipped(before, unknown, behind.drop_last());
        assert((before.push(unknown) + behind).drop_last() =~= before.push(unknown)
            + behind.drop_last());
        assert((before + behind).drop_last() =~= before + behind.drop_last());
    }
}

/// An entry without a readable AAGUID does not affect the others.
pub proof fn law_unreadable_entry_is_skipped(
    before: Seq<EntryModel>,
    unreadable: EntryModel,
    behind: Seq<EntryModel>,
)
    requires
        unreadable.aaguid matches Some(text) ==> aaguid_of(encode_utf8(text)) is None,
    ensures
        collected(before.push(unreadable) + behind) == collected(before + behind),
    decreases behind.len(),
{
    if behind.len() == 0 {
        assert((before.push(unreadable) + behind).drop_last() =~= before);
        assert(before + behind =~= before);
    } else {
        law_unreadable_entry_is_skipped(before, unreadable, behind.drop_last());
        assert((before.push(unreadable) + behind).drop_last() =~= before.push(unreadable)
            + behind.drop_last());
        assert((before + behind).drop_last() =~= before + behind.drop_last());
    }
}

/// Statuses come only out of a BLOB whose certificate chain is in order and ends in the
/// trust root, and whose leaf certificate's key signed header and payload.
pub proof fn law_accepted_blobs_are_signed(blob: Seq<u8>, trust_root: Seq<u8>)
    ensures
        blob_statuses(blob, trust_root) is Ok ==> {
            token_of(blob) matches Ok(token) && {
                token_certs(token.header) matches Ok(certs) && {
                    &&& forall|i: int| 0 <= i < certs.len() - 1 ==> #[trigger] linked(certs, i)
                    &&& signed_by(certs.last(), trust_root)
                    &&& p256_key(certs[0]) matches Ok(key) && signature_valid(
                        Scheme::Es256Fixed,
                        key,
                        token.signed,
                        token.signature,
                    )
                }
            }
        },
{
    if let Ok(token) = token_of(blob) {
        if let Ok(certs) = token_certs(token.header) {
            law_chain_order(certs);
        }
    }
}

/// Every failure of a metadata BLOB is one of the four of its own.
pub proof fn law_blob_failures(blob: Seq<u8>, trust_root: Seq<u8>)
    ensures
        blob_statuses(blob, trust_root) matches Err(failure) ==> {
            ||| failure is MdsBlobMalformed
            ||| failure is MdsChainInvalid
            ||| failure is MdsRootUntrusted
            ||| failure is MdsSignatureInvalid
        },
        split_dots(blob).len() != 3 ==> (blob_statuses(blob, trust_root) matches Err(failure)
            && failure is MdsBlobMalformed),
{
    if let Ok(token) = token_of(blob) {
        if let Ok(v) = json_value(token.header, Shape::Header) {
            if let Ok(header) = header_of(v) {
                lemma_certs_failures(header.1);
            }
        }
    }
}

proof fn lemma_certs_failures(list: Seq<Seq<char>>)
    ensures
        decoded_certs(list) matches Err(failure) ==> failure is MdsBlobMalformed,
    decreases list.len(),
{
    if list.len() > 0 {
        lemma_certs_failures(list.drop_last());
    }
}

/// Every status is read from its name in the metadata service, and nothing from any other
/// text.
pub proof fn law_status_names(name: Seq<char>)
    ensures
        status_named("NOT_FIDO_CERTIFIED"@) == Some(AuthenticatorStatus::NotFidoCertified),
        status_named("FIDO_CERTIFIED"@) == Some(AuthenticatorStatus::FidoCertified),
        status_named("USER_VERIFICATION_BYPASS"@) == Some(AuthenticatorStatus::UserVerificationBypass),
        status_named("ATTESTATION_KEY_COMPROMISE"@) == Some(AuthenticatorStatus::AttestationKeyCompromise),
        status_named("USER_KEY_REMOTE_COMPROMISE"@) == Some(AuthenticatorStatus::UserKeyRemoteCompromise),
        status_named("USER_KEY_PHYSICAL_COMPROMISE"@) == Some(AuthenticatorStatus::UserKeyPhysicalCompromise),
        status_named("UPDATE_AVAILABLE"@) == Some(AuthenticatorStatus::UpdateAvailable),
        status_named("REVOKED"@) == Some(AuthenticatorStatus::Revoked),
        status_named("SELF_ASSERTION_SUBMITTED"@) == Some(AuthenticatorStatus::SelfAssertionSubmitted),
        status_named("FIDO_CERTIFIED_L1"@) == Some(AuthenticatorStatus::FidoCertifiedL1),
        status_named("FIDO_CERTIFIED_L1plus"@) == Some(AuthenticatorStatus::FidoCertifiedL1Plus),
        status_named("FIDO_CERTIFIED_L2"@) == Some(AuthenticatorStatus::FidoCertifiedL2),
        status_named("FIDO_CERTIFIED_L2plus"@) == Some(AuthenticatorStatus::FidoCertifiedL2Plus),
        status_named("FIDO_CERTIFIED_L3"@) == Some(AuthenticatorStatus::FidoCertifiedL3),
        status_named("FIDO_CERTIFIED_L3plus"@) == Some(AuthenticatorStatus::FidoCertifiedL3Plus),
        status_named(name) matches Some(status) ==> wire_name(status) == name,
        status_named(name) is None ==> forall|status: AuthenticatorStatus|
            #[trigger] wire_name(status) != name,
{
    law_status_reads_back(AuthenticatorStatus::NotFidoCertified);
    law_status_reads_back(AuthenticatorStatus::FidoCertified);
    law_status_reads_back(AuthenticatorStatus::UserVerificationBypass);
    law_status_reads_back(AuthenticatorStatus::AttestationKeyCompromise);
    law_status_reads_back(AuthenticatorStatus::UserKeyRemoteCompromise);
    law_status_reads_back(AuthenticatorStatus::UserKeyPhysicalCompromise);
    law_status_reads_back(AuthenticatorStatus::UpdateAvailable);
    law_status_reads_back(AuthenticatorStatus::Revoked);
    law_status_reads_back(AuthenticatorStatus::SelfAssertionSubmitted);
    law_status_reads_back(AuthenticatorStatus::FidoCertifiedL1);
    law_status_reads_back(AuthenticatorStatus::FidoCertifiedL1Plus);
    law_status_reads_back(AuthenticatorStatus::FidoCertifiedL2);
    law_status_reads_back(AuthenticatorStatus::FidoCertifiedL2Plus);
    law_status_reads_back(AuthenticatorStatus::FidoCertifiedL3);
    law_status_reads_back(AuthenticatorStatus::FidoCertifiedL3Plus);
    if exists|status: AuthenticatorStatus| wire_name(status) == name {
        let status = choose|status: AuthenticatorStatus| wire_name(status) == name;
        law_status_reads_back(status);
    }
}

/// The statuses that are evidence of a compromise are the revocation, the bypass of user
/// verification, and the three compromises of keys.
pub proof fn law_compromises(status: AuthenticatorStatus)
    ensures
        compromised(status) <==> {
            ||| wire_name(status) == "REVOKED"@
            ||| wire_name(status) == "USER_VERIFICATION_BYPASS"@
            ||| wire_name(status) == "ATTESTATION_KEY_COMPROMISE"@
            ||| wire_name(status) == "USER_KEY_REMOTE_COMPROMISE"@
            ||| wire_name(status) == "USER_KEY_PHYSICAL_COMPROMISE"@
        },
{
    law_wire_names_differ(status, AuthenticatorStatus::Revoked);
    law_wire_names_differ(status, AuthenticatorStatus::UserVerificationBypass);
    law_wire_names_differ(status, AuthenticatorStatus::AttestationKeyCompromise);
    law_wire_names_differ(status, AuthenticatorStatus::UserKeyRemoteCompromise);
    law_wire_names_differ(status, AuthenticatorStatus::UserKeyPhysicalCompromise);
}

/// All known statuses are kept, in order: those of two lists together are those of the one and
/// then those of the other, and the name of a status stands for that status alone.
pub proof fn law_known_statuses_are_kept(
    a: Seq<Seq<char>>,
    b: Seq<Seq<char>>,
    status: AuthenticatorStatus,
)
    ensures
        known_statuses(a + b) == known_statuses(a) + known_statuses(b),
        known_statuses(seq![wire_name(status)]) == seq![status],
        known_statuses(a.push(wire_name(status))) == known_statuses(a).push(status),
        known_statuses(Seq::empty()) == Seq::<AuthenticatorStatus>::empty(),
    decreases b.len(),
{
    law_status_reads_back(status);
    let one = seq![wire_name(status)];
    assert(one.drop_last() =~= Seq::<Seq<char>>::empty());
    assert(one.last() == wire_name(status));
    assert(known_statuses(one.drop_last()) =~= Seq::<AuthenticatorStatus>::empty());
    assert(known_statuses(one) =~= seq![status]);
    assert(a.push(wire_name(status)).drop_last() =~= a);
    if b.len() == 0 {
        assert(a + b =~= a);
        assert(known_statuses(a + b) =~= known_statuses(a) + known_statuses(b));
    } else {
        law_known_statuses_are_kept(a, b.drop_last(), status);
        assert((a + b).drop_last() =~= a + b.drop_last());
        assert((a + b).last() == b.last());
        assert(known_statuses(a + b) =~= known_statuses(a) + known_statuses(b));
    }
}

/// The statuses of all entries of a model are kept, in order: those of two lists of entries
/// together are those of the one and then those of the other, model by model.
pub proof fn law_entries_are_joined(a: Seq<EntryModel>, b: Seq<EntryModel>, aaguid: Seq<u8>)
    ensures
        ({
            let joined = collected(a + b);
            let first = collected(a);
            let second = collected(b);
            &&& joined.dom().contains(aaguid) <==> first.dom().contains(aaguid)
                || second.dom().contains(aaguid)
            &&& first.dom().contains(aaguid) && second.dom().contains(aaguid) ==> joined[aaguid]
                == first[aaguid] + second[aaguid]
            &&& first.dom().contains(aaguid) && !second.dom().contains(aaguid) ==> joined[aaguid]
                == first[aaguid]
            &&& !first.dom().contains(aaguid) && second.dom().contains(aaguid) ==> joined[aaguid]
                == second[aaguid]
        }),
    decreases b.len(),
{
    if b.len() == 0 {
        assert(a + b =~= a);
    } else {
        law_entries_are_joined(a, b.drop_last(), aaguid);
        assert((a + b).drop_last() =~= a + b.drop_last());
        assert((a + b).last() == b.last());
        if let Some(text) = b.last().aaguid {
            if let Some(found) = aaguid_of(encode_utf8(text)) {
                let more = known_statuses(b.last().statuses);
                let first = collected(a);
                let init = collected(b.drop_last());
                if found == aaguid {
                    if first.dom().contains(aaguid) && init.dom().contains(aaguid) {
                        assert(first[aaguid] + init[aaguid] + more =~= first[aaguid] + (init[aaguid]
                            + more));
                    }
                }
            }
        }
    }
}

/// One entry gives its model its known statuses; one without a readable AAGUID gives nothing.
pub proof fn law_single_entries(entry: EntryModel)
    ensures
        match entry.aaguid {
            Some(text) => match aaguid_of(encode_utf8(text)) {
                Some(aaguid) => {
                    &&& forall|other: Seq<u8>|
                        #[trigger] collected(seq![entry]).dom().contains(other) <==> other
                            == aaguid
                    &&& collected(seq![entry])[aaguid] == known_statuses(entry.statuses)
                },
                None => collected(seq![entry]).dom() == Set::<Seq<u8>>::empty(),
            },
            None => collected(seq![entry]).dom() == Set::<Seq<u8>>::empty(),
        },
        collected(Seq::empty()).dom() == Set::<Seq<u8>>::empty(),
{
    let list = seq![entry];
    assert(list.drop_last() =~= Seq::<EntryModel>::empty());
    assert(list.last() == entry);
    assert(collected(list.drop_last()) == Map::<Seq<u8>, Seq<AuthenticatorStatus>>::empty());
}

/// Hexadecimal digits are the decimal ones and the letters from A to F in either case.
pub proof fn law_hex_digits(c: u8, value: u8)
    ensures
        hex_digit(c) == Some(value) <==> {
            ||| value < 10 && c == 0x30 + value
            ||| 10 <= value < 16 && c == 0x41 + (value - 10)
            ||| 10 <= value < 16 && c == 0x61 + (value - 10)
        },
{
}

/// An AAGUID is read exactly from 32 hexadecimal digits, two for each of its bytes, with
/// hyphens anywhere among them.
pub proof fn law_aaguid_texts(text: Seq<u8>, aaguid: Seq<u8>, more: u8)
    ensures
        aaguid_of(text) == Some(aaguid) <==> {
            let digits = without_hyphens(text);
            &&& digits.len() == 32
            &&& aaguid.len() == 16
            &&& forall|i: int|
                0 <= i < 16 ==> hex_digit(digits[2 * i]) == Some((#[trigger] aaguid[i] / 16) as u8)
                    && hex_digit(digits[2 * i + 1]) == Some((aaguid[i] % 16) as u8)
        },
        without_hyphens(Seq::empty()) == Seq::<u8>::empty(),
        without_hyphens(text.push(more)) == if more == 0x2D {
            without_hyphens(text)
        } else {
            without_hyphens(text).push(more)
        },
{
    assert(text.push(more).drop_last() =~= text);
    let digits = without_hyphens(text);
    if aaguid_of(text) == Some(aaguid) {
        assert forall|i: int| 0 <= i < 16 implies hex_digit(digits[2 * i]) == Some(
            (#[trigger] aaguid[i] / 16) as u8,
        ) && hex_digit(digits[2 * i + 1]) == Some((aaguid[i] % 16) as u8) by {
            assert(hex_pair(digits[2 * i], digits[2 * i + 1]) is Some);
            let h = hex_digit(digits[2 * i])->0;
            let l = hex_digit(digits[2 * i + 1])->0;
            assert(h < 16 && l < 16);
            assert(aaguid[i] == h * 16 + l);
        }
    }
    if digits.len() == 32 && aaguid.len() == 16 && (forall|i: int|
        0 <= i < 16 ==> hex_digit(digits[2 * i]) == Some((#[trigger] aaguid[i] / 16) as u8)
            && hex_digit(digits[2 * i + 1]) == Some((aaguid[i] % 16) as u8)) {
        assert forall|i: int| 0 <= i < 16 implies #[trigger] hex_pair(
            digits[2 * i],
            digits[2 * i + 1],
        ) == Some(aaguid[i]) by {
            assert(aaguid[i] / 16 * 16 + aaguid[i] % 16 == aaguid[i]);
        }
        assert(aaguid_of(text)->0 =~= aaguid);
    }
}

/// A byte string is split at its dots and nowhere else.
pub proof fn law_dots_split(a: Seq<u8>, b: Seq<u8>)
    ensures
        split_dots(a.push(0x2E) + b) == split_dots(a) + split_dots(b),
        (forall|i: int| 0 <= i < a.len() ==> a[i] != 0x2E) ==> split_dots(a) == seq![a],
    decreases a.len() + b.len(),
{
    let whole = a.push(0x2E) + b;
    if b.len() == 0 {
        assert(whole =~= a.push(0x2E));
        assert(whole.drop_last() =~= a);
        assert(split_dots(whole) =~= split_dots(a) + split_dots(b));
    } else {
        let init = b.drop_last();
        law_dots_split(a, init);
        assert(whole.drop_last() =~= a.push(0x2E) + init);
        assert(whole.last() == b.last());
        lemma_some_part(init);
        assert(split_dots(whole) =~= split_dots(a) + split_dots(b));
    }
    if forall|i: int| 0 <= i < a.len() ==> a[i] != 0x2E {
        if a.len() == 0 {
            assert(a =~= Seq::<u8>::empty());
            assert(split_dots(a) =~= seq![a]);
        } else {
            let init = a.drop_last();
            assert forall|i: int| 0 <= i < init.len() implies init[i] != 0x2E by {
                assert(init[i] == a[i]);
            }
            law_dots_split(init, Seq::empty());
            assert(a[a.len() - 1] != 0x2E);
            assert(init.push(a.last()) =~= a);
            assert(split_dots(init) == seq![init]);
            assert(seq![init].drop_last() =~= Seq::<Seq<u8>>::empty());
            assert(split_dots(a) =~= seq![a]);
        }
    }
}

proof fn lemma_some_part(text: Seq<u8>)
    ensures
        split_dots(text).len() >= 1,
    decreases text.len(),
{
    if text.len() > 0 {
        lemma_some_part(text.drop_last());
    }
}

/// A token is taken apart into header, payload and signature, each decoded; what is signed is
/// the text up to the second dot.
pub proof fn law_tokens_are_taken_apart(header: Seq<u8>, payload: Seq<u8>, signature: Seq<u8>)
    requires
        forall|i: int| 0 <= i < header.len() ==> header[i] != 0x2E,
        forall|i: int| 0 <= i < payload.len() ==> payload[i] != 0x2E,
        forall|i: int| 0 <= i < signature.len() ==> signature[i] != 0x2E,
    ensures
        ({
            let signed = header.push(0x2E) + payload;
            let url = |text: Seq<u8>| base64_bytes(Alphabet::UrlSafeNoPad, text);
            match (url(header), url(payload), url(signature)) {
                (Ok(h), Ok(p), Ok(s)) => token_of(signed.push(0x2E) + signature) == Ok::<
                    TokenModel,
                    Failure,
                >(TokenModel { header: h, payload: p, signature: s, signed }),
                _ => token_of(signed.push(0x2E) + signature) matches Err(failure)
                    && failure is MdsBlobMalformed,
            }
        }),
{
    let signed = header.push(0x2E) + payload;
    let blob = signed.push(0x2E) + signature;
    law_dots_split(header, payload);
    law_dots_split(signed, signature);
    law_dots_split(payload, Seq::empty());
    law_dots_split(signature, Seq::empty());
    assert(split_dots(blob) =~= seq![header, payload, signature]);
    assert(header + seq![0x2Eu8] + payload =~= signed);
}

/// A list of texts is read element by element.
pub proof fn law_text_lists(a: Seq<Item>, list: Seq<Seq<char>>)
    ensures
        text_list(a) == Some(list) <==> a.len() == list.len() && forall|i: int|
            0 <= i < a.len() ==> #[trigger] a[i] == Item::Text(list[i]),
    decreases a.len(),
{
    if a.len() == 0 {
        if list.len() == 0 {
            assert(list =~= Seq::<Seq<char>>::empty());
        }
    } else {
        let init = a.drop_last();
        if list.len() > 0 {
            let shorter = list.drop_last();
            law_text_lists(init, shorter);
            assert(shorter.push(list.last()) =~= list);
            if text_list(a) == Some(list) {
                let earlier = text_list(init)->0;
                assert(earlier =~= shorter);
                assert forall|i: int| 0 <= i < a.len() implies #[trigger] a[i] == Item::Text(
                    list[i],
                ) by {
                    if i < init.len() {
                        assert(init[i] == a[i]);
                    }
                }
            }
            if a.len() == list.len() && (forall|i: int|
                0 <= i < a.len() ==> #[trigger] a[i] == Item::Text(list[i])) {
                assert forall|i: int| 0 <= i < init.len() implies #[trigger] init[i] == Item::Text(
                    shorter[i],
                ) by {
                    assert(a[i] == init[i]);
                }
                assert(a[a.len() - 1] == Item::Text(list.last()));
            }
        }
    }
}

/// A token header holds its algorithm and, where it has one, its list of certificates, by name
/// or by place; nothing else is a header.
pub proof fn law_header_members(v: Item, alg: Seq<char>, x5c: Seq<Seq<char>>)
    ensures
        header_of(v) == Ok::<HeaderModel, Seq<char>>((alg, x5c)) <==> match v {
            Item::Dict(m) => {
                &&& only_entry(m, "alg"@, Item::Text(alg))
                &&& (x5c.len() == 0 && no_entry(m, "x5c"@)) || only_entry(
                    m,
                    "x5c"@,
                    Item::Array(text_items(x5c)),
                )
            },
            Item::Array(a) => {
                ||| a == seq![Item::Text(alg)] && x5c.len() == 0
                ||| a == seq![Item::Text(alg), Item::Array(text_items(x5c))]
            },
            _ => false,
        },
{
    law_text_fields(v, "alg"@, 0, alg);
    law_text_lists(text_items(x5c), x5c);
    if x5c.len() == 0 {
        assert(x5c =~= Seq::<Seq<char>>::empty());
    }
    match v {
        Item::Dict(m) => {
            law_members(m, "x5c"@, Item::Array(text_items(x5c)));
            law_members(m, "x5c"@, Item::Null);
            if let Some(Item::Array(a)) = member(m, "x5c"@) {
                law_members(m, "x5c"@, Item::Array(a));
                law_text_lists(a, x5c);
                if text_list(a) == Some(x5c) {
                    assert(a =~= text_items(x5c));
                }
            }
        },
        Item::Array(a) => {
            let one = seq![Item::Text(alg)];
            let two = seq![Item::Text(alg), Item::Array(text_items(x5c))];
            if header_of(v) == Ok::<HeaderModel, Seq<char>>((alg, x5c)) {
                if a.len() == 1 {
                    assert(a =~= one);
                } else {
                    if let Item::Array(list) = a[1] {
                        law_text_lists(list, x5c);
                        assert(list =~= text_items(x5c));
                    }
                    assert(a =~= two);
                }
            }
            if a == one {
                assert(a.len() == 1 && a[0] == Item::Text(alg));
            }
            if a == two {
                assert(a.len() == 2 && a[0] == Item::Text(alg) && a[1] == Item::Array(
                    text_items(x5c),
                ));
            }
        },
        _ => {},
    }
}

/// Texts as data items.
pub open spec fn text_items(list: Seq<Seq<char>>) -> Seq<Item> {
    list.map_values(|text: Seq<char>| Item::Text(text))
}

/// The certificates of a header are decoded one by one, from standard base64; the algorithm
/// must be ES256, and there must be a certificate.
pub proof fn law_header_certificates(header: HeaderModel, certs: Seq<Seq<u8>>)
    ensures
        header_certs(header) == Ok::<Seq<Seq<u8>>, Failure>(certs) <==> {
            &&& header.0 == "ES256"@
            &&& header.1.len() > 0
            &&& certs.len() == header.1.len()
            &&& forall|i: int|
                0 <= i < certs.len() ==> base64_bytes(
                    Alphabet::Standard,
                    encode_utf8(#[trigger] header.1[i]),
                ) == Ok::<Seq<u8>, Seq<char>>(certs[i])
        },
        header_certs(header) matches Err(failure) ==> failure is MdsBlobMalformed,
{
    lemma_decoded_certs(header.1, certs);
    lemma_certs_failures(header.1);
}

proof fn lemma_decoded_certs(list: Seq<Seq<char>>, certs: Seq<Seq<u8>>)
    ensures
        decoded_certs(list) == Ok::<Seq<Seq<u8>>, Failure>(certs) <==> {
            &&& certs.len() == list.len()
            &&& forall|i: int|
                0 <= i < certs.len() ==> base64_bytes(
                    Alphabet::Standard,
                    encode_utf8(#[trigger] list[i]),
                ) == Ok::<Seq<u8>, Seq<char>>(certs[i])
        },
    decreases list.len(),
{
    if list.len() == 0 {
        if certs.len() == 0 {
            assert(certs =~= Seq::<Seq<u8>>::empty());
        }
    } else if certs.len() > 0 {
        let init = list.drop_last();
        let shorter = certs.drop_last();
        lemma_decoded_certs(init, shorter);
        assert(shorter.push(certs.last()) =~= certs);
        if decoded_certs(list) == Ok::<Seq<Seq<u8>>, Failure>(certs) {
            let earlier = decoded_certs(init)->Ok_0;
            assert(earlier =~= shorter);
            assert forall|i: int| 0 <= i < certs.len() implies base64_bytes(
                Alphabet::Standard,
                encode_utf8(#[trigger] list[i]),
            ) == Ok::<Seq<u8>, Seq<char>>(certs[i]) by {
                if i < init.len() {
                    assert(init[i] == list[i]);
                }
            }
        }
        if certs.len() == list.len() && (forall|i: int|
            0 <= i < certs.len() ==> base64_bytes(
                Alphabet::Standard,
                encode_utf8(#[trigger] list[i]),
            ) == Ok::<Seq<u8>, Seq<char>>(certs[i])) {
            assert forall|i: int| 0 <= i < shorter.len() implies base64_bytes(
                Alphabet::Standard,
                encode_utf8(#[trigger] init[i]),
            ) == Ok::<Seq<u8>, Seq<char>>(shorter[i]) by {
                assert(init[i] == list[i]);
            }
            assert(list[list.len() - 1] == list.last());
        }
    }
}

/// The verdict on a token: its chain must be in order, its root signed by the trust root, and
/// its text signed by the P-256 key of the leaf certificate, in this order.
pub proof fn law_token_verdicts(
    certs: Seq<Seq<u8>>,
    trust_root: Seq<u8>,
    signed: Seq<u8>,
    signature: Seq<u8>,
)
    ensures
        ({
            let verdict = token_verdict(certs, trust_root, signed, signature);
            if !(forall|i: int| 0 <= i < certs.len() - 1 ==> #[trigger] linked(certs, i)) {
                verdict matches Err(failure) && failure is MdsChainInvalid
            } else if !signed_by(certs.last(), trust_root) {
                verdict == Err::<(), Failure>(Failure::MdsRootUntrusted)
            } else if p256_key(certs[0]) matches Ok(key) && signature_valid(
                Scheme::Es256Fixed,
                key,
                signed,
                signature,
            ) {
                verdict == Ok::<(), Failure>(())
            } else {
                verdict == Err::<(), Failure>(Failure::MdsSignatureInvalid)
            }
        }),
{
    law_chain_order(certs);
}

/// A metadata BLOB gives the statuses of its payload exactly if it is a token, its header names
/// certificates, and the verdict on them is favourable; else the first failure of these.
pub proof fn law_blobs_are_judged_in_order(blob: Seq<u8>, trust_root: Seq<u8>)
    ensures
        match token_of(blob) {
            Err(failure) => blob_statuses(blob, trust_root) == Err::<StatusModel, Failure>(failure),
            Ok(token) => match token_certs(token.header) {
                Err(failure) => blob_statuses(blob, trust_root) == Err::<StatusModel, Failure>(
                    failure,
                ),
                Ok(certs) => match token_verdict(
                    certs,
                    trust_root,
                    token.signed,
                    token.signature,
                ) {
                    Err(failure) => blob_statuses(blob, trust_root) == Err::<StatusModel, Failure>(
                        failure,
                    ),
                    Ok(_) => blob_statuses(blob, trust_root) == payload_statuses(token.payload),
                },
            },
        },
        forall|header: Seq<u8>|
            (json_value(header, Shape::Header) matches Ok(v) && header_of(v) is Ok)
                ==> #[trigger] token_certs(header) == header_certs(
                header_of(json_value(header, Shape::Header)->Ok_0)->Ok_0,
            ),
        forall|header: Seq<u8>|
            !(json_value(header, Shape::Header) matches Ok(v) && header_of(v) is Ok) ==> (
            #[trigger] token_certs(header) matches Err(failure) && failure is MdsBlobMalformed),
        forall|payload: Seq<u8>|
            (json_value(payload, Shape::Payload) matches Ok(v) && payload_of(v) is Ok)
                ==> #[trigger] payload_statuses(payload) == Ok::<StatusModel, Failure>(
                collected(payload_of(json_value(payload, Shape::Payload)->Ok_0)->Ok_0),
            ),
        forall|payload: Seq<u8>|
            !(json_value(payload, Shape::Payload) matches Ok(v) && payload_of(v) is Ok) ==> (
            #[trigger] payload_statuses(payload) matches Err(failure)
                && failure is MdsBlobMalformed),
{
}

/// The entries of a payload are read one by one, and so are the reports of an entry.
pub proof fn law_payload_lists(a: Seq<Item>, more: Item)
    ensures
        entry_list(Seq::empty()) == Ok::<Seq<EntryModel>, Seq<char>>(Seq::empty()),
        match (entry_list(a), entry_of(more)) {
            (Ok(list), Ok(entry)) => entry_list(a.push(more)) == Ok::<Seq<EntryModel>, Seq<char>>(
                list.push(entry),
            ),
            _ => entry_list(a.push(more)) is Err,
        },
        report_list(Seq::empty()) == Ok::<Seq<Seq<char>>, Seq<char>>(Seq::empty()),
        match (report_list(a), report_status(more)) {
            (Ok(list), Ok(status)) => report_list(a.push(more)) == Ok::<Seq<Seq<char>>, Seq<char>>(
                list.push(status),
            ),
            _ => report_list(a.push(more)) is Err,
        },
{
    assert(a.push(more).drop_last() =~= a);
}

/// What is read of a payload, of an entry and of a report, each an object: the entries of the
/// payload, the AAGUID and the reports of an entry, and the status of a report. Lists and the
/// AAGUID may be left out; no name may stand twice.
pub proof fn law_payload_members(m: Seq<(Item, Item)>, text: Seq<char>, a: Seq<Item>)
    ensures
        no_entry(m, "entries"@) ==> payload_of(Item::Dict(m)) == Ok::<Seq<EntryModel>, Seq<char>>(
            Seq::empty(),
        ),
        only_entry(m, "entries"@, Item::Array(a)) ==> payload_of(Item::Dict(m)) == entry_list(a),
        payload_of(Item::Dict(m)) is Ok ==> no_entry(m, "entries"@) || exists|list: Seq<Item>|
            #[trigger] only_entry(m, "entries"@, Item::Array(list)),
        report_status(Item::Dict(m)) == Ok::<Seq<char>, Seq<char>>(text) <==> only_entry(
            m,
            "status"@,
            Item::Text(text),
        ),
        entry_aaguid(Item::Dict(m)) == Ok::<Option<Seq<char>>, Seq<char>>(Some(text))
            <==> only_entry(m, "aaguid"@, Item::Text(text)),
        entry_aaguid(Item::Dict(m)) == Ok::<Option<Seq<char>>, Seq<char>>(None) <==> no_entry(
            m,
            "aaguid"@,
        ) || only_entry(m, "aaguid"@, Item::Null),
        no_entry(m, "statusReports"@) ==> entry_statuses(Item::Dict(m)) == Ok::<
            Seq<Seq<char>>,
            Seq<char>,
        >(Seq::empty()),
        only_entry(m, "statusReports"@, Item::Array(a)) ==> entry_statuses(Item::Dict(m))
            == report_list(a),
        entry_statuses(Item::Dict(m)) is Ok ==> no_entry(m, "statusReports"@) || exists|
            list: Seq<Item>,
        |
            #[trigger] only_entry(m, "statusReports"@, Item::Array(list)),
        match (entry_aaguid(Item::Dict(m)), entry_statuses(Item::Dict(m))) {
            (Ok(aaguid), Ok(statuses)) => entry_of(Item::Dict(m)) == Ok::<EntryModel, Seq<char>>(
                EntryModel { aaguid, statuses },
            ),
            _ => entry_of(Item::Dict(m)) is Err,
        },
{
    law_text_fields(Item::Dict(m), "status"@, 0, text);
    law_members(m, "entries"@, Item::Array(a));
    law_members(m, "statusReports"@, Item::Array(a));
    law_members(m, "aaguid"@, Item::Text(text));
    law_members(m, "aaguid"@, Item::Null);
    if let Some(value) = member(m, "entries"@) {
        law_members(m, "entries"@, value);
    }
    if let Some(value) = member(m, "statusReports"@) {
        law_members(m, "statusReports"@, value);
    }
}

/// A payload, an entry and a report may also be written by place, as arrays with the same
/// parts in the same order; nothing but an object or such an array is one.
pub proof fn law_payload_places(v: Item, text: Seq<char>, entry: EntryModel)
    ensures
        v matches Item::Array(a) ==> (report_status(v) == Ok::<Seq<char>, Seq<char>>(text) <==> a
            == seq![Item::Text(text)]),
        v matches Item::Array(a) ==> (entry_of(v) == Ok::<EntryModel, Seq<char>>(entry) <==> {
            &&& 1 <= a.len() <= 2
            &&& a[0] == match entry.aaguid {
                Some(aaguid) => Item::Text(aaguid),
                None => Item::Null,
            }
            &&& a.len() == 1 ==> entry.statuses.len() == 0
            &&& a.len() == 2 ==> (a[1] matches Item::Array(reports) && report_list(reports) == Ok::<
                Seq<Seq<char>>,
                Seq<char>,
            >(entry.statuses))
        }),
        v matches Item::Array(a) ==> {
            &&& a.len() == 0 ==> payload_of(v) == Ok::<Seq<EntryModel>, Seq<char>>(Seq::empty())
            &&& a.len() == 1 ==> match a[0] {
                Item::Array(list) => payload_of(v) == entry_list(list),
                _ => payload_of(v) is Err,
            }
            &&& a.len() > 1 ==> payload_of(v) is Err
        },
        !(v is Array) && !(v is Dict) ==> report_status(v) is Err && entry_of(v) is Err
            && payload_of(v) is Err,
{
    if let Item::Array(a) = v {
        law_text_fields(v, "status"@, 0, text);
        let one = seq![Item::Text(text)];
        if report_status(v) == Ok::<Seq<char>, Seq<char>>(text) {
            assert(a =~= one);
        }
        if a == one {
            assert(a.len() == 1 && a[0] == Item::Text(text));
        }
        if entry.statuses.len() == 0 {
            assert(entry.statuses =~= Seq::<Seq<char>>::empty());
        }
    }
}

} // verus!
