//! Attestation statement verification.
//!
//! An attestation statement lets the relying party verify the provenance of an
//! authenticator. The formats `packed`, `fido-u2f`, `android-key`, `apple` and `tpm` are
//! verified; `none` and every other format are accepted as no attestation.
//!
//! Each format first reads out of the statement what is claimed (a signature under a
//! key over a message, and a certificate chain), which takes no cryptography, and then
//! has the claim checked.

use vstd::prelude::*;
use vstd::slice::slice_subrange;

use crate::algorithm::{COSE_ES256, COSE_RS256};
use crate::bytes::{append_bytes, bytes_equal, concat_bytes, contents, copy_bytes};
use crate::credential::{AttestationType, PublicKey, PublicKeyModel};
use crate::crypto::{
    sha256, sha256_of, signature_check, signature_valid, verify_eddsa, verify_es256, verify_es256_jws,
    verify_es384, verify_rs256, Scheme, MAX_HASHED_LEN, MAX_INPUT_LEN,
};
use crate::data::{
    entries, fits, items, lemma_array, lemma_dict, lemma_fits, maybe, DataItem, Item,
};
use crate::der::{rsa_components_to_der, rsa_public_key};
use crate::error::{outcome, Failure, WebAuthnError};
use crate::text::{
    decimal, decimal_text, join3, join5, signed_decimal, signed_decimal_text, text_equal,
};
use crate::tpm::{
    cert_info_check, compute_pub_area_name, pub_area_check, pub_area_name, verify_cert_info,
    verify_pub_area_matches_credential,
};
use crate::x509::{
    aaguid_check, apple_nonce, cert_signed_by, certificate_of, chain_fault, checkable,
    extract_apple_nonce_from_cert, extract_ec_p256_public_key_from_cert,
    extract_rsa_public_key_der_from_cert, law_apple_nonce_stands_in_its_extension, law_chain_order,
    law_p256_key_stands_behind_its_header, linked, not_ca_check, p256_key, read_certificate,
    rsa_key_der, signed_by, verify_cert_aaguid_extension, verify_cert_is_not_ca,
    verify_chain_order,
};

verus! {

/// A statement format that carries something to verify.
#[derive(Debug, Clone, Copy, PartialEq, Eq, Structural)]
pub enum Format {
    /// `packed`.
    Packed,
    /// `fido-u2f`.
    FidoU2f,
    /// `android-key`.
    AndroidKey,
    /// `apple`.
    Apple,
    /// `tpm`.
    Tpm,
}

/// The identifier of a format.
pub open spec fn format_name(format: Format) -> Seq<char> {
    match format {
        Format::Packed => "packed"@,
        Format::FidoU2f => "fido-u2f"@,
        Format::AndroidKey => "android-key"@,
        Format::Apple => "apple"@,
        Format::Tpm => "tpm"@,
    }
}

fn format_text(format: Format) -> (name: &'static str)
    ensures
        name@ == format_name(format),
{
    match format {
        Format::Packed => "packed",
        Format::FidoU2f => "fido-u2f",
        Format::AndroidKey => "android-key",
        Format::Apple => "apple",
        Format::Tpm => "tpm",
    }
}

/// The fields of an attestation statement.
#[derive(Debug)]
pub struct Statement {
    /// The TPM version.
    pub ver: Option<String>,
    /// The COSE algorithm of the signature.
    pub alg: Option<i64>,
    /// The signature.
    pub sig: Option<Vec<u8>>,
    /// The certificate chain, leaf first; not empty.
    pub x5c: Option<Vec<Vec<u8>>>,
    /// What the TPM certifies.
    pub cert_info: Option<Vec<u8>>,
    /// The public key that the TPM attests.
    pub pub_area: Option<Vec<u8>>,
}

/// The mathematical form of a [`Statement`].
pub ghost struct StatementModel {
    pub ver: Option<Seq<char>>,
    pub alg: Option<i64>,
    pub sig: Option<Seq<u8>>,
    pub x5c: Option<Seq<Seq<u8>>>,
    pub cert_info: Option<Seq<u8>>,
    pub pub_area: Option<Seq<u8>>,
}

impl View for Statement {
    type V = StatementModel;

    open spec fn view(&self) -> StatementModel {
        StatementModel {
            ver: maybe(self.ver),
            alg: self.alg,
            sig: maybe(self.sig),
            x5c: match self.x5c {
                Some(certs) => Some(contents(certs@)),
                None => None,
            },
            cert_info: maybe(self.cert_info),
            pub_area: maybe(self.pub_area),
        }
    }
}

/// A statement of which nothing has been read.
pub open spec fn blank_statement() -> StatementModel {
    StatementModel { ver: None, alg: None, sig: None, x5c: None, cert_info: None, pub_area: None }
}

/// The failure for a statement without the expected contents.
pub open spec fn bad_statement(message: Seq<char>) -> Failure {
    Failure::InvalidAttestationObject(message)
}

/// The failure for a statement's field, by the format and what is wrong.
pub open spec fn bad_field(format: Format, what: Seq<char>) -> Failure {
    bad_statement(format_name(format) + " attStmt "@ + what)
}

fn reject(message: &str) -> (e: WebAuthnError)
    ensures
        e@ == bad_statement(message@),
{
    WebAuthnError::InvalidAttestationObject(message.to_string())
}

fn reject_field(format: Format, what: &str) -> (e: WebAuthnError)
    ensures
        e@ == bad_field(format, what@),
{
    WebAuthnError::InvalidAttestationObject(join3(format_text(format), " attStmt ", what))
}

/// The certificates in the elements of an `x5c` array, each a byte string.
pub open spec fn x5c_elements(a: Seq<Item>) -> Result<Seq<Seq<u8>>, Failure>
    decreases a.len(),
{
    if a.len() == 0 {
        Ok(Seq::empty())
    } else {
        match x5c_elements(a.drop_last()) {
            Err(failure) => Err(failure),
            Ok(certs) => match a.last() {
                Item::Bytes(b) => Ok(certs.push(b)),
                _ => Err(
                    bad_statement(
                        "x5c["@ + decimal((a.len() - 1) as nat) + "] must be CBOR bytes"@,
                    ),
                ),
            },
        }
    }
}

/// The certificates in an `x5c` value: a non-empty array of byte strings.
pub open spec fn x5c_certs(v: Item) -> Result<Seq<Seq<u8>>, Failure> {
    match v {
        Item::Array(a) => if a.len() == 0 {
            Err(bad_statement("x5c must be non-empty"@))
        } else {
            x5c_elements(a)
        },
        _ => Err(bad_statement("x5c must be a CBOR array"@)),
    }
}

/// Extracts an `x5c` array, leaf first.
pub fn extract_x5c_array(v: &DataItem) -> (r: Result<Vec<Vec<u8>>, WebAuthnError>)
    ensures
        match r {
            Ok(certs) => x5c_certs(v@) == Ok::<Seq<Seq<u8>>, Failure>(contents(certs@)),
            Err(e) => x5c_certs(v@) == Err::<Seq<Seq<u8>>, Failure>(e@),
        },
{
    let a = match v {
        DataItem::Array(a) => a,
        _ => return Err(reject("x5c must be a CBOR array")),
    };
    proof {
        lemma_array(*a);
    }
    if a.is_empty() {
        return Err(reject("x5c must be non-empty"));
    }
    let ghost all = items(a@);
    let mut certs: Vec<Vec<u8>> = Vec::new();
    let mut i: usize = 0;
    assert(contents(certs@) =~= Seq::<Seq<u8>>::empty());
    while i < a.len()
        invariant
            i <= a@.len(),
            all == items(a@),
            all.len() > 0,
            v@ == Item::Array(all),
            x5c_elements(all.take(i as int)) == Ok::<Seq<Seq<u8>>, Failure>(contents(certs@)),
        decreases a.len() - i,
    {
        let ghost longer = all.take(i + 1);
        assert(longer.drop_last() =~= all.take(i as int));
        assert(longer.last() == a@[i as int]@);
        match &a[i] {
            DataItem::Bytes(b) => {
                let ghost before = certs@;
                certs.push(copy_bytes(b.as_slice()));
                assert(contents(certs@) =~= contents(before).push(b@));
            },
            _ => {
                proof {
                    lemma_x5c_failure_stays(all, i + 1);
                }
                return Err(
                    WebAuthnError::InvalidAttestationObject(
                        join3("x5c[", decimal_text(i as u64).as_str(), "] must be CBOR bytes"),
                    ),
                );
            },
        }
        i += 1;
    }
    assert(all.take(all.len() as int) =~= all);
    Ok(certs)
}

proof fn lemma_x5c_failure_stays(a: Seq<Item>, n: int)
    requires
        0 <= n <= a.len(),
        x5c_elements(a.take(n)) is Err,
    ensures
        x5c_elements(a) == x5c_elements(a.take(n)),
    decreases a.len(),
{
    if n < a.len() {
        assert(a.drop_last().take(n) =~= a.take(n));
        lemma_x5c_failure_stays(a.drop_last(), n);
    } else {
        assert(a.take(n) =~= a);
    }
}

/// Which formats have an `alg` field.
pub open spec fn has_alg(format: Format) -> bool {
    format == Format::Packed || format == Format::AndroidKey || format == Format::Tpm
}

/// Which formats have a `sig` field.
pub open spec fn has_sig(format: Format) -> bool {
    format != Format::Apple
}

/// A statement with one more field read. A later field replaces an earlier one of the
/// same name; other fields are ignored.
pub open spec fn with_field(s: StatementModel, format: Format, key: Item, value: Item) -> Result<
    StatementModel,
    Failure,
> {
    if key == Item::Text("alg"@) && has_alg(format) {
        match value {
            Item::Integer(n) => if i64::MIN <= n <= i64::MAX {
                Ok(StatementModel { alg: Some(n as i64), ..s })
            } else {
                Err(bad_field(format, "alg value out of i64 range"@))
            },
            _ => Err(bad_field(format, "alg must be a CBOR integer"@)),
        }
    } else if key == Item::Text("sig"@) && has_sig(format) {
        match value {
            Item::Bytes(b) => Ok(StatementModel { sig: Some(b), ..s }),
            _ => Err(bad_field(format, "sig must be CBOR bytes"@)),
        }
    } else if key == Item::Text("x5c"@) {
        match x5c_certs(value) {
            Ok(certs) => Ok(StatementModel { x5c: Some(certs), ..s }),
            Err(failure) => Err(failure),
        }
    } else if key == Item::Text("ver"@) && format == Format::Tpm {
        match value {
            Item::Text(t) => Ok(StatementModel { ver: Some(t), ..s }),
            _ => Err(bad_field(format, "ver must be a CBOR text string"@)),
        }
    } else if key == Item::Text("certInfo"@) && format == Format::Tpm {
        match value {
            Item::Bytes(b) => Ok(StatementModel { cert_info: Some(b), ..s }),
            _ => Err(bad_field(format, "certInfo must be CBOR bytes"@)),
        }
    } else if key == Item::Text("pubArea"@) && format == Format::Tpm {
        match value {
            Item::Bytes(b) => Ok(StatementModel { pub_area: Some(b), ..s }),
            _ => Err(bad_field(format, "pubArea must be CBOR bytes"@)),
        }
    } else {
        Ok(s)
    }
}

/// The fields of a statement's entries, read in order up to the first one of the wrong
/// type.
pub open spec fn statement_fields(m: Seq<(Item, Item)>, format: Format) -> Result<
    StatementModel,
    Failure,
>
    decreases m.len(),
{
    if m.len() == 0 {
        Ok(blank_statement())
    } else {
        match statement_fields(m.drop_last(), format) {
            Err(failure) => Err(failure),
            Ok(s) => with_field(s, format, m.last().0, m.last().1),
        }
    }
}

/// What an attestation statement says.
pub open spec fn statement_of(v: Item, format: Format) -> Result<StatementModel, Failure> {
    match v {
        Item::Dict(m) => statement_fields(m, format),
        _ => Err(bad_field(format, "must be a CBOR map"@)),
    }
}

proof fn lemma_statement_failure_stays(m: Seq<(Item, Item)>, n: int, format: Format)
    requires
        0 <= n <= m.len(),
        statement_fields(m.take(n), format) is Err,
    ensures
        statement_fields(m, format) == statement_fields(m.take(n), format),
    decreases m.len(),
{
    if n < m.len() {
        assert(m.drop_last().take(n) =~= m.take(n));
        lemma_statement_failure_stays(m.drop_last(), n, format);
    } else {
        assert(m.take(n) =~= m);
    }
}

fn read_field(s: &mut Statement, format: Format, key: &str, value: &DataItem) -> (r: Result<
    (),
    WebAuthnError,
>)
    ensures
        match r {
            Ok(()) => with_field(old(s)@, format, Item::Text(key@), value@) == Ok::<
                StatementModel,
                Failure,
            >(final(s)@),
            Err(e) => with_field(old(s)@, format, Item::Text(key@), value@) == Err::<
                StatementModel,
                Failure,
            >(e@),
        },
{
    if text_equal(key, "alg") && (format == Format::Packed || format == Format::AndroidKey
        || format == Format::Tpm) {
        match value {
            DataItem::Integer(n) => {
                if *n < i64::MIN as i128 || *n > i64::MAX as i128 {
                    return Err(reject_field(format, "alg value out of i64 range"));
                }
                s.alg = Some(*n as i64);
                Ok(())
            },
            _ => Err(reject_field(format, "alg must be a CBOR integer")),
        }
    } else if text_equal(key, "sig") && format != Format::Apple {
        match value {
            DataItem::Bytes(b) => {
                s.sig = Some(copy_bytes(b.as_slice()));
                Ok(())
            },
            _ => Err(reject_field(format, "sig must be CBOR bytes")),
        }
    } else if text_equal(key, "x5c") {
        match extract_x5c_array(value) {
            Ok(certs) => {
                s.x5c = Some(certs);
                Ok(())
            },
            Err(e) => Err(e),
        }
    } else if text_equal(key, "ver") && format == Format::Tpm {
        match value {
            DataItem::Text(t) => {
                s.ver = Some(t.clone());
                Ok(())
            },
            _ => Err(reject_field(format, "ver must be a CBOR text string")),
        }
    } else if text_equal(key, "certInfo") && format == Format::Tpm {
        match value {
            DataItem::Bytes(b) => {
                s.cert_info = Some(copy_bytes(b.as_slice()));
                Ok(())
            },
            _ => Err(reject_field(format, "certInfo must be CBOR bytes")),
        }
    } else if text_equal(key, "pubArea") && format == Format::Tpm {
        match value {
            DataItem::Bytes(b) => {
                s.pub_area = Some(copy_bytes(b.as_slice()));
                Ok(())
            },
            _ => Err(reject_field(format, "pubArea must be CBOR bytes")),
        }
    } else {
        Ok(())
    }
}

/// Reads an attestation statement.
pub fn parse_statement(v: &DataItem, format: Format) -> (r: Result<Statement, WebAuthnError>)
    ensures
        outcome(r) == statement_of(v@, format),
{
    let m = match v {
        DataItem::Dict(m) => m,
        _ => return Err(reject_field(format, "must be a CBOR map")),
    };
    proof {
        lemma_dict(*m);
    }
    let ghost all = entries(m@);
    let mut s = Statement {
        ver: None,
        alg: None,
        sig: None,
        x5c: None,
        cert_info: None,
        pub_area: None,
    };
    let mut i: usize = 0;
    while i < m.len()
        invariant
            i <= m@.len(),
            all == entries(m@),
            v@ == Item::Dict(all),
            statement_fields(all.take(i as int), format) == Ok::<StatementModel, Failure>(s@),
        decreases m.len() - i,
    {
        let ghost longer = all.take(i + 1);
        assert(longer.drop_last() =~= all.take(i as int));
        assert(longer.last() == (m@[i as int].0@, m@[i as int].1@));
        if let DataItem::Text(key) = &m[i].0 {
            if let Err(e) = read_field(&mut s, format, key.as_str(), &m[i].1) {
                proof {
                    lemma_statement_failure_stays(all, i + 1, format);
                }
                return Err(e);
            }
        }
        i += 1;
    }
    assert(all.take(all.len() as int) =~= all);
    Ok(s)
}

/// A signature that a statement claims to be valid.
#[derive(Debug)]
pub struct SignedClaim {
    /// The signature scheme.
    pub scheme: Scheme,
    /// The public key, in the form that the scheme takes.
    pub key: Vec<u8>,
    /// What is signed.
    pub message: Vec<u8>,
    /// The signature.
    pub signature: Vec<u8>,
}

/// The mathematical form of a [`SignedClaim`].
pub ghost struct ClaimModel {
    pub scheme: Scheme,
    pub key: Seq<u8>,
    pub message: Seq<u8>,
    pub signature: Seq<u8>,
}

impl View for SignedClaim {
    type V = ClaimModel;

    open spec fn view(&self) -> ClaimModel {
        ClaimModel {
            scheme: self.scheme,
            key: self.key@,
            message: self.message@,
            signature: self.signature@,
        }
    }
}

impl ClaimModel {
    /// What checking the claim returns.
    pub open spec fn check(self) -> Result<(), Failure> {
        signature_check(self.scheme, self.key, self.message, self.signature)
    }
}

/// Has a claimed signature checked.
pub fn check_claim(claim: &SignedClaim) -> (r: Result<(), WebAuthnError>)
    requires
        claim.message@.len() + 64 <= MAX_HASHED_LEN,
    ensures
        outcome(r) == claim@.check(),
{
    let key = claim.key.as_slice();
    let message = claim.message.as_slice();
    let signature = claim.signature.as_slice();
    match claim.scheme {
        Scheme::Es256 => verify_es256(key, message, signature),
        Scheme::Es256Fixed => verify_es256_jws(key, message, signature),
        Scheme::Es384 => verify_es384(key, message, signature),
        Scheme::EdDsa => verify_eddsa(key, message, signature),
        Scheme::Rs256 => verify_rs256(key, message, signature),
    }
}

/// The second result if the first one is a success, else the first one's failure.
pub open spec fn after<T>(first: Result<(), Failure>, second: Result<T, Failure>) -> Result<
    T,
    Failure,
> {
    match first {
        Ok(_) => second,
        Err(failure) => Err(failure),
    }
}

/// The verdict on the root of a chain in order, by whether it parses and whether each
/// trust anchor signed it. Without trust anchors every root is accepted.
pub open spec fn root_verdict(root_parses: bool, signed: Seq<bool>) -> Result<
    AttestationType,
    Failure,
> {
    if signed.len() == 0 {
        Ok(AttestationType::Basic)
    } else if !root_parses {
        Err(Failure::AttestationChainInvalid("x5c root certificate is not valid DER"@))
    } else if signed.contains(true) {
        Ok(AttestationType::BasicVerified)
    } else {
        Err(Failure::AttestationRootUntrusted)
    }
}

/// Judges the root of a chain in order.
pub fn judge_root(root_parses: bool, signed: &Vec<bool>) -> (r: Result<
    AttestationType,
    WebAuthnError,
>)
    ensures
        outcome(r) == root_verdict(root_parses, signed@),
{
    if signed.is_empty() {
        return Ok(AttestationType::Basic);
    }
    if !root_parses {
        return Err(
            WebAuthnError::AttestationChainInvalid(
                "x5c root certificate is not valid DER".to_string(),
            ),
        );
    }
    let mut i: usize = 0;
    while i < signed.len()
        invariant
            i <= signed@.len(),
            signed@.len() > 0,
            root_parses,
            forall|k: int| 0 <= k < i ==> !signed@[k],
        decreases signed.len() - i,
    {
        if signed[i] {
            assert(signed@.contains(true)) by {
                assert(signed@[i as int]);
            }
            return Ok(AttestationType::BasicVerified);
        }
        i += 1;
    }
    Err(WebAuthnError::AttestationRootUntrusted)
}

/// The verdict on an `x5c` chain: its order, then its root.
pub open spec fn chain_verdict(certs: Seq<Seq<u8>>, anchors: Seq<Seq<u8>>) -> Result<
    AttestationType,
    Failure,
> {
    match chain_fault(certs) {
        Some(fault) => Err(Failure::AttestationChainInvalid(fault)),
        None => root_verdict(
            certificate_of(certs.last()) is Some,
            anchors.map_values(|anchor: Seq<u8>| signed_by(certs.last(), anchor)),
        ),
    }
}

/// Verifies the order of an `x5c` chain, leaf first, and that a trust anchor signed its
/// root, where there are trust anchors.
pub fn verify_x5c_chain(certs: &Vec<Vec<u8>>, trust_anchors: &Vec<Vec<u8>>) -> (r: Result<
    AttestationType,
    WebAuthnError,
>)
    requires
        certs@.len() > 0,
        checkable(contents(certs@)),
    ensures
        outcome(r) == chain_verdict(contents(certs@), contents(trust_anchors@)),
{
    if let Err(fault) = verify_chain_order(certs) {
        return Err(WebAuthnError::AttestationChainInvalid(fault));
    }
    let root = &certs[certs.len() - 1];
    let ghost last = contents(certs@).last();
    assert(root@ == last);
    let ghost verdicts = contents(trust_anchors@).map_values(
        |anchor: Seq<u8>| signed_by(last, anchor),
    );
    let mut signed: Vec<bool> = Vec::new();
    let mut i: usize = 0;
    while i < trust_anchors.len()
        invariant
            i <= trust_anchors@.len(),
            signed@.len() == i,
            root@ == last,
            last.len() + 64 <= MAX_HASHED_LEN,
            verdicts == contents(trust_anchors@).map_values(
                |anchor: Seq<u8>| signed_by(last, anchor),
            ),
            forall|k: int| 0 <= k < i ==> signed@[k] == verdicts[k],
        decreases trust_anchors.len() - i,
    {
        signed.push(cert_signed_by(root.as_slice(), trust_anchors[i].as_slice()));
        i += 1;
    }
    assert(signed@ =~= verdicts);
    let root_parses = read_certificate(root.as_slice()).is_some();
    judge_root(root_parses, &signed)
}

/// The uncompressed point of an ES256 key.
pub open spec fn uncompressed(x: Seq<u8>, y: Seq<u8>) -> Seq<u8> {
    seq![0x04u8] + x + y
}

/// The uncompressed point `0x04 || x || y`.
pub fn uncompressed_point(x: &[u8], y: &[u8]) -> (point: Vec<u8>)
    ensures
        point@ == uncompressed(x@, y@),
{
    let mut point: Vec<u8> = vec![0x04u8];
    append_bytes(&mut point, x);
    append_bytes(&mut point, y);
    assert(point@ =~= uncompressed(x@, y@));
    point
}

/// The scheme and the key by which a leaf certificate's signature is checked.
pub open spec fn leaf_key(alg: i64, leaf: Seq<u8>) -> Result<(Scheme, Seq<u8>), Failure> {
    if alg == COSE_ES256 {
        match p256_key(leaf) {
            Ok(key) => Ok((Scheme::Es256, key)),
            Err(failure) => Err(failure),
        }
    } else if alg == COSE_RS256 {
        match rsa_key_der(leaf) {
            Ok(key) => Ok((Scheme::Rs256, key)),
            Err(failure) => Err(failure),
        }
    } else {
        Err(Failure::UnsupportedAlgorithm(alg))
    }
}

fn read_leaf_key(alg: i64, leaf: &[u8]) -> (r: Result<(Scheme, Vec<u8>), WebAuthnError>)
    ensures
        match r {
            Ok((scheme, key)) => leaf_key(alg, leaf@) == Ok::<(Scheme, Seq<u8>), Failure>(
                (scheme, key@),
            ),
            Err(e) => leaf_key(alg, leaf@) == Err::<(Scheme, Seq<u8>), Failure>(e@),
        },
{
    if alg == COSE_ES256 {
        match extract_ec_p256_public_key_from_cert(leaf) {
            Ok(key) => Ok((Scheme::Es256, key)),
            Err(e) => Err(e),
        }
    } else if alg == COSE_RS256 {
        match extract_rsa_public_key_der_from_cert(leaf) {
            Ok(key) => Ok((Scheme::Rs256, key)),
            Err(e) => Err(e),
        }
    } else {
        Err(WebAuthnError::UnsupportedAlgorithm(alg))
    }
}

/// The claim of a packed statement with certificates: the leaf's key signed
/// `auth_data || client_data_hash`.
pub open spec fn packed_basic_claim(
    alg: Option<i64>,
    sig: Option<Seq<u8>>,
    leaf: Seq<u8>,
    message: Seq<u8>,
) -> Result<ClaimModel, Failure> {
    match (alg, sig) {
        (None, _) => Err(
            bad_statement("packed basic-attestation attStmt missing required field: alg"@),
        ),
        (Some(_), None) => Err(
            bad_statement("packed basic-attestation attStmt missing required field: sig"@),
        ),
        (Some(alg), Some(signature)) => match leaf_key(alg, leaf) {
            Ok((scheme, key)) => Ok(ClaimModel { scheme, key, message, signature }),
            Err(failure) => Err(failure),
        },
    }
}

/// The claim of a packed statement without certificates: the credential key itself
/// signed `auth_data || client_data_hash`.
pub open spec fn packed_self_claim(
    alg: Option<i64>,
    sig: Option<Seq<u8>>,
    credential_key: PublicKeyModel,
    message: Seq<u8>,
) -> Result<ClaimModel, Failure> {
    match (alg, sig) {
        (None, _) => Err(
            bad_statement("packed self-attestation attStmt missing required field: alg"@),
        ),
        (Some(_), None) => Err(
            bad_statement("packed self-attestation attStmt missing required field: sig"@),
        ),
        (Some(alg), Some(signature)) => if alg != credential_key.algorithm() {
            Err(
                bad_statement(
                    "packed self-attestation alg ("@ + signed_decimal(alg as int)
                        + ") does not match credential key algorithm ("@ + signed_decimal(
                        credential_key.algorithm() as int,
                    ) + ")"@,
                ),
            )
        } else {
            match credential_key {
                PublicKeyModel::ES256 { x, y } => Ok(
                    ClaimModel {
                        scheme: Scheme::Es256,
                        key: uncompressed(x, y),
                        message,
                        signature,
                    },
                ),
                PublicKeyModel::EdDSA(key) => Ok(
                    ClaimModel { scheme: Scheme::EdDsa, key, message, signature },
                ),
                PublicKeyModel::RS256 { n, e } => match rsa_public_key(n, e) {
                    Ok(key) => Ok(ClaimModel { scheme: Scheme::Rs256, key, message, signature }),
                    Err(failure) => Err(failure),
                },
                PublicKeyModel::ES384 { .. } => Err(Failure::UnsupportedAlgorithm(alg)),
            }
        },
    }
}

/// The claim of a packed statement, with its certificates where it has any.
pub open spec fn packed_claim(
    v: Item,
    auth_data: Seq<u8>,
    client_data_hash: Seq<u8>,
    credential_key: PublicKeyModel,
) -> Result<(ClaimModel, Option<Seq<Seq<u8>>>), Failure> {
    match statement_of(v, Format::Packed) {
        Err(failure) => Err(failure),
        Ok(s) => {
            let claim = match s.x5c {
                Some(certs) => packed_basic_claim(
                    s.alg,
                    s.sig,
                    certs[0],
                    auth_data + client_data_hash,
                ),
                None => packed_self_claim(
                    s.alg,
                    s.sig,
                    credential_key,
                    auth_data + client_data_hash,
                ),
            };
            match claim {
                Ok(claim) => Ok((claim, s.x5c)),
                Err(failure) => Err(failure),
            }
        },
    }
}

fn read_packed_basic(
    alg: Option<i64>,
    sig: Option<Vec<u8>>,
    leaf: &[u8],
    message: Vec<u8>,
) -> (r: Result<SignedClaim, WebAuthnError>)
    ensures
        outcome(r) == packed_basic_claim(alg, maybe(sig), leaf@, message@),
{
    let alg: i64 = match alg {
        Some(alg) => alg,
        None => return Err(
            reject("packed basic-attestation attStmt missing required field: alg"),
        ),
    };
    let signature = match sig {
        Some(sig) => sig,
        None => return Err(
            reject("packed basic-attestation attStmt missing required field: sig"),
        ),
    };
    match read_leaf_key(alg, leaf) {
        Ok((scheme, key)) => Ok(SignedClaim { scheme, key, message, signature }),
        Err(e) => Err(e),
    }
}

fn read_packed_self(
    alg: Option<i64>,
    sig: Option<Vec<u8>>,
    credential_key: &PublicKey,
    message: Vec<u8>,
) -> (r: Result<SignedClaim, WebAuthnError>)
    ensures
        outcome(r) == packed_self_claim(alg, maybe(sig), credential_key@, message@),
{
    let alg: i64 = match alg {
        Some(alg) => alg,
        None => return Err(
            reject("packed self-attestation attStmt missing required field: alg"),
        ),
    };
    let signature = match sig {
        Some(sig) => sig,
        None => return Err(
            reject("packed self-attestation attStmt missing required field: sig"),
        ),
    };
    let expected: i64 = credential_key.algorithm();
    if alg != expected {
        return Err(
            WebAuthnError::InvalidAttestationObject(
                join5(
                    "packed self-attestation alg (",
                    signed_decimal_text(alg).as_str(),
                    ") does not match credential key algorithm (",
                    signed_decimal_text(expected).as_str(),
                    ")",
                ),
            ),
        );
    }
    match credential_key {
        PublicKey::ES256 { x, y } => {
            let key = uncompressed_point(x.as_slice(), y.as_slice());
            Ok(SignedClaim { scheme: Scheme::Es256, key, message, signature })
        },
        PublicKey::EdDSA(key) => {
            let key = copy_bytes(key.as_slice());
            Ok(SignedClaim { scheme: Scheme::EdDsa, key, message, signature })
        },
        PublicKey::RS256 { n, e } => match rsa_components_to_der(n.as_slice(), e.as_slice()) {
            Ok(key) => Ok(SignedClaim { scheme: Scheme::Rs256, key, message, signature }),
            Err(e) => Err(e),
        },
        PublicKey::ES384 { .. } => Err(WebAuthnError::UnsupportedAlgorithm(alg)),
    }
}

/// The lengths of what a statement holds, where its item fits.
proof fn lemma_statement_fits(m: Seq<(Item, Item)>, format: Format, n: nat)
    requires
        fits(Item::Dict(m), n),
    ensures
        statement_fields(m, format) matches Ok(s) ==> {
            &&& s.sig matches Some(b) ==> b.len() <= n
            &&& s.cert_info matches Some(b) ==> b.len() <= n
            &&& s.pub_area matches Some(b) ==> b.len() <= n
            &&& s.x5c matches Some(certs) ==> certs.len() > 0 && forall|i: int|
                0 <= i < certs.len() ==> (#[trigger] certs[i]).len() <= n
        },
    decreases m.len(),
{
    if m.len() > 0 {
        lemma_fits(Item::Dict(m), n);
        let init = m.drop_last();
        assert(fits(Item::Dict(init), n)) by {
            assert forall|i: int| 0 <= i < init.len() implies fits((#[trigger] init[i]).0, n)
                && fits(init[i].1, n) by {
                assert(init[i] == m[i]);
            }
        }
        lemma_statement_fits(init, format, n);
        let value = m.last().1;
        assert(fits(m[m.len() - 1].1, n));
        if let Item::Array(a) = value {
            lemma_x5c_fits(a, n);
        }
    }
}

proof fn lemma_x5c_fits(a: Seq<Item>, n: nat)
    requires
        fits(Item::Array(a), n),
    ensures
        x5c_elements(a) matches Ok(certs) ==> certs.len() == a.len() && forall|i: int|
            0 <= i < certs.len() ==> (#[trigger] certs[i]).len() <= n,
    decreases a.len(),
{
    if a.len() > 0 {
        lemma_fits(Item::Array(a), n);
        let init = a.drop_last();
        assert(fits(Item::Array(init), n)) by {
            assert forall|i: int| 0 <= i < init.len() implies fits(#[trigger] init[i], n) by {
                assert(init[i] == a[i]);
            }
        }
        lemma_x5c_fits(init, n);
        assert(fits(a[a.len() - 1], n));
    }
}

/// Reads the claim of a packed statement.
pub fn read_packed_claim(
    v: &DataItem,
    auth_data: &[u8],
    client_data_hash: &[u8; 32],
    credential_key: &PublicKey,
) -> (r: Result<(SignedClaim, Option<Vec<Vec<u8>>>), WebAuthnError>)
    requires
        fits(v@, MAX_INPUT_LEN as nat),
    ensures
        match r {
            Ok((claim, certs)) => {
                let chain = match certs {
                    Some(c) => Some(contents(c@)),
                    None => None,
                };
                &&& packed_claim(v@, auth_data@, client_data_hash@, credential_key@) == Ok::<
                    (ClaimModel, Option<Seq<Seq<u8>>>),
                    Failure,
                >((claim@, chain))
                &&& claim.message@ == auth_data@ + client_data_hash@
                &&& chain matches Some(c) ==> c.len() > 0 && checkable(c)
            },
            Err(e) => packed_claim(v@, auth_data@, client_data_hash@, credential_key@) == Err::<
                (ClaimModel, Option<Seq<Seq<u8>>>),
                Failure,
            >(e@),
        },
{
    let s = match parse_statement(v, Format::Packed) {
        Ok(s) => s,
        Err(e) => return Err(e),
    };
    proof {
        lemma_statement_fits(v@->Dict_0, Format::Packed, MAX_INPUT_LEN as nat);
    }
    let message = concat_bytes(auth_data, client_data_hash.as_slice());
    match s.x5c {
        Some(certs) => {
            assert(contents(certs@)[0] == certs@[0]@);
            match read_packed_basic(s.alg, s.sig, certs[0].as_slice(), message) {
                Ok(claim) => Ok((claim, Some(certs))),
                Err(e) => Err(e),
            }
        },
        None => match read_packed_self(s.alg, s.sig, credential_key, message) {
            Ok(claim) => Ok((claim, None)),
            Err(e) => Err(e),
        },
    }
}

/// The verdict on a packed statement. With certificates the leaf must not name another
/// authenticator model and must not be a certificate authority.
pub open spec fn packed_verdict(
    v: Item,
    auth_data: Seq<u8>,
    client_data_hash: Seq<u8>,
    credential_key: PublicKeyModel,
    anchors: Seq<Seq<u8>>,
    aaguid: Seq<u8>,
) -> Result<AttestationType, Failure> {
    match packed_claim(v, auth_data, client_data_hash, credential_key) {
        Err(failure) => Err(failure),
        Ok((claim, None)) => after(claim.check(), Ok(AttestationType::SelfAttestation)),
        Ok((claim, Some(certs))) => after(
            claim.check(),
            after(
                aaguid_check(certificate_of(certs[0]), aaguid),
                after(not_ca_check(certificate_of(certs[0])), chain_verdict(certs, anchors)),
            ),
        ),
    }
}

fn verify_packed(
    v: &DataItem,
    auth_data: &[u8],
    client_data_hash: &[u8; 32],
    credential_key: &PublicKey,
    trust_anchors: &Vec<Vec<u8>>,
    aaguid: &[u8; 16],
) -> (r: Result<AttestationType, WebAuthnError>)
    requires
        auth_data@.len() <= MAX_INPUT_LEN,
        fits(v@, MAX_INPUT_LEN as nat),
    ensures
        outcome(r) == packed_verdict(
            v@,
            auth_data@,
            client_data_hash@,
            credential_key@,
            contents(trust_anchors@),
            aaguid@,
        ),
{
    let (claim, certs) = match read_packed_claim(v, auth_data, client_data_hash, credential_key) {
        Ok(found) => found,
        Err(e) => return Err(e),
    };
    if let Err(e) = check_claim(&claim) {
        return Err(e);
    }
    let certs = match certs {
        Some(certs) => certs,
        None => return Ok(AttestationType::SelfAttestation),
    };
    assert(contents(certs@)[0] == certs@[0]@);
    if let Err(e) = verify_cert_aaguid_extension(certs[0].as_slice(), aaguid) {
        return Err(e);
    }
    if let Err(e) = verify_cert_is_not_ca(certs[0].as_slice()) {
        return Err(e);
    }
    verify_x5c_chain(&certs, trust_anchors)
}

/// A signature claim together with the certificate chain of the key.
pub type CertifiedClaim = (ClaimModel, Seq<Seq<u8>>);

/// The claim of a `fido-u2f` statement: the leaf's P-256 key signed
/// `0x00 || rpIdHash || clientDataHash || credentialId || point`.
pub open spec fn u2f_claim(
    v: Item,
    auth_data: Seq<u8>,
    client_data_hash: Seq<u8>,
    credential_id: Seq<u8>,
    credential_key: PublicKeyModel,
) -> Result<CertifiedClaim, Failure> {
    match statement_of(v, Format::FidoU2f) {
        Err(failure) => Err(failure),
        Ok(s) => match (s.x5c, s.sig) {
            (None, _) => Err(bad_field(Format::FidoU2f, "missing required field: x5c"@)),
            (Some(_), None) => Err(bad_field(Format::FidoU2f, "missing required field: sig"@)),
            (Some(certs), Some(signature)) => match p256_key(certs[0]) {
                Err(failure) => Err(failure),
                Ok(key) => match credential_key {
                    PublicKeyModel::ES256 { x, y } => if auth_data.len() < 32 {
                        Err(
                            bad_statement(
                                "fido-u2f: authenticator data too short to contain rpIdHash"@,
                            ),
                        )
                    } else {
                        Ok(
                            (
                                ClaimModel {
                                    scheme: Scheme::Es256,
                                    key,
                                    message: seq![0u8] + auth_data.take(32) + client_data_hash
                                        + credential_id + uncompressed(x, y),
                                    signature,
                                },
                                certs,
                            ),
                        )
                    },
                    _ => Err(
                        bad_statement(
                            "fido-u2f attestation requires an EC P-256 credential key"@,
                        ),
                    ),
                },
            },
        },
    }
}

/// The length of the coordinates of an ES256 key.
pub open spec fn point_len(key: PublicKeyModel) -> nat {
    match key {
        PublicKeyModel::ES256 { x, y } => x.len() + y.len(),
        _ => 0,
    }
}

/// Reads the claim of a `fido-u2f` statement.
pub fn read_u2f_claim(
    v: &DataItem,
    auth_data: &[u8],
    client_data_hash: &[u8; 32],
    credential_id: &[u8],
    credential_key: &PublicKey,
) -> (r: Result<(SignedClaim, Vec<Vec<u8>>), WebAuthnError>)
    requires
        fits(v@, MAX_INPUT_LEN as nat),
        credential_id@.len() + point_len(credential_key@) <= MAX_INPUT_LEN,
    ensures
        match r {
            Ok((claim, certs)) => {
                &&& u2f_claim(
                    v@,
                    auth_data@,
                    client_data_hash@,
                    credential_id@,
                    credential_key@,
                ) == Ok::<CertifiedClaim, Failure>((claim@, contents(certs@)))
                &&& claim.message@.len() + 64 <= MAX_HASHED_LEN
                &&& certs@.len() > 0
                &&& checkable(contents(certs@))
            },
            Err(e) => u2f_claim(
                v@,
                auth_data@,
                client_data_hash@,
                credential_id@,
                credential_key@,
            ) == Err::<CertifiedClaim, Failure>(e@),
        },
{
    let s = match parse_statement(v, Format::FidoU2f) {
        Ok(s) => s,
        Err(e) => return Err(e),
    };
    proof {
        lemma_statement_fits(v@->Dict_0, Format::FidoU2f, MAX_INPUT_LEN as nat);
    }
    let certs = match s.x5c {
        Some(certs) => certs,
        None => return Err(reject_field(Format::FidoU2f, "missing required field: x5c")),
    };
    let signature = match s.sig {
        Some(sig) => sig,
        None => return Err(reject_field(Format::FidoU2f, "missing required field: sig")),
    };
    assert(contents(certs@)[0] == certs@[0]@);
    let key = match extract_ec_p256_public_key_from_cert(certs[0].as_slice()) {
        Ok(key) => key,
        Err(e) => return Err(e),
    };
    let point = match credential_key {
        PublicKey::ES256 { x, y } => uncompressed_point(x.as_slice(), y.as_slice()),
        _ => return Err(reject("fido-u2f attestation requires an EC P-256 credential key")),
    };
    if auth_data.len() < 32 {
        return Err(reject("fido-u2f: authenticator data too short to contain rpIdHash"));
    }
    let mut message: Vec<u8> = vec![0u8];
    let rp_id_hash = slice_subrange(auth_data, 0, 32);
    assert(rp_id_hash@ =~= auth_data@.take(32));
    assert(message@ =~= seq![0u8]);
    append_bytes(&mut message, rp_id_hash);
    append_bytes(&mut message, client_data_hash.as_slice());
    append_bytes(&mut message, credential_id);
    append_bytes(&mut message, point.as_slice());
    Ok((SignedClaim { scheme: Scheme::Es256, key, message, signature }, certs))
}

/// The verdict on a statement by a claim with a certificate chain.
pub open spec fn certified_verdict(
    claim: Result<CertifiedClaim, Failure>,
    anchors: Seq<Seq<u8>>,
) -> Result<AttestationType, Failure> {
    match claim {
        Err(failure) => Err(failure),
        Ok((claim, certs)) => after(claim.check(), chain_verdict(certs, anchors)),
    }
}

fn verify_fido_u2f(
    v: &DataItem,
    auth_data: &[u8],
    client_data_hash: &[u8; 32],
    credential_id: &[u8],
    credential_key: &PublicKey,
    trust_anchors: &Vec<Vec<u8>>,
) -> (r: Result<AttestationType, WebAuthnError>)
    requires
        fits(v@, MAX_INPUT_LEN as nat),
        credential_id@.len() + point_len(credential_key@) <= MAX_INPUT_LEN,
    ensures
        outcome(r) == certified_verdict(
            u2f_claim(v@, auth_data@, client_data_hash@, credential_id@, credential_key@),
            contents(trust_anchors@),
        ),
{
    match read_u2f_claim(v, auth_data, client_data_hash, credential_id, credential_key) {
        Ok((claim, certs)) => match check_claim(&claim) {
            Ok(()) => verify_x5c_chain(&certs, trust_anchors),
            Err(e) => Err(e),
        },
        Err(e) => Err(e),
    }
}

/// The claim of an `android-key` statement: the leaf's P-256 key, which must be the
/// credential key, signed `auth_data || client_data_hash`.
pub open spec fn android_claim(
    v: Item,
    auth_data: Seq<u8>,
    client_data_hash: Seq<u8>,
    credential_key: PublicKeyModel,
) -> Result<CertifiedClaim, Failure> {
    match statement_of(v, Format::AndroidKey) {
        Err(failure) => Err(failure),
        Ok(s) => match (s.alg, s.sig, s.x5c) {
            (None, _, _) => Err(bad_field(Format::AndroidKey, "missing required field: alg"@)),
            (Some(_), None, _) => Err(
                bad_field(Format::AndroidKey, "missing required field: sig"@),
            ),
            (Some(_), Some(_), None) => Err(
                bad_field(Format::AndroidKey, "missing required field: x5c"@),
            ),
            (Some(_), Some(signature), Some(certs)) => match p256_key(certs[0]) {
                Err(failure) => Err(failure),
                Ok(key) => match credential_key {
                    PublicKeyModel::ES256 { x, y } => if key != uncompressed(x, y) {
                        Err(
                            bad_statement(
                                "android-key: credential public key does not match attestation certificate key"@,
                            ),
                        )
                    } else {
                        Ok(
                            (
                                ClaimModel {
                                    scheme: Scheme::Es256,
                                    key,
                                    message: auth_data + client_data_hash,
                                    signature,
                                },
                                certs,
                            ),
                        )
                    },
                    _ => Err(
                        bad_statement(
                            "android-key: attestation requires an ES256 (P-256) credential key"@,
                        ),
                    ),
                },
            },
        },
    }
}

/// Reads the claim of an `android-key` statement.
pub fn read_android_claim(
    v: &DataItem,
    auth_data: &[u8],
    client_data_hash: &[u8; 32],
    credential_key: &PublicKey,
) -> (r: Result<(SignedClaim, Vec<Vec<u8>>), WebAuthnError>)
    requires
        fits(v@, MAX_INPUT_LEN as nat),
    ensures
        match r {
            Ok((claim, certs)) => {
                &&& android_claim(v@, auth_data@, client_data_hash@, credential_key@) == Ok::<
                    CertifiedClaim,
                    Failure,
                >((claim@, contents(certs@)))
                &&& claim.message@ == auth_data@ + client_data_hash@
                &&& certs@.len() > 0
                &&& checkable(contents(certs@))
            },
            Err(e) => android_claim(v@, auth_data@, client_data_hash@, credential_key@) == Err::<
                CertifiedClaim,
                Failure,
            >(e@),
        },
{
    let s = match parse_statement(v, Format::AndroidKey) {
        Ok(s) => s,
        Err(e) => return Err(e),
    };
    proof {
        lemma_statement_fits(v@->Dict_0, Format::AndroidKey, MAX_INPUT_LEN as nat);
    }
    if s.alg.is_none() {
        return Err(reject_field(Format::AndroidKey, "missing required field: alg"));
    }
    let signature = match s.sig {
        Some(sig) => sig,
        None => return Err(reject_field(Format::AndroidKey, "missing required field: sig")),
    };
    let certs = match s.x5c {
        Some(certs) => certs,
        None => return Err(reject_field(Format::AndroidKey, "missing required field: x5c")),
    };
    assert(contents(certs@)[0] == certs@[0]@);
    let key = match extract_ec_p256_public_key_from_cert(certs[0].as_slice()) {
        Ok(key) => key,
        Err(e) => return Err(e),
    };
    let point = match credential_key {
        PublicKey::ES256 { x, y } => uncompressed_point(x.as_slice(), y.as_slice()),
        _ => return Err(
            reject("android-key: attestation requires an ES256 (P-256) credential key"),
        ),
    };
    if !bytes_equal(key.as_slice(), point.as_slice()) {
        return Err(
            reject(
                "android-key: credential public key does not match attestation certificate key",
            ),
        );
    }
    let message = concat_bytes(auth_data, client_data_hash.as_slice());
    Ok((SignedClaim { scheme: Scheme::Es256, key, message, signature }, certs))
}

fn verify_android_key(
    v: &DataItem,
    auth_data: &[u8],
    client_data_hash: &[u8; 32],
    credential_key: &PublicKey,
    trust_anchors: &Vec<Vec<u8>>,
) -> (r: Result<AttestationType, WebAuthnError>)
    requires
        auth_data@.len() <= MAX_INPUT_LEN,
        fits(v@, MAX_INPUT_LEN as nat),
    ensures
        outcome(r) == certified_verdict(
            android_claim(v@, auth_data@, client_data_hash@, credential_key@),
            contents(trust_anchors@),
        ),
{
    match read_android_claim(v, auth_data, client_data_hash, credential_key) {
        Ok((claim, certs)) => match check_claim(&claim) {
            Ok(()) => verify_x5c_chain(&certs, trust_anchors),
            Err(e) => Err(e),
        },
        Err(e) => Err(e),
    }
}

/// The certificates of an `apple` statement whose leaf holds the nonce `nonce` and the
/// credential key.
pub open spec fn apple_certs(v: Item, nonce: Seq<u8>, credential_key: PublicKeyModel) -> Result<
    Seq<Seq<u8>>,
    Failure,
> {
    match statement_of(v, Format::Apple) {
        Err(failure) => Err(failure),
        Ok(s) => match s.x5c {
            None => Err(bad_field(Format::Apple, "missing required field: x5c"@)),
            Some(certs) => match apple_nonce(certs[0]) {
                Err(failure) => Err(failure),
                Ok(found) => if found != nonce {
                    Err(
                        bad_statement(
                            "apple: certificate nonce does not match SHA-256(authData || clientDataHash)"@,
                        ),
                    )
                } else {
                    match p256_key(certs[0]) {
                        Err(failure) => Err(failure),
                        Ok(key) => match credential_key {
                            PublicKeyModel::ES256 { x, y } => if key != uncompressed(x, y) {
                                Err(
                                    bad_statement(
                                        "apple: credential public key does not match attestation certificate key"@,
                                    ),
                                )
                            } else {
                                Ok(certs)
                            },
                            _ => Err(
                                bad_statement(
                                    "apple: attestation requires an ES256 (P-256) credential key"@,
                                ),
                            ),
                        },
                    }
                },
            },
        },
    }
}

/// Reads an `apple` statement against the nonce that its leaf must hold.
pub fn read_apple_certs(v: &DataItem, nonce: &[u8; 32], credential_key: &PublicKey) -> (r: Result<
    Vec<Vec<u8>>,
    WebAuthnError,
>)
    requires
        fits(v@, MAX_INPUT_LEN as nat),
    ensures
        match r {
            Ok(certs) => {
                &&& apple_certs(v@, nonce@, credential_key@) == Ok::<Seq<Seq<u8>>, Failure>(
                    contents(certs@),
                )
                &&& certs@.len() > 0
                &&& checkable(contents(certs@))
            },
            Err(e) => apple_certs(v@, nonce@, credential_key@) == Err::<Seq<Seq<u8>>, Failure>(
                e@,
            ),
        },
{
    let s = match parse_statement(v, Format::Apple) {
        Ok(s) => s,
        Err(e) => return Err(e),
    };
    proof {
        lemma_statement_fits(v@->Dict_0, Format::Apple, MAX_INPUT_LEN as nat);
    }
    let certs = match s.x5c {
        Some(certs) => certs,
        None => return Err(reject_field(Format::Apple, "missing required field: x5c")),
    };
    assert(contents(certs@)[0] == certs@[0]@);
    let found = match extract_apple_nonce_from_cert(certs[0].as_slice()) {
        Ok(found) => found,
        Err(e) => return Err(e),
    };
    if !bytes_equal(found.as_slice(), nonce.as_slice()) {
        return Err(
            reject("apple: certificate nonce does not match SHA-256(authData || clientDataHash)"),
        );
    }
    let key = match extract_ec_p256_public_key_from_cert(certs[0].as_slice()) {
        Ok(key) => key,
        Err(e) => return Err(e),
    };
    let point = match credential_key {
        PublicKey::ES256 { x, y } => uncompressed_point(x.as_slice(), y.as_slice()),
        _ => return Err(reject("apple: attestation requires an ES256 (P-256) credential key")),
    };
    if !bytes_equal(key.as_slice(), point.as_slice()) {
        return Err(
            reject("apple: credential public key does not match attestation certificate key"),
        );
    }
    Ok(certs)
}

/// The verdict on an `apple` statement: the nonce is the hash of
/// `auth_data || client_data_hash`.
pub open spec fn apple_verdict(
    v: Item,
    auth_data: Seq<u8>,
    client_data_hash: Seq<u8>,
    credential_key: PublicKeyModel,
    anchors: Seq<Seq<u8>>,
) -> Result<AttestationType, Failure> {
    match apple_certs(v, sha256_of(auth_data + client_data_hash), credential_key) {
        Err(failure) => Err(failure),
        Ok(certs) => chain_verdict(certs, anchors),
    }
}

fn verify_apple(
    v: &DataItem,
    auth_data: &[u8],
    client_data_hash: &[u8; 32],
    credential_key: &PublicKey,
    trust_anchors: &Vec<Vec<u8>>,
) -> (r: Result<AttestationType, WebAuthnError>)
    requires
        auth_data@.len() <= MAX_INPUT_LEN,
        fits(v@, MAX_INPUT_LEN as nat),
    ensures
        outcome(r) == apple_verdict(
            v@,
            auth_data@,
            client_data_hash@,
            credential_key@,
            contents(trust_anchors@),
        ),
{
    let nonce = sha256(concat_bytes(auth_data, client_data_hash.as_slice()).as_slice());
    match read_apple_certs(v, &nonce, credential_key) {
        Ok(certs) => verify_x5c_chain(&certs, trust_anchors),
        Err(e) => Err(e),
    }
}

/// What a `tpm` statement claims.
#[derive(Debug)]
pub struct TpmClaim {
    /// The leaf's key signed `cert_info`, which is the message.
    pub signed: SignedClaim,
    /// The attested public key.
    pub pub_area: Vec<u8>,
    /// The certificate chain, leaf first.
    pub certs: Vec<Vec<u8>>,
}

/// The mathematical form of a [`TpmClaim`].
pub ghost struct TpmClaimModel {
    pub signed: ClaimModel,
    pub pub_area: Seq<u8>,
    pub certs: Seq<Seq<u8>>,
}

impl View for TpmClaim {
    type V = TpmClaimModel;

    open spec fn view(&self) -> TpmClaimModel {
        TpmClaimModel {
            signed: self.signed@,
            pub_area: self.pub_area@,
            certs: contents(self.certs@),
        }
    }
}

/// The algorithm of a `tpm` statement, which must be of version `2.0` and use the
/// algorithm of the credential key.
pub open spec fn tpm_algorithm(s: StatementModel, expected: i64) -> Result<i64, Failure> {
    match s.ver {
        None => Err(bad_field(Format::Tpm, "missing required field: ver"@)),
        Some(ver) => if ver != "2.0"@ {
            Err(bad_statement("tpm: ver must be \"2.0\", got \""@ + ver + "\""@))
        } else {
            match s.alg {
                None => Err(bad_field(Format::Tpm, "missing required field: alg"@)),
                Some(alg) => if alg != expected {
                    Err(
                        bad_statement(
                            "tpm: attStmt alg ("@ + signed_decimal(alg as int)
                                + ") does not match credential key algorithm ("@
                                + signed_decimal(expected as int) + ")"@,
                        ),
                    )
                } else {
                    Ok(alg)
                },
            }
        },
    }
}

/// The claim of a `tpm` statement.
pub open spec fn tpm_claim(v: Item, credential_key: PublicKeyModel) -> Result<
    TpmClaimModel,
    Failure,
> {
    match statement_of(v, Format::Tpm) {
        Err(failure) => Err(failure),
        Ok(s) => match tpm_algorithm(s, credential_key.algorithm()) {
            Err(failure) => Err(failure),
            Ok(alg) => match (s.x5c, s.sig, s.cert_info, s.pub_area) {
                (None, _, _, _) => Err(
                    bad_field(
                        Format::Tpm,
                        "missing required field: x5c (ECDAA is not supported)"@,
                    ),
                ),
                (Some(_), None, _, _) => Err(
                    bad_field(Format::Tpm, "missing required field: sig"@),
                ),
                (Some(_), Some(_), None, _) => Err(
                    bad_field(Format::Tpm, "missing required field: certInfo"@),
                ),
                (Some(_), Some(_), Some(_), None) => Err(
                    bad_field(Format::Tpm, "missing required field: pubArea"@),
                ),
                (Some(certs), Some(signature), Some(message), Some(pub_area)) => match leaf_key(
                    alg,
                    certs[0],
                ) {
                    Err(failure) => Err(failure),
                    Ok((scheme, key)) => Ok(
                        TpmClaimModel {
                            signed: ClaimModel { scheme, key, message, signature },
                            pub_area,
                            certs,
                        },
                    ),
                },
            },
        },
    }
}

fn read_tpm_algorithm(s: &Statement, expected: i64) -> (r: Result<i64, WebAuthnError>)
    ensures
        outcome(r) == tpm_algorithm(s@, expected),
{
    match &s.ver {
        None => return Err(reject_field(Format::Tpm, "missing required field: ver")),
        Some(ver) => {
            if !text_equal(ver.as_str(), "2.0") {
                return Err(
                    WebAuthnError::InvalidAttestationObject(
                        join3("tpm: ver must be \"2.0\", got \"", ver.as_str(), "\""),
                    ),
                );
            }
        },
    }
    match s.alg {
        None => Err(reject_field(Format::Tpm, "missing required field: alg")),
        Some(alg) => {
            if alg != expected {
                return Err(
                    WebAuthnError::InvalidAttestationObject(
                        join5(
                            "tpm: attStmt alg (",
                            signed_decimal_text(alg).as_str(),
                            ") does not match credential key algorithm (",
                            signed_decimal_text(expected).as_str(),
                            ")",
                        ),
                    ),
                );
            }
            Ok(alg)
        },
    }
}

/// Reads the claim of a `tpm` statement.
pub fn read_tpm_claim(v: &DataItem, credential_key: &PublicKey) -> (r: Result<
    TpmClaim,
    WebAuthnError,
>)
    requires
        fits(v@, MAX_INPUT_LEN as nat),
    ensures
        outcome(r) == tpm_claim(v@, credential_key@),
        r matches Ok(claim) ==> claim.signed.message@.len() <= MAX_INPUT_LEN
            && claim.pub_area@.len() <= MAX_INPUT_LEN && claim.certs@.len() > 0 && checkable(
            contents(claim.certs@),
        ),
{
    let s = match parse_statement(v, Format::Tpm) {
        Ok(s) => s,
        Err(e) => return Err(e),
    };
    proof {
        lemma_statement_fits(v@->Dict_0, Format::Tpm, MAX_INPUT_LEN as nat);
    }
    let alg: i64 = match read_tpm_algorithm(&s, credential_key.algorithm()) {
        Ok(alg) => alg,
        Err(e) => return Err(e),
    };
    let certs = match s.x5c {
        Some(certs) => certs,
        None => return Err(
            reject_field(
                Format::Tpm,
                "missing required field: x5c (ECDAA is not supported)",
            ),
        ),
    };
    let signature = match s.sig {
        Some(sig) => sig,
        None => return Err(reject_field(Format::Tpm, "missing required field: sig")),
    };
    let message = match s.cert_info {
        Some(cert_info) => cert_info,
        None => return Err(reject_field(Format::Tpm, "missing required field: certInfo")),
    };
    let pub_area = match s.pub_area {
        Some(pub_area) => pub_area,
        None => return Err(reject_field(Format::Tpm, "missing required field: pubArea")),
    };
    assert(contents(certs@)[0] == certs@[0]@);
    match read_leaf_key(alg, certs[0].as_slice()) {
        Ok((scheme, key)) => Ok(
            TpmClaim {
                signed: SignedClaim { scheme, key, message, signature },
                pub_area,
                certs,
            },
        ),
        Err(e) => Err(e),
    }
}

/// The verdict on a `tpm` statement: `pubArea` holds the credential key, `certInfo`
/// certifies its name for this ceremony, the leaf's key signed `certInfo`, and the chain
/// is in order.
pub open spec fn tpm_verdict(
    v: Item,
    auth_data: Seq<u8>,
    client_data_hash: Seq<u8>,
    credential_key: PublicKeyModel,
    anchors: Seq<Seq<u8>>,
) -> Result<AttestationType, Failure> {
    match tpm_claim(v, credential_key) {
        Err(failure) => Err(failure),
        Ok(claim) => match pub_area_name(claim.pub_area) {
            Err(failure) => Err(failure),
            Ok(name) => after(
                pub_area_check(claim.pub_area, credential_key),
                after(
                    cert_info_check(
                        claim.signed.message,
                        sha256_of(auth_data + client_data_hash),
                        name,
                    ),
                    after(claim.signed.check(), chain_verdict(claim.certs, anchors)),
                ),
            ),
        },
    }
}

fn verify_tpm(
    v: &DataItem,
    auth_data: &[u8],
    client_data_hash: &[u8; 32],
    credential_key: &PublicKey,
    trust_anchors: &Vec<Vec<u8>>,
) -> (r: Result<AttestationType, WebAuthnError>)
    requires
        auth_data@.len() <= MAX_INPUT_LEN,
        fits(v@, MAX_INPUT_LEN as nat),
    ensures
        outcome(r) == tpm_verdict(
            v@,
            auth_data@,
            client_data_hash@,
            credential_key@,
            contents(trust_anchors@),
        ),
{
    let claim = match read_tpm_claim(v, credential_key) {
        Ok(claim) => claim,
        Err(e) => return Err(e),
    };
    let extra_data = sha256(concat_bytes(auth_data, client_data_hash.as_slice()).as_slice());
    let name = match compute_pub_area_name(claim.pub_area.as_slice()) {
        Ok(name) => name,
        Err(e) => return Err(e),
    };
    if let Err(e) = verify_pub_area_matches_credential(claim.pub_area.as_slice(), credential_key) {
        return Err(e);
    }
    if let Err(e) = verify_cert_info(claim.signed.message.as_slice(), &extra_data, name.as_slice()) {
        return Err(e);
    }
    if let Err(e) = check_claim(&claim.signed) {
        return Err(e);
    }
    verify_x5c_chain(&claim.certs, trust_anchors)
}

/// The verdict on an attestation statement, by its format.
pub open spec fn attestation_verdict(
    fmt: Seq<char>,
    v: Item,
    auth_data: Seq<u8>,
    client_data_hash: Seq<u8>,
    credential_key: PublicKeyModel,
    credential_id: Seq<u8>,
    anchors: Seq<Seq<u8>>,
    aaguid: Seq<u8>,
) -> Result<AttestationType, Failure> {
    if fmt == "packed"@ {
        packed_verdict(v, auth_data, client_data_hash, credential_key, anchors, aaguid)
    } else if fmt == "fido-u2f"@ {
        certified_verdict(
            u2f_claim(v, auth_data, client_data_hash, credential_id, credential_key),
            anchors,
        )
    } else if fmt == "android-key"@ {
        certified_verdict(
            android_claim(v, auth_data, client_data_hash, credential_key),
            anchors,
        )
    } else if fmt == "apple"@ {
        apple_verdict(v, auth_data, client_data_hash, credential_key, anchors)
    } else if fmt == "tpm"@ {
        tpm_verdict(v, auth_data, client_data_hash, credential_key, anchors)
    } else {
        Ok(AttestationType::NoAttestation)
    }
}

/// Verifies an attestation statement.
///
/// `client_data_hash` is the SHA-256 of the client data; `trust_anchors` are DER-encoded
/// root certificates; `aaguid` is compared with the attestation certificate's extension
/// in the packed format. The format `none`, and every format that is not known, is
/// accepted as no attestation.
pub fn verify(
    fmt: &str,
    att_stmt: &DataItem,
    auth_data_bytes: &[u8],
    client_data_hash: &[u8; 32],
    credential_public_key: &PublicKey,
    credential_id: &[u8],
    trust_anchors: &Vec<Vec<u8>>,
    aaguid: &[u8; 16],
) -> (r: Result<AttestationType, WebAuthnError>)
    requires
        auth_data_bytes@.len() <= MAX_INPUT_LEN,
        fits(att_stmt@, MAX_INPUT_LEN as nat),
        credential_id@.len() + point_len(credential_public_key@) <= MAX_INPUT_LEN,
    ensures
        outcome(r) == attestation_verdict(
            fmt@,
            att_stmt@,
            auth_data_bytes@,
            client_data_hash@,
            credential_public_key@,
            credential_id@,
            contents(trust_anchors@),
            aaguid@,
        ),
{
    let key = credential_public_key;
    if text_equal(fmt, "packed") {
        verify_packed(att_stmt, auth_data_bytes, client_data_hash, key, trust_anchors, aaguid)
    } else if text_equal(fmt, "fido-u2f") {
        verify_fido_u2f(
            att_stmt,
            auth_data_bytes,
            client_data_hash,
            credential_id,
            key,
            trust_anchors,
        )
    } else if text_equal(fmt, "android-key") {
        verify_android_key(att_stmt, auth_data_bytes, client_data_hash, key, trust_anchors)
    } else if text_equal(fmt, "apple") {
        verify_apple(att_stmt, auth_data_bytes, client_data_hash, key, trust_anchors)
    } else if text_equal(fmt, "tpm") {
        verify_tpm(att_stmt, auth_data_bytes, client_data_hash, key, trust_anchors)
    } else {
        Ok(AttestationType::NoAttestation)
    }
}

/// The format `none`, and every format that is not known, is no attestation, whatever the
/// statement holds.
pub proof fn law_other_formats_are_not_attestation(
    fmt: Seq<char>,
    v: Item,
    auth_data: Seq<u8>,
    client_data_hash: Seq<u8>,
    credential_key: PublicKeyModel,
    credential_id: Seq<u8>,
    anchors: Seq<Seq<u8>>,
    aaguid: Seq<u8>,
)
    requires
        forall|format: Format| #[trigger] format_name(format) != fmt,
    ensures
        attestation_verdict(
            fmt,
            v,
            auth_data,
            client_data_hash,
            credential_key,
            credential_id,
            anchors,
            aaguid,
        ) == Ok::<AttestationType, Failure>(AttestationType::NoAttestation),
{
    assert(format_name(Format::Packed) != fmt);
    assert(format_name(Format::FidoU2f) != fmt);
    assert(format_name(Format::AndroidKey) != fmt);
    assert(format_name(Format::Apple) != fmt);
    assert(format_name(Format::Tpm) != fmt);
}

/// A chain that is accepted is in order. It counts as verified exactly if there are trust
/// anchors, and then one of them signed its root.
pub proof fn law_accepted_chains(certs: Seq<Seq<u8>>, anchors: Seq<Seq<u8>>)
    ensures
        chain_verdict(certs, anchors) matches Ok(verdict) ==> {
            &&& forall|i: int| 0 <= i < certs.len() - 1 ==> #[trigger] linked(certs, i)
            &&& verdict == AttestationType::Basic <==> anchors.len() == 0
            &&& verdict == AttestationType::BasicVerified <==> anchors.len() > 0
            &&& verdict == AttestationType::BasicVerified ==> exists|i: int|
                0 <= i < anchors.len() && signed_by(certs.last(), #[trigger] anchors[i])
        },
{
    law_chain_order(certs);
    let signed = anchors.map_values(|anchor: Seq<u8>| signed_by(certs.last(), anchor));
    if signed.contains(true) {
        let i = choose|i: int| 0 <= i < signed.len() && signed[i] == true;
        assert(signed_by(certs.last(), anchors[i]));
    }
}

/// With trust anchors, no attestation is accepted as merely basic; without them, none as
/// verified.
pub proof fn law_trust_anchors_decide(
    fmt: Seq<char>,
    v: Item,
    auth_data: Seq<u8>,
    client_data_hash: Seq<u8>,
    credential_key: PublicKeyModel,
    credential_id: Seq<u8>,
    anchors: Seq<Seq<u8>>,
    aaguid: Seq<u8>,
)
    ensures
        attestation_verdict(
            fmt,
            v,
            auth_data,
            client_data_hash,
            credential_key,
            credential_id,
            anchors,
            aaguid,
        ) matches Ok(verdict) ==> {
            &&& anchors.len() > 0 ==> verdict != AttestationType::Basic
            &&& anchors.len() == 0 ==> verdict != AttestationType::BasicVerified
        },
{
}

/// Self-attestation is accepted only from a packed statement without certificates, with
/// the algorithm of the credential key and a valid signature of
/// `auth_data || client_data_hash` under that key.
pub proof fn law_self_attestation(
    fmt: Seq<char>,
    v: Item,
    auth_data: Seq<u8>,
    client_data_hash: Seq<u8>,
    credential_key: PublicKeyModel,
    credential_id: Seq<u8>,
    anchors: Seq<Seq<u8>>,
    aaguid: Seq<u8>,
)
    ensures
        attestation_verdict(
            fmt,
            v,
            auth_data,
            client_data_hash,
            credential_key,
            credential_id,
            anchors,
            aaguid,
        ) == Ok::<AttestationType, Failure>(AttestationType::SelfAttestation) ==> {
            &&& fmt == "packed"@
            &&& statement_of(v, Format::Packed) matches Ok(s) && {
                &&& s.x5c is None
                &&& s.alg == Some(credential_key.algorithm())
                &&& packed_self_claim(
                    s.alg,
                    s.sig,
                    credential_key,
                    auth_data + client_data_hash,
                ) matches Ok(claim) && claim.check() is Ok
            }
        },
{
}

/// A packed statement with certificates is accepted exactly if the leaf's key signed
/// `auth_data || client_data_hash`, the leaf names no other authenticator model and is no
/// certificate authority, and the chain is accepted.
pub proof fn law_packed_attestation(
    v: Item,
    auth_data: Seq<u8>,
    client_data_hash: Seq<u8>,
    credential_key: PublicKeyModel,
    anchors: Seq<Seq<u8>>,
    aaguid: Seq<u8>,
    verdict: AttestationType,
)
    requires
        verdict != AttestationType::SelfAttestation,
    ensures
        packed_verdict(v, auth_data, client_data_hash, credential_key, anchors, aaguid) == Ok::<
            AttestationType,
            Failure,
        >(verdict) <==> {
            statement_of(v, Format::Packed) matches Ok(s) && {
                &&& s.x5c matches Some(certs) && {
                    &&& s.alg matches Some(alg) && {
                        leaf_key(alg, certs[0]) matches Ok((scheme, key)) && {
                            s.sig matches Some(signature) && signature_valid(
                                scheme,
                                key,
                                auth_data + client_data_hash,
                                signature,
                            )
                        }
                    }
                    &&& aaguid_check(certificate_of(certs[0]), aaguid) is Ok
                    &&& not_ca_check(certificate_of(certs[0])) is Ok
                    &&& chain_verdict(certs, anchors) == Ok::<AttestationType, Failure>(verdict)
                }
            }
        },
{
}

/// A `fido-u2f` statement is accepted exactly for an ES256 credential, with at least an RP ID
/// hash of authenticator data, if the leaf's P-256 key signed the registration data and the
/// chain is accepted.
pub proof fn law_u2f_attestation(
    v: Item,
    auth_data: Seq<u8>,
    client_data_hash: Seq<u8>,
    credential_id: Seq<u8>,
    credential_key: PublicKeyModel,
    anchors: Seq<Seq<u8>>,
    verdict: AttestationType,
)
    ensures
        certified_verdict(
            u2f_claim(v, auth_data, client_data_hash, credential_id, credential_key),
            anchors,
        ) == Ok::<AttestationType, Failure>(verdict) <==> {
            &&& auth_data.len() >= 32
            &&& statement_of(v, Format::FidoU2f) matches Ok(s) && {
                s.x5c matches Some(certs) && {
                    &&& credential_key matches PublicKeyModel::ES256 { x, y } && {
                        p256_key(certs[0]) matches Ok(key) && {
                            s.sig matches Some(signature) && signature_valid(
                                Scheme::Es256,
                                key,
                                seq![0u8] + auth_data.take(32) + client_data_hash + credential_id
                                    + uncompressed(x, y),
                                signature,
                            )
                        }
                    }
                    &&& chain_verdict(certs, anchors) == Ok::<AttestationType, Failure>(verdict)
                }
            }
        },
{
}

/// An `android-key` statement is accepted exactly if the leaf holds the ES256 credential key
/// itself, that key signed `auth_data || client_data_hash`, an algorithm is given, and the
/// chain is accepted.
pub proof fn law_android_attestation(
    v: Item,
    auth_data: Seq<u8>,
    client_data_hash: Seq<u8>,
    credential_key: PublicKeyModel,
    anchors: Seq<Seq<u8>>,
    verdict: AttestationType,
)
    ensures
        certified_verdict(
            android_claim(v, auth_data, client_data_hash, credential_key),
            anchors,
        ) == Ok::<AttestationType, Failure>(verdict) <==> {
            statement_of(v, Format::AndroidKey) matches Ok(s) && {
                &&& s.alg is Some
                &&& s.x5c matches Some(certs) && {
                    &&& credential_key matches PublicKeyModel::ES256 { x, y } && {
                        &&& p256_key(certs[0]) == Ok::<Seq<u8>, Failure>(uncompressed(x, y))
                        &&& s.sig matches Some(signature) && signature_valid(
                            Scheme::Es256,
                            uncompressed(x, y),
                            auth_data + client_data_hash,
                            signature,
                        )
                    }
                    &&& chain_verdict(certs, anchors) == Ok::<AttestationType, Failure>(verdict)
                }
            }
        },
{
}

/// An `apple` statement is accepted exactly if the leaf holds the hash of
/// `auth_data || client_data_hash` as its nonce and the ES256 credential key itself, and the
/// chain is accepted.
pub proof fn law_apple_attestation(
    v: Item,
    auth_data: Seq<u8>,
    client_data_hash: Seq<u8>,
    credential_key: PublicKeyModel,
    anchors: Seq<Seq<u8>>,
    verdict: AttestationType,
)
    ensures
        apple_verdict(v, auth_data, client_data_hash, credential_key, anchors) == Ok::<
            AttestationType,
            Failure,
        >(verdict) <==> {
            statement_of(v, Format::Apple) matches Ok(s) && {
                s.x5c matches Some(certs) && {
                    &&& apple_nonce(certs[0]) == Ok::<Seq<u8>, Failure>(
                        sha256_of(auth_data + client_data_hash),
                    )
                    &&& credential_key matches PublicKeyModel::ES256 { x, y } && p256_key(certs[0])
                        == Ok::<Seq<u8>, Failure>(uncompressed(x, y))
                    &&& chain_verdict(certs, anchors) == Ok::<AttestationType, Failure>(verdict)
                }
            }
        },
{
}

/// A `tpm` statement is accepted exactly if it is of version `2.0` with the algorithm of the
/// credential key, `pubArea` holds the credential key, `certInfo` certifies the name of
/// `pubArea` for the hash of `auth_data || client_data_hash`, the leaf's key signed
/// `certInfo`, and the chain is accepted.
pub proof fn law_tpm_attestation(
    v: Item,
    auth_data: Seq<u8>,
    client_data_hash: Seq<u8>,
    credential_key: PublicKeyModel,
    anchors: Seq<Seq<u8>>,
    verdict: AttestationType,
)
    ensures
        tpm_verdict(v, auth_data, client_data_hash, credential_key, anchors) == Ok::<
            AttestationType,
            Failure,
        >(verdict) <==> {
            statement_of(v, Format::Tpm) matches Ok(s) && {
                &&& s.ver == Some("2.0"@)
                &&& s.alg == Some(credential_key.algorithm())
                &&& s.pub_area matches Some(pub_area) && {
                    &&& pub_area_check(pub_area, credential_key) is Ok
                    &&& pub_area_name(pub_area) matches Ok(name) && {
                        s.cert_info matches Some(cert_info) && cert_info_check(
                            cert_info,
                            sha256_of(auth_data + client_data_hash),
                            name,
                        ) is Ok
                    }
                }
                &&& s.x5c matches Some(certs) && {
                    &&& leaf_key(credential_key.algorithm(), certs[0]) matches Ok((scheme, key))
                        && s.sig matches Some(signature) && s.cert_info matches Some(cert_info)
                        && signature_valid(scheme, key, cert_info, signature)
                    &&& chain_verdict(certs, anchors) == Ok::<AttestationType, Failure>(verdict)
                }
            }
        },
{
}

/// The format identifiers are told apart: each one is verified by the rules of its own
/// format.
pub proof fn law_formats_are_told_apart(
    v: Item,
    auth_data: Seq<u8>,
    client_data_hash: Seq<u8>,
    credential_key: PublicKeyModel,
    credential_id: Seq<u8>,
    anchors: Seq<Seq<u8>>,
    aaguid: Seq<u8>,
)
    ensures
        ({
            let verdict = |fmt: Seq<char>|
                attestation_verdict(
                    fmt,
                    v,
                    auth_data,
                    client_data_hash,
                    credential_key,
                    credential_id,
                    anchors,
                    aaguid,
                );
            &&& verdict("packed"@) == packed_verdict(
                v,
                auth_data,
                client_data_hash,
                credential_key,
                anchors,
                aaguid,
            )
            &&& verdict("fido-u2f"@) == certified_verdict(
                u2f_claim(v, auth_data, client_data_hash, credential_id, credential_key),
                anchors,
            )
            &&& verdict("android-key"@) == certified_verdict(
                android_claim(v, auth_data, client_data_hash, credential_key),
                anchors,
            )
            &&& verdict("apple"@) == apple_verdict(
                v,
                auth_data,
                client_data_hash,
                credential_key,
                anchors,
            )
            &&& verdict("tpm"@) == tpm_verdict(
                v,
                auth_data,
                client_data_hash,
                credential_key,
                anchors,
            )
        }),
{
    lemma_format_names();
}

proof fn lemma_format_names()
    ensures
        "packed"@.len() == 6,
        "fido-u2f"@.len() == 8,
        "android-key"@.len() == 11,
        "apple"@.len() == 5,
        "tpm"@.len() == 3,
{
    reveal_strlit("packed");
    reveal_strlit("fido-u2f");
    reveal_strlit("android-key");
    reveal_strlit("apple");
    reveal_strlit("tpm");
}

/// Byte strings as data items.
pub open spec fn byte_items(list: Seq<Seq<u8>>) -> Seq<Item> {
    list.map_values(|bytes: Seq<u8>| Item::Bytes(bytes))
}

/// The certificates of an `x5c` array are its elements, all of them byte strings, in order;
/// there is at least one. Everything else is malformed.
pub proof fn law_x5c_holds_its_certificates(v: Item, certs: Seq<Seq<u8>>)
    ensures
        x5c_certs(v) == Ok::<Seq<Seq<u8>>, Failure>(certs) <==> {
            &&& certs.len() > 0
            &&& v == Item::Array(byte_items(certs))
        },
        x5c_certs(v) matches Err(failure) ==> failure is InvalidAttestationObject,
{
    if let Item::Array(a) = v {
        lemma_x5c_elements(a, certs);
    }
}

proof fn lemma_x5c_elements(a: Seq<Item>, certs: Seq<Seq<u8>>)
    ensures
        x5c_elements(a) == Ok::<Seq<Seq<u8>>, Failure>(certs) <==> a == byte_items(certs),
        x5c_elements(a) matches Err(failure) ==> failure is InvalidAttestationObject,
    decreases a.len(),
{
    let written = byte_items(certs);
    if a.len() == 0 {
        if certs.len() == 0 {
            assert(written =~= a);
            assert(certs =~= Seq::<Seq<u8>>::empty());
        } else {
            assert(written.len() != a.len());
        }
    } else {
        let init = a.drop_last();
        if certs.len() == 0 {
            if let Ok(earlier) = x5c_elements(init) {
                if let Item::Bytes(b) = a.last() {
                    assert(earlier.push(b).len() > 0);
                }
            }
            lemma_x5c_elements(init, certs);
            assert(written.len() != a.len());
        } else {
            let shorter = certs.drop_last();
            lemma_x5c_elements(init, shorter);
            let init_written = byte_items(shorter);
            assert(written.drop_last() =~= init_written);
            assert(written.last() == Item::Bytes(certs.last()));
            if a == written {
                assert(init == init_written);
                assert(shorter.push(certs.last()) =~= certs);
            }
            if x5c_elements(a) == Ok::<Seq<Seq<u8>>, Failure>(certs) {
                let earlier = x5c_elements(init)->Ok_0;
                let b = a.last()->Bytes_0;
                assert(certs == earlier.push(b));
                assert(shorter =~= earlier);
                assert(certs.last() == b);
                assert(a =~= init.push(a.last()));
                assert(written =~= init_written.push(written.last()));
            }
        }
    }
}

proof fn lemma_field_names()
    ensures
        "alg"@ != "sig"@,
        "alg"@ != "x5c"@,
        "alg"@ != "ver"@,
        "sig"@ != "x5c"@,
        "sig"@ != "ver"@,
        "x5c"@ != "ver"@,
        "alg"@.len() == 3,
        "sig"@.len() == 3,
        "x5c"@.len() == 3,
        "ver"@.len() == 3,
        "certInfo"@.len() == 8,
        "pubArea"@.len() == 7,
{
    reveal_strlit("alg");
    reveal_strlit("sig");
    reveal_strlit("x5c");
    reveal_strlit("ver");
    reveal_strlit("certInfo");
    reveal_strlit("pubArea");
    assert("alg"@[0] == 'a' && "sig"@[0] == 's' && "x5c"@[0] == 'x' && "ver"@[0] == 'v');
}

/// A statement says what its entries say: nothing where there is none; a further entry with
/// a field of the format sets that field and no other; one of the wrong type makes the
/// statement malformed for good; and every other entry changes nothing.
pub proof fn law_statement_entries(
    m: Seq<(Item, Item)>,
    format: Format,
    key: Item,
    value: Item,
)
    ensures
        statement_of(Item::Dict(Seq::empty()), format) == Ok::<StatementModel, Failure>(
            StatementModel {
                ver: None,
                alg: None,
                sig: None,
                x5c: None,
                cert_info: None,
                pub_area: None,
            },
        ),
        statement_of(Item::Dict(m), format) is Err ==> statement_of(
            Item::Dict(m.push((key, value))),
            format,
        ) == statement_of(Item::Dict(m), format),
        statement_of(Item::Dict(m), format) matches Ok(s) ==> {
            let next = statement_of(Item::Dict(m.push((key, value))), format);
            let tpm = format is Tpm;
            let known = |name: Seq<char>| {
                ||| name == "x5c"@
                ||| name == "sig"@ && !(format is Apple)
                ||| name == "alg"@ && (tpm || format is Packed || format is AndroidKey)
                ||| tpm && (name == "ver"@ || name == "certInfo"@ || name == "pubArea"@)
            };
            match (key, value) {
                (Item::Text(name), value) if known(name) => {
                    &&& (name == "alg"@ && (value matches Item::Integer(n) && i64::MIN <= n
                        <= i64::MAX)) ==> next == Ok::<StatementModel, Failure>(
                        StatementModel { alg: Some(value->Integer_0 as i64), ..s },
                    )
                    &&& (name == "sig"@ && value is Bytes) ==> next == Ok::<StatementModel, Failure>(
                        StatementModel { sig: Some(value->Bytes_0), ..s },
                    )
                    &&& forall|certs: Seq<Seq<u8>>|
                        name == "x5c"@ && certs.len() > 0 && value == Item::Array(
                            #[trigger] byte_items(certs),
                        ) ==> next == Ok::<StatementModel, Failure>(
                            StatementModel { x5c: Some(certs), ..s },
                        )
                    &&& (name == "ver"@ && value is Text) ==> next == Ok::<StatementModel, Failure>(
                        StatementModel { ver: Some(value->Text_0), ..s },
                    )
                    &&& (name == "certInfo"@ && value is Bytes) ==> next == Ok::<
                        StatementModel,
                        Failure,
                    >(StatementModel { cert_info: Some(value->Bytes_0), ..s })
                    &&& (name == "pubArea"@ && value is Bytes) ==> next == Ok::<
                        StatementModel,
                        Failure,
                    >(StatementModel { pub_area: Some(value->Bytes_0), ..s })
                    &&& ({
                        ||| name == "alg"@ && !(value matches Item::Integer(n) && i64::MIN <= n
                            <= i64::MAX)
                        ||| (name == "sig"@ || name == "certInfo"@ || name == "pubArea"@)
                            && !(value is Bytes)
                        ||| name == "ver"@ && !(value is Text)
                        ||| name == "x5c"@ && x5c_certs(value) is Err
                    }) ==> (next matches Err(failure) && failure is InvalidAttestationObject)
                },
                _ => next == Ok::<StatementModel, Failure>(s),
            }
        },
        !(value is Dict) ==> (statement_of(value, format) matches Err(failure)
            && failure is InvalidAttestationObject),
{
    lemma_field_names();
    let longer = m.push((key, value));
    assert(longer.drop_last() =~= m);
    assert(longer.last() == (key, value));
    assert forall|certs: Seq<Seq<u8>>|
        certs.len() > 0 && value == Item::Array(
            #[trigger] byte_items(certs),
        ) implies x5c_certs(value) == Ok::<Seq<Seq<u8>>, Failure>(certs) by {
        law_x5c_holds_its_certificates(value, certs);
    }
    law_x5c_holds_its_certificates(value, Seq::empty());
}

/// A self attestation in the format `packed` is accepted exactly if the statement has no
/// certificates, names the algorithm of the credential key, and holds a signature by that
/// key of the authenticator data and the client data hash. There is none for ES384.
pub proof fn law_packed_self_attestation(
    v: Item,
    auth_data: Seq<u8>,
    client_data_hash: Seq<u8>,
    credential_key: PublicKeyModel,
    credential_id: Seq<u8>,
    anchors: Seq<Seq<u8>>,
    aaguid: Seq<u8>,
)
    ensures
        ({
            let verdict = attestation_verdict(
                "packed"@,
                v,
                auth_data,
                client_data_hash,
                credential_key,
                credential_id,
                anchors,
                aaguid,
            );
            let message = auth_data + client_data_hash;
            &&& verdict == Ok::<AttestationType, Failure>(AttestationType::SelfAttestation) <==> {
                statement_of(v, Format::Packed) matches Ok(s) && s.x5c is None && {
                    s.sig matches Some(signature) && match credential_key {
                        PublicKeyModel::ES256 { x, y } => s.alg == Some(-7i64) && signature_valid(
                            Scheme::Es256,
                            seq![0x04u8] + x + y,
                            message,
                            signature,
                        ),
                        PublicKeyModel::EdDSA(key) => s.alg == Some(-8i64) && signature_valid(
                            Scheme::EdDsa,
                            key,
                            message,
                            signature,
                        ),
                        PublicKeyModel::RS256 { n, e } => s.alg == Some(-257i64) && {
                            rsa_public_key(n, e) matches Ok(key) && signature_valid(
                                Scheme::Rs256,
                                key,
                                message,
                                signature,
                            )
                        },
                        PublicKeyModel::ES384 { .. } => false,
                    }
                }
            }
            &&& statement_of(v, Format::Packed) matches Ok(s) ==> s.x5c is None ==> {
                &&& s.alg is None || s.sig is None ==> (verdict matches Err(failure)
                    && failure is InvalidAttestationObject)
                &&& s.alg is Some && s.sig is Some ==> {
                    let alg = s.alg->0;
                    let own: i64 = match credential_key {
                        PublicKeyModel::ES256 { .. } => -7i64,
                        PublicKeyModel::ES384 { .. } => -35i64,
                        PublicKeyModel::EdDSA(_) => -8i64,
                        PublicKeyModel::RS256 { .. } => -257i64,
                    };
                    &&& alg != own ==> (verdict matches Err(failure)
                        && failure is InvalidAttestationObject)
                    &&& alg == own && credential_key is ES384 ==> verdict == Err::<
                        AttestationType,
                        Failure,
                    >(Failure::UnsupportedAlgorithm(-35i64))
                    &&& alg == own && !(credential_key is ES384) && verdict is Err ==> (verdict
                        == Err::<AttestationType, Failure>(Failure::SignatureVerificationFailed) || (
                    credential_key matches PublicKeyModel::RS256 { n, e } && rsa_public_key(
                        n,
                        e,
                    ) is Err))
                }
            }
        }),
{
    law_formats_are_told_apart(
        v,
        auth_data,
        client_data_hash,
        credential_key,
        credential_id,
        anchors,
        aaguid,
    );
}

/// The key of a leaf certificate is looked for by algorithm: a P-256 point for ES256, an RSA
/// key for RS256, and none for others.
pub proof fn law_leaf_keys(alg: i64, leaf: Seq<u8>)
    ensures
        alg == -7 ==> match p256_key(leaf) {
            Ok(key) => leaf_key(alg, leaf) == Ok::<(Scheme, Seq<u8>), Failure>(
                (Scheme::Es256, key),
            ),
            Err(failure) => leaf_key(alg, leaf) == Err::<(Scheme, Seq<u8>), Failure>(failure),
        },
        alg == -257 ==> match rsa_key_der(leaf) {
            Ok(key) => leaf_key(alg, leaf) == Ok::<(Scheme, Seq<u8>), Failure>(
                (Scheme::Rs256, key),
            ),
            Err(failure) => leaf_key(alg, leaf) == Err::<(Scheme, Seq<u8>), Failure>(failure),
        },
        alg != -7 && alg != -257 ==> leaf_key(alg, leaf) == Err::<(Scheme, Seq<u8>), Failure>(
            Failure::UnsupportedAlgorithm(alg),
        ),
{
}

/// The verdict on a chain: invalid exactly if some certificate is not linked to the next one,
/// or there are trust anchors and its root does not parse; else, without trust anchors,
/// basic; else verified if some trust anchor signed the root, and untrusted if none did.
pub proof fn law_chain_verdicts(certs: Seq<Seq<u8>>, anchors: Seq<Seq<u8>>)
    ensures
        ({
            let in_order = forall|i: int|
                0 <= i < certs.len() - 1 ==> {
                    &&& certificate_of(#[trigger] certs[i]) matches Some(cert) && {
                        certificate_of(certs[i + 1]) matches Some(next) && cert.issuer
                            == next.subject
                    }
                    &&& signed_by(certs[i], certs[i + 1])
                };
            let anchored = exists|i: int|
                0 <= i < anchors.len() && signed_by(certs.last(), #[trigger] anchors[i]);
            let parses = certificate_of(certs.last()) is Some;
            let verdict = chain_verdict(certs, anchors);
            &&& verdict == Ok::<AttestationType, Failure>(AttestationType::Basic) <==> in_order
                && anchors.len() == 0
            &&& verdict == Ok::<AttestationType, Failure>(AttestationType::BasicVerified)
                <==> in_order && parses && anchored
            &&& verdict == Err::<AttestationType, Failure>(Failure::AttestationRootUntrusted)
                <==> in_order && parses && anchors.len() > 0 && !anchored
            &&& (verdict matches Err(failure) && failure is AttestationChainInvalid)
                <==> !in_order || (anchors.len() > 0 && !parses)
        }),
{
    law_chain_order(certs);
    assert((forall|i: int| 0 <= i < certs.len() - 1 ==> #[trigger] linked(certs, i)) == (forall|
        i: int,
    |
        0 <= i < certs.len() - 1 ==> {
            &&& certificate_of(#[trigger] certs[i]) matches Some(cert) && {
                certificate_of(certs[i + 1]) matches Some(next) && cert.issuer == next.subject
            }
            &&& signed_by(certs[i], certs[i + 1])
        })) by {
        if forall|i: int| 0 <= i < certs.len() - 1 ==> #[trigger] linked(certs, i) {
            assert forall|i: int| 0 <= i < certs.len() - 1 implies {
                &&& certificate_of(#[trigger] certs[i]) matches Some(cert) && {
                    certificate_of(certs[i + 1]) matches Some(next) && cert.issuer == next.subject
                }
                &&& signed_by(certs[i], certs[i + 1])
            } by {
                assert(linked(certs, i));
            }
        }
    }
    let signed = anchors.map_values(|anchor: Seq<u8>| signed_by(certs.last(), anchor));
    if signed.contains(true) {
        let i = choose|i: int| 0 <= i < signed.len() && signed[i] == true;
        assert(signed_by(certs.last(), anchors[i]));
    }
    if exists|i: int| 0 <= i < anchors.len() && signed_by(certs.last(), #[trigger] anchors[i]) {
        let i = choose|i: int|
            0 <= i < anchors.len() && signed_by(certs.last(), #[trigger] anchors[i]);
        assert(signed[i]);
    }
}

/// How the signed formats fail once a statement is complete and a key for its signature is
/// found: a signature that does not verify is told as such; behind it `packed` looks at the
/// model extension of the leaf certificate, at whether it is a certificate authority, and at
/// the chain, in this order, and the others at the chain.
pub proof fn law_signed_attestation_failures(
    v: Item,
    auth_data: Seq<u8>,
    client_data_hash: Seq<u8>,
    credential_key: PublicKeyModel,
    credential_id: Seq<u8>,
    anchors: Seq<Seq<u8>>,
    aaguid: Seq<u8>,
)
    ensures
        ({
            let verdict = |fmt: Seq<char>|
                attestation_verdict(
                    fmt,
                    v,
                    auth_data,
                    client_data_hash,
                    credential_key,
                    credential_id,
                    anchors,
                    aaguid,
                );
            let message = auth_data + client_data_hash;
            let unsigned = Err::<AttestationType, Failure>(Failure::SignatureVerificationFailed);
            &&& statement_of(v, Format::Packed) matches Ok(s) ==> s.x5c matches Some(certs)
                ==> s.sig matches Some(signature) ==> s.alg matches Some(alg) ==> match leaf_key(
                alg,
                certs[0],
            ) {
                Err(failure) => verdict("packed"@) == Err::<AttestationType, Failure>(failure),
                Ok((scheme, key)) => verdict("packed"@) == if !signature_valid(
                    scheme,
                    key,
                    message,
                    signature,
                ) {
                    unsigned
                } else if aaguid_check(certificate_of(certs[0]), aaguid) is Err {
                    Err(Failure::AttestationAaguidMismatch)
                } else if not_ca_check(certificate_of(certs[0])) is Err {
                    Err(Failure::AttestationCertIsCa)
                } else {
                    chain_verdict(certs, anchors)
                },
            }
            &&& statement_of(v, Format::FidoU2f) matches Ok(s) ==> s.x5c matches Some(certs)
                ==> s.sig matches Some(signature) ==> credential_key matches PublicKeyModel::ES256 {
                x,
                y,
            } ==> p256_key(certs[0]) matches Ok(key) ==> auth_data.len() >= 32 ==> verdict(
                "fido-u2f"@,
            ) == if !signature_valid(
                Scheme::Es256,
                key,
                seq![0u8] + auth_data.take(32) + client_data_hash + credential_id + (seq![0x04u8]
                    + x + y),
                signature,
            ) {
                unsigned
            } else {
                chain_verdict(certs, anchors)
            }
            &&& statement_of(v, Format::AndroidKey) matches Ok(s) ==> s.x5c matches Some(certs)
                ==> s.sig matches Some(signature)
                ==> credential_key matches PublicKeyModel::ES256 { x, y } ==> p256_key(
                certs[0],
            ) matches Ok(key) ==> s.alg is Some ==> match key == seq![0x04u8] + x + y {
                false => verdict("android-key"@) matches Err(failure)
                    && failure is InvalidAttestationObject,
                true => verdict("android-key"@) == if !signature_valid(
                    Scheme::Es256,
                    key,
                    message,
                    signature,
                ) {
                    unsigned
                } else {
                    chain_verdict(certs, anchors)
                },
            }
            &&& statement_of(v, Format::Apple) matches Ok(s) ==> s.x5c matches Some(certs)
                ==> credential_key matches PublicKeyModel::ES256 { x, y } ==> p256_key(
                certs[0],
            ) matches Ok(key) ==> apple_nonce(certs[0]) matches Ok(nonce) ==> if nonce
                == sha256_of(message) && key == seq![0x04u8] + x + y {
                verdict("apple"@) == chain_verdict(certs, anchors)
            } else {
                verdict("apple"@) matches Err(failure) && failure is InvalidAttestationObject
            }
        }),
{
    law_formats_are_told_apart(
        v,
        auth_data,
        client_data_hash,
        credential_key,
        credential_id,
        anchors,
        aaguid,
    );
}

/// A statement that lacks a field of its format is malformed, and so is one whose format needs
/// a P-256 key, of the credential or in the leaf certificate, or a nonce in the certificate,
/// and that has none.
pub proof fn law_incomplete_statements_are_malformed(
    v: Item,
    auth_data: Seq<u8>,
    client_data_hash: Seq<u8>,
    credential_key: PublicKeyModel,
    credential_id: Seq<u8>,
    anchors: Seq<Seq<u8>>,
    aaguid: Seq<u8>,
)
    ensures
        ({
            let malformed = |fmt: Seq<char>|
                attestation_verdict(
                    fmt,
                    v,
                    auth_data,
                    client_data_hash,
                    credential_key,
                    credential_id,
                    anchors,
                    aaguid,
                ) matches Err(failure) && failure is InvalidAttestationObject;
            &&& statement_of(v, Format::Packed) matches Ok(s) ==> s.alg is None || s.sig is None
                ==> malformed("packed"@)
            &&& statement_of(v, Format::FidoU2f) matches Ok(s) ==> s.x5c is None || s.sig is None
                || auth_data.len() < 32 || !(credential_key is ES256) || p256_key(
                s.x5c->0[0],
            ) is Err ==> malformed("fido-u2f"@)
            &&& statement_of(v, Format::AndroidKey) matches Ok(s) ==> s.x5c is None || s.sig is None
                || s.alg is None || !(credential_key is ES256) || p256_key(
                s.x5c->0[0],
            ) is Err ==> malformed("android-key"@)
            &&& statement_of(v, Format::Apple) matches Ok(s) ==> s.x5c is None || !(
            credential_key is ES256) || p256_key(s.x5c->0[0]) is Err || apple_nonce(
                s.x5c->0[0],
            ) is Err ==> malformed("apple"@)
            &&& statement_of(v, Format::Tpm) matches Ok(s) ==> s.ver != Some("2.0"@) || s.alg
                != Some(credential_key.algorithm()) || s.x5c is None || s.sig is None
                || s.cert_info is None || s.pub_area is None ==> malformed("tpm"@)
            &&& statement_of(v, Format::Packed) matches Err(_) ==> malformed("packed"@)
            &&& statement_of(v, Format::FidoU2f) matches Err(_) ==> malformed("fido-u2f"@)
            &&& statement_of(v, Format::AndroidKey) matches Err(_) ==> malformed("android-key"@)
            &&& statement_of(v, Format::Apple) matches Err(_) ==> malformed("apple"@)
            &&& statement_of(v, Format::Tpm) matches Err(_) ==> malformed("tpm"@)
        }),
{
    law_formats_are_told_apart(
        v,
        auth_data,
        client_data_hash,
        credential_key,
        credential_id,
        anchors,
        aaguid,
    );
    if let Ok(s) = statement_of(v, Format::FidoU2f) {
        if s.x5c is Some {
            law_p256_key_stands_behind_its_header(s.x5c->0[0]);
        }
    }
    if let Ok(s) = statement_of(v, Format::AndroidKey) {
        if s.x5c is Some {
            law_p256_key_stands_behind_its_header(s.x5c->0[0]);
        }
    }
    if let Ok(s) = statement_of(v, Format::Apple) {
        if s.x5c is Some {
            law_p256_key_stands_behind_its_header(s.x5c->0[0]);
            law_apple_nonce_stands_in_its_extension(s.x5c->0[0], Seq::empty());
        }
    }
    lemma_statement_failures(v, Format::Packed);
    lemma_statement_failures(v, Format::FidoU2f);
    lemma_statement_failures(v, Format::AndroidKey);
    lemma_statement_failures(v, Format::Apple);
    lemma_statement_failures(v, Format::Tpm);
}

proof fn lemma_statement_failures(v: Item, format: Format)
    ensures
        statement_of(v, format) matches Err(failure) ==> failure is InvalidAttestationObject,
    decreases v,
{
    if let Item::Dict(m) = v {
        lemma_field_failures(m, format);
    }
}

proof fn lemma_field_failures(m: Seq<(Item, Item)>, format: Format)
    ensures
        statement_fields(m, format) matches Err(failure) ==> failure is InvalidAttestationObject,
    decreases m.len(),
{
    if m.len() > 0 {
        lemma_field_failures(m.drop_last(), format);
        law_x5c_holds_its_certificates(m.last().1, Seq::empty());
    }
}

/// How a complete TPM statement is judged: by the hash of its public area, the credential key
/// in it, what it certifies, the signature and the chain, in this order.
pub proof fn law_tpm_judgement(
    v: Item,
    auth_data: Seq<u8>,
    client_data_hash: Seq<u8>,
    credential_key: PublicKeyModel,
    credential_id: Seq<u8>,
    anchors: Seq<Seq<u8>>,
    aaguid: Seq<u8>,
)
    ensures
        ({
            let verdict = attestation_verdict(
                "tpm"@,
                v,
                auth_data,
                client_data_hash,
                credential_key,
                credential_id,
                anchors,
                aaguid,
            );
            let fails = |failure: Failure| verdict == Err::<AttestationType, Failure>(failure);
            statement_of(v, Format::Tpm) matches Ok(s) ==> s.x5c matches Some(certs)
                ==> s.sig matches Some(signature) ==> s.cert_info matches Some(info)
                ==> s.pub_area matches Some(area) ==> s.ver == Some("2.0"@) && s.alg == Some(
                credential_key.algorithm(),
            ) ==> match (
                leaf_key(credential_key.algorithm(), certs[0]),
                pub_area_name(area),
            ) {
                (Err(failure), _) => fails(failure),
                (Ok(_), Err(failure)) => fails(failure),
                (Ok((scheme, key)), Ok(name)) => match (
                    pub_area_check(area, credential_key),
                    cert_info_check(info, sha256_of(auth_data + client_data_hash), name),
                ) {
                    (Err(failure), _) => fails(failure),
                    (Ok(_), Err(failure)) => fails(failure),
                    (Ok(_), Ok(_)) => verdict == if signature_valid(scheme, key, info, signature) {
                        chain_verdict(certs, anchors)
                    } else {
                        Err(Failure::SignatureVerificationFailed)
                    },
                },
            }
        }),
{
    law_formats_are_told_apart(
        v,
        auth_data,
        client_data_hash,
        credential_key,
        credential_id,
        anchors,
        aaguid,
    );
}

} // verus!
