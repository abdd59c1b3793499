//! X.509 certificates: what attestation and metadata read out of them.
//!
//! Parsing and signature checks come from `x509_parser`. The raw public keys are found
//! by byte search, since the structures around them are fixed.

use x509_parser::prelude::FromDer;

use vstd::prelude::*;
use vstd::slice::slice_subrange;

use crate::bytes::{
    append_bytes, bytes_equal, contents, copy_bytes, find_bytes, search, take_32,
};
use crate::crypto::MAX_HASHED_LEN;
use crate::data::maybe;
use crate::der::{
    contents_of, der_parse_tlv, der_unwrap_octet_string, der_unwrap_sequence, element,
    first_element, law_element_reads_back, law_element_unwraps,
};
use crate::error::{outcome, Failure, WebAuthnError};
use crate::text::{decimal, decimal_text, join, join3, join5, text_equal};

verus! {

/// The parts of a certificate that decisions rest on.
#[derive(Debug)]
pub struct Certificate {
    /// The DER bytes of the issuer's name.
    pub issuer: Vec<u8>,
    /// The DER bytes of the subject's name.
    pub subject: Vec<u8>,
    /// Each extension's OID in dotted form and its value, in order.
    pub extensions: Vec<(String, Vec<u8>)>,
    /// The CA component of the Basic Constraints extension, if there is exactly one
    /// such extension and it is readable.
    pub ca: Option<bool>,
}

/// The mathematical form of a [`Certificate`].
pub ghost struct CertificateModel {
    pub issuer: Seq<u8>,
    pub subject: Seq<u8>,
    pub extensions: Seq<(Seq<char>, Seq<u8>)>,
    pub ca: Option<bool>,
}

impl View for Certificate {
    type V = CertificateModel;

    open spec fn view(&self) -> CertificateModel {
        CertificateModel {
            issuer: self.issuer@,
            subject: self.subject@,
            extensions: self.extensions@.map_values(|e: (String, Vec<u8>)| (e.0@, e.1@)),
            ca: self.ca,
        }
    }
}

/// The certificate at the start of a byte string, if it is well-formed DER.
pub uninterp spec fn certificate_of(der: Seq<u8>) -> Option<CertificateModel>;

/// Whether both byte strings start with a certificate and the first one's signature
/// verifies under the second one's public key.
pub uninterp spec fn signed_by(der: Seq<u8>, signer: Seq<u8>) -> bool;

/// `x509_parser::certificate::X509Certificate::from_der` and the accessors of its
/// result, which depend on the bytes alone. Two names are equal to that crate exactly
/// if their DER bytes are.
#[verifier::external_body]
fn parse_certificate(der: &[u8]) -> (r: Option<Certificate>)
    ensures
        maybe(r) == certificate_of(der@),
{
    match x509_parser::certificate::X509Certificate::from_der(der) {
        Ok((_, cert)) => Some(
            Certificate {
                issuer: cert.issuer().as_raw().to_vec(),
                subject: cert.subject().as_raw().to_vec(),
                extensions: cert.extensions().iter().map(|e| (e.oid.to_id_string(), e.value.to_vec())).collect(),
                ca: cert.basic_constraints().ok().flatten().map(|b| b.value.ca),
            },
        ),
        Err(_) => None,
    }
}

/// `x509_parser::certificate::X509Certificate::verify_signature` with the public key of
/// the certificate in `signer`; false where either does not parse. It hashes a part of
/// `der`, which must not be too long for that.
#[verifier::external_body]
fn verify_certificate(der: &[u8], signer: &[u8]) -> (valid: bool)
    requires
        der@.len() + 64 <= MAX_HASHED_LEN,
    ensures
        valid == signed_by(der@, signer@),
{
    match (
        x509_parser::certificate::X509Certificate::from_der(der),
        x509_parser::certificate::X509Certificate::from_der(signer),
    ) {
        (Ok((_, cert)), Ok((_, anchor))) => cert.verify_signature(Some(anchor.public_key())).is_ok(),
        _ => false,
    }
}

/// Whether every certificate of a list is short enough to be checked.
pub open spec fn checkable(certs: Seq<Seq<u8>>) -> bool {
    forall|i: int| 0 <= i < certs.len() ==> (#[trigger] certs[i]).len() + 64 <= MAX_HASHED_LEN
}

/// Whether every certificate of a list is short enough to be checked.
pub fn all_checkable(certs: &Vec<Vec<u8>>) -> (all: bool)
    ensures
        all == checkable(contents(certs@)),
{
    let mut i: usize = 0;
    while i < certs.len()
        invariant
            i <= certs@.len(),
            forall|k: int|
                0 <= k < i ==> (#[trigger] contents(certs@)[k]).len() + 64 <= MAX_HASHED_LEN,
        decreases certs.len() - i,
    {
        assert(contents(certs@)[i as int] == certs@[i as int]@);
        if certs[i].len() as u64 > MAX_HASHED_LEN - 64 {
            return false;
        }
        i += 1;
    }
    true
}

/// What is wrong between certificate `i` of a chain and the next one, if anything.
pub open spec fn link_fault(
    i: nat,
    cert: Option<CertificateModel>,
    next: Option<CertificateModel>,
    signed: bool,
) -> Option<Seq<char>> {
    match (cert, next) {
        (None, _) => Some(
            "x5c["@ + decimal(i) + "] is not a valid DER-encoded X.509 certificate"@,
        ),
        (Some(_), None) => Some(
            "x5c["@ + decimal(i + 1) + "] is not a valid DER-encoded X.509 certificate"@,
        ),
        (Some(c), Some(n)) => if c.issuer != n.subject {
            Some(
                "x5c["@ + decimal(i) + "].issuer does not match x5c["@ + decimal(i + 1)
                    + "].subject"@,
            )
        } else if !signed {
            Some("x5c["@ + decimal(i) + "] is not signed by x5c["@ + decimal(i + 1) + "]"@)
        } else {
            None
        },
    }
}

/// The first fault in the order of a chain, from certificate `i` on.
pub open spec fn chain_fault_from(certs: Seq<Seq<u8>>, i: nat) -> Option<Seq<char>>
    decreases certs.len() - i,
{
    if i + 1 >= certs.len() {
        None
    } else {
        let cert = certs[i as int];
        let next = certs[i as int + 1];
        match link_fault(i, certificate_of(cert), certificate_of(next), signed_by(cert, next)) {
            Some(fault) => Some(fault),
            None => chain_fault_from(certs, i + 1),
        }
    }
}

/// The first fault in the order of a chain: each certificate must be issued and signed
/// by the next one.
pub open spec fn chain_fault(certs: Seq<Seq<u8>>) -> Option<Seq<char>> {
    chain_fault_from(certs, 0)
}

/// Judges one link of a chain.
pub fn check_link(
    i: usize,
    cert: Option<&Certificate>,
    next: Option<&Certificate>,
    signed: bool,
) -> (r: Result<(), String>)
    requires
        i < usize::MAX,
    ensures
        match r {
            Ok(()) => link_fault(i as nat, maybe(cert), maybe(next), signed) is None,
            Err(fault) => link_fault(i as nat, maybe(cert), maybe(next), signed) == Some(fault@),
        },
{
    let here = decimal_text(i as u64);
    let there = decimal_text((i + 1) as u64);
    match (cert, next) {
        (None, _) => Err(
            join3("x5c[", here.as_str(), "] is not a valid DER-encoded X.509 certificate"),
        ),
        (Some(_), None) => Err(
            join3("x5c[", there.as_str(), "] is not a valid DER-encoded X.509 certificate"),
        ),
        (Some(c), Some(n)) => {
            if !bytes_equal(c.issuer.as_slice(), n.subject.as_slice()) {
                Err(
                    join5(
                        "x5c[",
                        here.as_str(),
                        "].issuer does not match x5c[",
                        there.as_str(),
                        "].subject",
                    ),
                )
            } else if !signed {
                Err(join5("x5c[", here.as_str(), "] is not signed by x5c[", there.as_str(), "]"))
            } else {
                Ok(())
            }
        },
    }
}

/// Verifies the order of a leaf-first chain; the error tells the first fault.
pub fn verify_chain_order(certs: &Vec<Vec<u8>>) -> (r: Result<(), String>)
    requires
        checkable(contents(certs@)),
    ensures
        match r {
            Ok(()) => chain_fault(contents(certs@)) is None,
            Err(fault) => chain_fault(contents(certs@)) == Some(fault@),
        },
{
    let ghost chain = contents(certs@);
    let mut i: usize = 0;
    while i + 1 < certs.len()
        invariant
            i < usize::MAX,
            i <= certs@.len(),
            chain == contents(certs@),
            checkable(chain),
            chain_fault_from(chain, i as nat) == chain_fault(chain),
        decreases certs.len() - i,
    {
        assert(chain[i as int] == certs@[i as int]@);
        assert(chain[i + 1] == certs@[i + 1]@);
        let cert = parse_certificate(certs[i].as_slice());
        let next = parse_certificate(certs[i + 1].as_slice());
        let signed = verify_certificate(certs[i].as_slice(), certs[i + 1].as_slice());
        if let Err(fault) = check_link(i, cert.as_ref(), next.as_ref(), signed) {
            return Err(fault);
        }
        i += 1;
    }
    Ok(())
}

/// Whether the certificate in `der` is signed by the key of the one in `signer`.
pub fn cert_signed_by(der: &[u8], signer: &[u8]) -> (signed: bool)
    requires
        der@.len() + 64 <= MAX_HASHED_LEN,
    ensures
        signed == signed_by(der@, signer@),
{
    verify_certificate(der, signer)
}

/// Reads a certificate; `None` where it is not well-formed DER.
pub fn read_certificate(der: &[u8]) -> (r: Option<Certificate>)
    ensures
        maybe(r) == certificate_of(der@),
{
    parse_certificate(der)
}

/// The DER value of an `id-fido-gen-ce-aaguid` extension: an OCTET STRING that wraps the
/// AAGUID.
pub open spec fn aaguid_extension_value(aaguid: Seq<u8>) -> Seq<u8> {
    seq![0x04u8, 0x10u8] + aaguid
}

/// The check of a certificate's AAGUID extensions, by the OID 1.3.6.1.4.1.45724.1.1.4:
/// each one must hold `aaguid`. A certificate without one, or one that does not parse,
/// passes.
pub open spec fn aaguid_check(cert: Option<CertificateModel>, aaguid: Seq<u8>) -> Result<
    (),
    Failure,
> {
    match cert {
        Some(c) => if exists|i: int|
            0 <= i < c.extensions.len() && (#[trigger] c.extensions[i]).0
                == "1.3.6.1.4.1.45724.1.1.4"@ && c.extensions[i].1 != aaguid_extension_value(
                aaguid,
            ) {
            Err(Failure::AttestationAaguidMismatch)
        } else {
            Ok(())
        },
        None => Ok(()),
    }
}

/// Checks the AAGUID extensions of a parsed certificate.
pub fn check_aaguid_extension(cert: Option<&Certificate>, aaguid: &[u8; 16]) -> (r: Result<
    (),
    WebAuthnError,
>)
    ensures
        outcome(r) == aaguid_check(maybe(cert), aaguid@),
{
    let parsed = match cert {
        Some(parsed) => parsed,
        None => return Ok(()),
    };
    let mut expected: Vec<u8> = vec![0x04, 0x10];
    append_bytes(&mut expected, aaguid.as_slice());
    assert(expected@ =~= aaguid_extension_value(aaguid@));
    let mut i: usize = 0;
    while i < parsed.extensions.len()
        invariant
            i <= parsed.extensions@.len(),
            cert == Some(parsed),
            expected@ == aaguid_extension_value(aaguid@),
            forall|k: int|
                0 <= k < i ==> ((#[trigger] parsed@.extensions[k]).0 == "1.3.6.1.4.1.45724.1.1.4"@
                    ==> parsed@.extensions[k].1 == expected@),
        decreases parsed.extensions.len() - i,
    {
        assert(parsed@.extensions[i as int] == (
            parsed.extensions@[i as int].0@,
            parsed.extensions@[i as int].1@,
        ));
        if text_equal(parsed.extensions[i].0.as_str(), "1.3.6.1.4.1.45724.1.1.4") && !bytes_equal(
            parsed.extensions[i].1.as_slice(),
            expected.as_slice(),
        ) {
            return Err(WebAuthnError::AttestationAaguidMismatch);
        }
        i += 1;
    }
    Ok(())
}

/// Checks that an attestation certificate, where it names an authenticator model, names
/// the one with `aaguid`.
pub fn verify_cert_aaguid_extension(cert_der: &[u8], aaguid: &[u8; 16]) -> (r: Result<
    (),
    WebAuthnError,
>)
    ensures
        outcome(r) == aaguid_check(certificate_of(cert_der@), aaguid@),
{
    let cert = parse_certificate(cert_der);
    check_aaguid_extension(cert.as_ref(), aaguid)
}

/// The check that a certificate is no certificate authority, as far as it says so.
pub open spec fn not_ca_check(cert: Option<CertificateModel>) -> Result<(), Failure> {
    match cert {
        Some(c) => if c.ca == Some(true) {
            Err(Failure::AttestationCertIsCa)
        } else {
            Ok(())
        },
        None => Ok(()),
    }
}

/// Checks the Basic Constraints of a parsed certificate.
pub fn check_not_ca(cert: Option<&Certificate>) -> (r: Result<(), WebAuthnError>)
    ensures
        outcome(r) == not_ca_check(maybe(cert)),
{
    match cert {
        Some(c) => match c.ca {
            Some(true) => Err(WebAuthnError::AttestationCertIsCa),
            _ => Ok(()),
        },
        None => Ok(()),
    }
}

/// Checks that an attestation certificate does not declare itself a certificate
/// authority. One that does not parse passes.
pub fn verify_cert_is_not_ca(cert_der: &[u8]) -> (r: Result<(), WebAuthnError>)
    ensures
        outcome(r) == not_ca_check(certificate_of(cert_der@)),
{
    let cert = parse_certificate(cert_der);
    check_not_ca(cert.as_ref())
}

/// What stands before the coordinates of a P-256 public key in a certificate:
/// `SEQUENCE { SEQUENCE { OID ecPublicKey, OID prime256v1 }, BIT STRING }` up to and with
/// the prefix of an uncompressed point.
pub open spec fn p256_key_prefix() -> Seq<u8> {
    seq![
        0x30u8, 0x59, 0x30, 0x13, 0x06, 0x07, 0x2a, 0x86, 0x48, 0xce, 0x3d, 0x02, 0x01, 0x06,
        0x08, 0x2a, 0x86, 0x48, 0xce, 0x3d, 0x03, 0x01, 0x07, 0x03, 0x42, 0x00, 0x04,
    ]
}

/// The DER bytes of the OID `rsaEncryption`, 1.2.840.113549.1.1.1.
pub open spec fn rsa_encryption_oid() -> Seq<u8> {
    seq![0x06u8, 0x09, 0x2a, 0x86, 0x48, 0x86, 0xf7, 0x0d, 0x01, 0x01, 0x01]
}

/// The DER bytes of the OID of Apple's nonce extension, 1.2.840.113635.100.8.2.
pub open spec fn apple_nonce_oid() -> Seq<u8> {
    seq![0x06u8, 0x09, 0x2a, 0x86, 0x48, 0x86, 0xf7, 0x63, 0x64, 0x08, 0x02]
}

/// The failure for a certificate without the expected contents.
pub open spec fn bad_certificate(message: Seq<char>) -> Failure {
    Failure::InvalidAttestationObject(message)
}

fn reject_certificate(message: &str) -> (e: WebAuthnError)
    ensures
        e@ == bad_certificate(message@),
{
    WebAuthnError::InvalidAttestationObject(message.to_string())
}

/// The 65-byte uncompressed P-256 point behind the first P-256 key prefix.
pub open spec fn p256_key(der: Seq<u8>) -> Result<Seq<u8>, Failure> {
    match search(der, p256_key_prefix()) {
        Some(at) if at + 91 <= der.len() => Ok(der.subrange(at + 26, at + 91)),
        _ => Err(
            bad_certificate("fido-u2f: certificate does not contain a P-256 EC public key"@),
        ),
    }
}

/// Extracts the uncompressed P-256 public key `0x04 || x || y` from a certificate.
pub fn extract_ec_p256_public_key_from_cert(cert_der: &[u8]) -> (r: Result<Vec<u8>, WebAuthnError>)
    ensures
        outcome(r) == p256_key(cert_der@),
{
    let prefix: Vec<u8> = vec![
        0x30, 0x59, 0x30, 0x13, 0x06, 0x07, 0x2a, 0x86, 0x48, 0xce, 0x3d, 0x02, 0x01, 0x06, 0x08,
        0x2a, 0x86, 0x48, 0xce, 0x3d, 0x03, 0x01, 0x07, 0x03, 0x42, 0x00, 0x04,
    ];
    assert(prefix@ =~= p256_key_prefix());
    if let Some(at) = find_bytes(cert_der, prefix.as_slice()) {
        if cert_der.len() - at >= 91 {
            return Ok(copy_bytes(slice_subrange(cert_der, at + 26, at + 91)));
        }
    }
    Err(reject_certificate("fido-u2f: certificate does not contain a P-256 EC public key"))
}

/// The `RSAPublicKey` in the BIT STRING that follows the algorithm parameters behind the
/// first `rsaEncryption` OID.
pub open spec fn rsa_key_der(der: Seq<u8>) -> Result<Seq<u8>, Failure> {
    match search(der, rsa_encryption_oid()) {
        None => Err(
            bad_certificate("tpm: attestation cert does not contain rsaEncryption OID"@),
        ),
        Some(at) => match first_element(der.skip(at + 11)) {
            None => Err(
                bad_certificate(
                    "tpm: failed to parse AlgorithmIdentifier params after rsaEncryption OID"@,
                ),
            ),
            Some((_, _, after)) => match first_element(after) {
                None => Err(
                    bad_certificate("tpm: failed to parse SubjectPublicKeyInfo BIT STRING"@),
                ),
                Some((tag, bits, _)) => if tag != 0x03 {
                    Err(
                        bad_certificate(
                            "tpm: expected BIT STRING after AlgorithmIdentifier in SubjectPublicKeyInfo"@,
                        ),
                    )
                } else if bits.len() == 0 {
                    Err(bad_certificate("tpm: BIT STRING for RSA public key is too short"@))
                } else {
                    Ok(bits.skip(1))
                },
            },
        },
    }
}

/// Extracts the DER-encoded `RSAPublicKey` from a certificate.
pub fn extract_rsa_public_key_der_from_cert(cert_der: &[u8]) -> (r: Result<Vec<u8>, WebAuthnError>)
    ensures
        outcome(r) == rsa_key_der(cert_der@),
{
    let oid: Vec<u8> = vec![
        0x06, 0x09, 0x2a, 0x86, 0x48, 0x86, 0xf7, 0x0d, 0x01, 0x01, 0x01,
    ];
    assert(oid@ =~= rsa_encryption_oid());
    let at: usize = match find_bytes(cert_der, oid.as_slice()) {
        Some(at) => at,
        None => return Err(
            reject_certificate("tpm: attestation cert does not contain rsaEncryption OID"),
        ),
    };
    let rest = slice_subrange(cert_der, at + 11, cert_der.len());
    assert(rest@ =~= cert_der@.skip(at + 11));
    let after = match der_parse_tlv(rest) {
        Some((_, _, after)) => after,
        None => return Err(
            reject_certificate(
                "tpm: failed to parse AlgorithmIdentifier params after rsaEncryption OID",
            ),
        ),
    };
    let (tag, bits) = match der_parse_tlv(after) {
        Some((tag, bits, _)) => (tag, bits),
        None => return Err(
            reject_certificate("tpm: failed to parse SubjectPublicKeyInfo BIT STRING"),
        ),
    };
    if tag != 0x03 {
        return Err(
            reject_certificate(
                "tpm: expected BIT STRING after AlgorithmIdentifier in SubjectPublicKeyInfo",
            ),
        );
    }
    if bits.len() == 0 {
        return Err(reject_certificate("tpm: BIT STRING for RSA public key is too short"));
    }
    let key = slice_subrange(bits, 1, bits.len());
    assert(key@ =~= bits@.skip(1));
    Ok(copy_bytes(key))
}

/// What follows an optional criticality flag, a BOOLEAN of three bytes.
pub open spec fn skip_critical(bytes: Seq<u8>) -> Seq<u8> {
    if bytes.len() > 0 && bytes[0] == 0x01 {
        if bytes.len() < 3 {
            Seq::empty()
        } else {
            bytes.skip(3)
        }
    } else {
        bytes
    }
}

/// The nonce in Apple's extension: an OCTET STRING that wraps
/// `SEQUENCE { SEQUENCE { OCTET STRING nonce } }` behind the first OID of the extension.
pub open spec fn apple_nonce(der: Seq<u8>) -> Result<Seq<u8>, Failure> {
    match search(der, apple_nonce_oid()) {
        None => Err(
            bad_certificate(
                "apple: credential certificate missing Apple nonce extension (OID 1.2.840.113635.100.8.2)"@,
            ),
        ),
        Some(at) => match contents_of(skip_critical(der.skip(at + 11)), 0x04) {
            None => Err(bad_certificate("apple: failed to parse extension extnValue OCTET STRING"@)),
            Some(value) => match contents_of(value, 0x30) {
                None => Err(
                    bad_certificate("apple: failed to parse extension value outer SEQUENCE"@),
                ),
                Some(outer) => match contents_of(outer, 0x30) {
                    None => Err(
                        bad_certificate("apple: failed to parse extension value inner SEQUENCE"@),
                    ),
                    Some(inner) => match contents_of(inner, 0x04) {
                        None => Err(
                            bad_certificate(
                                "apple: failed to parse nonce OCTET STRING in extension"@,
                            ),
                        ),
                        Some(nonce) => if nonce.len() != 32 {
                            Err(
                                bad_certificate(
                                    "apple: extension nonce must be 32 bytes, got "@ + decimal(
                                        nonce.len(),
                                    ),
                                ),
                            )
                        } else {
                            Ok(nonce)
                        },
                    },
                },
            },
        },
    }
}

/// Extracts the 32-byte nonce of Apple's extension from a certificate.
pub fn extract_apple_nonce_from_cert(cert_der: &[u8]) -> (r: Result<[u8; 32], WebAuthnError>)
    ensures
        outcome(r) == apple_nonce(cert_der@),
{
    let oid: Vec<u8> = vec![
        0x06, 0x09, 0x2a, 0x86, 0x48, 0x86, 0xf7, 0x63, 0x64, 0x08, 0x02,
    ];
    assert(oid@ =~= apple_nonce_oid());
    let at: usize = match find_bytes(cert_der, oid.as_slice()) {
        Some(at) => at,
        None => return Err(
            reject_certificate(
                "apple: credential certificate missing Apple nonce extension (OID 1.2.840.113635.100.8.2)",
            ),
        ),
    };
    let rest = slice_subrange(cert_der, at + 11, cert_der.len());
    assert(rest@ =~= cert_der@.skip(at + 11));
    let start: usize = if rest.len() > 0 && rest[0] == 0x01 {
        if rest.len() < 3 {
            rest.len()
        } else {
            3
        }
    } else {
        0
    };
    let wrapped = slice_subrange(rest, start, rest.len());
    assert(wrapped@ =~= skip_critical(rest@));
    let value = match der_unwrap_octet_string(wrapped) {
        Some(value) => value,
        None => return Err(
            reject_certificate("apple: failed to parse extension extnValue OCTET STRING"),
        ),
    };
    let outer = match der_unwrap_sequence(value) {
        Some(outer) => outer,
        None => return Err(
            reject_certificate("apple: failed to parse extension value outer SEQUENCE"),
        ),
    };
    let inner = match der_unwrap_sequence(outer) {
        Some(inner) => inner,
        None => return Err(
            reject_certificate("apple: failed to parse extension value inner SEQUENCE"),
        ),
    };
    let nonce = match der_unwrap_octet_string(inner) {
        Some(nonce) => nonce,
        None => return Err(
            reject_certificate("apple: failed to parse nonce OCTET STRING in extension"),
        ),
    };
    if nonce.len() != 32 {
        return Err(
            WebAuthnError::InvalidAttestationObject(
                join(
                    "apple: extension nonce must be 32 bytes, got ",
                    decimal_text(nonce.len() as u64).as_str(),
                ),
            ),
        );
    }
    assert(nonce@.take(32) =~= nonce@);
    Ok(take_32(nonce))
}

/// A chain is in order exactly if each certificate but the last parses, as does the next
/// one, names the next one as its issuer and is signed by it.
pub proof fn law_chain_order(certs: Seq<Seq<u8>>)
    ensures
        chain_fault(certs) is None <==> forall|i: int|
            0 <= i < certs.len() - 1 ==> #[trigger] linked(certs, i),
{
    lemma_chain_order_from(certs, 0);
}

/// Whether certificate `i` of a chain is issued and signed by the next one.
pub open spec fn linked(certs: Seq<Seq<u8>>, i: int) -> bool {
    &&& certificate_of(certs[i]) matches Some(cert) && {
        certificate_of(certs[i + 1]) matches Some(next) && cert.issuer == next.subject
    }
    &&& signed_by(certs[i], certs[i + 1])
}

proof fn lemma_chain_order_from(certs: Seq<Seq<u8>>, start: nat)
    ensures
        chain_fault_from(certs, start) is None <==> forall|i: int|
            start <= i < certs.len() - 1 ==> #[trigger] linked(certs, i),
    decreases certs.len() - start,
{
    if start + 1 < certs.len() {
        lemma_chain_order_from(certs, start + 1);
        assert(chain_fault_from(certs, start) is None <==> linked(certs, start as int)
            && chain_fault_from(certs, start + 1) is None);
    }
}

/// The RSA key in a certificate is found where it was put: behind the first
/// `rsaEncryption` OID, a NULL and the header of its BIT STRING.
#[verifier::spinoff_prover]
pub proof fn law_rsa_key_is_found(before: Seq<u8>, key: Seq<u8>, rest: Seq<u8>)
    requires
        key.len() < 0xFFFF_FFFF,
        search(
            before + rsa_encryption_oid() + element(0x05, Seq::empty()) + element(
                0x03,
                seq![0u8] + key,
            ) + rest,
            rsa_encryption_oid(),
        ) == Some(before.len() as int),
    ensures
        rsa_key_der(
            before + rsa_encryption_oid() + element(0x05, Seq::empty()) + element(
                0x03,
                seq![0u8] + key,
            ) + rest,
        ) == Ok::<Seq<u8>, Failure>(key),
{
    let bits = element(0x03, seq![0u8] + key);
    let null = element(0x05, Seq::<u8>::empty());
    let der = before + rsa_encryption_oid() + null + bits + rest;
    assert(der.skip(before.len() as int + 11) =~= null + (bits + rest));
    law_element_reads_back(0x05, Seq::empty(), bits + rest);
    law_element_reads_back(0x03, seq![0u8] + key, rest);
    assert((seq![0u8] + key).skip(1) =~= key);
    assert(search(der, rsa_encryption_oid()) == Some(before.len() as int));
    assert(first_element(der.skip(before.len() as int + 11)) == Some(
        (0x05u8, Seq::<u8>::empty(), bits + rest),
    ));
    assert(first_element(bits + rest) == Some((0x03u8, seq![0u8] + key, rest)));
    assert(rsa_key_der(der) == Ok::<Seq<u8>, Failure>(key));
}

/// The P-256 point in a certificate is found where it was put: behind the first prefix of
/// such a key, whose last byte is the first one of the point.
pub proof fn law_p256_key_is_found(before: Seq<u8>, coordinates: Seq<u8>, rest: Seq<u8>)
    requires
        coordinates.len() == 64,
        search(before + p256_key_prefix() + coordinates + rest, p256_key_prefix()) == Some(
            before.len() as int,
        ),
    ensures
        p256_key(before + p256_key_prefix() + coordinates + rest) == Ok::<Seq<u8>, Failure>(
            seq![0x04u8] + coordinates,
        ),
{
    let der = before + p256_key_prefix() + coordinates + rest;
    let at = before.len() as int;
    assert(der.subrange(at + 26, at + 91) =~= seq![0x04u8] + coordinates);
}

/// The nonce of Apple's extension is found where it was put, with or without a criticality
/// flag before it.
#[verifier::spinoff_prover]
pub proof fn law_apple_nonce_is_found(
    before: Seq<u8>,
    critical: Seq<u8>,
    nonce: Seq<u8>,
    rest: Seq<u8>,
)
    requires
        nonce.len() == 32,
        critical == Seq::<u8>::empty() || critical == seq![0x01u8, 0x01, 0xFF],
        search(
            before + apple_nonce_oid() + critical + element(
                0x04,
                element(0x30, element(0x30, element(0x04, nonce))),
            ) + rest,
            apple_nonce_oid(),
        ) == Some(before.len() as int),
    ensures
        apple_nonce(
            before + apple_nonce_oid() + critical + element(
                0x04,
                element(0x30, element(0x30, element(0x04, nonce))),
            ) + rest,
        ) == Ok::<Seq<u8>, Failure>(nonce),
{
    let octets = element(0x04, nonce);
    let inner = element(0x30, octets);
    let outer = element(0x30, inner);
    let wrapped = element(0x04, outer);
    law_element_unwraps(0x04, nonce, rest);
    law_element_unwraps(0x30, octets, rest);
    law_element_unwraps(0x30, inner, rest);
    law_element_unwraps(0x04, outer, rest);
    lemma_nonce_wrapper(before, critical, wrapped, rest);
}

proof fn lemma_nonce_wrapper(before: Seq<u8>, critical: Seq<u8>, wrapped: Seq<u8>, rest: Seq<u8>)
    requires
        critical == Seq::<u8>::empty() || critical == seq![0x01u8, 0x01, 0xFF],
        wrapped.len() > 0,
        wrapped[0] == 0x04,
    ensures
        skip_critical(
            (before + apple_nonce_oid() + critical + wrapped + rest).skip(before.len() as int + 11),
        ) == wrapped + rest,
{
    let der = before + apple_nonce_oid() + critical + wrapped + rest;
    assert(der.skip(before.len() as int + 11) =~= critical + (wrapped + rest));
    assert(skip_critical(critical + (wrapped + rest)) =~= wrapped + rest);
}

/// The P-256 key of a certificate is the uncompressed point behind the first header of such a
/// key; there is none exactly if no such header, with 64 bytes behind it, is there.
pub proof fn law_p256_key_stands_behind_its_header(der: Seq<u8>)
    ensures
        match p256_key(der) {
            Ok(key) => search(der, p256_key_prefix()) matches Some(at) && {
                &&& key.len() == 65
                &&& key[0] == 0x04
                &&& at + p256_key_prefix().len() + 64 <= der.len()
                &&& key.skip(1) == der.subrange(
                    at + p256_key_prefix().len(),
                    at + p256_key_prefix().len() + 64,
                )
            },
            Err(failure) => {
                &&& failure is InvalidAttestationObject
                &&& search(der, p256_key_prefix()) matches Some(at) ==> at
                    + p256_key_prefix().len() + 64 > der.len()
            },
        },
{
    crate::bytes::law_search_finds_the_first(der, p256_key_prefix());
    if let Ok(key) = p256_key(der) {
        let at = search(der, p256_key_prefix())->0;
        let found = der.subrange(at, at + 27);
        assert(found == p256_key_prefix());
        assert(der[at + 26] == found[26]);
        assert(key.skip(1) =~= der.subrange(at + 27, at + 91));
    }
}

/// The RSA key of a certificate stands in the bit string behind the parameters of the first
/// RSA algorithm identifier, behind the count of unused bits; there is none exactly if that
/// is not there.
pub proof fn law_rsa_key_stands_in_its_bit_string(der: Seq<u8>, key: Seq<u8>)
    ensures
        rsa_key_der(der) == Ok::<Seq<u8>, Failure>(key) <==> {
            search(der, rsa_encryption_oid()) matches Some(at) && {
                first_element(der.skip(at + 11)) matches Some((_, _, rest)) && {
                    first_element(rest) matches Some((tag, bits, _)) && tag == 0x03 && bits.len()
                        == key.len() + 1 && bits.skip(1) == key
                }
            }
        },
        rsa_key_der(der) matches Err(failure) ==> failure is InvalidAttestationObject,
{
}

/// The nonce of a certificate is the 32 bytes in the octet string in two sequences in the
/// octet string that is the value of Apple's extension, which may be marked critical; there
/// is none exactly if that is not there.
pub proof fn law_apple_nonce_stands_in_its_extension(der: Seq<u8>, nonce: Seq<u8>)
    ensures
        apple_nonce(der) == Ok::<Seq<u8>, Failure>(nonce) <==> {
            &&& nonce.len() == 32
            &&& search(der, apple_nonce_oid()) matches Some(at) && {
                let behind = der.skip(at + 11);
                let value = if behind.len() > 0 && behind[0] == 0x01 {
                    if behind.len() < 3 {
                        Seq::empty()
                    } else {
                        behind.skip(3)
                    }
                } else {
                    behind
                };
                contents_of(value, 0x04) matches Some(a) && {
                    contents_of(a, 0x30) matches Some(b) && {
                        contents_of(b, 0x30) matches Some(c) && contents_of(c, 0x04) == Some(nonce)
                    }
                }
            }
        },
        apple_nonce(der) matches Err(failure) ==> failure is InvalidAttestationObject,
{
}

/// A leaf certificate names another model exactly if some extension with the model's object
/// identifier holds anything but an octet string of the 16 bytes of the AAGUID.
pub proof fn law_model_extension(cert: Option<CertificateModel>, aaguid: Seq<u8>)
    ensures
        aaguid_check(cert, aaguid) is Ok <==> (cert matches Some(c) ==> forall|i: int|
            0 <= i < c.extensions.len() && (#[trigger] c.extensions[i]).0
                == "1.3.6.1.4.1.45724.1.1.4"@ ==> c.extensions[i].1 == seq![0x04u8, 0x10u8]
                + aaguid),
        aaguid_check(cert, aaguid) matches Err(failure) ==> failure
            == Failure::AttestationAaguidMismatch,
        not_ca_check(cert) is Ok <==> !(cert matches Some(c) && c.ca == Some(true)),
        not_ca_check(cert) matches Err(failure) ==> failure == Failure::AttestationCertIsCa,
{
}

/// The bytes that are looked for in a certificate are DER: the header of a public key on
/// P-256 up to its point, and the object identifiers of RSA keys and of Apple's nonce.
pub proof fn law_searched_bytes()
    ensures
        p256_key_prefix() == seq![0x30u8, 0x59] + element(
            0x30,
            element(0x06, seq![0x2au8, 0x86, 0x48, 0xce, 0x3d, 0x02, 0x01]) + element(
                0x06,
                seq![0x2au8, 0x86, 0x48, 0xce, 0x3d, 0x03, 0x01, 0x07],
            ),
        ) + seq![0x03u8, 0x42, 0x00, 0x04],
        rsa_encryption_oid() == element(
            0x06,
            seq![0x2au8, 0x86, 0x48, 0x86, 0xf7, 0x0d, 0x01, 0x01, 0x01],
        ),
        apple_nonce_oid() == element(
            0x06,
            seq![0x2au8, 0x86, 0x48, 0x86, 0xf7, 0x63, 0x64, 0x08, 0x02],
        ),
{
    let a = element(0x06, seq![0x2au8, 0x86, 0x48, 0xce, 0x3d, 0x02, 0x01]);
    let b = element(0x06, seq![0x2au8, 0x86, 0x48, 0xce, 0x3d, 0x03, 0x01, 0x07]);
    assert(a =~= seq![0x06u8, 0x07, 0x2a, 0x86, 0x48, 0xce, 0x3d, 0x02, 0x01]);
    assert(b =~= seq![0x06u8, 0x08, 0x2a, 0x86, 0x48, 0xce, 0x3d, 0x03, 0x01, 0x07]);
    assert((a + b).len() == 19);
    assert(p256_key_prefix() =~= seq![0x30u8, 0x59] + element(0x30, a + b) + seq![
        0x03u8,
        0x42,
        0x00,
        0x04,
    ]);
    assert(rsa_encryption_oid() =~= element(
        0x06,
        seq![0x2au8, 0x86, 0x48, 0x86, 0xf7, 0x0d, 0x01, 0x01, 0x01],
    ));
    assert(apple_nonce_oid() =~= element(
        0x06,
        seq![0x2au8, 0x86, 0x48, 0x86, 0xf7, 0x63, 0x64, 0x08, 0x02],
    ));
}

/// A chain that is not in order is told by its first fault: a certificate that is not one, an
/// issuer that is not the next one's subject, or a missing signature, by its place.
pub proof fn law_first_chain_fault(certs: Seq<Seq<u8>>, i: nat)
    requires
        i + 1 < certs.len(),
        forall|j: int| 0 <= j < i ==> #[trigger] linked(certs, j),
        !linked(certs, i as int),
    ensures
        chain_fault(certs) == Some(
            match (certificate_of(certs[i as int]), certificate_of(certs[i as int + 1])) {
                (None, _) => "x5c["@ + decimal(i)
                    + "] is not a valid DER-encoded X.509 certificate"@,
                (Some(_), None) => "x5c["@ + decimal(i + 1)
                    + "] is not a valid DER-encoded X.509 certificate"@,
                (Some(cert), Some(next)) => if cert.issuer != next.subject {
                    "x5c["@ + decimal(i) + "].issuer does not match x5c["@ + decimal(i + 1)
                        + "].subject"@
                } else {
                    "x5c["@ + decimal(i) + "] is not signed by x5c["@ + decimal(i + 1) + "]"@
                },
            },
        ),
{
    lemma_fault_is_later(certs, 0, i);
    assert(chain_fault_from(certs, i) == chain_fault(certs));
}

proof fn lemma_fault_is_later(certs: Seq<Seq<u8>>, from: nat, to: nat)
    requires
        from <= to,
        to + 1 < certs.len(),
        forall|j: int| from <= j < to ==> #[trigger] linked(certs, j),
    ensures
        chain_fault_from(certs, from) == chain_fault_from(certs, to),
    decreases to - from,
{
    if from < to {
        assert(linked(certs, from as int));
        lemma_fault_is_later(certs, from + 1, to);
    }
}

} // verus!
