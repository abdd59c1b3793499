//! The TPM 2.0 structures of a `tpm` attestation statement: `pubArea` (the attested
//! public key) and `certInfo` (what the TPM certifies about it).

use vstd::prelude::*;
use vstd::slice::slice_subrange;
use vstd::string::StringExecFns;

use crate::bytes::{
    append_bytes, be16, be_value, bytes_equal, read_be16, read_be32, strip_zeros,
    without_leading_zeros,
};
use crate::credential::{PublicKey, PublicKeyModel};
use crate::crypto::{sha256, sha256_of, sha384, sha384_of, MAX_HASHED_LEN};
use crate::error::{outcome, Failure, WebAuthnError};
use crate::text::{decimal, decimal_text, hex, hex_text, join, join3, join5};

verus! {

/// The failure for a malformed TPM structure.
pub open spec fn bad_tpm(message: Seq<char>) -> Failure {
    Failure::InvalidAttestationObject(message)
}

fn reject(message: &str) -> (e: WebAuthnError)
    ensures
        e@ == bad_tpm(message@),
{
    WebAuthnError::InvalidAttestationObject(message.to_string())
}

/// The 16-bit number at `pos`.
pub open spec fn u16_at(data: Seq<u8>, pos: nat) -> Result<nat, Failure> {
    if pos + 2 > usize::MAX {
        Err(bad_tpm("tpm: position overflow reading u16"@))
    } else if pos + 2 > data.len() {
        Err(bad_tpm("tpm: buffer too short reading u16"@))
    } else {
        Ok(be16(data[pos as int], data[pos as int + 1]))
    }
}

/// The 32-bit number at `pos`.
pub open spec fn u32_at(data: Seq<u8>, pos: nat) -> Result<nat, Failure> {
    if pos + 4 > usize::MAX {
        Err(bad_tpm("tpm: position overflow reading u32"@))
    } else if pos + 4 > data.len() {
        Err(bad_tpm("tpm: buffer too short reading u32"@))
    } else {
        Ok(be_value(data.subrange(pos as int, pos as int + 4)))
    }
}

/// The byte string at `pos` that a 16-bit length precedes, and the position behind it.
pub open spec fn blob_at(data: Seq<u8>, pos: nat) -> Result<(Seq<u8>, nat), Failure> {
    match u16_at(data, pos) {
        Err(failure) => Err(failure),
        Ok(len) => {
            let end = pos + 2 + len;
            if end > usize::MAX {
                Err(bad_tpm("tpm: position overflow reading length-prefixed blob"@))
            } else if end > data.len() {
                Err(bad_tpm("tpm: length-prefixed field extends beyond buffer"@))
            } else {
                Ok((data.subrange(pos as int + 2, end as int), end))
            }
        },
    }
}

/// The position `n` bytes behind `pos`.
pub open spec fn skip_from(data: Seq<u8>, pos: nat, n: nat) -> Result<nat, Failure> {
    let end = pos + n;
    if end > usize::MAX {
        Err(bad_tpm("tpm: position overflow skipping "@ + decimal(n) + " bytes"@))
    } else if end > data.len() {
        Err(
            bad_tpm(
                "tpm: buffer too short skipping "@ + decimal(n) + " bytes (have "@ + decimal(
                    data.len(),
                ) + ", need "@ + decimal(end) + ")"@,
            ),
        )
    } else {
        Ok(end)
    }
}

/// Reads the big-endian 16-bit number at `pos`.
pub fn tpm_read_u16_be(data: &[u8], pos: usize) -> (r: Result<u16, WebAuthnError>)
    ensures
        match r {
            Ok(value) => u16_at(data@, pos as nat) == Ok::<nat, Failure>(value as nat) && pos + 2
                <= data.len(),
            Err(e) => u16_at(data@, pos as nat) == Err::<nat, Failure>(e@),
        },
{
    match pos.checked_add(2) {
        None => Err(reject("tpm: position overflow reading u16")),
        Some(end) => {
            if end > data.len() {
                return Err(reject("tpm: buffer too short reading u16"));
            }
            Ok(read_be16(data, pos))
        },
    }
}

/// Reads the big-endian 32-bit number at `pos`.
pub fn tpm_read_u32_be(data: &[u8], pos: usize) -> (r: Result<u32, WebAuthnError>)
    ensures
        match r {
            Ok(value) => u32_at(data@, pos as nat) == Ok::<nat, Failure>(value as nat) && pos + 4
                <= data.len(),
            Err(e) => u32_at(data@, pos as nat) == Err::<nat, Failure>(e@),
        },
{
    match pos.checked_add(4) {
        None => Err(reject("tpm: position overflow reading u32")),
        Some(end) => {
            if end > data.len() {
                return Err(reject("tpm: buffer too short reading u32"));
            }
            Ok(read_be32(data, pos))
        },
    }
}

/// Reads the byte string at `pos` that a 16-bit length precedes; returns it with the
/// position behind it.
pub fn tpm_read_blob(data: &[u8], pos: usize) -> (r: Result<(&[u8], usize), WebAuthnError>)
    ensures
        match r {
            Ok((blob, end)) => blob_at(data@, pos as nat) == Ok::<(Seq<u8>, nat), Failure>(
                (blob@, end as nat),
            ) && end <= data.len(),
            Err(e) => blob_at(data@, pos as nat) == Err::<(Seq<u8>, nat), Failure>(e@),
        },
{
    let len: usize = match tpm_read_u16_be(data, pos) {
        Ok(len) => len as usize,
        Err(e) => return Err(e),
    };
    match (pos + 2).checked_add(len) {
        None => Err(reject("tpm: position overflow reading length-prefixed blob")),
        Some(end) => {
            if end > data.len() {
                return Err(reject("tpm: length-prefixed field extends beyond buffer"));
            }
            Ok((slice_subrange(data, pos + 2, end), end))
        },
    }
}

/// The position `n` bytes behind `pos`.
pub fn tpm_skip(data: &[u8], pos: usize, n: usize) -> (r: Result<usize, WebAuthnError>)
    ensures
        match r {
            Ok(end) => skip_from(data@, pos as nat, n as nat) == Ok::<nat, Failure>(end as nat)
                && end <= data.len(),
            Err(e) => skip_from(data@, pos as nat, n as nat) == Err::<nat, Failure>(e@),
        },
{
    let count = decimal_text(n as u64);
    match pos.checked_add(n) {
        None => Err(
            WebAuthnError::InvalidAttestationObject(
                join3("tpm: position overflow skipping ", count.as_str(), " bytes"),
            ),
        ),
        Some(end) => {
            if end > data.len() {
                return Err(
                    WebAuthnError::InvalidAttestationObject(
                        join5(
                            "tpm: buffer too short skipping ",
                            count.as_str(),
                            " bytes (have ",
                            decimal_text(data.len() as u64).as_str(),
                            ", need ",
                        ).concat(decimal_text(end as u64).as_str()).concat(")"),
                    ),
                );
            }
            Ok(end)
        },
    }
}

/// The name of a `pubArea`: the two bytes of its hash algorithm and its hash.
pub open spec fn pub_area_name(pub_area: Seq<u8>) -> Result<Seq<u8>, Failure> {
    if pub_area.len() < 4 {
        Err(bad_tpm("tpm: pubArea too short to read nameAlg (need at least 4 bytes)"@))
    } else {
        let name_alg = be16(pub_area[2], pub_area[3]);
        if name_alg == 0x000B {
            Ok(pub_area.subrange(2, 4) + sha256_of(pub_area))
        } else if name_alg == 0x000C {
            Ok(pub_area.subrange(2, 4) + sha384_of(pub_area))
        } else {
            Err(
                bad_tpm(
                    "tpm: unsupported pubArea nameAlg 0x"@ + hex(name_alg, 4)
                        + " (expected 0x000B SHA-256 or 0x000C SHA-384)"@,
                ),
            )
        }
    }
}

/// Computes the name of a `pubArea`. SHA-256 (`0x000B`) and SHA-384 (`0x000C`) are
/// supported.
pub fn compute_pub_area_name(pub_area: &[u8]) -> (r: Result<Vec<u8>, WebAuthnError>)
    requires
        pub_area@.len() <= MAX_HASHED_LEN,
    ensures
        outcome(r) == pub_area_name(pub_area@),
{
    if pub_area.len() < 4 {
        return Err(
            reject("tpm: pubArea too short to read nameAlg (need at least 4 bytes)"),
        );
    }
    let name_alg: u16 = read_be16(pub_area, 2);
    let mut name: Vec<u8> = vec![pub_area[2], pub_area[3]];
    assert(name@ =~= pub_area@.subrange(2, 4));
    if name_alg == 0x000B {
        append_bytes(&mut name, sha256(pub_area).as_slice());
        Ok(name)
    } else if name_alg == 0x000C {
        append_bytes(&mut name, sha384(pub_area).as_slice());
        Ok(name)
    } else {
        Err(
            WebAuthnError::InvalidAttestationObject(
                join3(
                    "tpm: unsupported pubArea nameAlg 0x",
                    hex_text(name_alg as u64, 4).as_str(),
                    " (expected 0x000B SHA-256 or 0x000C SHA-384)",
                ),
            ),
        )
    }
}

/// The comparison of the elliptic-curve point in a `pubArea` with a credential key.
pub open spec fn ecc_check(x: Seq<u8>, y: Seq<u8>, key: PublicKeyModel) -> Result<(), Failure> {
    match key {
        PublicKeyModel::ES256 { x: cx, y: cy } => if x != cx || y != cy {
            Err(bad_tpm("tpm: pubArea ECC point does not match ES256 credential key"@))
        } else {
            Ok(())
        },
        PublicKeyModel::ES384 { x: cx, y: cy } => if x != cx || y != cy {
            Err(bad_tpm("tpm: pubArea ECC point does not match ES384 credential key"@))
        } else {
            Ok(())
        },
        _ => Err(
            bad_tpm("tpm: pubArea type is ECC (0x0023) but credential key is not an EC key"@),
        ),
    }
}

/// The comparison of the RSA modulus in a `pubArea` with a credential key, leading zero
/// bytes aside.
pub open spec fn rsa_check(modulus: Seq<u8>, key: PublicKeyModel) -> Result<(), Failure> {
    match key {
        PublicKeyModel::RS256 { n, .. } => if strip_zeros(modulus) != strip_zeros(n) {
            Err(bad_tpm("tpm: pubArea RSA modulus does not match RS256 credential key"@))
        } else {
            Ok(())
        },
        _ => Err(bad_tpm("tpm: pubArea type is RSA (0x0001) but credential key is not RS256"@)),
    }
}

/// The check that a `pubArea` holds the credential key: behind a header of ten bytes, an
/// authorisation policy and the key parameters stands the point or the modulus.
pub open spec fn pub_area_check(pub_area: Seq<u8>, key: PublicKeyModel) -> Result<(), Failure> {
    if pub_area.len() < 10 {
        Err(
            bad_tpm("tpm: pubArea too short (need at least 10 bytes for the fixed header)"@),
        )
    } else {
        let key_type = be16(pub_area[0], pub_area[1]);
        let params = 10 + be16(pub_area[8], pub_area[9]);
        if key_type == 0x0023 {
            match blob_at(pub_area, params + 10) {
                Err(failure) => Err(failure),
                Ok((x, next)) => match blob_at(pub_area, next) {
                    Err(failure) => Err(failure),
                    Ok((y, _)) => ecc_check(x, y, key),
                },
            }
        } else if key_type == 0x0001 {
            match blob_at(pub_area, params + 12) {
                Err(failure) => Err(failure),
                Ok((modulus, _)) => rsa_check(modulus, key),
            }
        } else {
            Err(bad_tpm("tpm: unsupported pubArea key type: 0x"@ + hex(key_type, 4)))
        }
    }
}

fn check_ecc(x: &[u8], y: &[u8], key: &PublicKey) -> (r: Result<(), WebAuthnError>)
    ensures
        outcome(r) == ecc_check(x@, y@, key@),
{
    match key {
        PublicKey::ES256 { x: cx, y: cy } => {
            if !bytes_equal(x, cx.as_slice()) || !bytes_equal(y, cy.as_slice()) {
                return Err(
                    reject("tpm: pubArea ECC point does not match ES256 credential key"),
                );
            }
            Ok(())
        },
        PublicKey::ES384 { x: cx, y: cy } => {
            if !bytes_equal(x, cx.as_slice()) || !bytes_equal(y, cy.as_slice()) {
                return Err(
                    reject("tpm: pubArea ECC point does not match ES384 credential key"),
                );
            }
            Ok(())
        },
        _ => Err(
            reject("tpm: pubArea type is ECC (0x0023) but credential key is not an EC key"),
        ),
    }
}

fn check_rsa(modulus: &[u8], key: &PublicKey) -> (r: Result<(), WebAuthnError>)
    ensures
        outcome(r) == rsa_check(modulus@, key@),
{
    match key {
        PublicKey::RS256 { n, .. } => {
            if !bytes_equal(without_leading_zeros(modulus), without_leading_zeros(n.as_slice())) {
                return Err(
                    reject("tpm: pubArea RSA modulus does not match RS256 credential key"),
                );
            }
            Ok(())
        },
        _ => Err(reject("tpm: pubArea type is RSA (0x0001) but credential key is not RS256")),
    }
}

/// Verifies that a `pubArea` holds the same public key as the credential.
pub fn verify_pub_area_matches_credential(
    pub_area: &[u8],
    credential_public_key: &PublicKey,
) -> (r: Result<(), WebAuthnError>)
    ensures
        outcome(r) == pub_area_check(pub_area@, credential_public_key@),
{
    if pub_area.len() < 10 {
        return Err(
            reject("tpm: pubArea too short (need at least 10 bytes for the fixed header)"),
        );
    }
    let key_type: u16 = read_be16(pub_area, 0);
    let params: usize = 10 + read_be16(pub_area, 8) as usize;
    if key_type == 0x0023 {
        let (x, next) = match tpm_read_blob(pub_area, params + 10) {
            Ok(found) => found,
            Err(e) => return Err(e),
        };
        match tpm_read_blob(pub_area, next) {
            Ok((y, _)) => check_ecc(x, y, credential_public_key),
            Err(e) => Err(e),
        }
    } else if key_type == 0x0001 {
        match tpm_read_blob(pub_area, params + 12) {
            Ok((modulus, _)) => check_rsa(modulus, credential_public_key),
            Err(e) => Err(e),
        }
    } else {
        Err(
            WebAuthnError::InvalidAttestationObject(
                join(
                    "tpm: unsupported pubArea key type: 0x",
                    hex_text(key_type as u64, 4).as_str(),
                ),
            ),
        )
    }
}

/// The check of a `certInfo` up to its `extraData`: behind the size stand the magic
/// number `0xFF544347`, the type `0x8017` and the signer's name. What comes back is the
/// position behind `extraData`.
pub open spec fn cert_info_head(cert_info: Seq<u8>, extra_data: Seq<u8>) -> Result<nat, Failure> {
    match skip_from(cert_info, 0, 2) {
        Err(failure) => Err(failure),
        Ok(_) => match u32_at(cert_info, 2) {
            Err(failure) => Err(failure),
            Ok(magic) => if magic != 0xFF544347 {
                Err(
                    bad_tpm(
                        "tpm: certInfo magic must be 0xFF544347 (TPM_GENERATED_VALUE), got 0x"@
                            + hex(magic, 8),
                    ),
                )
            } else {
                match u16_at(cert_info, 6) {
                    Err(failure) => Err(failure),
                    Ok(kind) => if kind != 0x8017 {
                        Err(
                            bad_tpm(
                                "tpm: certInfo type must be 0x8017 (TPM_ST_ATTEST_CERTIFY), got 0x"@
                                    + hex(kind, 4),
                            ),
                        )
                    } else {
                        match blob_at(cert_info, 8) {
                            Err(failure) => Err(failure),
                            Ok((_, next)) => match blob_at(cert_info, next) {
                                Err(failure) => Err(failure),
                                Ok((extra, end)) => if extra != extra_data {
                                    Err(
                                        bad_tpm(
                                            "tpm: certInfo extraData does not match SHA-256(authData || clientDataHash)"@,
                                        ),
                                    )
                                } else {
                                    Ok(end)
                                },
                            },
                        }
                    },
                }
            },
        },
    }
}

/// The check of a `certInfo`: its head, then sixteen bytes of clock and firmware, then
/// the attested name.
pub open spec fn cert_info_check(
    cert_info: Seq<u8>,
    extra_data: Seq<u8>,
    name: Seq<u8>,
) -> Result<(), Failure> {
    match cert_info_head(cert_info, extra_data) {
        Err(failure) => Err(failure),
        Ok(pos) => match skip_from(cert_info, pos, 16) {
            Err(failure) => Err(failure),
            Ok(next) => match blob_at(cert_info, next) {
                Err(failure) => Err(failure),
                Ok((attested, _)) => if attested != name {
                    Err(
                        bad_tpm(
                            "tpm: certInfo attested.name does not match computed name(pubArea)"@,
                        ),
                    )
                } else {
                    Ok(())
                },
            },
        },
    }
}

fn check_cert_info_head(cert_info: &[u8], extra_data: &[u8; 32]) -> (r: Result<
    usize,
    WebAuthnError,
>)
    ensures
        match r {
            Ok(end) => cert_info_head(cert_info@, extra_data@) == Ok::<nat, Failure>(end as nat),
            Err(e) => cert_info_head(cert_info@, extra_data@) == Err::<nat, Failure>(e@),
        },
{
    let pos: usize = match tpm_skip(cert_info, 0, 2) {
        Ok(pos) => pos,
        Err(e) => return Err(e),
    };
    let magic: u32 = match tpm_read_u32_be(cert_info, pos) {
        Ok(magic) => magic,
        Err(e) => return Err(e),
    };
    if magic != 0xFF544347 {
        return Err(
            WebAuthnError::InvalidAttestationObject(
                join(
                    "tpm: certInfo magic must be 0xFF544347 (TPM_GENERATED_VALUE), got 0x",
                    hex_text(magic as u64, 8).as_str(),
                ),
            ),
        );
    }
    let kind: u16 = match tpm_read_u16_be(cert_info, 6) {
        Ok(kind) => kind,
        Err(e) => return Err(e),
    };
    if kind != 0x8017 {
        return Err(
            WebAuthnError::InvalidAttestationObject(
                join(
                    "tpm: certInfo type must be 0x8017 (TPM_ST_ATTEST_CERTIFY), got 0x",
                    hex_text(kind as u64, 4).as_str(),
                ),
            ),
        );
    }
    let next: usize = match tpm_read_blob(cert_info, 8) {
        Ok((_, next)) => next,
        Err(e) => return Err(e),
    };
    match tpm_read_blob(cert_info, next) {
        Ok((extra, end)) => {
            if !bytes_equal(extra, extra_data.as_slice()) {
                return Err(
                    reject(
                        "tpm: certInfo extraData does not match SHA-256(authData || clientDataHash)",
                    ),
                );
            }
            Ok(end)
        },
        Err(e) => Err(e),
    }
}

/// Validates a `certInfo`: magic number, type, `extraData` and attested name.
pub fn verify_cert_info(
    cert_info: &[u8],
    expected_extra_data: &[u8; 32],
    expected_name: &[u8],
) -> (r: Result<(), WebAuthnError>)
    ensures
        outcome(r) == cert_info_check(cert_info@, expected_extra_data@, expected_name@),
{
    let pos: usize = match check_cert_info_head(cert_info, expected_extra_data) {
        Ok(pos) => pos,
        Err(e) => return Err(e),
    };
    let next: usize = match tpm_skip(cert_info, pos, 16) {
        Ok(next) => next,
        Err(e) => return Err(e),
    };
    match tpm_read_blob(cert_info, next) {
        Ok((attested, _)) => {
            if !bytes_equal(attested, expected_name) {
                return Err(
                    reject("tpm: certInfo attested.name does not match computed name(pubArea)"),
                );
            }
            Ok(())
        },
        Err(e) => Err(e),
    }
}

/// A byte string with its length before it.
pub open spec fn blob(bytes: Seq<u8>) -> Seq<u8> {
    seq![(bytes.len() / 256) as u8, (bytes.len() % 256) as u8] + bytes
}

/// A byte string with its length before it reads back.
pub proof fn law_blob_reads_back(before: Seq<u8>, bytes: Seq<u8>, rest: Seq<u8>)
    requires
        bytes.len() <= 0xFFFF,
        before.len() + 2 + bytes.len() <= usize::MAX,
    ensures
        blob_at(before + blob(bytes) + rest, before.len()) == Ok::<(Seq<u8>, nat), Failure>(
            (bytes, before.len() + 2 + bytes.len()),
        ),
{
    let data = before + blob(bytes) + rest;
    let at = before.len() as int;
    assert(data[at] == (bytes.len() / 256) as u8);
    assert(data[at + 1] == (bytes.len() % 256) as u8);
    assert(data.subrange(at + 2, at + 2 + bytes.len()) =~= bytes);
}

/// A `certInfo` with the magic number, the type, the expected `extraData` and the expected
/// name is accepted, whatever its size field, signer, clock and trailing bytes are.
pub proof fn law_matching_cert_info_is_accepted(
    size: Seq<u8>,
    signer: Seq<u8>,
    extra_data: Seq<u8>,
    clock: Seq<u8>,
    name: Seq<u8>,
    rest: Seq<u8>,
)
    requires
        size.len() == 2,
        signer.len() <= 0xFFFF,
        extra_data.len() <= 0xFFFF,
        clock.len() == 16,
        name.len() <= 0xFFFF,
    ensures
        cert_info_check(
            size + seq![0xFFu8, 0x54, 0x43, 0x47] + seq![0x80u8, 0x17] + blob(signer) + blob(
                extra_data,
            ) + clock + blob(name) + rest,
            extra_data,
            name,
        ) is Ok,
{
    let head = size + seq![0xFFu8, 0x54, 0x43, 0x47] + seq![0x80u8, 0x17];
    let data = head + blob(signer) + blob(extra_data) + clock + blob(name) + rest;
    let a = head + blob(signer);
    let b = a + blob(extra_data);
    assert(usize::MAX >= 0xFFFF_FFFF);
    assert(data.subrange(2, 6) =~= seq![0xFFu8, 0x54, 0x43, 0x47]);
    crate::bytes::lemma_be_value_4(data.subrange(2, 6));
    assert(u32_at(data, 2) == Ok::<nat, Failure>(0xFF544347));
    assert(data[6] == 0x80 && data[7] == 0x17);
    assert(data =~= head + blob(signer) + (blob(extra_data) + clock + blob(name) + rest));
    law_blob_reads_back(head, signer, blob(extra_data) + clock + blob(name) + rest);
    assert(data =~= a + blob(extra_data) + (clock + blob(name) + rest));
    law_blob_reads_back(a, extra_data, clock + blob(name) + rest);
    assert(data =~= (b + clock) + blob(name) + rest);
    law_blob_reads_back(b + clock, name, rest);
}

/// A `pubArea` that holds the point of an ES256 credential is accepted for it, whatever its
/// attributes, authorisation policy, parameters and trailing bytes are.
pub proof fn law_matching_ecc_pub_area_is_accepted(
    attributes: Seq<u8>,
    policy: Seq<u8>,
    params: Seq<u8>,
    x: Seq<u8>,
    y: Seq<u8>,
    rest: Seq<u8>,
)
    requires
        attributes.len() == 6,
        policy.len() <= 0xFFFF,
        params.len() == 10,
        x.len() <= 0xFFFF,
        y.len() <= 0xFFFF,
    ensures
        pub_area_check(
            seq![0x00u8, 0x23] + attributes + blob(policy) + params + blob(x) + blob(y) + rest,
            PublicKeyModel::ES256 { x, y },
        ) is Ok,
{
    let head = seq![0x00u8, 0x23] + attributes;
    let fixed = head + blob(policy) + params;
    let data = fixed + blob(x) + blob(y) + rest;
    assert(usize::MAX >= 0xFFFF_FFFF);
    assert(data[8] == (policy.len() / 256) as u8 && data[9] == (policy.len() % 256) as u8);
    assert(be16(data[8], data[9]) == policy.len());
    assert(be16(data[0], data[1]) == 0x0023);
    assert(data =~= fixed + blob(x) + (blob(y) + rest));
    law_blob_reads_back(fixed, x, blob(y) + rest);
    assert(data =~= (fixed + blob(x)) + blob(y) + rest);
    law_blob_reads_back(fixed + blob(x), y, rest);
}

/// A `pubArea` that holds the modulus of an RS256 credential is accepted for it, whatever
/// its attributes, authorisation policy, parameters and trailing bytes are.
pub proof fn law_matching_rsa_pub_area_is_accepted(
    attributes: Seq<u8>,
    policy: Seq<u8>,
    params: Seq<u8>,
    n: Seq<u8>,
    e: Seq<u8>,
    rest: Seq<u8>,
)
    requires
        attributes.len() == 6,
        policy.len() <= 0xFFFF,
        params.len() == 12,
        n.len() <= 0xFFFF,
    ensures
        pub_area_check(
            seq![0x00u8, 0x01] + attributes + blob(policy) + params + blob(n) + rest,
            PublicKeyModel::RS256 { n, e },
        ) is Ok,
{
    let head = seq![0x00u8, 0x01] + attributes;
    let fixed = head + blob(policy) + params;
    let data = fixed + blob(n) + rest;
    assert(usize::MAX >= 0xFFFF_FFFF);
    assert(data[8] == (policy.len() / 256) as u8 && data[9] == (policy.len() % 256) as u8);
    assert(be16(data[8], data[9]) == policy.len());
    assert(be16(data[0], data[1]) == 0x0001);
    law_blob_reads_back(fixed, n, rest);
}

/// What the readers of TPM structures return: numbers are big-endian, a sized field is its
/// length in two bytes and as many bytes, and reading beyond the end fails.
pub proof fn law_tpm_fields(data: Seq<u8>, pos: nat, n: nat)
    requires
        data.len() <= usize::MAX,
    ensures
        u16_at(data, pos) is Ok <==> pos + 2 <= data.len(),
        u16_at(data, pos) matches Ok(value) ==> value == be_value(
            data.subrange(pos as int, pos as int + 2),
        ),
        u32_at(data, pos) is Ok <==> pos + 4 <= data.len(),
        u32_at(data, pos) matches Ok(value) ==> value == be_value(
            data.subrange(pos as int, pos as int + 4),
        ),
        skip_from(data, pos, n) is Ok <==> pos + n <= data.len(),
        skip_from(data, pos, n) matches Ok(end) ==> end == pos + n,
        blob_at(data, pos) matches Ok((bytes, end)) ==> {
            &&& end == pos + 2 + bytes.len()
            &&& end <= data.len()
            &&& bytes.len() == be_value(data.subrange(pos as int, pos as int + 2))
            &&& bytes == data.subrange(pos as int + 2, end as int)
        },
        blob_at(data, pos) is Err ==> pos + 2 > data.len() || pos + 2 + be_value(
            data.subrange(pos as int, pos as int + 2),
        ) > data.len(),
        u16_at(data, pos) matches Err(failure) ==> failure is InvalidAttestationObject,
        u32_at(data, pos) matches Err(failure) ==> failure is InvalidAttestationObject,
        skip_from(data, pos, n) matches Err(failure) ==> failure is InvalidAttestationObject,
        blob_at(data, pos) matches Err(failure) ==> failure is InvalidAttestationObject,
{
    crate::bytes::law_big_endian_value(Seq::empty(), 0);
    if pos + 2 <= data.len() {
        let two = data.subrange(pos as int, pos as int + 2);
        assert(two =~= seq![data[pos as int], data[pos as int + 1]]);
    }
}

/// What a TPM certifies, in parts: the size of the structure, the mark of the TPM and the kind
/// of the structure, the signer's name, the extra data, clock and firmware, and the name of
/// the object.
pub open spec fn certifies(
    cert_info: Seq<u8>,
    size: Seq<u8>,
    signer: Seq<u8>,
    extra_data: Seq<u8>,
    clock: Seq<u8>,
    name: Seq<u8>,
    rest: Seq<u8>,
) -> bool {
    &&& size.len() == 2
    &&& signer.len() <= 0xFFFF
    &&& extra_data.len() <= 0xFFFF
    &&& clock.len() == 16
    &&& name.len() <= 0xFFFF
    &&& cert_info == size + seq![0xFFu8, 0x54, 0x43, 0x47] + seq![0x80u8, 0x17] + blob(signer)
        + blob(extra_data) + clock + blob(name) + rest
}

/// A sized field is written as its length in two bytes and its bytes.
pub proof fn law_blob_layout(bytes: Seq<u8>)
    requires
        bytes.len() <= 0xFFFF,
    ensures
        be_value(blob(bytes).take(2)) == bytes.len(),
        blob(bytes).skip(2) == bytes,
{
    crate::bytes::law_big_endian_value(Seq::empty(), 0);
    let hi = (bytes.len() / 256) as u8;
    let lo = (bytes.len() % 256) as u8;
    assert(blob(bytes).take(2) =~= seq![hi, lo]);
    assert(be16(hi, lo) == bytes.len());
    assert(blob(bytes).skip(2) =~= bytes);
}

/// What a TPM certifies is accepted exactly if it is generated by a TPM, is a certification,
/// and holds the given extra data and the given name.
pub proof fn law_accepted_cert_info(cert_info: Seq<u8>, extra_data: Seq<u8>, name: Seq<u8>)
    requires
        cert_info.len() <= usize::MAX,
    ensures
        cert_info_check(cert_info, extra_data, name) is Ok <==> exists|
            size: Seq<u8>,
            signer: Seq<u8>,
            clock: Seq<u8>,
            rest: Seq<u8>,
        |
            #[trigger] certifies(cert_info, size, signer, extra_data, clock, name, rest),
        cert_info_check(cert_info, extra_data, name) matches Err(failure)
            ==> failure is InvalidAttestationObject,
{
    if cert_info_check(cert_info, extra_data, name) is Ok {
        let (signer, a) = blob_at(cert_info, 8)->Ok_0;
        let (_, b) = blob_at(cert_info, a)->Ok_0;
        let c = b + 16;
        let (_, d) = blob_at(cert_info, c)->Ok_0;
        let size = cert_info.take(2);
        let clock = cert_info.subrange(b as int, c as int);
        let rest = cert_info.skip(d as int);
        let magic = cert_info.subrange(2, 6);
        crate::bytes::lemma_be_value_4(magic);
        assert(magic =~= seq![0xFFu8, 0x54, 0x43, 0x47]);
        assert(cert_info.subrange(6, 8) =~= seq![0x80u8, 0x17]);
        lemma_blob_written(cert_info, 8);
        lemma_blob_written(cert_info, a);
        lemma_blob_written(cert_info, c);
        assert(cert_info =~= size + magic + cert_info.subrange(6, 8) + cert_info.subrange(
            8,
            a as int,
        ) + cert_info.subrange(a as int, b as int) + clock + cert_info.subrange(c as int, d as int)
            + rest);
        assert(certifies(cert_info, size, signer, extra_data, clock, name, rest));
    }
    if exists|size: Seq<u8>, signer: Seq<u8>, clock: Seq<u8>, rest: Seq<u8>| #[trigger]
        certifies(cert_info, size, signer, extra_data, clock, name, rest) {
        let (size, signer, clock, rest) = choose|
            size: Seq<u8>,
            signer: Seq<u8>,
            clock: Seq<u8>,
            rest: Seq<u8>,
        | #[trigger]
            certifies(cert_info, size, signer, extra_data, clock, name, rest);
        law_matching_cert_info_is_accepted(size, signer, extra_data, clock, name, rest);
    }
}

proof fn lemma_blob_written(data: Seq<u8>, pos: nat)
    requires
        blob_at(data, pos) is Ok,
    ensures
        blob_at(data, pos) matches Ok((bytes, end)) && bytes.len() <= 0xFFFF && end == pos + 2
            + bytes.len() && end <= data.len() && data.subrange(pos as int, end as int) == blob(
            bytes,
        ),
{
    let (bytes, end) = blob_at(data, pos)->Ok_0;
    let hi = data[pos as int];
    let lo = data[pos as int + 1];
    assert(bytes.len() == hi * 256 + lo);
    assert((bytes.len() / 256) as u8 == hi && (bytes.len() % 256) as u8 == lo);
    assert(data.subrange(pos as int, end as int) =~= blob(bytes));
}

/// The public area of a key, in parts: its type, what stands up to the policy, the policy, the
/// parameters, and the unique part that identifies the key.
pub open spec fn describes(
    pub_area: Seq<u8>,
    key_type: u8,
    attributes: Seq<u8>,
    policy: Seq<u8>,
    params: Seq<u8>,
    unique: Seq<u8>,
    rest: Seq<u8>,
) -> bool {
    &&& attributes.len() == 6
    &&& policy.len() <= 0xFFFF
    &&& pub_area == seq![0x00u8, key_type] + attributes + blob(policy) + params + unique + rest
}

/// A public area is accepted for an elliptic curve key exactly if it is one of such a key
/// with the same coordinates, for an RSA key exactly if it is one of an RSA key with the same
/// modulus up to leading zeros, and for no other key.
pub proof fn law_accepted_pub_areas(pub_area: Seq<u8>, key: PublicKeyModel)
    requires
        pub_area.len() <= usize::MAX,
    ensures
        pub_area_check(pub_area, key) is Ok <==> match key {
            PublicKeyModel::ES256 { x, y } => is_ecc_area(pub_area, x, y),
            PublicKeyModel::ES384 { x, y } => is_ecc_area(pub_area, x, y),
            PublicKeyModel::RS256 { n, .. } => is_rsa_area(pub_area, n),
            PublicKeyModel::EdDSA(_) => false,
        },
        pub_area_check(pub_area, key) matches Err(failure) ==> failure is InvalidAttestationObject,
{
    if pub_area_check(pub_area, key) is Ok {
        lemma_pub_area_parts(pub_area);
        let params_at = 10 + be16(pub_area[8], pub_area[9]);
        if be16(pub_area[0], pub_area[1]) == 0x0023 {
            let (x, a) = blob_at(pub_area, params_at + 10)->Ok_0;
            let (y, b) = blob_at(pub_area, a)->Ok_0;
            lemma_blob_written(pub_area, params_at + 10);
            lemma_blob_written(pub_area, a);
            assert(pub_area[0] == 0 && pub_area[1] == 0x23);
            lemma_area_described(pub_area, params_at + 10, b);
            assert(pub_area.subrange(params_at as int + 10, b as int) =~= blob(x) + blob(y));
        } else {
            let (modulus, a) = blob_at(pub_area, params_at + 12)->Ok_0;
            lemma_blob_written(pub_area, params_at + 12);
            assert(pub_area[0] == 0 && pub_area[1] == 0x01);
            lemma_area_described(pub_area, params_at + 12, a);
            assert(pub_area.subrange(params_at as int + 12, a as int) == blob(modulus));
            assert(matches_modulus(modulus, key->n));
        }
    }
    match key {
        PublicKeyModel::ES256 { x, y } => {
            if is_ecc_area(pub_area, x, y) {
                lemma_ecc_area_accepted(pub_area, x, y, key);
            }
        },
        PublicKeyModel::ES384 { x, y } => {
            if is_ecc_area(pub_area, x, y) {
                lemma_ecc_area_accepted(pub_area, x, y, key);
            }
        },
        PublicKeyModel::RS256 { n, e } => {
            if is_rsa_area(pub_area, n) {
                let (attributes, policy, params, modulus, rest) = choose|
                    attributes: Seq<u8>,
                    policy: Seq<u8>,
                    params: Seq<u8>,
                    modulus: Seq<u8>,
                    rest: Seq<u8>,
                | #[trigger]
                    describes(
                        pub_area,
                        0x01,
                        attributes,
                        policy,
                        params,
                        blob(modulus),
                        rest,
                    ) && params.len() == 12 && modulus.len() <= 0xFFFF && #[trigger] matches_modulus(modulus, n);
                law_matching_rsa_pub_area_is_accepted(attributes, policy, params, modulus, e, rest);
            }
        },
        _ => {},
    }
}

/// Whether a modulus is another one up to leading zeros.
pub open spec fn matches_modulus(a: Seq<u8>, b: Seq<u8>) -> bool {
    strip_zeros(a) == strip_zeros(b)
}

/// Whether a public area is that of an elliptic curve key with the given coordinates.
pub open spec fn is_ecc_area(pub_area: Seq<u8>, x: Seq<u8>, y: Seq<u8>) -> bool {
    &&& x.len() <= 0xFFFF
    &&& y.len() <= 0xFFFF
    &&& exists|attributes: Seq<u8>, policy: Seq<u8>, params: Seq<u8>, rest: Seq<u8>|
        #[trigger] describes(
            pub_area,
            0x23,
            attributes,
            policy,
            params,
            blob(x) + blob(y),
            rest,
        ) && params.len() == 10
}

/// Whether a public area is that of an RSA key with the given modulus.
pub open spec fn is_rsa_area(pub_area: Seq<u8>, n: Seq<u8>) -> bool {
    exists|
        attributes: Seq<u8>,
        policy: Seq<u8>,
        params: Seq<u8>,
        modulus: Seq<u8>,
        rest: Seq<u8>,
    |
        #[trigger] describes(
            pub_area,
            0x01,
            attributes,
            policy,
            params,
            blob(modulus),
            rest,
        ) && params.len() == 12 && modulus.len() <= 0xFFFF && #[trigger] matches_modulus(modulus, n)
}

proof fn lemma_pub_area_parts(pub_area: Seq<u8>)
    requires
        pub_area.len() >= 10,
    ensures
        ({
            let len = be16(pub_area[8], pub_area[9]);
            10 + len <= pub_area.len() ==> pub_area.subrange(8, 10 + len as int) == blob(
                pub_area.subrange(10, 10 + len as int),
            ) && len <= 0xFFFF
        }),
{
    let len = be16(pub_area[8], pub_area[9]);
    if 10 + len <= pub_area.len() {
        let policy = pub_area.subrange(10, 10 + len as int);
        assert((policy.len() / 256) as u8 == pub_area[8] && (policy.len() % 256) as u8
            == pub_area[9]);
        assert(pub_area.subrange(8, 10 + len as int) =~= blob(policy));
    }
}

proof fn lemma_area_described(pub_area: Seq<u8>, unique_at: nat, end: nat)
    requires
        pub_area.len() >= 10,
        pub_area[0] == 0,
        10 + be16(pub_area[8], pub_area[9]) <= unique_at <= end <= pub_area.len(),
    ensures
        ({
            let params_at = 10 + be16(pub_area[8], pub_area[9]);
            describes(
                pub_area,
                pub_area[1],
                pub_area.subrange(2, 8),
                pub_area.subrange(10, params_at as int),
                pub_area.subrange(params_at as int, unique_at as int),
                pub_area.subrange(unique_at as int, end as int),
                pub_area.skip(end as int),
            )
        }),
{
    lemma_pub_area_parts(pub_area);
    let params_at = 10 + be16(pub_area[8], pub_area[9]);
    assert(pub_area =~= seq![0x00u8, pub_area[1]] + pub_area.subrange(2, 8) + pub_area.subrange(
        8,
        params_at as int,
    ) + pub_area.subrange(params_at as int, unique_at as int) + pub_area.subrange(
        unique_at as int,
        end as int,
    ) + pub_area.skip(end as int));
}

proof fn lemma_ecc_area_accepted(
    pub_area: Seq<u8>,
    x: Seq<u8>,
    y: Seq<u8>,
    key: PublicKeyModel,
)
    requires
        is_ecc_area(pub_area, x, y),
        key == (PublicKeyModel::ES256 { x, y }) || key == (PublicKeyModel::ES384 { x, y }),
    ensures
        pub_area_check(pub_area, key) is Ok,
{
    let (attributes, policy, params, rest) = choose|
        attributes: Seq<u8>,
        policy: Seq<u8>,
        params: Seq<u8>,
        rest: Seq<u8>,
    | #[trigger]
        describes(
            pub_area,
            0x23,
            attributes,
            policy,
            params,
            blob(x) + blob(y),
            rest,
        ) && params.len() == 10;
    law_matching_ecc_pub_area_is_accepted(attributes, policy, params, x, y, rest);
    assert(pub_area =~= seq![0x00u8, 0x23] + attributes + blob(policy) + params + blob(x) + blob(y)
        + rest);
}

/// The name of a public area is its hash algorithm and its hash by it, SHA-256 or SHA-384;
/// there is none for another algorithm.
pub proof fn law_pub_area_names(pub_area: Seq<u8>, name: Seq<u8>)
    ensures
        pub_area_name(pub_area) == Ok::<Seq<u8>, Failure>(name) <==> {
            &&& pub_area.len() >= 4
            &&& ({
                ||| pub_area.subrange(2, 4) == seq![0x00u8, 0x0B] && name == seq![0x00u8, 0x0B]
                    + sha256_of(pub_area)
                ||| pub_area.subrange(2, 4) == seq![0x00u8, 0x0C] && name == seq![0x00u8, 0x0C]
                    + sha384_of(pub_area)
            })
        },
        pub_area_name(pub_area) matches Err(failure) ==> failure is InvalidAttestationObject,
{
    if pub_area.len() >= 4 {
        let alg = pub_area.subrange(2, 4);
        assert(alg[0] == pub_area[2] && alg[1] == pub_area[3]);
        if be16(pub_area[2], pub_area[3]) == 0x000B {
            assert(alg =~= seq![0x00u8, 0x0B]);
        } else if be16(pub_area[2], pub_area[3]) == 0x000C {
            assert(alg =~= seq![0x00u8, 0x0C]);
        }
        assert(seq![0x00u8, 0x0B][1] == 0x0B && seq![0x00u8, 0x0C][1] == 0x0C);
    }
}

} // verus!
