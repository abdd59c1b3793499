//! Authenticator data and COSE keys.
//!
//! Layout: `rpIdHash (32) | flags (1) | signCount (4) | attestedCredentialData |
//! extensions`, where the last two are present as the flags say.

use vstd::prelude::*;
use vstd::slice::slice_subrange;
use vstd::string::StringExecFns;

use crate::algorithm::{
    COSE_CRV_ED25519, COSE_CRV_P256, COSE_CRV_P384, COSE_EDDSA, COSE_ES256, COSE_ES384,
    COSE_KTY_EC2, COSE_KTY_OKP, COSE_KTY_RSA, COSE_RS256,
};
use crate::bytes::{be16, be_value, copy_bytes, read_be16, read_be32, take_16, take_32};
use crate::data::{cbor_item, decode_cbor, entries, lemma_dict, maybe, DataItem, Item};
use crate::error::{outcome, Failure, WebAuthnError};
use crate::extensions::ExtensionMap;
use crate::text::{
    decimal, decimal_text, join, join3, join5, signed_decimal, signed_decimal_text,
};

verus! {

/// Bit 0: User Present.
pub const FLAG_UP: u8 = 0x01;

/// Bit 2: User Verified.
pub const FLAG_UV: u8 = 0x04;

/// Bit 3: Backup Eligibility.
pub const FLAG_BE: u8 = 0x08;

/// Bit 4: Backup State.
pub const FLAG_BS: u8 = 0x10;

/// Bit 6: Attested Credential Data.
pub const FLAG_AT: u8 = 0x40;

/// Bit 7: Extension Data.
pub const FLAG_ED: u8 = 0x80;

/// Maximum credential ID length. Values above this indicate corrupt data.
pub const MAX_CREDENTIAL_ID_LEN: usize = 1023;

/// Minimum RSA modulus length in bytes (a 2048-bit key).
pub const MIN_RSA_N_LEN: usize = 256;

/// Decoded flags byte.
#[derive(Debug, Clone, Copy, PartialEq, Eq, Structural)]
pub struct AuthenticatorFlags {
    /// UP: the authenticator confirmed physical user presence.
    pub user_present: bool,
    /// UV: biometric or PIN check passed.
    pub user_verified: bool,
    /// BE: the credential is eligible for backup. Set at registration, never changes.
    pub backup_eligible: bool,
    /// BS: the credential is currently backed up.
    pub backup_state: bool,
    /// AT: attested credential data is present (registration only).
    pub attested_credential_data: bool,
    /// ED: a CBOR extension map follows the credential data.
    pub extension_data: bool,
}

/// A decoded COSE key.
#[derive(Debug, Clone)]
pub enum CoseKey {
    /// EC2 key: P-256 with ES256 (alg = -7) or P-384 with ES384 (alg = -35).
    EC2 {
        /// Algorithm (COSE map key `3`).
        alg: i64,
        /// Curve (COSE map key `-1`). `1` = P-256, `2` = P-384.
        crv: i64,
        /// X coordinate (COSE map key `-2`). 32 bytes for P-256, 48 bytes for P-384.
        x: Vec<u8>,
        /// Y coordinate (COSE map key `-3`). 32 bytes for P-256, 48 bytes for P-384.
        y: Vec<u8>,
    },
    /// OKP key: EdDSA with Ed25519 (alg = -8, crv = 6).
    OKP {
        /// Algorithm (COSE map key `3`).
        alg: i64,
        /// Raw 32-byte Ed25519 public key (COSE map key `-2`).
        x: Vec<u8>,
    },
    /// RSA key: RS256 (alg = -257).
    RSA {
        /// Algorithm (COSE map key `3`).
        alg: i64,
        /// Modulus (COSE map key `-1`). At least 256 bytes.
        n: Vec<u8>,
        /// Public exponent (COSE map key `-2`).
        e: Vec<u8>,
    },
}

/// The mathematical form of [`CoseKey`].
pub ghost enum CoseKeyModel {
    EC2 { alg: i64, crv: i64, x: Seq<u8>, y: Seq<u8> },
    OKP { alg: i64, x: Seq<u8> },
    RSA { alg: i64, n: Seq<u8>, e: Seq<u8> },
}

impl View for CoseKey {
    type V = CoseKeyModel;

    open spec fn view(&self) -> CoseKeyModel {
        match self {
            CoseKey::EC2 { alg, crv, x, y } => CoseKeyModel::EC2 {
                alg: *alg,
                crv: *crv,
                x: x@,
                y: y@,
            },
            CoseKey::OKP { alg, x } => CoseKeyModel::OKP { alg: *alg, x: x@ },
            CoseKey::RSA { alg, n, e } => CoseKeyModel::RSA { alg: *alg, n: n@, e: e@ },
        }
    }
}

impl CoseKeyModel {
    /// The COSE algorithm identifier of a key.
    pub open spec fn algorithm(self) -> i64 {
        match self {
            CoseKeyModel::EC2 { alg, .. } => alg,
            CoseKeyModel::OKP { alg, .. } => alg,
            CoseKeyModel::RSA { alg, .. } => alg,
        }
    }

    /// What holds of every key that decoding accepts: the algorithm goes with the curve
    /// and the lengths go with the algorithm.
    pub open spec fn well_formed(self) -> bool {
        match self {
            CoseKeyModel::EC2 { alg, crv, x, y } => {
                ||| alg == COSE_ES256 && crv == COSE_CRV_P256 && x.len() == 32 && y.len() == 32
                ||| alg == COSE_ES384 && crv == COSE_CRV_P384 && x.len() == 48 && y.len() == 48
            },
            CoseKeyModel::OKP { alg, x } => alg == COSE_EDDSA && x.len() == 32,
            CoseKeyModel::RSA { alg, n, e } => alg == COSE_RS256 && n.len() >= MIN_RSA_N_LEN
                && e.len() > 0,
        }
    }
}

impl CoseKey {
    /// The COSE algorithm identifier of this key.
    pub fn alg(&self) -> (alg: i64)
        ensures
            alg == self@.algorithm(),
    {
        match self {
            CoseKey::EC2 { alg, .. } => *alg,
            CoseKey::OKP { alg, .. } => *alg,
            CoseKey::RSA { alg, .. } => *alg,
        }
    }
}

/// Whether an integer is in the range of `i64`.
pub open spec fn in_i64(n: int) -> bool {
    i64::MIN <= n <= i64::MAX
}

/// The integer under the integer key `key`: that of the first entry which has one.
pub open spec fn int_field(m: Seq<(Item, Item)>, key: int) -> Option<i64>
    decreases m.len(),
{
    if m.len() == 0 {
        None
    } else {
        match m[0] {
            (Item::Integer(k), Item::Integer(v)) if k == key && in_i64(v) => Some(v as i64),
            _ => int_field(m.drop_first(), key),
        }
    }
}

/// The byte string under the integer key `key`: that of the first entry which has one.
pub open spec fn bytes_field(m: Seq<(Item, Item)>, key: int) -> Option<Seq<u8>>
    decreases m.len(),
{
    if m.len() == 0 {
        None
    } else {
        match m[0] {
            (Item::Integer(k), Item::Bytes(b)) if k == key => Some(b),
            _ => bytes_field(m.drop_first(), key),
        }
    }
}

/// Whether some entry has the integer key `key`.
pub open spec fn has_int_key(m: Seq<(Item, Item)>, key: int) -> bool {
    exists|j: int| 0 <= j < m.len() && (#[trigger] m[j]).0 == Item::Integer(key)
}

/// The first integer key, in the range of `i64`, that repeats an earlier one.
pub open spec fn first_duplicate(m: Seq<(Item, Item)>) -> Option<int>
    decreases m.len(),
{
    if m.len() == 0 {
        None
    } else {
        match first_duplicate(m.drop_last()) {
            Some(key) => Some(key),
            None => match m.last().0 {
                Item::Integer(key) if in_i64(key) && has_int_key(m.drop_last(), key) => Some(key),
                _ => None,
            },
        }
    }
}

fn as_i64(n: i128) -> (r: Option<i64>)
    ensures
        r == if in_i64(n as int) {
            Some(n as i64)
        } else {
            None
        },
{
    if i64::MIN as i128 <= n && n <= i64::MAX as i128 {
        Some(n as i64)
    } else {
        None
    }
}

fn get_int(map: &Vec<(DataItem, DataItem)>, key: i64) -> (r: Option<i64>)
    ensures
        r == int_field(entries(map@), key as int),
{
    let mut i: usize = 0;
    assert(entries(map@).skip(0) =~= entries(map@));
    while i < map.len()
        invariant
            i <= map@.len(),
            int_field(entries(map@).skip(i as int), key as int) == int_field(
                entries(map@),
                key as int,
            ),
        decreases map.len() - i,
    {
        let ghost rest = entries(map@).skip(i as int);
        assert(rest[0] == (map@[i as int].0@, map@[i as int].1@));
        assert(rest.drop_first() =~= entries(map@).skip(i + 1));
        if let (DataItem::Integer(k), DataItem::Integer(v)) = (&map[i].0, &map[i].1) {
            if *k == key as i128 {
                if let Some(found) = as_i64(*v) {
                    return Some(found);
                }
            }
        }
        i += 1;
    }
    None
}

fn get_bytes(map: &Vec<(DataItem, DataItem)>, key: i64) -> (r: Option<Vec<u8>>)
    ensures
        maybe(r) == bytes_field(entries(map@), key as int),
{
    let mut i: usize = 0;
    assert(entries(map@).skip(0) =~= entries(map@));
    while i < map.len()
        invariant
            i <= map@.len(),
            bytes_field(entries(map@).skip(i as int), key as int) == bytes_field(
                entries(map@),
                key as int,
            ),
        decreases map.len() - i,
    {
        let ghost rest = entries(map@).skip(i as int);
        assert(rest[0] == (map@[i as int].0@, map@[i as int].1@));
        assert(rest.drop_first() =~= entries(map@).skip(i + 1));
        if let (DataItem::Integer(k), DataItem::Bytes(b)) = (&map[i].0, &map[i].1) {
            if *k == key as i128 {
                return Some(copy_bytes(b.as_slice()));
            }
        }
        i += 1;
    }
    None
}

fn find_duplicate(map: &Vec<(DataItem, DataItem)>) -> (r: Option<i64>)
    ensures
        match r {
            Some(key) => first_duplicate(entries(map@)) == Some(key as int),
            None => first_duplicate(entries(map@)) is None,
        },
{
    let ghost all = entries(map@);
    let mut i: usize = 0;
    assert(all.take(all.len() as int) =~= all);
    while i < map.len()
        invariant
            i <= map@.len(),
            all == entries(map@),
            all.take(all.len() as int) == all,
            first_duplicate(all.take(i as int)) is None,
        decreases map.len() - i,
    {
        let ghost seen = all.take(i as int);
        let ghost longer = all.take(i + 1);
        assert(longer.drop_last() =~= seen);
        assert(longer.last() == (map@[i as int].0@, map@[i as int].1@));
        if let DataItem::Integer(k) = &map[i].0 {
            if let Some(key) = as_i64(*k) {
                let mut j: usize = 0;
                while j < i
                    invariant
                        j <= i,
                        i < map@.len(),
                        all == entries(map@),
                        seen == all.take(i as int),
                        longer == all.take(i + 1),
                        longer.drop_last() == seen,
                        longer.last().0 == Item::Integer(*k as int),
                        first_duplicate(seen) is None,
                        *k == key,
                        forall|n: int| 0 <= n < j ==> (#[trigger] seen[n]).0 != Item::Integer(
                            *k as int,
                        ),
                    decreases i - j,
                {
                    if let DataItem::Integer(earlier) = &map[j].0 {
                        if *earlier == *k {
                            proof {
                                assert(seen[j as int].0 == Item::Integer(*k as int));
                                lemma_duplicate_stays(all, i + 1);
                            }
                            return Some(key);
                        }
                    }
                    assert(seen[j as int].0 == map@[j as int].0@);
                    j += 1;
                }
            }
        }
        i += 1;
    }
    None
}

/// A duplicate among the first `n` entries is the first duplicate of them all.
proof fn lemma_duplicate_stays(m: Seq<(Item, Item)>, n: int)
    requires
        0 <= n <= m.len(),
        first_duplicate(m.take(n)) is Some,
    ensures
        first_duplicate(m) == first_duplicate(m.take(n)),
    decreases m.len(),
{
    if n < m.len() {
        assert(m.drop_last().take(n) =~= m.take(n));
        lemma_duplicate_stays(m.drop_last(), n);
    } else {
        assert(m.take(n) =~= m);
    }
}

/// The failure for a COSE key without a required field.
pub open spec fn missing_key_field(field: Seq<char>) -> Failure {
    Failure::InvalidPublicKey("missing required field: "@ + field)
}

/// The failure for a coordinate of the wrong length.
pub open spec fn bad_coordinate(name: Seq<char>, size: nat, len: nat) -> Failure {
    Failure::InvalidPublicKey(
        name + " coordinate must be "@ + decimal(size) + " bytes, got "@ + decimal(len),
    )
}

fn missing_field(field: &str) -> (e: WebAuthnError)
    ensures
        e@ == missing_key_field(field@),
{
    WebAuthnError::InvalidPublicKey(join("missing required field: ", field))
}

/// An OKP key: EdDSA on Ed25519 with a 32-byte key.
pub open spec fn okp_key(m: Seq<(Item, Item)>) -> Result<CoseKeyModel, Failure> {
    match int_field(m, 3) {
        None => Err(missing_key_field("alg"@)),
        Some(alg) => if alg != COSE_EDDSA {
            Err(Failure::UnsupportedAlgorithm(alg))
        } else {
            match int_field(m, -1) {
                None => Err(missing_key_field("crv"@)),
                Some(crv) => if crv != COSE_CRV_ED25519 {
                    Err(
                        Failure::InvalidPublicKey(
                            "unsupported OKP curve: "@ + signed_decimal(crv as int)
                                + " (only Ed25519 / crv=6 is supported)"@,
                        ),
                    )
                } else {
                    match bytes_field(m, -2) {
                        None => Err(missing_key_field("x"@)),
                        Some(x) => if x.len() != 32 {
                            Err(
                                Failure::InvalidPublicKey(
                                    "Ed25519 public key must be 32 bytes, got "@ + decimal(
                                        x.len(),
                                    ),
                                ),
                            )
                        } else {
                            Ok(CoseKeyModel::OKP { alg, x })
                        },
                    }
                },
            }
        },
    }
}

/// The coordinate length of an EC2 key, by its algorithm, which must go with the curve.
pub open spec fn coordinate_size(alg: i64, crv: i64) -> Result<nat, Failure> {
    if alg == COSE_ES256 {
        if crv != COSE_CRV_P256 {
            Err(
                Failure::InvalidPublicKey(
                    "ES256 requires curve P-256 (crv=1), got "@ + signed_decimal(crv as int),
                ),
            )
        } else {
            Ok(32)
        }
    } else if alg == COSE_ES384 {
        if crv != COSE_CRV_P384 {
            Err(
                Failure::InvalidPublicKey(
                    "ES384 requires curve P-384 (crv=2), got "@ + signed_decimal(crv as int),
                ),
            )
        } else {
            Ok(48)
        }
    } else {
        Err(Failure::UnsupportedAlgorithm(alg))
    }
}

/// An EC2 key: ES256 on P-256 or ES384 on P-384, with coordinates of the curve's size.
pub open spec fn ec2_key(m: Seq<(Item, Item)>) -> Result<CoseKeyModel, Failure> {
    match (int_field(m, 3), int_field(m, -1)) {
        (None, _) => Err(missing_key_field("alg"@)),
        (Some(_), None) => Err(missing_key_field("crv"@)),
        (Some(alg), Some(crv)) => match coordinate_size(alg, crv) {
            Err(failure) => Err(failure),
            Ok(size) => match (bytes_field(m, -2), bytes_field(m, -3)) {
                (None, _) => Err(missing_key_field("x"@)),
                (Some(_), None) => Err(missing_key_field("y"@)),
                (Some(x), Some(y)) => if x.len() != size {
                    Err(bad_coordinate("x"@, size, x.len()))
                } else if y.len() != size {
                    Err(bad_coordinate("y"@, size, y.len()))
                } else {
                    Ok(CoseKeyModel::EC2 { alg, crv, x, y })
                },
            },
        },
    }
}

/// An RSA key: RS256 with a modulus of at least 2048 bits and an exponent.
pub open spec fn rsa_key(m: Seq<(Item, Item)>) -> Result<CoseKeyModel, Failure> {
    match int_field(m, 3) {
        None => Err(missing_key_field("alg"@)),
        Some(alg) => if alg != COSE_RS256 {
            Err(Failure::UnsupportedAlgorithm(alg))
        } else {
            match bytes_field(m, -1) {
                None => Err(missing_key_field("n"@)),
                Some(n) => if n.len() < MIN_RSA_N_LEN {
                    Err(
                        Failure::InvalidPublicKey(
                            "RSA modulus must be at least "@ + decimal(MIN_RSA_N_LEN as nat)
                                + " bytes (2048-bit), got "@ + decimal(n.len()),
                        ),
                    )
                } else {
                    match bytes_field(m, -2) {
                        None => Err(missing_key_field("e"@)),
                        Some(e) => if e.len() == 0 {
                            Err(Failure::InvalidPublicKey("RSA exponent (e) must not be empty"@))
                        } else {
                            Ok(CoseKeyModel::RSA { alg, n, e })
                        },
                    }
                },
            }
        },
    }
}

/// The key that a decoded COSE key item stands for.
pub open spec fn cose_key(key: Item) -> Result<CoseKeyModel, Failure> {
    match key {
        Item::Dict(m) => match first_duplicate(m) {
            Some(k) => Err(Failure::InvalidPublicKey("duplicate COSE key: "@ + signed_decimal(k))),
            None => match int_field(m, 1) {
                None => Err(missing_key_field("kty"@)),
                Some(kty) => if kty == COSE_KTY_OKP {
                    okp_key(m)
                } else if kty == COSE_KTY_EC2 {
                    ec2_key(m)
                } else if kty == COSE_KTY_RSA {
                    rsa_key(m)
                } else {
                    Err(
                        Failure::InvalidPublicKey(
                            "unsupported key type: "@ + signed_decimal(kty as int)
                                + " (supported: OKP=1, EC2=2, RSA=3)"@,
                        ),
                    )
                },
            },
        },
        _ => Err(Failure::InvalidPublicKey("COSE key must be a CBOR map"@)),
    }
}

/// The key at the start of a byte string.
pub open spec fn cose_key_bytes(data: Seq<u8>) -> Result<CoseKeyModel, Failure> {
    match cbor_item(data) {
        Ok((key, _)) => cose_key(key),
        Err(message) => Err(Failure::CborDecodeError("COSE key: "@ + message)),
    }
}

fn parse_okp_key(map: &Vec<(DataItem, DataItem)>) -> (r: Result<CoseKey, WebAuthnError>)
    ensures
        outcome(r) == okp_key(entries(map@)),
{
    let alg: i64 = match get_int(map, 3) {
        Some(alg) => alg,
        None => return Err(missing_field("alg")),
    };
    if alg != COSE_EDDSA {
        return Err(WebAuthnError::UnsupportedAlgorithm(alg));
    }
    let crv: i64 = match get_int(map, -1) {
        Some(crv) => crv,
        None => return Err(missing_field("crv")),
    };
    if crv != COSE_CRV_ED25519 {
        return Err(
            WebAuthnError::InvalidPublicKey(
                join3(
                    "unsupported OKP curve: ",
                    signed_decimal_text(crv).as_str(),
                    " (only Ed25519 / crv=6 is supported)",
                ),
            ),
        );
    }
    let x = match get_bytes(map, -2) {
        Some(x) => x,
        None => return Err(missing_field("x")),
    };
    if x.len() != 32 {
        return Err(
            WebAuthnError::InvalidPublicKey(
                join(
                    "Ed25519 public key must be 32 bytes, got ",
                    decimal_text(x.len() as u64).as_str(),
                ),
            ),
        );
    }
    Ok(CoseKey::OKP { alg, x })
}

fn coordinate_len(alg: i64, crv: i64) -> (r: Result<usize, WebAuthnError>)
    ensures
        match r {
            Ok(size) => coordinate_size(alg, crv) == Ok::<nat, Failure>(size as nat),
            Err(e) => coordinate_size(alg, crv) == Err::<nat, Failure>(e@),
        },
{
    if alg == COSE_ES256 {
        if crv != COSE_CRV_P256 {
            return Err(
                WebAuthnError::InvalidPublicKey(
                    join(
                        "ES256 requires curve P-256 (crv=1), got ",
                        signed_decimal_text(crv).as_str(),
                    ),
                ),
            );
        }
        Ok(32)
    } else if alg == COSE_ES384 {
        if crv != COSE_CRV_P384 {
            return Err(
                WebAuthnError::InvalidPublicKey(
                    join(
                        "ES384 requires curve P-384 (crv=2), got ",
                        signed_decimal_text(crv).as_str(),
                    ),
                ),
            );
        }
        Ok(48)
    } else {
        Err(WebAuthnError::UnsupportedAlgorithm(alg))
    }
}

fn wrong_coordinate(name: &str, size: usize, len: usize) -> (e: WebAuthnError)
    ensures
        e@ == bad_coordinate(name@, size as nat, len as nat),
{
    WebAuthnError::InvalidPublicKey(
        join5(
            name,
            " coordinate must be ",
            decimal_text(size as u64).as_str(),
            " bytes, got ",
            decimal_text(len as u64).as_str(),
        ),
    )
}

fn parse_ec2_key(map: &Vec<(DataItem, DataItem)>) -> (r: Result<CoseKey, WebAuthnError>)
    ensures
        outcome(r) == ec2_key(entries(map@)),
{
    let alg: i64 = match get_int(map, 3) {
        Some(alg) => alg,
        None => return Err(missing_field("alg")),
    };
    let crv: i64 = match get_int(map, -1) {
        Some(crv) => crv,
        None => return Err(missing_field("crv")),
    };
    let size: usize = match coordinate_len(alg, crv) {
        Ok(size) => size,
        Err(e) => return Err(e),
    };
    let x = match get_bytes(map, -2) {
        Some(x) => x,
        None => return Err(missing_field("x")),
    };
    let y = match get_bytes(map, -3) {
        Some(y) => y,
        None => return Err(missing_field("y")),
    };
    if x.len() != size {
        return Err(wrong_coordinate("x", size, x.len()));
    }
    if y.len() != size {
        return Err(wrong_coordinate("y", size, y.len()));
    }
    Ok(CoseKey::EC2 { alg, crv, x, y })
}

fn parse_rsa_key(map: &Vec<(DataItem, DataItem)>) -> (r: Result<CoseKey, WebAuthnError>)
    ensures
        outcome(r) == rsa_key(entries(map@)),
{
    let alg: i64 = match get_int(map, 3) {
        Some(alg) => alg,
        None => return Err(missing_field("alg")),
    };
    if alg != COSE_RS256 {
        return Err(WebAuthnError::UnsupportedAlgorithm(alg));
    }
    let n = match get_bytes(map, -1) {
        Some(n) => n,
        None => return Err(missing_field("n")),
    };
    if n.len() < MIN_RSA_N_LEN {
        return Err(
            WebAuthnError::InvalidPublicKey(
                join3(
                    "RSA modulus must be at least ",
                    decimal_text(MIN_RSA_N_LEN as u64).as_str(),
                    " bytes (2048-bit), got ",
                ).concat(decimal_text(n.len() as u64).as_str()),
            ),
        );
    }
    let e = match get_bytes(map, -2) {
        Some(e) => e,
        None => return Err(missing_field("e")),
    };
    if e.is_empty() {
        return Err(
            WebAuthnError::InvalidPublicKey("RSA exponent (e) must not be empty".to_string()),
        );
    }
    Ok(CoseKey::RSA { alg, n, e })
}

/// Reads a COSE key out of its decoded item: OKP, EC2 and RSA keys are supported.
pub fn cose_key_from_item(key: &DataItem) -> (r: Result<CoseKey, WebAuthnError>)
    ensures
        outcome(r) == cose_key(key@),
{
    let map = match key {
        DataItem::Dict(m) => m,
        _ => return Err(
            WebAuthnError::InvalidPublicKey("COSE key must be a CBOR map".to_string()),
        ),
    };
    proof {
        lemma_dict(*map);
    }
    if let Some(k) = find_duplicate(map) {
        return Err(
            WebAuthnError::InvalidPublicKey(
                join("duplicate COSE key: ", signed_decimal_text(k).as_str()),
            ),
        );
    }
    let kty: i64 = match get_int(map, 1) {
        Some(kty) => kty,
        None => return Err(missing_field("kty")),
    };
    if kty == COSE_KTY_OKP {
        parse_okp_key(map)
    } else if kty == COSE_KTY_EC2 {
        parse_ec2_key(map)
    } else if kty == COSE_KTY_RSA {
        parse_rsa_key(map)
    } else {
        Err(
            WebAuthnError::InvalidPublicKey(
                join3(
                    "unsupported key type: ",
                    signed_decimal_text(kty).as_str(),
                    " (supported: OKP=1, EC2=2, RSA=3)",
                ),
            ),
        )
    }
}

/// Decodes a CBOR-encoded COSE key. Bytes after it are left alone.
pub fn parse_cose_key(data: &[u8]) -> (r: Result<CoseKey, WebAuthnError>)
    ensures
        outcome(r) == cose_key_bytes(data@),
{
    match decode_cbor(data) {
        Ok((key, _)) => cose_key_from_item(&key),
        Err(message) => Err(WebAuthnError::CborDecodeError(join("COSE key: ", message.as_str()))),
    }
}

/// Every key that decoding accepts is well formed.
pub proof fn law_accepted_keys_are_well_formed(key: Item)
    ensures
        cose_key(key) matches Ok(k) ==> k.well_formed(),
{
}

/// Credential data that the authenticator data holds during registration.
#[derive(Debug)]
pub struct AttestedCredentialData {
    /// Identifies the authenticator model. All zeros is common for platform
    /// authenticators.
    pub aaguid: [u8; 16],
    /// Opaque credential identifier chosen by the authenticator.
    pub credential_id: Vec<u8>,
    /// The new credential's public key.
    pub public_key: CoseKey,
}

/// The mathematical form of [`AttestedCredentialData`].
pub ghost struct AttestedModel {
    pub aaguid: Seq<u8>,
    pub credential_id: Seq<u8>,
    pub public_key: CoseKeyModel,
}

impl View for AttestedCredentialData {
    type V = AttestedModel;

    open spec fn view(&self) -> AttestedModel {
        AttestedModel {
            aaguid: self.aaguid@,
            credential_id: self.credential_id@,
            public_key: self.public_key@,
        }
    }
}

/// Fully parsed authenticator data.
#[derive(Debug)]
pub struct AuthenticatorData {
    /// SHA-256 hash of the RP ID.
    pub rp_id_hash: [u8; 32],
    /// Decoded flags byte.
    pub flags: AuthenticatorFlags,
    /// Authenticator-maintained signature counter.
    pub sign_count: u32,
    /// Present when the AT flag is set.
    pub attested_credential_data: Option<AttestedCredentialData>,
    /// Extension outputs, present when the ED flag is set. Unknown extensions are kept.
    pub extensions: Option<ExtensionMap>,
    /// The bytes that were parsed: signatures cover exactly these.
    pub raw: Vec<u8>,
}

/// The mathematical form of [`AuthenticatorData`].
pub ghost struct AuthenticatorDataModel {
    pub rp_id_hash: Seq<u8>,
    pub flags: AuthenticatorFlags,
    pub sign_count: nat,
    pub attested_credential_data: Option<AttestedModel>,
    pub extensions: Option<Map<Seq<char>, Item>>,
    pub raw: Seq<u8>,
}

impl View for AuthenticatorData {
    type V = AuthenticatorDataModel;

    open spec fn view(&self) -> AuthenticatorDataModel {
        AuthenticatorDataModel {
            rp_id_hash: self.rp_id_hash@,
            flags: self.flags,
            sign_count: self.sign_count as nat,
            attested_credential_data: maybe(self.attested_credential_data),
            extensions: maybe(self.extensions),
            raw: self.raw@,
        }
    }
}

/// The flags that a flags byte stands for.
pub open spec fn flags_of(byte: u8) -> AuthenticatorFlags {
    AuthenticatorFlags {
        user_present: byte & FLAG_UP != 0,
        user_verified: byte & FLAG_UV != 0,
        backup_eligible: byte & FLAG_BE != 0,
        backup_state: byte & FLAG_BS != 0,
        attested_credential_data: byte & FLAG_AT != 0,
        extension_data: byte & FLAG_ED != 0,
    }
}

/// The length of the credential ID in attested credential data, which at least one
/// byte of a key must follow.
pub open spec fn credential_id_len(data: Seq<u8>) -> Result<nat, Failure> {
    if data.len() < 18 {
        Err(
            Failure::InvalidAuthenticatorData(
                "attested credential data too short: expected at least 18 bytes after flags/counter, got "@
                    + decimal(data.len()),
            ),
        )
    } else {
        let len = be16(data[16], data[17]);
        if len == 0 {
            Err(
                Failure::InvalidAuthenticatorData(
                    "credentialIdLength is 0 — empty credential ID is not valid"@,
                ),
            )
        } else if len > MAX_CREDENTIAL_ID_LEN {
            Err(
                Failure::InvalidAuthenticatorData(
                    "credentialIdLength "@ + decimal(len) + " exceeds maximum "@ + decimal(
                        MAX_CREDENTIAL_ID_LEN as nat,
                    ) + " — likely corrupt data"@,
                ),
            )
        } else if 18 + len > data.len() {
            Err(
                Failure::InvalidAuthenticatorData(
                    "credentialIdLength ("@ + decimal(len) + ") extends past end of buffer"@,
                ),
            )
        } else if 18 + len == data.len() {
            Err(
                Failure::InvalidAuthenticatorData(
                    "no bytes remaining for credentialPublicKey CBOR"@,
                ),
            )
        } else {
            Ok(len)
        }
    }
}

/// Attested credential data at the start of a byte string, and how many bytes it takes.
pub open spec fn attested_data(data: Seq<u8>) -> Result<(AttestedModel, nat), Failure> {
    match credential_id_len(data) {
        Err(failure) => Err(failure),
        Ok(len) => {
            let rest = data.skip(18 + len as int);
            match cbor_item(rest) {
                Err(message) => Err(Failure::CborDecodeError("COSE key: "@ + message)),
                Ok((_, used)) => match cose_key_bytes(rest.take(used as int)) {
                    Err(failure) => Err(failure),
                    Ok(public_key) => Ok(
                        (
                            AttestedModel {
                                aaguid: data.take(16),
                                credential_id: data.subrange(18, 18 + len as int),
                                public_key,
                            },
                            18 + len + used,
                        ),
                    ),
                },
            }
        },
    }
}

/// The text entries of a map, where a later entry replaces an earlier one.
pub open spec fn text_entries(m: Seq<(Item, Item)>) -> Map<Seq<char>, Item>
    decreases m.len(),
{
    if m.len() == 0 {
        Map::empty()
    } else {
        let earlier = text_entries(m.drop_last());
        match m.last() {
            (Item::Text(key), value) => earlier.insert(key, value),
            _ => earlier,
        }
    }
}

/// The extension outputs that a decoded item stands for.
pub open spec fn extension_outputs(value: Item) -> Result<Map<Seq<char>, Item>, Failure> {
    match value {
        Item::Dict(m) => Ok(text_entries(m)),
        _ => Err(Failure::InvalidAuthenticatorData("extension data must be a CBOR map"@)),
    }
}

/// The extension outputs at the start of a byte string.
pub open spec fn extension_bytes(data: Seq<u8>) -> Result<Map<Seq<char>, Item>, Failure> {
    if data.len() == 0 {
        Err(
            Failure::InvalidAuthenticatorData(
                "ED flag is set but no extension bytes are present"@,
            ),
        )
    } else {
        match cbor_item(data) {
            Ok((value, _)) => extension_outputs(value),
            Err(message) => Err(Failure::CborDecodeError("extension map: "@ + message)),
        }
    }
}

/// The flags of authenticator data: at least 37 bytes, and no backup state without
/// backup eligibility.
pub open spec fn checked_flags(data: Seq<u8>) -> Result<AuthenticatorFlags, Failure> {
    if data.len() < 37 {
        Err(
            Failure::InvalidAuthenticatorData(
                "too short: expected at least 37 bytes, got "@ + decimal(data.len()),
            ),
        )
    } else {
        let flags = flags_of(data[32]);
        if flags.backup_state && !flags.backup_eligible {
            Err(
                Failure::InvalidAuthenticatorData(
                    "BS flag (backup state) is set but BE flag (backup eligibility) is not — invalid per §6.1"@,
                ),
            )
        } else {
            Ok(flags)
        }
    }
}

/// What authenticator data stands for.
pub open spec fn authenticator_data(data: Seq<u8>) -> Result<AuthenticatorDataModel, Failure> {
    match checked_flags(data) {
        Err(failure) => Err(failure),
        Ok(flags) => {
            let attested = if flags.attested_credential_data {
                match attested_data(data.skip(37)) {
                    Ok((credential, used)) => Ok((Some(credential), used)),
                    Err(failure) => Err(failure),
                }
            } else {
                Ok((None, 0nat))
            };
            match attested {
                Err(failure) => Err(failure),
                Ok((attested_credential_data, used)) => {
                    let extensions = if flags.extension_data {
                        match extension_bytes(data.skip(37 + used as int)) {
                            Ok(outputs) => Ok(Some(outputs)),
                            Err(failure) => Err(failure),
                        }
                    } else {
                        Ok(None)
                    };
                    match extensions {
                        Err(failure) => Err(failure),
                        Ok(extensions) => Ok(
                            AuthenticatorDataModel {
                                rp_id_hash: data.take(32),
                                flags,
                                sign_count: be_value(data.subrange(33, 37)),
                                attested_credential_data,
                                extensions,
                                raw: data,
                            },
                        ),
                    }
                },
            }
        },
    }
}

/// The failures of authenticator data that are told by a text.
fn malformed(message: String) -> (e: WebAuthnError)
    ensures
        e@ == Failure::InvalidAuthenticatorData(message@),
{
    WebAuthnError::InvalidAuthenticatorData(message)
}

/// Reads the length of the credential ID in attested credential data.
pub fn parse_credential_id_len(data: &[u8]) -> (r: Result<usize, WebAuthnError>)
    ensures
        match r {
            Ok(len) => credential_id_len(data@) == Ok::<nat, Failure>(len as nat) && 18 + len
                < data@.len(),
            Err(e) => credential_id_len(data@) == Err::<nat, Failure>(e@),
        },
{
    if data.len() < 18 {
        return Err(
            malformed(
                join(
                    "attested credential data too short: expected at least 18 bytes after flags/counter, got ",
                    decimal_text(data.len() as u64).as_str(),
                ),
            ),
        );
    }
    let len: usize = read_be16(data, 16) as usize;
    if len == 0 {
        return Err(
            malformed("credentialIdLength is 0 — empty credential ID is not valid".to_string()),
        );
    }
    if len > MAX_CREDENTIAL_ID_LEN {
        return Err(
            malformed(
                join5(
                    "credentialIdLength ",
                    decimal_text(len as u64).as_str(),
                    " exceeds maximum ",
                    decimal_text(MAX_CREDENTIAL_ID_LEN as u64).as_str(),
                    " — likely corrupt data",
                ),
            ),
        );
    }
    if 18 + len > data.len() {
        return Err(
            malformed(
                join3(
                    "credentialIdLength (",
                    decimal_text(len as u64).as_str(),
                    ") extends past end of buffer",
                ),
            ),
        );
    }
    if 18 + len == data.len() {
        return Err(malformed("no bytes remaining for credentialPublicKey CBOR".to_string()));
    }
    Ok(len)
}

/// Parses attested credential data; returns it with the number of bytes that it takes,
/// behind which an extension map may follow. The key takes at least one of them, and what
/// stands behind them does not matter.
pub fn parse_attested_credential_data(data: &[u8]) -> (r: Result<
    (AttestedCredentialData, usize),
    WebAuthnError,
>)
    ensures
        match r {
            Ok((credential, used)) => attested_data(data@) == Ok::<(AttestedModel, nat), Failure>(
                (credential@, used as nat),
            ) && 18 + credential@.credential_id.len() < used <= data@.len() && forall|
                tail: Seq<u8>,
            |
                #[trigger] attested_data(data@.take(used as int) + tail) == attested_data(data@),
            Err(e) => attested_data(data@) == Err::<(AttestedModel, nat), Failure>(e@),
        },
{
    let len: usize = match parse_credential_id_len(data) {
        Ok(len) => len,
        Err(e) => return Err(e),
    };
    let aaguid = take_16(data);
    let credential_id = copy_bytes(slice_subrange(data, 18, 18 + len));
    let rest = slice_subrange(data, 18 + len, data.len());
    assert(rest@ =~= data@.skip(18 + len as int));
    let used: usize = match decode_cbor(rest) {
        Ok((_, used)) => used,
        Err(message) => return Err(
            WebAuthnError::CborDecodeError(join("COSE key: ", message.as_str())),
        ),
    };
    let key = slice_subrange(rest, 0, used);
    assert(key@ =~= rest@.take(used as int));
    match parse_cose_key(key) {
        Ok(public_key) => {
            proof {
                let whole = 18 + len + used;
                assert forall|tail: Seq<u8>| #[trigger]
                    attested_data(data@.take(whole) + tail) == attested_data(data@) by {
                    let other = data@.take(whole) + tail;
                    assert(other[16] == data@[16] && other[17] == data@[17]);
                    assert(other.skip(18 + len as int) =~= rest@.take(used as int) + tail);
                    assert(other.skip(18 + len as int).take(used as int) =~= key@);
                    assert(other.take(16) =~= data@.take(16));
                    assert(other.subrange(18, 18 + len as int) =~= data@.subrange(
                        18,
                        18 + len as int,
                    ));
                }
            }
            Ok((AttestedCredentialData { aaguid, credential_id, public_key }, 18 + len + used))
        },
        Err(e) => Err(e),
    }
}

/// Collects the extension outputs of a decoded item. Keys that are no texts are skipped.
pub fn extensions_from_item(value: DataItem) -> (r: Result<ExtensionMap, WebAuthnError>)
    ensures
        outcome(r) == extension_outputs(value@),
{
    let map = match value {
        DataItem::Dict(m) => m,
        _ => return Err(malformed("extension data must be a CBOR map".to_string())),
    };
    proof {
        lemma_dict(map);
    }
    let ghost all = entries(map@);
    let mut outputs = ExtensionMap::new();
    assert(all.take(0) =~= Seq::<(Item, Item)>::empty());
    for entry in iter: map
        invariant
            all == entries(iter.seq()),
            outputs@ == text_entries(all.take(iter.index() as int)),
    {
        proof {
            let n = iter.index() as int;
            assert(all.take(n + 1).drop_last() =~= all.take(n));
            assert(all.take(n + 1).last() == (entry.0@, entry.1@));
        }
        if let DataItem::Text(key) = entry.0 {
            outputs.insert(key, entry.1);
        }
    }
    assert(all.take(all.len() as int) =~= all);
    Ok(outputs)
}

/// Decodes the extension map at the start of `data`.
pub fn parse_extension_map(data: &[u8]) -> (r: Result<ExtensionMap, WebAuthnError>)
    ensures
        outcome(r) == extension_bytes(data@),
{
    if data.is_empty() {
        return Err(malformed("ED flag is set but no extension bytes are present".to_string()));
    }
    match decode_cbor(data) {
        Ok((value, _)) => extensions_from_item(value),
        Err(message) => Err(
            WebAuthnError::CborDecodeError(join("extension map: ", message.as_str())),
        ),
    }
}

/// Parses authenticator data.
pub fn parse_authenticator_data(data: &[u8]) -> (r: Result<AuthenticatorData, WebAuthnError>)
    ensures
        outcome(r) == authenticator_data(data@),
{
    if data.len() < 37 {
        return Err(
            malformed(
                join(
                    "too short: expected at least 37 bytes, got ",
                    decimal_text(data.len() as u64).as_str(),
                ),
            ),
        );
    }
    let byte: u8 = data[32];
    let flags = AuthenticatorFlags {
        user_present: byte & FLAG_UP != 0,
        user_verified: byte & FLAG_UV != 0,
        backup_eligible: byte & FLAG_BE != 0,
        backup_state: byte & FLAG_BS != 0,
        attested_credential_data: byte & FLAG_AT != 0,
        extension_data: byte & FLAG_ED != 0,
    };
    if flags.backup_state && !flags.backup_eligible {
        return Err(
            malformed(
                "BS flag (backup state) is set but BE flag (backup eligibility) is not — invalid per §6.1".to_string(),
            ),
        );
    }
    let rp_id_hash = take_32(data);
    let sign_count: u32 = read_be32(data, 33);
    let mut used: usize = 0;
    let mut attested_credential_data: Option<AttestedCredentialData> = None;
    if flags.attested_credential_data {
        let rest = slice_subrange(data, 37, data.len());
        assert(rest@ =~= data@.skip(37));
        match parse_attested_credential_data(rest) {
            Ok((credential, n)) => {
                used = n;
                attested_credential_data = Some(credential);
            },
            Err(e) => return Err(e),
        }
    }
    let mut extensions: Option<ExtensionMap> = None;
    if flags.extension_data {
        let rest = slice_subrange(data, 37 + used, data.len());
        assert(rest@ =~= data@.skip(37 + used as int));
        match parse_extension_map(rest) {
            Ok(outputs) => {
                extensions = Some(outputs);
            },
            Err(e) => return Err(e),
        }
    }
    Ok(
        AuthenticatorData {
            rp_id_hash,
            flags,
            sign_count,
            attested_credential_data,
            extensions,
            raw: copy_bytes(data),
        },
    )
}

/// Of parsed authenticator data: it keeps the bytes it came from; a credential that is
/// backed up is eligible for backup; credential data and extensions are there exactly
/// when their flags say so; a credential ID has between 1 and 1023 bytes.
pub proof fn law_parsed_data_is_consistent(data: Seq<u8>)
    ensures
        authenticator_data(data) matches Ok(parsed) ==> {
            &&& parsed.raw == data
            &&& parsed.flags == flags_of(data[32])
            &&& parsed.flags.backup_state ==> parsed.flags.backup_eligible
            &&& parsed.attested_credential_data is Some == parsed.flags.attested_credential_data
            &&& parsed.extensions is Some == parsed.flags.extension_data
            &&& parsed.attested_credential_data matches Some(credential) ==> {
                &&& credential.aaguid.len() == 16
                &&& 1 <= credential.credential_id.len() <= MAX_CREDENTIAL_ID_LEN
                &&& credential.public_key.well_formed()
            }
        },
{
}

/// Authenticator data without credential and extensions reads back as what it was made of:
/// the hash, the flags and the big-endian sign count.
pub proof fn law_plain_data_reads_back(rp_id_hash: Seq<u8>, byte: u8, count: Seq<u8>)
    requires
        rp_id_hash.len() == 32,
        count.len() == 4,
        !flags_of(byte).attested_credential_data,
        !flags_of(byte).extension_data,
        flags_of(byte).backup_state ==> flags_of(byte).backup_eligible,
    ensures
        authenticator_data(rp_id_hash.push(byte) + count) == Ok::<AuthenticatorDataModel, Failure>(
            AuthenticatorDataModel {
                rp_id_hash,
                flags: flags_of(byte),
                sign_count: be_value(count),
                attested_credential_data: None,
                extensions: None,
                raw: rp_id_hash.push(byte) + count,
            },
        ),
{
    let data = rp_id_hash.push(byte) + count;
    assert(data.take(32) =~= rp_id_hash);
    assert(data.subrange(33, 37) =~= count);
}

/// The flags are bits of the flags byte: user present is the lowest, then user verified,
/// backup eligibility and backup state are the third to fifth, attested credential data and
/// extension data the two highest.
pub proof fn law_flag_bits(byte: u8)
    ensures
        flags_of(byte).user_present <==> byte % 2 == 1,
        flags_of(byte).user_verified <==> byte / 4 % 2 == 1,
        flags_of(byte).backup_eligible <==> byte / 8 % 2 == 1,
        flags_of(byte).backup_state <==> byte / 16 % 2 == 1,
        flags_of(byte).attested_credential_data <==> byte / 64 % 2 == 1,
        flags_of(byte).extension_data <==> byte / 128 == 1,
{
    assert(byte & 0x01u8 != 0 <==> byte % 2 == 1) by (bit_vector);
    assert(byte & 0x04u8 != 0 <==> byte / 4 % 2 == 1) by (bit_vector);
    assert(byte & 0x08u8 != 0 <==> byte / 8 % 2 == 1) by (bit_vector);
    assert(byte & 0x10u8 != 0 <==> byte / 16 % 2 == 1) by (bit_vector);
    assert(byte & 0x40u8 != 0 <==> byte / 64 % 2 == 1) by (bit_vector);
    assert(byte & 0x80u8 != 0 <==> byte / 128 == 1) by (bit_vector);
}

/// Whether no integer that fits in 64 bits is the key of two entries.
pub open spec fn keys_differ(m: Seq<(Item, Item)>) -> bool {
    forall|i: int, j: int|
        0 <= i < j < m.len() && (#[trigger] m[i]).0 == (#[trigger] m[j]).0 ==> !(
        m[i].0 matches Item::Integer(k) && i64::MIN <= k <= i64::MAX)
}

/// Whether a map has an entry with an integer key.
pub open spec fn has_entry(m: Seq<(Item, Item)>, key: int, value: Item) -> bool {
    m.contains((Item::Integer(key), value))
}

proof fn lemma_first_duplicate(m: Seq<(Item, Item)>)
    ensures
        first_duplicate(m) is None <==> keys_differ(m),
    decreases m.len(),
{
    if m.len() > 0 {
        let init = m.drop_last();
        lemma_first_duplicate(init);
        let last = m.len() - 1;
        if keys_differ(m) {
            assert forall|i: int, j: int|
                0 <= i < j < init.len() && (#[trigger] init[i]).0 == (
                #[trigger] init[j]).0 implies !(init[i].0 matches Item::Integer(k) && i64::MIN <= k
                <= i64::MAX) by {
                assert(m[i] == init[i] && m[j] == init[j]);
            }
            if let Item::Integer(key) = m.last().0 {
                if in_i64(key) && has_int_key(init, key) {
                    let i = choose|i: int|
                        0 <= i < init.len() && (#[trigger] init[i]).0 == Item::Integer(key);
                    assert(m[i].0 == m[last].0);
                }
            }
        }
        if first_duplicate(m) is None {
            assert forall|i: int, j: int|
                0 <= i < j < m.len() && (#[trigger] m[i]).0 == (#[trigger] m[j]).0 implies !(
            m[i].0 matches Item::Integer(k) && i64::MIN <= k <= i64::MAX) by {
                assert(m[i] == init[i]);
                if j < last {
                    assert(m[j] == init[j]);
                } else {
                    if let Item::Integer(key) = m[j].0 {
                        if in_i64(key) {
                            assert(init[i].0 == Item::Integer(key));
                            assert(has_int_key(init, key));
                        }
                    }
                }
            }
        }
    }
}

proof fn lemma_int_field(m: Seq<(Item, Item)>, key: int)
    requires
        keys_differ(m),
        in_i64(key),
    ensures
        forall|v: i64|
            #[trigger] has_entry(m, key, Item::Integer(v as int)) <==> int_field(m, key) == Some(v),
    decreases m.len(),
{
    if m.len() > 0 {
        let rest = m.drop_first();
        lemma_rest_differs(m);
        lemma_int_field(rest, key);
        assert forall|v: i64|
            #[trigger] has_entry(m, key, Item::Integer(v as int)) <==> int_field(m, key) == Some(
                v,
            ) by {
            let entry = (Item::Integer(key), Item::Integer(v as int));
            lemma_contains_first(m, entry);
            assert(has_entry(rest, key, Item::Integer(v as int)) <==> int_field(rest, key) == Some(
                v,
            ));
            if m[0].0 == Item::Integer(key) {
                lemma_key_is_gone(m, key);
                assert(!rest.contains(entry));
                if let Some(w) = int_field(rest, key) {
                    assert(has_entry(rest, key, Item::Integer(w as int)));
                }
            }
        }
    }
}

proof fn lemma_bytes_field(m: Seq<(Item, Item)>, key: int)
    requires
        keys_differ(m),
        in_i64(key),
    ensures
        forall|b: Seq<u8>|
            #[trigger] has_entry(m, key, Item::Bytes(b)) <==> bytes_field(m, key) == Some(b),
    decreases m.len(),
{
    if m.len() > 0 {
        let rest = m.drop_first();
        lemma_rest_differs(m);
        lemma_bytes_field(rest, key);
        assert forall|b: Seq<u8>|
            #[trigger] has_entry(m, key, Item::Bytes(b)) <==> bytes_field(m, key) == Some(b) by {
            let entry = (Item::Integer(key), Item::Bytes(b));
            lemma_contains_first(m, entry);
            assert(has_entry(rest, key, Item::Bytes(b)) <==> bytes_field(rest, key) == Some(b));
            if m[0].0 == Item::Integer(key) {
                lemma_key_is_gone(m, key);
                assert(!rest.contains(entry));
                if let Some(w) = bytes_field(rest, key) {
                    assert(has_entry(rest, key, Item::Bytes(w)));
                }
            }
        }
    }
}

proof fn lemma_rest_differs(m: Seq<(Item, Item)>)
    requires
        keys_differ(m),
        m.len() > 0,
    ensures
        keys_differ(m.drop_first()),
{
    let rest = m.drop_first();
    assert forall|i: int, j: int|
        0 <= i < j < rest.len() && (#[trigger] rest[i]).0 == (#[trigger] rest[j]).0 implies !(
    rest[i].0 matches Item::Integer(k) && i64::MIN <= k <= i64::MAX) by {
        assert(m[i + 1] == rest[i] && m[j + 1] == rest[j]);
    }
}

proof fn lemma_contains_first(m: Seq<(Item, Item)>, entry: (Item, Item))
    requires
        m.len() > 0,
    ensures
        m.contains(entry) <==> m[0] == entry || m.drop_first().contains(entry),
{
    let rest = m.drop_first();
    if m.contains(entry) {
        let i = choose|i: int| 0 <= i < m.len() && m[i] == entry;
        if i > 0 {
            assert(rest[i - 1] == entry);
        }
    }
    if rest.contains(entry) {
        let i = choose|i: int| 0 <= i < rest.len() && rest[i] == entry;
        assert(m[i + 1] == entry);
    }
}

proof fn lemma_key_is_gone(m: Seq<(Item, Item)>, key: int)
    requires
        keys_differ(m),
        m.len() > 0,
        in_i64(key),
        m[0].0 == Item::Integer(key),
    ensures
        forall|value: Item| !#[trigger] has_entry(m.drop_first(), key, value),
{
    let rest = m.drop_first();
    assert forall|value: Item| !#[trigger] has_entry(rest, key, value) by {
        if has_entry(rest, key, value) {
            let entry = (Item::Integer(key), value);
            let i = choose|i: int| 0 <= i < rest.len() && rest[i] == entry;
            assert(m[i + 1] == entry);
            assert(m[0].0 == m[i + 1].0);
        }
    }
}

/// A key is read out of the entries of its map: an Ed25519 key, a P-256 or P-384 key, or an
/// RSA key of at least 2048 bits, exactly if the map holds its parts under their labels and no
/// label twice.
pub proof fn law_keys_are_read_by_label(
    m: Seq<(Item, Item)>,
    alg: i64,
    crv: i64,
    x: Seq<u8>,
    y: Seq<u8>,
    n: Seq<u8>,
    e: Seq<u8>,
)
    ensures
        cose_key(Item::Dict(m)) == Ok::<CoseKeyModel, Failure>(
            CoseKeyModel::OKP { alg, x },
        ) <==> {
                &&& keys_differ(m)
                &&& has_entry(m, 1, Item::Integer(1))
                &&& has_entry(m, 3, Item::Integer(-8))
                &&& has_entry(m, -1, Item::Integer(6))
                &&& has_entry(m, -2, Item::Bytes(x))
                &&& alg == -8
                &&& x.len() == 32
            },
        cose_key(Item::Dict(m)) == Ok::<CoseKeyModel, Failure>(
            CoseKeyModel::EC2 { alg, crv, x, y },
        ) <==> {
                &&& keys_differ(m)
                &&& has_entry(m, 1, Item::Integer(2))
                &&& has_entry(m, 3, Item::Integer(alg as int))
                &&& has_entry(m, -1, Item::Integer(crv as int))
                &&& has_entry(m, -2, Item::Bytes(x))
                &&& has_entry(m, -3, Item::Bytes(y))
                &&& x.len() == y.len()
                &&& (alg == -7 && crv == 1 && x.len() == 32) || (alg == -35 && crv == 2 && x.len()
                    == 48)
            },
        cose_key(Item::Dict(m)) == Ok::<CoseKeyModel, Failure>(
            CoseKeyModel::RSA { alg, n, e },
        ) <==> {
                &&& keys_differ(m)
                &&& has_entry(m, 1, Item::Integer(3))
                &&& has_entry(m, 3, Item::Integer(-257))
                &&& has_entry(m, -1, Item::Bytes(n))
                &&& has_entry(m, -2, Item::Bytes(e))
                &&& alg == -257
                &&& n.len() >= 256
                &&& e.len() > 0
            },
{
    lemma_first_duplicate(m);
    if keys_differ(m) {
        lemma_int_field(m, 1);
        lemma_int_field(m, 3);
        lemma_int_field(m, -1);
        lemma_bytes_field(m, -1);
        lemma_bytes_field(m, -2);
        lemma_bytes_field(m, -3);
        assert(has_entry(m, 1, Item::Integer(1i64 as int)) <==> int_field(m, 1) == Some(1i64));
        assert(has_entry(m, 1, Item::Integer(2i64 as int)) <==> int_field(m, 1) == Some(2i64));
        assert(has_entry(m, 1, Item::Integer(3i64 as int)) <==> int_field(m, 1) == Some(3i64));
        assert(has_entry(m, 3, Item::Integer(-8i64 as int)) <==> int_field(m, 3) == Some(-8i64));
        assert(has_entry(m, 3, Item::Integer(-257i64 as int)) <==> int_field(m, 3) == Some(
            -257i64,
        ));
        assert(has_entry(m, -1, Item::Integer(6i64 as int)) <==> int_field(m, -1) == Some(6i64));
    }
}

/// How a key is refused: with its algorithm where that is not one of its type's, and as an
/// invalid key otherwise.
pub proof fn law_key_failures(key: Item)
    ensures
        cose_key(key) matches Err(failure) ==> failure is InvalidPublicKey || (
        failure matches Failure::UnsupportedAlgorithm(alg) && (key matches Item::Dict(m)
            && keys_differ(m) && has_entry(m, 3, Item::Integer(alg as int)))),
        forall|m: Seq<(Item, Item)>, alg: i64|
            key == Item::Dict(m) && keys_differ(m) && #[trigger] has_entry(
                m,
                3,
                Item::Integer(alg as int),
            ) && ({
                ||| has_entry(m, 1, Item::Integer(1)) && alg != -8
                ||| has_entry(m, 1, Item::Integer(3)) && alg != -257
            }) ==> cose_key(key) == Err::<CoseKeyModel, Failure>(
                Failure::UnsupportedAlgorithm(alg),
            ),
        !(key is Dict) ==> (cose_key(key) matches Err(failure) && failure is InvalidPublicKey),
        (key matches Item::Dict(m) && !keys_differ(m)) ==> (cose_key(key) matches Err(failure)
            && failure is InvalidPublicKey),
{
    if let Item::Dict(m) = key {
        lemma_first_duplicate(m);
        if keys_differ(m) {
            lemma_int_field(m, 1);
            lemma_int_field(m, 3);
            if let Some(alg) = int_field(m, 3) {
                assert(has_entry(m, 3, Item::Integer(alg as int)));
            }
            assert(has_entry(m, 1, Item::Integer(1i64 as int)) <==> int_field(m, 1) == Some(1i64));
            assert(has_entry(m, 1, Item::Integer(3i64 as int)) <==> int_field(m, 1) == Some(3i64));
        }
    }
}

/// The key in bytes is the key in the data item at their start.
pub proof fn law_key_bytes(data: Seq<u8>)
    ensures
        cbor_item(data) matches Ok((item, _)) ==> cose_key_bytes(data) == cose_key(item),
        cbor_item(data) is Err ==> (cose_key_bytes(data) matches Err(failure)
            && failure is CborDecodeError),
{
}

/// The length of a credential ID stands in two bytes behind the AAGUID. It is accepted exactly
/// if it is from 1 to 1023 and the ID, with something behind it, is there.
pub proof fn law_credential_id_lengths(data: Seq<u8>, len: nat)
    ensures
        credential_id_len(data) == Ok::<nat, Failure>(len) <==> {
            &&& data.len() > 18 + len
            &&& len == be_value(data.subrange(16, 18))
            &&& 1 <= len <= 1023
        },
        credential_id_len(data) matches Err(failure) ==> failure is InvalidAuthenticatorData,
{
    if data.len() >= 18 {
        crate::bytes::law_big_endian_value(Seq::empty(), 0);
        assert(data.subrange(16, 18) =~= seq![data[16], data[17]]);
        assert(be16(data[16], data[17]) == be_value(data.subrange(16, 18)));
    }
}

/// Attested credential data reads back as what it was made of, whatever stands behind it: the
/// AAGUID, the credential ID with its length in front, and the key.
pub proof fn law_attested_data_reads_back(
    aaguid: Seq<u8>,
    id: Seq<u8>,
    key_bytes: Seq<u8>,
    key: CoseKeyModel,
    tail: Seq<u8>,
)
    requires
        aaguid.len() == 16,
        1 <= id.len() <= 1023,
        key_bytes.len() > 0,
        cbor_item(key_bytes + tail) matches Ok((_, used)) && used == key_bytes.len(),
        cose_key_bytes(key_bytes) == Ok::<CoseKeyModel, Failure>(key),
    ensures
        attested_data(
            aaguid + seq![(id.len() / 256) as u8, (id.len() % 256) as u8] + id + key_bytes + tail,
        ) == Ok::<(AttestedModel, nat), Failure>(
            (
                AttestedModel { aaguid, credential_id: id, public_key: key },
                18 + id.len() + key_bytes.len(),
            ),
        ),
{
    let hi = (id.len() / 256) as u8;
    let lo = (id.len() % 256) as u8;
    let data = aaguid + seq![hi, lo] + id + key_bytes + tail;
    assert(data[16] == hi && data[17] == lo);
    assert(be16(hi, lo) == id.len());
    assert(data.skip(18 + id.len() as int) =~= key_bytes + tail);
    assert((key_bytes + tail).take(key_bytes.len() as int) =~= key_bytes);
    assert(data.take(16) =~= aaguid);
    assert(data.subrange(18, 18 + id.len() as int) =~= id);
}

/// How attested credential data fails: by its length field, by a key that is no data item, or
/// by the failure of its key.
pub proof fn law_attested_data_failures(data: Seq<u8>)
    ensures
        credential_id_len(data) matches Err(failure) ==> attested_data(data) == Err::<
            (AttestedModel, nat),
            Failure,
        >(failure),
        credential_id_len(data) matches Ok(len) ==> match cbor_item(data.skip(18 + len as int)) {
            Err(_) => attested_data(data) matches Err(failure) && failure is CborDecodeError,
            Ok((_, used)) => match cose_key_bytes(data.skip(18 + len as int).take(used as int)) {
                Err(failure) => attested_data(data) == Err::<(AttestedModel, nat), Failure>(
                    failure,
                ),
                Ok(key) => attested_data(data) matches Ok((credential, whole)) && {
                    &&& credential.public_key == key
                    &&& whole == 18 + len + used
                },
            },
        },
{
}

/// The extension outputs are under the texts among the keys of the map, and no others.
pub proof fn law_extension_names(m: Seq<(Item, Item)>, id: Seq<char>)
    ensures
        text_entries(m).dom().contains(id) <==> exists|i: int|
            0 <= i < m.len() && (#[trigger] m[i]).0 == Item::Text(id),
    decreases m.len(),
{
    if m.len() > 0 {
        let init = m.drop_last();
        law_extension_names(init, id);
        if m.last().0 == Item::Text(id) {
            assert(m[m.len() - 1].0 == Item::Text(id));
        } else {
            assert((exists|i: int| 0 <= i < init.len() && (#[trigger] init[i]).0 == Item::Text(id))
                == (exists|i: int| 0 <= i < m.len() && (#[trigger] m[i]).0 == Item::Text(id))) by {
                if exists|i: int| 0 <= i < init.len() && (#[trigger] init[i]).0 == Item::Text(id) {
                    let i = choose|i: int|
                        0 <= i < init.len() && (#[trigger] init[i]).0 == Item::Text(id);
                    assert(m[i].0 == Item::Text(id));
                }
                if exists|i: int| 0 <= i < m.len() && (#[trigger] m[i]).0 == Item::Text(id) {
                    let i = choose|i: int| 0 <= i < m.len() && (#[trigger] m[i]).0 == Item::Text(id);
                    assert(init[i].0 == Item::Text(id));
                }
            }
        }
    }
}

/// Of several extension outputs of one name the last one counts.
pub proof fn law_last_extension_counts(m: Seq<(Item, Item)>, id: Seq<char>, at: int)
    requires
        0 <= at < m.len(),
        m[at].0 == Item::Text(id),
        forall|j: int| at < j < m.len() ==> (#[trigger] m[j]).0 != Item::Text(id),
    ensures
        text_entries(m).dom().contains(id),
        text_entries(m)[id] == m[at].1,
    decreases m.len(),
{
    let init = m.drop_last();
    let last = m.len() - 1;
    if at < last {
        assert(m[last].0 != Item::Text(id));
        assert forall|j: int| at < j < init.len() implies (#[trigger] init[j]).0 != Item::Text(
            id,
        ) by {
            assert(init[j] == m[j]);
        }
        law_last_extension_counts(init, id, at);
    }
}

/// Extension outputs are the map at the start of the bytes; there must be one.
pub proof fn law_extension_outputs(data: Seq<u8>)
    ensures
        match extension_bytes(data) {
            Ok(outputs) => data.len() > 0 && (cbor_item(data) matches Ok((Item::Dict(m), _))
                && outputs == text_entries(m)),
            Err(failure) => {
                ||| data.len() == 0 && failure is InvalidAuthenticatorData
                ||| data.len() > 0 && cbor_item(data) is Err && failure is CborDecodeError
                ||| data.len() > 0 && (cbor_item(data) matches Ok((item, _)) && !(item is Dict))
                    && failure is InvalidAuthenticatorData
            },
        },
{
}

/// Authenticator data reads back as what it was made of: the hash of the relying party ID, the
/// flags, the sign count, and behind them attested credential data and extension outputs
/// exactly where their flags are set.
pub proof fn law_authenticator_data_reads_back(
    rp_id_hash: Seq<u8>,
    byte: u8,
    count: Seq<u8>,
    attested: Seq<u8>,
    credential: AttestedModel,
    rest: Seq<u8>,
)
    requires
        rp_id_hash.len() == 32,
        count.len() == 4,
        byte / 16 % 2 == 1 ==> byte / 8 % 2 == 1,
        byte / 64 % 2 == 0 ==> attested.len() == 0,
        byte / 64 % 2 == 1 ==> attested_data(attested + rest) == Ok::<
            (AttestedModel, nat),
            Failure,
        >((credential, attested.len())),
        byte / 128 == 1 ==> extension_bytes(rest) is Ok,
    ensures
        authenticator_data(rp_id_hash.push(byte) + count + attested + rest) == Ok::<
            AuthenticatorDataModel,
            Failure,
        >(
            AuthenticatorDataModel {
                rp_id_hash,
                flags: AuthenticatorFlags {
                    user_present: byte % 2 == 1,
                    user_verified: byte / 4 % 2 == 1,
                    backup_eligible: byte / 8 % 2 == 1,
                    backup_state: byte / 16 % 2 == 1,
                    attested_credential_data: byte / 64 % 2 == 1,
                    extension_data: byte / 128 == 1,
                },
                sign_count: be_value(count),
                attested_credential_data: if byte / 64 % 2 == 1 {
                    Some(credential)
                } else {
                    None
                },
                extensions: if byte / 128 == 1 {
                    Some(extension_bytes(rest)->Ok_0)
                } else {
                    None
                },
                raw: rp_id_hash.push(byte) + count + attested + rest,
            },
        ),
{
    let data = rp_id_hash.push(byte) + count + attested + rest;
    law_flag_bits(byte);
    assert(data[32] == byte);
    assert(data.take(32) =~= rp_id_hash);
    assert(data.subrange(33, 37) =~= count);
    assert(data.skip(37) =~= attested + rest);
    assert(data.skip(37 + attested.len() as int) =~= rest);
}

/// How authenticator data fails: it is too short, or claims a backup without eligibility, or
/// what its flags announce fails.
pub proof fn law_authenticator_data_failures(data: Seq<u8>)
    ensures
        data.len() < 37 ==> (authenticator_data(data) matches Err(failure)
            && failure is InvalidAuthenticatorData),
        data.len() >= 37 && data[32] / 16 % 2 == 1 && data[32] / 8 % 2 == 0 ==> (authenticator_data(
            data,
        ) matches Err(failure) && failure is InvalidAuthenticatorData),
        data.len() >= 37 && (data[32] / 16 % 2 == 1 ==> data[32] / 8 % 2 == 1) ==> match (
            data[32] / 64 % 2 == 1,
            attested_data(data.skip(37)),
        ) {
            (true, Err(failure)) => authenticator_data(data) == Err::<
                AuthenticatorDataModel,
                Failure,
            >(failure),
            (announced, attested) => {
                let used = if announced {
                    attested->Ok_0.1
                } else {
                    0nat
                };
                data[32] / 128 == 1 ==> (extension_bytes(
                    data.skip(37 + used as int),
                ) matches Err(failure) ==> authenticator_data(data) == Err::<
                    AuthenticatorDataModel,
                    Failure,
                >(failure))
            },
        },
{
    if data.len() >= 37 {
        law_flag_bits(data[32]);
    }
}

} // verus!
