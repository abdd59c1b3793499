use ciborium::value::Value;
use webauthn::authenticator_data::{
    parse_authenticator_data, parse_cose_key, CoseKey, FLAG_AT, FLAG_BE, FLAG_BS, FLAG_ED, FLAG_UP,
    FLAG_UV,
};
use webauthn::{DataItem, WebAuthnError};

fn item(v: &Value) -> DataItem {
    match v {
        Value::Integer(i) => DataItem::Integer((*i).into()),
        Value::Bytes(b) => DataItem::Bytes(b.clone()),
        Value::Float(f) => DataItem::Float(f.to_bits()),
        Value::Text(s) => DataItem::Text(s.clone()),
        Value::Bool(b) => DataItem::Bool(*b),
        Value::Null => DataItem::Null,
        Value::Tag(t, inner) => DataItem::Tag(*t, Box::new(item(inner))),
        Value::Array(a) => DataItem::Array(a.iter().map(item).collect()),
        Value::Map(m) => DataItem::Dict(m.iter().map(|(k, v)| (item(k), item(v))).collect()),
        _ => DataItem::Other,
    }
}

pub fn make_auth_data(
    rp_id_hash: &[u8; 32],
    flags: u8,
    sign_count: u32,
    cred_data: Option<&[u8]>,
) -> Vec<u8> {
    let mut out = Vec::new();
    out.extend_from_slice(rp_id_hash);
    out.push(flags);
    out.extend_from_slice(&sign_count.to_be_bytes());
    if let Some(cd) = cred_data {
        out.extend_from_slice(cd);
    }
    out
}

fn make_cose_key_cbor(x: &[u8], y: &[u8]) -> Vec<u8> {
    make_cose_key_cbor_with_alg_crv(x, y, -7, 1)
}

fn make_cose_key_cbor_with_alg_crv(x: &[u8], y: &[u8], alg: i64, crv: i64) -> Vec<u8> {
    let cose = Value::Map(vec![
        (Value::Integer(1i64.into()), Value::Integer(2i64.into())),
        (Value::Integer(3i64.into()), Value::Integer(alg.into())),
        (Value::Integer((-1i64).into()), Value::Integer(crv.into())),
        (Value::Integer((-2i64).into()), Value::Bytes(x.to_vec())),
        (Value::Integer((-3i64).into()), Value::Bytes(y.to_vec())),
    ]);
    let mut buf = Vec::new();
    ciborium::into_writer(&cose, &mut buf).unwrap();
    buf
}

fn make_rsa_cose_key_cbor(n: &[u8], e: &[u8]) -> Vec<u8> {
    let cose = Value::Map(vec![
        (Value::Integer(1i64.into()), Value::Integer(3i64.into())),
        (
            Value::Integer(3i64.into()),
            Value::Integer((-257i64).into()),
        ),
        (Value::Integer((-1i64).into()), Value::Bytes(n.to_vec())),
        (Value::Integer((-2i64).into()), Value::Bytes(e.to_vec())),
    ]);
    let mut buf = Vec::new();
    ciborium::into_writer(&cose, &mut buf).unwrap();
    buf
}

fn make_attested_cred_data(cred_id: &[u8], pk_cbor: &[u8]) -> Vec<u8> {
    let mut out = vec![0u8; 16];
    out.extend_from_slice(&(cred_id.len() as u16).to_be_bytes());
    out.extend_from_slice(cred_id);
    out.extend_from_slice(pk_cbor);
    out
}

#[test]
fn parses_be_flag() {
    let data = make_auth_data(&[0u8; 32], FLAG_UP | FLAG_BE, 0, None);
    let parsed = parse_authenticator_data(&data).unwrap();
    assert!(parsed.flags.backup_eligible);
    assert!(!parsed.flags.backup_state);
}

#[test]
fn parses_be_and_bs_flags() {
    let data = make_auth_data(&[0u8; 32], FLAG_UP | FLAG_BE | FLAG_BS, 0, None);
    let parsed = parse_authenticator_data(&data).unwrap();
    assert!(parsed.flags.backup_eligible);
    assert!(parsed.flags.backup_state);
}

#[test]
fn rejects_bs_without_be() {
    let data = make_auth_data(&[0u8; 32], FLAG_UP | FLAG_BS, 0, None);
    let err = parse_authenticator_data(&data).unwrap_err();
    assert!(matches!(err, WebAuthnError::InvalidAuthenticatorData(_)));
    assert!(err.message().contains("BS"));
}

#[test]
fn rejects_too_short() {
    let result = parse_authenticator_data(&[0u8; 10]);
    assert!(matches!(
        result,
        Err(WebAuthnError::InvalidAuthenticatorData(_))
    ));
}

#[test]
fn rejects_exactly_36_bytes() {
    let result = parse_authenticator_data(&[0u8; 36]);
    assert!(matches!(
        result,
        Err(WebAuthnError::InvalidAuthenticatorData(_))
    ));
}

#[test]
fn rejects_empty() {
    let result = parse_authenticator_data(&[]);
    assert!(matches!(
        result,
        Err(WebAuthnError::InvalidAuthenticatorData(_))
    ));
}

#[test]
fn parses_minimal_auth_data() {
    let rp_hash = [0xABu8; 32];
    let data = make_auth_data(&rp_hash, FLAG_UP, 42, None);
    let parsed = parse_authenticator_data(&data).unwrap();

    assert_eq!(parsed.rp_id_hash, rp_hash);
    assert!(parsed.flags.user_present);
    assert!(!parsed.flags.user_verified);
    assert_eq!(parsed.sign_count, 42);
    assert!(parsed.attested_credential_data.is_none());
    assert_eq!(parsed.raw, data);
}

#[test]
fn parses_up_and_uv_flags() {
    let data = make_auth_data(&[0u8; 32], FLAG_UP | FLAG_UV, 0, None);
    let parsed = parse_authenticator_data(&data).unwrap();
    assert!(parsed.flags.user_present);
    assert!(parsed.flags.user_verified);
}

#[test]
fn raw_field_equals_input_bytes() {
    let data = make_auth_data(&[0u8; 32], FLAG_UP, 7, None);
    let parsed = parse_authenticator_data(&data).unwrap();
    assert_eq!(parsed.raw, data);
}

#[test]
fn all_flags_set_parses_without_panic() {
    let data = make_auth_data(&[0u8; 32], 0xFF, 0, None);
    let result = parse_authenticator_data(&data);
    assert!(result.is_err());
}

#[test]
fn at_flag_set_but_no_data_returns_error() {
    let data = make_auth_data(&[0u8; 32], FLAG_UP | FLAG_AT, 0, None);
    let err = parse_authenticator_data(&data).unwrap_err();
    assert!(matches!(err, WebAuthnError::InvalidAuthenticatorData(_)));
}

#[test]
fn rejects_zero_length_credential_id() {
    let pk = make_cose_key_cbor(&[0x01u8; 32], &[0x02u8; 32]);
    let cred_data = make_attested_cred_data(&[], &pk);
    let data = make_auth_data(&[0u8; 32], FLAG_UP | FLAG_AT, 0, Some(&cred_data));
    let err = parse_authenticator_data(&data).unwrap_err();
    assert!(matches!(err, WebAuthnError::InvalidAuthenticatorData(_)));
    assert!(err.message().contains("0"));
}

#[test]
fn rejects_credential_id_too_large() {
    let mut cred_data = vec![0u8; 16];
    let oversized_len: u16 = 1024;
    cred_data.extend_from_slice(&oversized_len.to_be_bytes());
    let data = make_auth_data(&[0u8; 32], FLAG_UP | FLAG_AT, 0, Some(&cred_data));
    let err = parse_authenticator_data(&data).unwrap_err();
    assert!(matches!(err, WebAuthnError::InvalidAuthenticatorData(_)));
    assert!(err.message().contains("1024"));
}

#[test]
fn rejects_credential_id_extends_past_buffer() {
    let mut cred_data = vec![0u8; 16];
    cred_data.extend_from_slice(&50u16.to_be_bytes());
    cred_data.extend_from_slice(&[0xABu8; 10]);
    let data = make_auth_data(&[0u8; 32], FLAG_UP | FLAG_AT, 0, Some(&cred_data));
    let err = parse_authenticator_data(&data).unwrap_err();
    assert!(matches!(err, WebAuthnError::InvalidAuthenticatorData(_)));
}

#[test]
fn rejects_empty_cbor_after_credential_id() {
    let mut cred_data = vec![0u8; 16];
    cred_data.extend_from_slice(&1u16.to_be_bytes());
    cred_data.push(0xAB);
    let data = make_auth_data(&[0u8; 32], FLAG_UP | FLAG_AT, 0, Some(&cred_data));
    let err = parse_authenticator_data(&data).unwrap_err();
    assert!(matches!(err, WebAuthnError::InvalidAuthenticatorData(_)));
}

fn make_extension_cbor(entries: &[(&str, Value)]) -> Vec<u8> {
    let map = Value::Map(
        entries
            .iter()
            .map(|(k, v)| (Value::Text(k.to_string()), v.clone()))
            .collect(),
    );
    let mut buf = Vec::new();
    ciborium::into_writer(&map, &mut buf).unwrap();
    buf
}

#[test]
fn ed_flag_not_set_produces_none_extensions() {
    let data = make_auth_data(&[0u8; 32], FLAG_UP, 1, None);
    let parsed = parse_authenticator_data(&data).unwrap();
    assert!(parsed.extensions.is_none());
}

#[test]
fn ed_flag_set_with_valid_map_populates_extensions() {
    let ext_cbor = make_extension_cbor(&[("appid", Value::Bool(true))]);
    let mut data = make_auth_data(&[0u8; 32], FLAG_UP | FLAG_ED, 0, None);
    data.extend_from_slice(&ext_cbor);
    let parsed = parse_authenticator_data(&data).unwrap();
    let exts = parsed.extensions.unwrap();
    assert_eq!(exts.get("appid"), Some(&DataItem::Bool(true)));
}

#[test]
fn ed_flag_set_with_multiple_extensions() {
    let cred_props = Value::Map(vec![(Value::Text("rk".to_string()), Value::Bool(true))]);
    let ext_cbor = make_extension_cbor(&[
        ("credProps", cred_props.clone()),
        ("appid", Value::Bool(false)),
    ]);
    let mut data = make_auth_data(&[0u8; 32], FLAG_UP | FLAG_ED, 0, None);
    data.extend_from_slice(&ext_cbor);
    let parsed = parse_authenticator_data(&data).unwrap();
    let exts = parsed.extensions.unwrap();
    assert_eq!(exts.get("credProps"), Some(&item(&cred_props)));
    assert_eq!(exts.get("appid"), Some(&DataItem::Bool(false)));
}

#[test]
fn ed_flag_set_with_at_flag_parses_extensions_after_cose_key() {
    let pk_cbor = make_cose_key_cbor(&[0x01u8; 32], &[0x02u8; 32]);
    let cred_data = make_attested_cred_data(&[0xAAu8; 8], &pk_cbor);
    let ext_cbor = make_extension_cbor(&[("appid", Value::Bool(true))]);
    let mut combined = cred_data;
    combined.extend_from_slice(&ext_cbor);
    let data = make_auth_data(&[0u8; 32], FLAG_UP | FLAG_AT | FLAG_ED, 0, Some(&combined));
    let parsed = parse_authenticator_data(&data).unwrap();
    assert!(parsed.attested_credential_data.is_some());
    let exts = parsed.extensions.unwrap();
    assert_eq!(exts.get("appid"), Some(&DataItem::Bool(true)));
}

#[test]
fn ed_flag_set_with_no_bytes_returns_error() {
    let data = make_auth_data(&[0u8; 32], FLAG_UP | FLAG_ED, 0, None);
    let err = parse_authenticator_data(&data).unwrap_err();
    assert!(matches!(err, WebAuthnError::InvalidAuthenticatorData(_)));
    assert!(err.message().contains("ED"));
}

#[test]
fn ed_flag_set_with_malformed_cbor_returns_error() {
    let mut data = make_auth_data(&[0u8; 32], FLAG_UP | FLAG_ED, 0, None);
    data.extend_from_slice(&[0xFF, 0xFF]);
    let err = parse_authenticator_data(&data).unwrap_err();
    assert!(matches!(err, WebAuthnError::CborDecodeError(_)));
}

#[test]
fn ed_flag_set_with_non_map_cbor_returns_error() {
    let mut data = make_auth_data(&[0u8; 32], FLAG_UP | FLAG_ED, 0, None);
    let not_a_map = Value::Integer(42i64.into());
    let mut cbor_buf = Vec::new();
    ciborium::into_writer(&not_a_map, &mut cbor_buf).unwrap();
    data.extend_from_slice(&cbor_buf);
    let err = parse_authenticator_data(&data).unwrap_err();
    assert!(matches!(err, WebAuthnError::InvalidAuthenticatorData(_)));
    assert!(err.message().contains("map"));
}

#[test]
fn parse_cose_key_valid_es256() {
    let x = vec![0x01u8; 32];
    let y = vec![0x02u8; 32];
    let cbor = make_cose_key_cbor(&x, &y);
    let key = parse_cose_key(&cbor).unwrap();
    match key {
        CoseKey::EC2 {
            alg,
            crv,
            x: kx,
            y: ky,
        } => {
            assert_eq!(alg, -7);
            assert_eq!(crv, 1);
            assert_eq!(kx, x);
            assert_eq!(ky, y);
        }
        _ => panic!("expected EC2 key"),
    }
}

#[test]
fn parse_cose_key_rejects_missing_kty() {
    let cose = Value::Map(vec![
        (Value::Integer(3i64.into()), Value::Integer((-7i64).into())),
        (Value::Integer((-1i64).into()), Value::Integer(1i64.into())),
        (Value::Integer((-2i64).into()), Value::Bytes(vec![0u8; 32])),
        (Value::Integer((-3i64).into()), Value::Bytes(vec![0u8; 32])),
    ]);
    let mut buf = Vec::new();
    ciborium::into_writer(&cose, &mut buf).unwrap();
    let err = parse_cose_key(&buf).unwrap_err();
    assert!(matches!(err, WebAuthnError::InvalidPublicKey(_)));
    assert!(err.message().contains("kty"));
}

#[test]
fn parse_cose_key_rejects_missing_alg() {
    let cose = Value::Map(vec![
        (Value::Integer(1i64.into()), Value::Integer(2i64.into())),
        (Value::Integer((-1i64).into()), Value::Integer(1i64.into())),
        (Value::Integer((-2i64).into()), Value::Bytes(vec![0u8; 32])),
        (Value::Integer((-3i64).into()), Value::Bytes(vec![0u8; 32])),
    ]);
    let mut buf = Vec::new();
    ciborium::into_writer(&cose, &mut buf).unwrap();
    let err = parse_cose_key(&buf).unwrap_err();
    assert!(matches!(err, WebAuthnError::InvalidPublicKey(_)));
    assert!(err.message().contains("alg"));
}

#[test]
fn parse_cose_key_rejects_missing_crv() {
    let cose = Value::Map(vec![
        (Value::Integer(1i64.into()), Value::Integer(2i64.into())),
        (Value::Integer(3i64.into()), Value::Integer((-7i64).into())),
        (Value::Integer((-2i64).into()), Value::Bytes(vec![0u8; 32])),
        (Value::Integer((-3i64).into()), Value::Bytes(vec![0u8; 32])),
    ]);
    let mut buf = Vec::new();
    ciborium::into_writer(&cose, &mut buf).unwrap();
    let err = parse_cose_key(&buf).unwrap_err();
    assert!(matches!(err, WebAuthnError::InvalidPublicKey(_)));
    assert!(err.message().contains("crv"));
}

#[test]
fn parse_cose_key_rejects_missing_x() {
    let cose = Value::Map(vec![
        (Value::Integer(1i64.into()), Value::Integer(2i64.into())),
        (Value::Integer(3i64.into()), Value::Integer((-7i64).into())),
        (Value::Integer((-1i64).into()), Value::Integer(1i64.into())),
        (Value::Integer((-3i64).into()), Value::Bytes(vec![0u8; 32])),
    ]);
    let mut buf = Vec::new();
    ciborium::into_writer(&cose, &mut buf).unwrap();
    let err = parse_cose_key(&buf).unwrap_err();
    assert!(matches!(err, WebAuthnError::InvalidPublicKey(_)));
    assert!(err.message().contains("x"));
}

#[test]
fn parse_cose_key_rejects_missing_y() {
    let cose = Value::Map(vec![
        (Value::Integer(1i64.into()), Value::Integer(2i64.into())),
        (Value::Integer(3i64.into()), Value::Integer((-7i64).into())),
        (Value::Integer((-1i64).into()), Value::Integer(1i64.into())),
        (Value::Integer((-2i64).into()), Value::Bytes(vec![0u8; 32])),
    ]);
    let mut buf = Vec::new();
    ciborium::into_writer(&cose, &mut buf).unwrap();
    let err = parse_cose_key(&buf).unwrap_err();
    assert!(matches!(err, WebAuthnError::InvalidPublicKey(_)));
    assert!(err.message().contains("y"));
}

#[test]
fn parse_cose_key_rejects_unsupported_kty() {
    let cose = Value::Map(vec![
        (Value::Integer(1i64.into()), Value::Integer(4i64.into())),
        (Value::Integer(3i64.into()), Value::Integer((-7i64).into())),
    ]);
    let mut buf = Vec::new();
    ciborium::into_writer(&cose, &mut buf).unwrap();
    let err = parse_cose_key(&buf).unwrap_err();
    assert!(matches!(err, WebAuthnError::InvalidPublicKey(ref m) if m.contains("4")));
}

#[test]
fn parse_cose_key_rejects_unsupported_crv() {
    let cbor = make_cose_key_cbor_with_alg_crv(&[0x01u8; 32], &[0x02u8; 32], -7, 2);
    let err = parse_cose_key(&cbor).unwrap_err();
    assert!(matches!(err, WebAuthnError::InvalidPublicKey(ref m) if m.contains("2")));
}

#[test]
fn parse_cose_key_valid_es384() {
    let x = vec![0x01u8; 48];
    let y = vec![0x02u8; 48];
    let cbor = make_cose_key_cbor_with_alg_crv(&x, &y, -35, 2);
    let key = parse_cose_key(&cbor).unwrap();
    match key {
        CoseKey::EC2 {
            alg,
            crv,
            x: kx,
            y: ky,
        } => {
            assert_eq!(alg, -35);
            assert_eq!(crv, 2);
            assert_eq!(kx, x);
            assert_eq!(ky, y);
        }
        _ => panic!("expected EC2 key"),
    }
}

#[test]
fn parse_cose_key_es384_rejects_short_x_coordinate() {
    let cbor = make_cose_key_cbor_with_alg_crv(&[0x01u8; 32], &[0x02u8; 48], -35, 2);
    let err = parse_cose_key(&cbor).unwrap_err();
    assert!(matches!(err, WebAuthnError::InvalidPublicKey(ref m) if m.contains("32")));
}

#[test]
fn parse_cose_key_es384_rejects_short_y_coordinate() {
    let cbor = make_cose_key_cbor_with_alg_crv(&[0x01u8; 48], &[0x02u8; 32], -35, 2);
    let err = parse_cose_key(&cbor).unwrap_err();
    assert!(matches!(err, WebAuthnError::InvalidPublicKey(ref m) if m.contains("32")));
}

#[test]
fn parse_cose_key_es384_rejects_wrong_crv() {
    let cbor = make_cose_key_cbor_with_alg_crv(&[0x01u8; 48], &[0x02u8; 48], -35, 1);
    let err = parse_cose_key(&cbor).unwrap_err();
    assert!(matches!(err, WebAuthnError::InvalidPublicKey(ref m) if m.contains("1")));
}

#[test]
fn parse_cose_key_rejects_short_x_coordinate() {
    let cbor = make_cose_key_cbor(&[0x01u8; 31], &[0x02u8; 32]);
    let err = parse_cose_key(&cbor).unwrap_err();
    assert!(matches!(err, WebAuthnError::InvalidPublicKey(ref m) if m.contains("31")));
}

#[test]
fn parse_cose_key_rejects_short_y_coordinate() {
    let cbor = make_cose_key_cbor(&[0x01u8; 32], &[0x02u8; 10]);
    let err = parse_cose_key(&cbor).unwrap_err();
    assert!(matches!(err, WebAuthnError::InvalidPublicKey(ref m) if m.contains("10")));
}

#[test]
fn parse_cose_key_rejects_long_x_coordinate() {
    let cbor = make_cose_key_cbor(&[0x01u8; 33], &[0x02u8; 32]);
    let err = parse_cose_key(&cbor).unwrap_err();
    assert!(matches!(err, WebAuthnError::InvalidPublicKey(ref m) if m.contains("33")));
}

#[test]
fn parse_cose_key_rejects_duplicate_key() {
    let cose = Value::Map(vec![
        (Value::Integer(1i64.into()), Value::Integer(2i64.into())),
        (Value::Integer(1i64.into()), Value::Integer(3i64.into())),
        (Value::Integer(3i64.into()), Value::Integer((-7i64).into())),
        (Value::Integer((-1i64).into()), Value::Integer(1i64.into())),
        (Value::Integer((-2i64).into()), Value::Bytes(vec![0u8; 32])),
        (Value::Integer((-3i64).into()), Value::Bytes(vec![0u8; 32])),
    ]);
    let mut buf = Vec::new();
    ciborium::into_writer(&cose, &mut buf).unwrap();
    let err = parse_cose_key(&buf).unwrap_err();
    assert!(matches!(err, WebAuthnError::InvalidPublicKey(ref m) if m.contains("duplicate")));
}

#[test]
fn parse_cose_key_rejects_not_a_map() {
    let cose = Value::Integer(42i64.into());
    let mut buf = Vec::new();
    ciborium::into_writer(&cose, &mut buf).unwrap();
    let err = parse_cose_key(&buf).unwrap_err();
    assert!(matches!(err, WebAuthnError::InvalidPublicKey(_)));
}

#[test]
fn parse_cose_key_rejects_empty_input() {
    let err = parse_cose_key(&[]).unwrap_err();
    assert!(matches!(err, WebAuthnError::CborDecodeError(_)));
}

#[test]
fn parse_cose_key_valid_rs256() {
    let n = vec![0x01u8; 256];
    let e = vec![0x01u8, 0x00, 0x01];
    let cbor = make_rsa_cose_key_cbor(&n, &e);
    let key = parse_cose_key(&cbor).unwrap();
    match key {
        CoseKey::RSA { alg, n: kn, e: ke } => {
            assert_eq!(alg, -257);
            assert_eq!(kn, n);
            assert_eq!(ke, e);
        }
        _ => panic!("expected RSA key"),
    }
}

#[test]
fn parse_cose_key_rs256_rejects_short_modulus() {
    let n = vec![0x01u8; 255];
    let e = vec![0x01u8, 0x00, 0x01];
    let cbor = make_rsa_cose_key_cbor(&n, &e);
    let err = parse_cose_key(&cbor).unwrap_err();
    assert!(matches!(err, WebAuthnError::InvalidPublicKey(ref m) if m.contains("255")));
}

#[test]
fn parse_cose_key_rs256_rejects_missing_n() {
    let cose = Value::Map(vec![
        (Value::Integer(1i64.into()), Value::Integer(3i64.into())),
        (
            Value::Integer(3i64.into()),
            Value::Integer((-257i64).into()),
        ),
        (
            Value::Integer((-2i64).into()),
            Value::Bytes(vec![0x01, 0x00, 0x01]),
        ),
    ]);
    let mut buf = Vec::new();
    ciborium::into_writer(&cose, &mut buf).unwrap();
    let err = parse_cose_key(&buf).unwrap_err();
    assert!(matches!(err, WebAuthnError::InvalidPublicKey(ref m) if m.contains("n")));
}

#[test]
fn parse_cose_key_rs256_rejects_missing_e() {
    let cose = Value::Map(vec![
        (Value::Integer(1i64.into()), Value::Integer(3i64.into())),
        (
            Value::Integer(3i64.into()),
            Value::Integer((-257i64).into()),
        ),
        (
            Value::Integer((-1i64).into()),
            Value::Bytes(vec![0x01u8; 256]),
        ),
    ]);
    let mut buf = Vec::new();
    ciborium::into_writer(&cose, &mut buf).unwrap();
    let err = parse_cose_key(&buf).unwrap_err();
    assert!(matches!(err, WebAuthnError::InvalidPublicKey(ref m) if m.contains("e")));
}

#[test]
fn parse_cose_key_rsa_with_wrong_alg_returns_unsupported() {
    let cose = Value::Map(vec![
        (Value::Integer(1i64.into()), Value::Integer(3i64.into())),
        (Value::Integer(3i64.into()), Value::Integer((-7i64).into())),
        (
            Value::Integer((-1i64).into()),
            Value::Bytes(vec![0x01u8; 256]),
        ),
        (
            Value::Integer((-2i64).into()),
            Value::Bytes(vec![0x01, 0x00, 0x01]),
        ),
    ]);
    let mut buf = Vec::new();
    ciborium::into_writer(&cose, &mut buf).unwrap();
    let err = parse_cose_key(&buf).unwrap_err();
    assert!(matches!(err, WebAuthnError::UnsupportedAlgorithm(-7)));
}
