use ring::rand::SystemRandom;
use ring::signature::{EcdsaKeyPair, KeyPair, ECDSA_P256_SHA256_ASN1_SIGNING};
use webauthn::crypto::{random_bytes, sha256, verify_es256};
use webauthn::WebAuthnError;

#[test]
fn sha256_known_answer_empty_input() {
    let digest = sha256(b"");
    let expected = hex_to_bytes(
        "e3b0c44298fc1c149afbf4c8996fb924\
                                 27ae41e4649b934ca495991b7852b855",
    );
    assert_eq!(digest, expected.as_slice());
}

#[test]
fn sha256_returns_32_bytes() {
    assert_eq!(sha256(b"anything").len(), 32);
}

#[test]
fn sha256_is_deterministic() {
    assert_eq!(sha256(b"abc"), sha256(b"abc"));
}

#[test]
fn sha256_different_inputs_differ() {
    assert_ne!(sha256(b"abc"), sha256(b"abd"));
    assert_ne!(sha256(b"abc"), sha256(b""));
}

#[test]
fn random_bytes_zero_len_returns_empty() {
    let result = random_bytes(0).unwrap();
    assert!(result.is_empty());
}

#[test]
fn random_bytes_returns_exact_len() {
    let result = random_bytes(32).unwrap();
    assert_eq!(result.len(), 32);
}

#[test]
fn random_bytes_two_calls_differ() {
    let a = random_bytes(32).unwrap();
    let b = random_bytes(32).unwrap();
    assert_ne!(a, b, "two random 32-byte draws should not match");
}

#[test]
fn verify_es256_rejects_key_missing_prefix() {
    let key_64 = vec![0x01u8; 64];
    let err = verify_es256(&key_64, b"msg", b"sig").unwrap_err();
    assert!(matches!(err, WebAuthnError::SignatureVerificationFailed));
}

#[test]
fn verify_es256_rejects_empty_key() {
    let err = verify_es256(&[], b"msg", b"sig").unwrap_err();
    assert!(matches!(err, WebAuthnError::SignatureVerificationFailed));
}

#[test]
fn verify_es256_rejects_empty_signature() {
    let key = vec![0x04u8; 65];
    let err = verify_es256(&key, b"hello", &[]).unwrap_err();
    assert!(matches!(err, WebAuthnError::SignatureVerificationFailed));
}

#[test]
fn verify_es256_rejects_wrong_signature() {

    let rng = SystemRandom::new();
    let pkcs8 = EcdsaKeyPair::generate_pkcs8(&ECDSA_P256_SHA256_ASN1_SIGNING, &rng).unwrap();
    let kp = EcdsaKeyPair::from_pkcs8(&ECDSA_P256_SHA256_ASN1_SIGNING, pkcs8.as_ref(), &rng)
        .unwrap();
    let pk = kp.public_key().as_ref();

    let sig = kp.sign(&rng, b"message A").unwrap();
    let err = verify_es256(pk, b"message B", sig.as_ref()).unwrap_err();
    assert!(matches!(err, WebAuthnError::SignatureVerificationFailed));
}

#[test]
fn verify_es256_rejects_garbage_der_signature() {

    let rng = SystemRandom::new();
    let pkcs8 = EcdsaKeyPair::generate_pkcs8(&ECDSA_P256_SHA256_ASN1_SIGNING, &rng).unwrap();
    let kp = EcdsaKeyPair::from_pkcs8(&ECDSA_P256_SHA256_ASN1_SIGNING, pkcs8.as_ref(), &rng)
        .unwrap();
    let pk = kp.public_key().as_ref();

    let err = verify_es256(pk, b"hello", &[0xDE, 0xAD, 0xBE, 0xEF]).unwrap_err();
    assert!(matches!(err, WebAuthnError::SignatureVerificationFailed));
}

fn hex_to_bytes(s: &str) -> Vec<u8> {
    (0..s.len())
        .step_by(2)
        .map(|i| u8::from_str_radix(&s[i..i + 2], 16).unwrap())
        .collect()
}
