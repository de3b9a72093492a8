use base64::Engine;
use secretstash::crypto::{decrypt, derive_key, encrypt, generate_salt, key_pragma, rekey_pragma, KeyError};

#[test]
fn crypto_roundtrip() {
    let key = [0u8; 32];
    let plaintext = b"hello, stash!";
    let (ct, nonce) = encrypt(&key, plaintext).unwrap();
    assert_eq!(decrypt(&key, &ct, &nonce).unwrap().as_slice(), plaintext);
}

#[test]
fn crypto_roundtrip_empty_plaintext() {
    let key = [1u8; 32];
    let (ct, nonce) = encrypt(&key, b"").unwrap();
    assert!(decrypt(&key, &ct, &nonce).unwrap().is_empty());
}

#[test]
fn crypto_wrong_key_fails() {
    let (ct, nonce) = encrypt(&[1u8; 32], b"secret").unwrap();
    assert!(decrypt(&[2u8; 32], &ct, &nonce).is_err());
}

#[test]
fn crypto_wrong_nonce_fails() {
    let key = [1u8; 32];
    let (ct, _) = encrypt(&key, b"secret").unwrap();
    assert!(decrypt(&key, &ct, &[0u8; 12]).is_err());
}

#[test]
fn crypto_tampered_ciphertext_fails() {
    let key = [0u8; 32];
    let (mut ct, nonce) = encrypt(&key, b"important data").unwrap();
    ct[0] ^= 0xff;
    assert!(decrypt(&key, &ct, &nonce).is_err());
}

#[test]
fn nonces_are_unique() {
    let key = [0u8; 32];
    let (_, n1) = encrypt(&key, b"same").unwrap();
    let (_, n2) = encrypt(&key, b"same").unwrap();
    assert_ne!(n1, n2);
}

#[test]
fn ciphertext_differs_per_call() {
    let key = [0u8; 32];
    let (ct1, _) = encrypt(&key, b"same").unwrap();
    let (ct2, _) = encrypt(&key, b"same").unwrap();
    assert_ne!(ct1, ct2);
}

#[test]
fn crypto_salt_is_valid_base64_and_32_bytes() {
    let s = generate_salt().unwrap();
    let bytes = base64::engine::general_purpose::STANDARD.decode(&s).unwrap();
    assert_eq!(bytes.len(), 32);
}

#[test]
fn crypto_salts_are_unique() {
    assert_ne!(generate_salt().unwrap(), generate_salt().unwrap());
}

#[test]
fn crypto_derive_key_is_deterministic() {
    let salt = generate_salt().unwrap();
    assert_eq!(derive_key("pw", &salt).unwrap(), derive_key("pw", &salt).unwrap());
}

#[test]
fn crypto_derive_key_differs_for_different_passwords() {
    let salt = generate_salt().unwrap();
    assert_ne!(derive_key("pw-a", &salt).unwrap(), derive_key("pw-b", &salt).unwrap());
}

#[test]
fn crypto_derive_key_differs_for_different_salts() {
    assert_ne!(
        derive_key("pw", &generate_salt().unwrap()).unwrap(),
        derive_key("pw", &generate_salt().unwrap()).unwrap()
    );
}

#[test]
fn crypto_derive_key_rejects_invalid_base64() {
    assert!(derive_key("pw", "not!!base64").is_err());
}

#[test]
fn derive_key_invalid_base64_is_invalid_salt() {
    assert_eq!(derive_key("pw", "not!!base64"), Err(KeyError::InvalidSalt));
}

#[test]
fn derive_key_rejects_short_salt() {
    // "AAAA" decodes to three bytes, under Argon2's eight.
    assert_eq!(derive_key("pw", "AAAA"), Err(KeyError::DerivationFailed));
}

#[test]
fn decrypt_rejects_nonce_of_wrong_length() {
    let key = [3u8; 32];
    let (ct, _) = encrypt(&key, b"data").unwrap();
    assert!(decrypt(&key, &ct, &[0u8; 11]).is_err());
}

#[test]
fn ciphertext_carries_a_tag() {
    let key = [3u8; 32];
    let (ct, nonce) = encrypt(&key, b"data").unwrap();
    assert_eq!(ct.len(), 4 + 16);
    assert_eq!(nonce.len(), 12);
}

#[test]
fn key_pragma_is_hex() {
    let mut key = [0u8; 32];
    key[0] = 0xab;
    key[31] = 0x01;
    let expected = format!("PRAGMA key = \"x'ab{}01'\"", "00".repeat(30));
    assert_eq!(key_pragma(&key), expected);
    let expected = format!("PRAGMA rekey = \"x'ab{}01'\"", "00".repeat(30));
    assert_eq!(rekey_pragma(&key), expected);
}
