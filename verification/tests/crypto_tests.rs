use fnk0085_smart_car_backend::crypto::{derive_key, open, seal, AeadKey, CryptoError, NONCE_LEN, TAG_LEN};

#[test]
fn roundtrip() {
    let key = derive_key("change-me-please");
    let nonce = [0u8; NONCE_LEN];
    let plain = b"hello Fnk0085";
    let sealed = key.seal(&nonce, plain);
    assert_eq!(sealed.len(), NONCE_LEN + plain.len() + TAG_LEN);
    let opened = key.open(&sealed).expect("解密成功");
    assert_eq!(opened.as_slice(), plain);
}

#[test]
fn rejects_tampered() {
    let key = derive_key("change-me-please");
    let nonce = [0u8; NONCE_LEN];
    let mut sealed = key.seal(&nonce, b"data").to_vec();
    sealed[NONCE_LEN] ^= 0xff;
    assert!(key.open(&sealed).is_err());
}

#[test]
fn different_tokens_yield_different_keys() {
    let a = derive_key("token-a");
    let b = derive_key("token-b");
    let nonce = [0u8; NONCE_LEN];
    let sealed = a.seal(&nonce, b"x");
    assert!(b.open(&sealed).is_err());
}

#[test]
fn short_wire_is_rejected_with_minimum() {
    let key = derive_key("change-me-please");
    assert_eq!(key.open(&[0u8; 27]), Err(CryptoError::CiphertextTooShort(28)));
}

#[test]
fn tampered_tag_is_decrypt_failure() {
    let key = derive_key("change-me-please");
    let nonce = [7u8; NONCE_LEN];
    let mut sealed = seal(b"payload", &key, &nonce);
    let last = sealed.len() - 1;
    sealed[last] ^= 1;
    assert_eq!(open(&sealed, &key), Err(CryptoError::DecryptFailed));
}

#[test]
fn sealed_wire_starts_with_nonce_and_differs_from_plaintext() {
    let key = AeadKey::from_bytes(&[1u8; 16]);
    let nonce = [9u8; NONCE_LEN];
    let sealed = key.seal(&nonce, b"abc");
    assert_eq!(&sealed[..NONCE_LEN], &nonce);
    assert_ne!(&sealed[NONCE_LEN..NONCE_LEN + 3], b"abc");
    assert_eq!(open(&sealed, &key).unwrap(), b"abc".to_vec());
}
