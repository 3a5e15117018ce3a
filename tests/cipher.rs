use aes_gcm::aead::{Aead, KeyInit};
use crypto_tran::{
    decrypt, encrypt, encrypt_with_nonce, generate_symmetric_key, CryptoError, NONCE_LEN,
    SYMMETRIC_KEY_LEN,
};

#[test]
fn symmetric_key_is_thirty_two_bytes() {
    let a = generate_symmetric_key();
    let b = generate_symmetric_key();
    assert_eq!(a.len(), SYMMETRIC_KEY_LEN);
    assert_ne!(a, b);
}

#[test]
fn encrypt_then_decrypt_gives_the_text_back() {
    let key = generate_symmetric_key();
    let (ciphertext, nonce) = encrypt("{\"payload\":\"héllo\"}", &key).unwrap();
    assert_eq!(nonce.len(), NONCE_LEN);
    assert_eq!(ciphertext.len(), "{\"payload\":\"héllo\"}".len() + 16);
    assert_eq!(decrypt(&ciphertext, &key, &nonce).unwrap(), "{\"payload\":\"héllo\"}");
    let (_, other_nonce) = encrypt("{\"payload\":\"héllo\"}", &key).unwrap();
    assert_ne!(nonce, other_nonce);
}

#[test]
fn empty_text_round_trips() {
    let key = generate_symmetric_key();
    let (ciphertext, nonce) = encrypt("", &key).unwrap();
    assert_eq!(decrypt(&ciphertext, &key, &nonce).unwrap(), "");
}

#[test]
fn known_answer_for_fixed_key_and_nonce() {
    let key: Vec<u8> = (0u8..32).collect();
    let nonce: Vec<u8> = (0u8..12).collect();
    let ciphertext = encrypt_with_nonce("hello", &key, &nonce).unwrap();
    assert_eq!(hex::encode(&ciphertext), "2f67ba77aa2797ff353b8a046d28236dcd9d057bbb");
    assert_eq!(decrypt(&ciphertext, &key, &nonce).unwrap(), "hello");
}

#[test]
fn tampered_ciphertext_fails_authentication() {
    let key = generate_symmetric_key();
    let (ciphertext, nonce) = encrypt("amount 100.0", &key).unwrap();
    for i in 0..ciphertext.len() {
        let mut bad = ciphertext.clone();
        bad[i] ^= 0x01;
        assert_eq!(decrypt(&bad, &key, &nonce), Err(CryptoError::Authentication));
    }
    let other = generate_symmetric_key();
    assert_eq!(decrypt(&ciphertext, &other, &nonce), Err(CryptoError::Authentication));
}

#[test]
fn wrong_lengths_are_rejected_first() {
    let key = generate_symmetric_key();
    assert_eq!(encrypt("x", &key[..31]), Err(CryptoError::InvalidKeyLength));
    assert_eq!(encrypt_with_nonce("x", &key, &[0u8; 11]), Err(CryptoError::InvalidNonceLength));
    assert_eq!(decrypt(&[0u8; 20], &key[..16], &[0u8; 12]), Err(CryptoError::InvalidKeyLength));
    assert_eq!(decrypt(&[0u8; 20], &key, &[0u8; 13]), Err(CryptoError::InvalidNonceLength));
}

#[test]
fn non_utf8_plaintext_is_malformed() {
    let key: Vec<u8> = (0u8..32).collect();
    let nonce: Vec<u8> = (0u8..12).collect();
    let cipher = aes_gcm::Aes256Gcm::new_from_slice(&key).unwrap();
    let ciphertext = cipher
        .encrypt(aes_gcm::Nonce::from_slice(&nonce), &[0xffu8, 0xfe][..])
        .unwrap();
    assert_eq!(decrypt(&ciphertext, &key, &nonce), Err(CryptoError::MalformedInput));
}
