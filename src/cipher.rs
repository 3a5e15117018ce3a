//! Authenticated symmetric encryption (AES-256-GCM) of text, and the
//! asymmetric wrapping of the symmetric key (RSA, PKCS#1 v1.5).
use vstd::prelude::*;
use vstd::utf8::{decode_utf8, encode_utf8, valid_utf8};

use rsa::{RsaPrivateKey, RsaPublicKey};

use crate::bindings::{
    aes_gcm_decrypt, aes_gcm_encrypt, aes_gcm_opened, aes_gcm_sealed, modulus_bytes, random_bytes,
    rsa_decrypt, rsa_encrypt, rsa_unwrapped, string_from_utf8, AES_GCM_MAX_PLAINTEXT,
};
use crate::error::CryptoError;

verus! {

broadcast use vstd::utf8::encode_utf8_valid_utf8, vstd::utf8::encode_utf8_decode_utf8;

/// Length in bytes of a symmetric key.
pub const SYMMETRIC_KEY_LEN: usize = 32;

/// Length in bytes of a nonce.
pub const NONCE_LEN: usize = 12;

/// What [`decrypt`] returns for the given ciphertext, key and nonce.
pub open spec fn decryption(ciphertext: Seq<u8>, key: Seq<u8>, nonce: Seq<u8>) -> Result<
    Seq<char>,
    CryptoError,
> {
    if key.len() != SYMMETRIC_KEY_LEN {
        Err(CryptoError::InvalidKeyLength)
    } else if nonce.len() != NONCE_LEN {
        Err(CryptoError::InvalidNonceLength)
    } else {
        match aes_gcm_opened(key, nonce, ciphertext) {
            None => Err(CryptoError::Authentication),
            Some(plain) => if valid_utf8(plain) {
                Ok(decode_utf8(plain))
            } else {
                Err(CryptoError::MalformedInput)
            },
        }
    }
}

/// A fresh 32-byte key from the operating system's secure random source.
pub fn generate_symmetric_key() -> (r: Vec<u8>)
    ensures
        r@.len() == SYMMETRIC_KEY_LEN,
{
    random_bytes(SYMMETRIC_KEY_LEN)
}

/// Encrypts the UTF-8 bytes of `plain_text` under `key` and the given nonce.
pub fn encrypt_with_nonce(plain_text: &str, key: &[u8], nonce: &[u8]) -> (r: Result<
    Vec<u8>,
    CryptoError,
>)
    ensures
        key@.len() != SYMMETRIC_KEY_LEN ==> r == Err::<Vec<u8>, CryptoError>(
            CryptoError::InvalidKeyLength,
        ),
        key@.len() == SYMMETRIC_KEY_LEN && nonce@.len() != NONCE_LEN ==> r == Err::<
            Vec<u8>,
            CryptoError,
        >(CryptoError::InvalidNonceLength),
        key@.len() == SYMMETRIC_KEY_LEN && nonce@.len() == NONCE_LEN && encode_utf8(plain_text@).len()
            > AES_GCM_MAX_PLAINTEXT ==> r == Err::<Vec<u8>, CryptoError>(
            CryptoError::PlaintextTooLong,
        ),
        key@.len() == SYMMETRIC_KEY_LEN && nonce@.len() == NONCE_LEN && encode_utf8(plain_text@).len()
            <= AES_GCM_MAX_PLAINTEXT ==> r is Ok,
        r matches Ok(c) ==> c@ == aes_gcm_sealed(key@, nonce@, encode_utf8(plain_text@)),
        r matches Ok(c) ==> c@.len() == encode_utf8(plain_text@).len() + 16,
        r matches Ok(c) ==> decryption(c@, key@, nonce@) == Ok::<Seq<char>, CryptoError>(
            plain_text@,
        ),
{
    if key.len() != SYMMETRIC_KEY_LEN {
        return Err(CryptoError::InvalidKeyLength);
    }
    if nonce.len() != NONCE_LEN {
        return Err(CryptoError::InvalidNonceLength);
    }
    match aes_gcm_encrypt(key, nonce, plain_text.as_bytes()) {
        Ok(c) => Ok(c),
        Err(_) => Err(CryptoError::PlaintextTooLong),
    }
}

/// Encrypts `plain_text` under `key` with a fresh random nonce; returns the
/// ciphertext (with its tag) and the nonce. Whatever nonce is drawn, the
/// pair decrypts back to `plain_text`.
pub fn encrypt(plain_text: &str, key: &[u8]) -> (r: Result<(Vec<u8>, Vec<u8>), CryptoError>)
    ensures
        key@.len() != SYMMETRIC_KEY_LEN ==> r == Err::<(Vec<u8>, Vec<u8>), CryptoError>(
            CryptoError::InvalidKeyLength,
        ),
        key@.len() == SYMMETRIC_KEY_LEN && encode_utf8(plain_text@).len() > AES_GCM_MAX_PLAINTEXT
            ==> r == Err::<(Vec<u8>, Vec<u8>), CryptoError>(CryptoError::PlaintextTooLong),
        key@.len() == SYMMETRIC_KEY_LEN && encode_utf8(plain_text@).len() <= AES_GCM_MAX_PLAINTEXT
            ==> r is Ok,
        r matches Ok((c, n)) ==> n@.len() == NONCE_LEN && c@ == aes_gcm_sealed(
            key@,
            n@,
            encode_utf8(plain_text@),
        ),
        r matches Ok((c, n)) ==> c@.len() == encode_utf8(plain_text@).len() + 16,
        r matches Ok((c, n)) ==> decryption(c@, key@, n@) == Ok::<Seq<char>, CryptoError>(
            plain_text@,
        ),
{
    if key.len() != SYMMETRIC_KEY_LEN {
        return Err(CryptoError::InvalidKeyLength);
    }
    let nonce = random_bytes(NONCE_LEN);
    match encrypt_with_nonce(plain_text, key, nonce.as_slice()) {
        Ok(c) => Ok((c, nonce)),
        Err(e) => Err(e),
    }
}

/// Checks the tag and decrypts; the plaintext must be UTF-8 text.
pub fn decrypt(ciphertext: &[u8], key: &[u8], nonce: &[u8]) -> (r: Result<String, CryptoError>)
    ensures
        match r {
            Ok(s) => decryption(ciphertext@, key@, nonce@) == Ok::<Seq<char>, CryptoError>(s@),
            Err(e) => decryption(ciphertext@, key@, nonce@) == Err::<Seq<char>, CryptoError>(e),
        },
{
    if key.len() != SYMMETRIC_KEY_LEN {
        return Err(CryptoError::InvalidKeyLength);
    }
    if nonce.len() != NONCE_LEN {
        return Err(CryptoError::InvalidNonceLength);
    }
    match aes_gcm_decrypt(key, nonce, ciphertext) {
        Err(_) => Err(CryptoError::Authentication),
        Ok(plain) => match string_from_utf8(plain) {
            Ok(s) => Ok(s),
            Err(_) => Err(CryptoError::MalformedInput),
        },
    }
}

/// Encrypts a symmetric key under the recipient's public key; fresh padding
/// is drawn on every call.
pub fn encrypt_symmetric_key(symmetric_key: &[u8], public_key: &RsaPublicKey) -> (r: Result<
    Vec<u8>,
    CryptoError,
>)
    ensures
        r is Err ==> r == Err::<Vec<u8>, CryptoError>(CryptoError::KeyWrap),
        symmetric_key@.len() + 11 > modulus_bytes(*public_key) ==> r is Err,
        r matches Ok(w) ==> w@.len() == modulus_bytes(*public_key),
{
    match rsa_encrypt(public_key, symmetric_key) {
        Ok(wrapped) => Ok(wrapped),
        Err(_) => Err(CryptoError::KeyWrap),
    }
}

/// Recovers a symmetric key wrapped by [`encrypt_symmetric_key`].
pub fn decrypt_symmetric_key(encrypted_key: &[u8], private_key: &RsaPrivateKey) -> (r: Result<
    Vec<u8>,
    CryptoError,
>)
    ensures
        match rsa_unwrapped(*private_key, encrypted_key@) {
            None => r == Err::<Vec<u8>, CryptoError>(CryptoError::KeyUnwrap),
            Some(k) => r matches Ok(v) && v@ == k,
        },
{
    match rsa_decrypt(private_key, encrypted_key) {
        Ok(key) => Ok(key),
        Err(_) => Err(CryptoError::KeyUnwrap),
    }
}

} // verus!
