//! RSA key pairs: generation, and reading and writing PEM text.
use vstd::prelude::*;

use rsa::{RsaPrivateKey, RsaPublicKey};

use crate::bindings::{
    modulus_bytes, private_key_from_pkcs8_pem, private_key_of_pem, public_key_of, public_key_of_pem, private_key_to_pkcs8_pem, public_key_from_spki_pem,
    public_key_to_spki_pem, rsa_generate, rsa_public_key,
};
use crate::error::CryptoError;

verus! {

/// Modulus size, in bits, of generated keys.
pub const RSA_KEY_BITS: usize = 2048;

/// A fresh 2048-bit key pair drawn from the operating system's random source.
pub fn generate_rsa_key_pair() -> (r: Result<(RsaPrivateKey, RsaPublicKey), CryptoError>)
    ensures
        r is Err ==> r == Err::<(RsaPrivateKey, RsaPublicKey), CryptoError>(CryptoError::Key),
        r matches Ok((private_key, public_key)) ==> public_key == public_key_of(private_key)
            && modulus_bytes(public_key) == 256,
{
    match rsa_generate(RSA_KEY_BITS) {
        Ok(private_key) => {
            let public_key = rsa_public_key(&private_key);
            Ok((private_key, public_key))
        },
        Err(_) => Err(CryptoError::Key),
    }
}

/// Reads a private key from PKCS#8 PEM text.
pub fn private_key_from_pem(pem: &str) -> (r: Result<RsaPrivateKey, CryptoError>)
    ensures
        match private_key_of_pem(pem@) {
            None => r == Err::<RsaPrivateKey, CryptoError>(CryptoError::Key),
            Some(k) => r == Ok::<RsaPrivateKey, CryptoError>(k),
        },
{
    match private_key_from_pkcs8_pem(pem) {
        Ok(key) => Ok(key),
        Err(_) => Err(CryptoError::Key),
    }
}

/// Reads a public key from SubjectPublicKeyInfo PEM text.
pub fn public_key_from_pem(pem: &str) -> (r: Result<RsaPublicKey, CryptoError>)
    ensures
        match public_key_of_pem(pem@) {
            None => r == Err::<RsaPublicKey, CryptoError>(CryptoError::Key),
            Some(k) => r == Ok::<RsaPublicKey, CryptoError>(k),
        },
{
    match public_key_from_spki_pem(pem) {
        Ok(key) => Ok(key),
        Err(_) => Err(CryptoError::Key),
    }
}

/// Writes a private key as PKCS#8 PEM text with LF line endings.
pub fn private_key_to_pem(key: &RsaPrivateKey) -> (r: Result<String, CryptoError>)
    ensures
        r is Err ==> r == Err::<String, CryptoError>(CryptoError::Key),
{
    match private_key_to_pkcs8_pem(key) {
        Ok(pem) => Ok(pem),
        Err(_) => Err(CryptoError::Key),
    }
}

/// Writes a public key as SubjectPublicKeyInfo PEM text with LF line endings.
pub fn public_key_to_pem(key: &RsaPublicKey) -> (r: Result<String, CryptoError>)
    ensures
        r is Err ==> r == Err::<String, CryptoError>(CryptoError::Key),
{
    match public_key_to_spki_pem(key) {
        Ok(pem) => Ok(pem),
        Err(_) => Err(CryptoError::Key),
    }
}

} // verus!
