//! Calls into std and outside crates whose contracts are taken on trust.
//! Each item names the function it relies on and what is assumed of it.
use vstd::prelude::*;
use vstd::utf8::{decode_utf8, valid_utf8};

use aes_gcm::aead::{Aead, KeyInit};
use base64::Engine;
use rand::RngCore;
use sha2::Digest;
use rsa::pkcs8::{DecodePrivateKey, DecodePublicKey, EncodePrivateKey, EncodePublicKey};

use crate::canonical::hex_text;

verus! {

#[verifier::external_type_specification]
#[verifier::external_body]
pub struct ExRsaPrivateKey(rsa::RsaPrivateKey);

#[verifier::external_type_specification]
#[verifier::external_body]
pub struct ExRsaPublicKey(rsa::RsaPublicKey);

#[verifier::external_type_specification]
#[verifier::external_body]
pub struct ExRsaError(rsa::Error);

#[verifier::external_type_specification]
#[verifier::external_body]
pub struct ExPkcs8Error(rsa::pkcs8::Error);

#[verifier::external_type_specification]
#[verifier::external_body]
pub struct ExSpkiError(rsa::pkcs8::spki::Error);

#[verifier::external_type_specification]
#[verifier::external_body]
pub struct ExDecodeError(base64::DecodeError);

#[verifier::external_type_specification]
#[verifier::external_body]
pub struct ExAeadError(aes_gcm::Error);

#[verifier::external_type_specification]
#[verifier::external_body]
pub struct ExFromUtf8Error(std::string::FromUtf8Error);

/// What `sha2::Sha256` computes over the given bytes.
pub uninterp spec fn sha256_of(data: Seq<u8>) -> Seq<u8>;

/// What `base64`'s standard engine (padded) writes for the given bytes.
pub uninterp spec fn base64_of(data: Seq<u8>) -> Seq<char>;

/// What `base64`'s standard engine decodes from the given text, if anything.
pub uninterp spec fn base64_decoded(text: Seq<char>) -> Option<Seq<u8>>;

/// What `aes_gcm::Aes256Gcm` produces (ciphertext followed by its tag) when it
/// encrypts `plain` under `key` and `nonce` with no associated data.
pub uninterp spec fn aes_gcm_sealed(key: Seq<u8>, nonce: Seq<u8>, plain: Seq<u8>) -> Seq<u8>;

/// What `aes_gcm::Aes256Gcm` recovers from `sealed` under `key` and `nonce`;
/// `None` where the tag does not authenticate.
pub uninterp spec fn aes_gcm_opened(key: Seq<u8>, nonce: Seq<u8>, sealed: Seq<u8>) -> Option<Seq<u8>>;

/// What `RsaPrivateKey::sign` with PKCS#1 v1.5 padding for SHA-256 gives for
/// the key and digest; `None` where it fails. The padding is deterministic.
pub uninterp spec fn rsa_signature(key: rsa::RsaPrivateKey, digest: Seq<u8>) -> Option<Seq<u8>>;

/// Whether `RsaPublicKey::verify` with PKCS#1 v1.5 padding for SHA-256
/// accepts the signature over the digest.
pub uninterp spec fn rsa_verifies(key: rsa::RsaPublicKey, digest: Seq<u8>, signature: Seq<u8>) -> bool;

/// What `RsaPrivateKey::decrypt` with PKCS#1 v1.5 padding recovers from the
/// ciphertext; `None` where it fails.
pub uninterp spec fn rsa_unwrapped(key: rsa::RsaPrivateKey, ciphertext: Seq<u8>) -> Option<Seq<u8>>;

/// The size in bytes of the key's modulus (`PublicKeyParts::size`).
pub uninterp spec fn modulus_bytes(key: rsa::RsaPublicKey) -> nat;

/// The public half of a private key (`RsaPrivateKey::to_public_key`).
pub uninterp spec fn public_key_of(key: rsa::RsaPrivateKey) -> rsa::RsaPublicKey;

/// The private key that `from_pkcs8_pem` reads from the text, if any.
pub uninterp spec fn private_key_of_pem(pem: Seq<char>) -> Option<rsa::RsaPrivateKey>;

/// The public key that `from_public_key_pem` reads from the text, if any.
pub uninterp spec fn public_key_of_pem(pem: Seq<char>) -> Option<rsa::RsaPublicKey>;

/// The largest plaintext, in bytes, that `aes_gcm` accepts (its `P_MAX`).
pub const AES_GCM_MAX_PLAINTEXT: u64 = 0x10_0000_0000;

/// Relies on `String::push`: the character is appended at the end.
#[verifier::external_body]
pub(crate) fn push_char(s: &mut String, c: char)
    ensures
        final(s)@ == old(s)@.push(c),
{
    s.push(c)
}

/// Relies on `String::from_utf8`: it succeeds exactly on valid UTF-8 and
/// then holds the characters those bytes encode.
#[verifier::external_body]
pub(crate) fn string_from_utf8(bytes: Vec<u8>) -> (r: Result<String, std::string::FromUtf8Error>)
    ensures
        r is Ok <==> valid_utf8(bytes@),
        r matches Ok(s) ==> s@ == decode_utf8(bytes@),
{
    String::from_utf8(bytes)
}

/// Relies on `sha2::Sha256::digest`: a 32-byte digest of the input alone.
#[verifier::external_body]
pub(crate) fn sha256(data: &[u8]) -> (r: Vec<u8>)
    ensures
        r@ == sha256_of(data@),
        r@.len() == 32,
{
    sha2::Sha256::digest(data).to_vec()
}

/// Relies on `hex::encode`: two lowercase hexadecimal digits per byte.
#[verifier::external_body]
pub(crate) fn hex_encode(data: &[u8]) -> (r: String)
    ensures
        r@ == hex_text(data@),
{
    hex::encode(data)
}

/// Relies on `base64::engine::general_purpose::STANDARD.encode`, whose
/// output its own `decode` takes back to the same bytes.
#[verifier::external_body]
pub(crate) fn base64_encode(data: &[u8]) -> (r: String)
    ensures
        r@ == base64_of(data@),
        base64_decoded(r@) == Some(data@),
{
    base64::engine::general_purpose::STANDARD.encode(data)
}

/// Relies on `base64::engine::general_purpose::STANDARD.decode`.
#[verifier::external_body]
pub(crate) fn base64_decode(text: &str) -> (r: Result<Vec<u8>, base64::DecodeError>)
    ensures
        match r {
            Ok(v) => base64_decoded(text@) == Some(v@),
            Err(_) => base64_decoded(text@) is None,
        },
{
    base64::engine::general_purpose::STANDARD.decode(text)
}

/// Relies on `RsaPrivateKey::sign` with PKCS#1 v1.5 padding for SHA-256.
#[verifier::external_body]
pub(crate) fn rsa_sign(key: &rsa::RsaPrivateKey, digest: &[u8]) -> (r: Result<Vec<u8>, rsa::Error>)
    ensures
        match r {
            Ok(s) => rsa_signature(*key, digest@) == Some(s@),
            Err(_) => rsa_signature(*key, digest@) is None,
        },
{
    key.sign(rsa::Pkcs1v15Sign::new::<sha2::Sha256>(), digest)
}

/// Relies on `RsaPublicKey::verify` with PKCS#1 v1.5 padding for SHA-256.
#[verifier::external_body]
pub(crate) fn rsa_verify(key: &rsa::RsaPublicKey, digest: &[u8], signature: &[u8]) -> (r: Result<(), rsa::Error>)
    ensures
        r is Ok <==> rsa_verifies(*key, digest@, signature@),
{
    key.verify(rsa::Pkcs1v15Sign::new::<sha2::Sha256>(), digest, signature)
}

/// Relies on `RsaPublicKey::encrypt` with PKCS#1 v1.5 padding, drawing its
/// padding from the thread's random generator: it refuses a message longer
/// than the modulus less 11 bytes, and its output is as long as the modulus.
#[verifier::external_body]
pub(crate) fn rsa_encrypt(key: &rsa::RsaPublicKey, message: &[u8]) -> (r: Result<Vec<u8>, rsa::Error>)
    ensures
        message@.len() + 11 > modulus_bytes(*key) ==> r is Err,
        r matches Ok(c) ==> c@.len() == modulus_bytes(*key),
{
    key.encrypt(&mut rand::thread_rng(), rsa::Pkcs1v15Encrypt, message)
}

/// Relies on `RsaPrivateKey::decrypt` with PKCS#1 v1.5 padding.
#[verifier::external_body]
pub(crate) fn rsa_decrypt(key: &rsa::RsaPrivateKey, ciphertext: &[u8]) -> (r: Result<Vec<u8>, rsa::Error>)
    ensures
        match r {
            Ok(v) => rsa_unwrapped(*key, ciphertext@) == Some(v@),
            Err(_) => rsa_unwrapped(*key, ciphertext@) is None,
        },
{
    key.decrypt(rsa::Pkcs1v15Encrypt, ciphertext)
}

/// Relies on `RsaPrivateKey::new` drawing from the operating system's
/// random source; the modulus it makes has exactly `bits` bits.
#[verifier::external_body]
pub(crate) fn rsa_generate(bits: usize) -> (r: Result<rsa::RsaPrivateKey, rsa::Error>)
    ensures
        r matches Ok(k) ==> modulus_bytes(public_key_of(k)) == (bits + 7) / 8,
{
    rsa::RsaPrivateKey::new(&mut rand::rngs::OsRng, bits)
}

/// Relies on `RsaPrivateKey::to_public_key`.
#[verifier::external_body]
pub(crate) fn rsa_public_key(key: &rsa::RsaPrivateKey) -> (r: rsa::RsaPublicKey)
    ensures
        r == public_key_of(*key),
{
    key.to_public_key()
}

/// Relies on `DecodePrivateKey::from_pkcs8_pem` for `RsaPrivateKey`.
#[verifier::external_body]
pub(crate) fn private_key_from_pkcs8_pem(pem: &str) -> (r: Result<rsa::RsaPrivateKey, rsa::pkcs8::Error>)
    ensures
        match r {
            Ok(k) => private_key_of_pem(pem@) == Some(k),
            Err(_) => private_key_of_pem(pem@) is None,
        },
{
    rsa::RsaPrivateKey::from_pkcs8_pem(pem)
}

/// Relies on `DecodePublicKey::from_public_key_pem` for `RsaPublicKey`.
#[verifier::external_body]
pub(crate) fn public_key_from_spki_pem(pem: &str) -> (r: Result<rsa::RsaPublicKey, rsa::pkcs8::spki::Error>)
    ensures
        match r {
            Ok(k) => public_key_of_pem(pem@) == Some(k),
            Err(_) => public_key_of_pem(pem@) is None,
        },
{
    rsa::RsaPublicKey::from_public_key_pem(pem)
}

/// Relies on `EncodePrivateKey::to_pkcs8_pem` with LF line endings.
#[verifier::external_body]
pub(crate) fn private_key_to_pkcs8_pem(key: &rsa::RsaPrivateKey) -> (r: Result<String, rsa::pkcs8::Error>) {
    key.to_pkcs8_pem(rsa::pkcs8::LineEnding::LF).map(|pem| pem.to_string())
}

/// Relies on `EncodePublicKey::to_public_key_pem` with LF line endings.
#[verifier::external_body]
pub(crate) fn public_key_to_spki_pem(key: &rsa::RsaPublicKey) -> (r: Result<String, rsa::pkcs8::spki::Error>) {
    key.to_public_key_pem(rsa::pkcs8::LineEnding::LF)
}

/// Relies on `RngCore::fill_bytes` of `rand::rngs::OsRng`: `len` bytes drawn
/// from the operating system's secure random source.
#[verifier::external_body]
pub(crate) fn random_bytes(len: usize) -> (r: Vec<u8>)
    ensures
        r@.len() == len,
{
    let mut bytes = vec![0u8; len];
    rand::rngs::OsRng.fill_bytes(&mut bytes);
    bytes
}

/// Relies on `uuid::Uuid::new_v4` and its hyphenated text form, which is
/// always 36 characters long.
#[verifier::external_body]
pub(crate) fn new_uuid_text() -> (r: String)
    ensures
        r@.len() == 36,
{
    uuid::Uuid::new_v4().to_string()
}

/// Relies on `chrono::Utc::now().timestamp()`: seconds since the epoch.
#[verifier::external_body]
pub(crate) fn unix_time_now() -> (r: i64) {
    chrono::Utc::now().timestamp()
}

/// Relies on `Aead::encrypt` of `aes_gcm::Aes256Gcm` with no associated
/// data: it refuses a plaintext longer than `P_MAX` and nothing else, it
/// appends a 16-byte tag to a ciphertext as long as the plaintext, and its
/// `decrypt` under the same key and nonce gives the plaintext back.
#[verifier::external_body]
pub(crate) fn aes_gcm_encrypt(key: &[u8], nonce: &[u8], plain: &[u8]) -> (r: Result<Vec<u8>, aes_gcm::Error>)
    requires
        key@.len() == 32,
        nonce@.len() == 12,
    ensures
        r is Err <==> plain@.len() > AES_GCM_MAX_PLAINTEXT,
        r matches Ok(c) ==> c@ == aes_gcm_sealed(key@, nonce@, plain@),
        r matches Ok(c) ==> c@.len() == plain@.len() + 16,
        r matches Ok(c) ==> aes_gcm_opened(key@, nonce@, c@) == Some(plain@),
{
    let cipher = aes_gcm::Aes256Gcm::new(aes_gcm::Key::<aes_gcm::Aes256Gcm>::from_slice(key));
    cipher.encrypt(aes_gcm::Nonce::from_slice(nonce), plain)
}

/// Relies on `Aead::decrypt` of `aes_gcm::Aes256Gcm` with no associated
/// data: it fails exactly where the tag does not authenticate.
#[verifier::external_body]
pub(crate) fn aes_gcm_decrypt(key: &[u8], nonce: &[u8], sealed: &[u8]) -> (r: Result<Vec<u8>, aes_gcm::Error>)
    requires
        key@.len() == 32,
        nonce@.len() == 12,
    ensures
        match r {
            Ok(p) => aes_gcm_opened(key@, nonce@, sealed@) == Some(p@),
            Err(_) => aes_gcm_opened(key@, nonce@, sealed@) is None,
        },
{
    let cipher = aes_gcm::Aes256Gcm::new(aes_gcm::Key::<aes_gcm::Aes256Gcm>::from_slice(key));
    cipher.decrypt(aes_gcm::Nonce::from_slice(nonce), sealed)
}

} // verus!
