//! The failures this library reports.
use vstd::prelude::*;

verus! {

/// Why an operation failed. Validation failures are found before any
/// cryptographic primitive runs; the others are cryptographic outcomes that
/// a retry with the same inputs would meet again.
#[derive(Debug, Clone, Copy, PartialEq, Eq, Structural)]
pub enum CryptoError {
    /// A symmetric key that is not 32 bytes long.
    InvalidKeyLength,
    /// A nonce that is not 12 bytes long.
    InvalidNonceLength,
    /// Input that is not in the expected form (text, base64, UTF-8).
    MalformedInput,
    /// A stored signature that is not valid base64.
    MalformedSignature,
    /// A plaintext longer than the symmetric cipher accepts.
    PlaintextTooLong,
    /// The authentication tag did not match: tampered data, or the wrong key or nonce.
    Authentication,
    /// The signature did not verify under the sender's public key.
    SignatureInvalid,
    /// The private key could not produce a signature.
    Signing,
    /// The symmetric key could not be encrypted under the recipient's public key.
    KeyWrap,
    /// The wrapped symmetric key could not be decrypted with the private key.
    KeyUnwrap,
    /// A key could not be generated, read from PEM or written to PEM.
    Key,
}

} // verus!
