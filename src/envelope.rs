//! The envelope that carries a signed transaction: the transaction's text
//! encrypted under a fresh symmetric key, and that key wrapped for the
//! recipient.
use vstd::prelude::*;

use rsa::{RsaPrivateKey, RsaPublicKey};

use vstd::utf8::encode_utf8;

use crate::bindings::{modulus_bytes, rsa_signature, rsa_unwrapped, base64_of, AES_GCM_MAX_PLAINTEXT};
use crate::decode::lemma_transaction_text_injective;
use crate::cipher::{
    decrypt, decrypt_symmetric_key, decryption, encrypt, encrypt_symmetric_key,
    generate_symmetric_key, NONCE_LEN, SYMMETRIC_KEY_LEN,
};
use crate::error::CryptoError;
use crate::transaction::{
    signing_digest, transaction_text, verification, with_protocol_fields, Transaction,
    TransactionView,
};

verus! {

/// A sealed transaction: ciphertext (with its tag), the nonce it was
/// encrypted with, and the wrapped symmetric key.
pub struct Envelope {
    pub ciphertext: Vec<u8>,
    pub nonce: Vec<u8>,
    pub wrapped_key: Vec<u8>,
}

/// The envelope's ciphertext opens, under some 32-byte key, to `text`.
pub open spec fn carries(envelope: Envelope, text: Seq<char>) -> bool {
    exists|key: Seq<u8>|
        key.len() == SYMMETRIC_KEY_LEN && #[trigger] decryption(
            envelope.ciphertext@,
            key,
            envelope.nonce@,
        ) == Ok::<Seq<char>, CryptoError>(text)
}

/// Some transaction has `text` as its canonical text.
pub open spec fn is_transaction_text(text: Seq<char>) -> bool {
    exists|t: TransactionView| transaction_text(t) == text
}

/// What opening the ciphertext with `key` gives: the transaction whose
/// canonical text it decrypts to, once its signature verifies under
/// `sender`; otherwise the first failure.
pub open spec fn opening(
    ciphertext: Seq<u8>,
    nonce: Seq<u8>,
    key: Seq<u8>,
    sender: RsaPublicKey,
) -> Result<TransactionView, CryptoError> {
    match decryption(ciphertext, key, nonce) {
        Err(e) => Err(e),
        Ok(text) => if is_transaction_text(text) {
            let t = choose|t: TransactionView| transaction_text(t) == text;
            match verification(t, sender) {
                Err(e) => Err(e),
                Ok(true) => Ok(t),
                Ok(false) => Err(CryptoError::SignatureInvalid),
            }
        } else {
            Err(CryptoError::MalformedInput)
        },
    }
}

/// Signs `transaction` with the sender's key, encrypts its full canonical
/// text (signature included) under a fresh symmetric key and nonce, and
/// wraps that key for the recipient. Only the signature field changes.
pub fn seal(
    transaction: &mut Transaction,
    sender_private_key: &RsaPrivateKey,
    recipient_public_key: &RsaPublicKey,
) -> (r: Result<Envelope, CryptoError>)
    ensures
        match rsa_signature(*sender_private_key, signing_digest(old(transaction)@)) {
            None => r == Err::<Envelope, CryptoError>(CryptoError::Signing) && final(transaction)@
                == old(transaction)@,
            Some(s) => final(transaction)@ == with_protocol_fields(
                old(transaction)@,
                Some(base64_of(s)),
                old(transaction)@.prev_hash,
                old(transaction)@.current_hash,
            ) && (r matches Err(e) ==> e == CryptoError::PlaintextTooLong || e
                == CryptoError::KeyWrap) && (encode_utf8(transaction_text(final(transaction)@)).len()
                > AES_GCM_MAX_PLAINTEXT ==> r == Err::<Envelope, CryptoError>(
                CryptoError::PlaintextTooLong,
            )) && (encode_utf8(transaction_text(final(transaction)@)).len() <= AES_GCM_MAX_PLAINTEXT
                && SYMMETRIC_KEY_LEN + 11 > modulus_bytes(*recipient_public_key) ==> r == Err::<
                Envelope,
                CryptoError,
            >(CryptoError::KeyWrap)),
        },
        r matches Ok(e) ==> final(transaction)@.signature is Some && e.nonce@.len() == NONCE_LEN
            && carries(e, transaction_text(final(transaction)@)) && e.ciphertext@.len()
            == encode_utf8(transaction_text(final(transaction)@)).len() + 16 && e.wrapped_key@.len()
            == modulus_bytes(*recipient_public_key),
{
    transaction.sign(sender_private_key)?;
    let text = transaction.serialize();
    let key = generate_symmetric_key();
    let (ciphertext, nonce) = encrypt(text.as_str(), key.as_slice())?;
    let wrapped_key = encrypt_symmetric_key(key.as_slice(), recipient_public_key)?;
    let e = Envelope { ciphertext, nonce, wrapped_key };
    assert(decryption(e.ciphertext@, key@, e.nonce@) == Ok::<Seq<char>, CryptoError>(
        transaction_text(transaction@),
    ));
    Ok(e)
}

/// Opens an envelope whose symmetric key has already been unwrapped:
/// decrypts, reads the transaction, and checks its signature against the
/// sender's public key.
pub fn open_with_key(envelope: &Envelope, symmetric_key: &[u8], sender_public_key: &RsaPublicKey) -> (r:
    Result<Transaction, CryptoError>)
    ensures
        match r {
            Ok(t) => opening(envelope.ciphertext@, envelope.nonce@, symmetric_key@, *sender_public_key)
                == Ok::<TransactionView, CryptoError>(t@),
            Err(e) => opening(envelope.ciphertext@, envelope.nonce@, symmetric_key@, *sender_public_key)
                == Err::<TransactionView, CryptoError>(e),
        },
        r matches Ok(t) ==> verification(t@, *sender_public_key) == Ok::<bool, CryptoError>(true),
{
    let text = decrypt(envelope.ciphertext.as_slice(), symmetric_key, envelope.nonce.as_slice())?;
    let transaction = Transaction::deserialize(text.as_str())?;
    proof {
        let t = choose|t: TransactionView| transaction_text(t) == text@;
        assert(transaction_text(transaction@) == text@);
        lemma_transaction_text_injective(t, transaction@);
    }
    if transaction.verify_signature(sender_public_key)? {
        Ok(transaction)
    } else {
        Err(CryptoError::SignatureInvalid)
    }
}

/// Unwraps the symmetric key with the recipient's private key, then opens
/// the envelope as [`open_with_key`] does. An unverified transaction is
/// never returned.
pub fn open(
    envelope: &Envelope,
    recipient_private_key: &RsaPrivateKey,
    sender_public_key: &RsaPublicKey,
) -> (r: Result<Transaction, CryptoError>)
    ensures
        match rsa_unwrapped(*recipient_private_key, envelope.wrapped_key@) {
            None => r == Err::<Transaction, CryptoError>(CryptoError::KeyUnwrap),
            Some(k) => match r {
                Ok(t) => opening(envelope.ciphertext@, envelope.nonce@, k, *sender_public_key) == Ok::<
                    TransactionView,
                    CryptoError,
                >(t@),
                Err(e) => opening(envelope.ciphertext@, envelope.nonce@, k, *sender_public_key)
                    == Err::<TransactionView, CryptoError>(e),
            },
        },
        r matches Ok(t) ==> t@.signature is Some && carries(*envelope, transaction_text(t@))
            && verification(t@, *sender_public_key) == Ok::<bool, CryptoError>(true),
{
    let key = decrypt_symmetric_key(envelope.wrapped_key.as_slice(), recipient_private_key)?;
    let r = open_with_key(envelope, key.as_slice(), sender_public_key);
    proof {
        if r is Ok {
            let t = r->Ok_0;
            if key@.len() != SYMMETRIC_KEY_LEN {
                assert(decryption(envelope.ciphertext@, key@, envelope.nonce@) is Err);
            }
            assert(decryption(envelope.ciphertext@, key@, envelope.nonce@) == Ok::<
                Seq<char>,
                CryptoError,
            >(transaction_text(t@)));
        }
    }
    r
}

} // verus!
