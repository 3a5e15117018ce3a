//! Signed and sealed free-form text: the payload and its signature travel
//! together as a small JSON object, encrypted under a fresh symmetric key
//! that is wrapped for the recipient. Keys are given as PEM text.
use vstd::prelude::*;
use vstd::utf8::encode_utf8;

use crate::bindings::{
    base64_decode, base64_decoded, base64_encode, base64_of, modulus_bytes, private_key_of_pem,
    public_key_of_pem, rsa_sign, rsa_signature, rsa_unwrapped, rsa_verifies, rsa_verify, sha256,
    sha256_of, AES_GCM_MAX_PLAINTEXT,
};
use crate::canonical::{push_quoted, quoted};
use crate::cipher::{
    decrypt, decrypt_symmetric_key, decryption, encrypt, encrypt_symmetric_key,
    generate_symmetric_key, NONCE_LEN, SYMMETRIC_KEY_LEN,
};
use crate::decode::{
    expect_literal, holds_at, lemma_holds_join, lemma_holds_split, parse_quoted, text_chars,
};
use crate::error::CryptoError;
use crate::keys::{
    generate_rsa_key_pair as generate_key_objects, private_key_from_pem, private_key_to_pem,
    public_key_from_pem, public_key_to_pem,
};

verus! {

/// A key pair as PEM text: PKCS#8 for the private key, SubjectPublicKeyInfo
/// for the public key.
pub struct RsaKeyPair {
    pub private_key_pem: String,
    pub public_key_pem: String,
}

/// A sealed payload; every field is standard padded base64.
pub struct EncryptedMessage {
    /// The encrypted payload-and-signature text, with its tag.
    pub encrypted_payload: String,
    /// The nonce.
    pub iv: String,
    /// The symmetric key, wrapped for the recipient.
    pub symmetric_key: String,
}

/// The text that carries a payload and its signature.
pub open spec fn payload_text(payload: Seq<char>, signature: Seq<char>) -> Seq<char> {
    "{\"payload\":"@ + quoted(payload) + ",\"signature\":"@ + quoted(signature) + "}"@
}

/// What [`sign`] returns: the base64 of RSA's PKCS#1 v1.5 signature, with
/// the key read from `pem`, over the SHA-256 of the text's UTF-8 bytes.
pub open spec fn text_signing(text: Seq<char>, pem: Seq<char>) -> Result<Seq<char>, CryptoError> {
    match private_key_of_pem(pem) {
        None => Err(CryptoError::Key),
        Some(k) => match rsa_signature(k, sha256_of(encode_utf8(text))) {
            None => Err(CryptoError::Signing),
            Some(s) => Ok(base64_of(s)),
        },
    }
}

/// What [`verify_signature`] returns for a base64 signature over the text
/// with the key read from `pem`.
pub open spec fn text_verification(signature: Seq<char>, text: Seq<char>, pem: Seq<char>) -> Result<
    bool,
    CryptoError,
> {
    match public_key_of_pem(pem) {
        None => Err(CryptoError::Key),
        Some(k) => match base64_decoded(signature) {
            None => Err(CryptoError::MalformedSignature),
            Some(b) => Ok(rsa_verifies(k, sha256_of(encode_utf8(text)), b)),
        },
    }
}

/// The payload and signature that `text` carries, if it is such a text.
pub open spec fn carried(text: Seq<char>) -> Option<(Seq<char>, Seq<char>)> {
    if exists|p: Seq<char>, s: Seq<char>| payload_text(p, s) == text {
        Some(choose|p: Seq<char>, s: Seq<char>| payload_text(p, s) == text)
    } else {
        None
    }
}

/// The base64 fields of a sealed message hold a ciphertext (with its tag)
/// that decrypts, under some 32-byte key, to the text carrying `payload`
/// and `signature`, and the nonce it was encrypted with.
pub open spec fn seals_payload(
    encrypted_payload: Seq<char>,
    iv: Seq<char>,
    payload: Seq<char>,
    signature: Seq<char>,
) -> bool {
    match (base64_decoded(encrypted_payload), base64_decoded(iv)) {
        (Some(c), Some(n)) => n.len() == NONCE_LEN && c.len() == encode_utf8(
            payload_text(payload, signature),
        ).len() + 16 && exists|key: Seq<u8>|
            key.len() == SYMMETRIC_KEY_LEN && #[trigger] decryption(c, key, n) == Ok::<
                Seq<char>,
                CryptoError,
            >(payload_text(payload, signature)),
        _ => false,
    }
}

/// What [`verify_and_decrypt_payload`] returns for a message's fields and
/// the two PEM keys: the payload, once the text it came in parses and its
/// signature verifies under the sender's key; otherwise the first failure.
pub open spec fn payload_opening(
    encrypted_payload: Seq<char>,
    iv: Seq<char>,
    wrapped_key: Seq<char>,
    recipient_private_key_pem: Seq<char>,
    sender_public_key_pem: Seq<char>,
) -> Result<Seq<char>, CryptoError> {
    match (base64_decoded(encrypted_payload), base64_decoded(iv), base64_decoded(wrapped_key)) {
        (Some(c), Some(n), Some(w)) => match private_key_of_pem(recipient_private_key_pem) {
            None => Err(CryptoError::Key),
            Some(sk) => match rsa_unwrapped(sk, w) {
                None => Err(CryptoError::KeyUnwrap),
                Some(k) => match decryption(c, k, n) {
                    Err(e) => Err(e),
                    Ok(text) => match carried(text) {
                        None => Err(CryptoError::MalformedInput),
                        Some((p, s)) => match text_verification(s, p, sender_public_key_pem) {
                            Err(e) => Err(e),
                            Ok(true) => Ok(p),
                            Ok(false) => Err(CryptoError::SignatureInvalid),
                        },
                    },
                },
            },
        },
        _ => Err(CryptoError::MalformedInput),
    }
}

/// A fresh 2048-bit key pair, as PEM text.
pub fn generate_rsa_key_pair() -> (r: Result<RsaKeyPair, CryptoError>)
    ensures
        r is Err ==> r == Err::<RsaKeyPair, CryptoError>(CryptoError::Key),
{
    let (private_key, public_key) = generate_key_objects()?;
    let private_key_pem = private_key_to_pem(&private_key)?;
    let public_key_pem = public_key_to_pem(&public_key)?;
    Ok(RsaKeyPair { private_key_pem, public_key_pem })
}

/// Signs the UTF-8 bytes of `orig_text` (PKCS#1 v1.5 over SHA-256) with a
/// PKCS#8 PEM private key; the signature is returned in base64.
pub fn sign(orig_text: &str, private_key: &str) -> (r: Result<String, CryptoError>)
    ensures
        match r {
            Ok(s) => text_signing(orig_text@, private_key@) == Ok::<Seq<char>, CryptoError>(s@),
            Err(e) => text_signing(orig_text@, private_key@) == Err::<Seq<char>, CryptoError>(e),
        },
        r matches Ok(s) ==> base64_decoded(s@) is Some,
{
    let key = private_key_from_pem(private_key)?;
    let digest = sha256(orig_text.as_bytes());
    match rsa_sign(&key, digest.as_slice()) {
        Ok(signature) => Ok(base64_encode(signature.as_slice())),
        Err(_) => Err(CryptoError::Signing),
    }
}

/// Checks a base64 signature over the UTF-8 bytes of `orig_text` with a PEM
/// public key. `Ok(false)` when it does not verify.
pub fn verify_signature(signature: &str, orig_text: &str, public_key_pem: &str) -> (r: Result<
    bool,
    CryptoError,
>)
    ensures
        r == text_verification(signature@, orig_text@, public_key_pem@),
{
    let key = public_key_from_pem(public_key_pem)?;
    let digest = sha256(orig_text.as_bytes());
    match base64_decode(signature) {
        Ok(bytes) => Ok(rsa_verify(&key, digest.as_slice(), bytes.as_slice()).is_ok()),
        Err(_) => Err(CryptoError::MalformedSignature),
    }
}

/// The text carrying `payload` and `signature`.
pub fn payload_and_signature(payload: &str, signature: &str) -> (r: String)
    ensures
        r@ == payload_text(payload@, signature@),
{
    let mut out = String::new();
    out.append("{\"payload\":");
    push_quoted(&mut out, payload);
    out.append(",\"signature\":");
    push_quoted(&mut out, signature);
    out.append("}");
    out
}

proof fn lemma_payload_layout(cs: Seq<char>, p: Seq<char>, s: Seq<char>)
    requires
        payload_text(p, s) == cs,
    ensures
        ({
            let l1 = "{\"payload\":"@.len() as int;
            let l2 = ",\"signature\":"@.len() as int;
            let o2 = l1 + quoted(p).len();
            let o4 = o2 + l2 + quoted(s).len();
            &&& holds_at(cs, 0, "{\"payload\":"@)
            &&& holds_at(cs, l1, quoted(p))
            &&& holds_at(cs, o2, ",\"signature\":"@)
            &&& holds_at(cs, o2 + l2, quoted(s))
            &&& holds_at(cs, o4, "}"@)
            &&& o4 + "}"@.len() == cs.len()
        }),
{
    let a = "{\"payload\":"@;
    let b = ",\"signature\":"@;
    let c = "}"@;
    let qp = quoted(p);
    let qs = quoted(s);
    assert(cs.subrange(0, cs.len() as int) =~= cs);
    assert(holds_at(cs, 0, a + qp + b + qs + c));
    lemma_holds_split(cs, 0, a + qp + b + qs, c);
    lemma_holds_split(cs, 0, a + qp + b, qs);
    lemma_holds_split(cs, 0, a + qp, b);
    lemma_holds_split(cs, 0, a, qp);
}

/// Reads the payload and the signature back from their carrying text.
/// Every text that [`payload_and_signature`] writes is read back.
pub fn parse_payload_and_signature(text: &str) -> (r: Option<(String, String)>)
    ensures
        r matches Some((a, b)) ==> payload_text(a@, b@) == text@,
        forall|p: Seq<char>, s: Seq<char>| #[trigger]
            payload_text(p, s) == text@ ==> (r matches Some((a, b)) && a@ == p && b@ == s),
{
    let cs = text_chars(text);
    let ghost canonical = exists|p: Seq<char>, s: Seq<char>| #[trigger] payload_text(p, s) == cs@;
    let ghost pair = choose|p: Seq<char>, s: Seq<char>| #[trigger] payload_text(p, s) == cs@;
    proof {
        if canonical {
            lemma_payload_layout(cs@, pair.0, pair.1);
        }
    }
    let p = expect_literal(cs.as_slice(), 0, "{\"payload\":")?;
    let (payload, p) = parse_quoted(cs.as_slice(), p)?;
    let p = expect_literal(cs.as_slice(), p, ",\"signature\":")?;
    let (signature, p) = parse_quoted(cs.as_slice(), p)?;
    let p = expect_literal(cs.as_slice(), p, "}")?;
    if p != cs.len() {
        return None;
    }
    proof {
        let whole = payload_text(payload@, signature@);
        let a = "{\"payload\":"@;
        let b = ",\"signature\":"@;
        lemma_holds_join(cs@, 0, a, quoted(payload@));
        lemma_holds_join(cs@, 0, a + quoted(payload@), b);
        lemma_holds_join(cs@, 0, a + quoted(payload@) + b, quoted(signature@));
        lemma_holds_join(cs@, 0, a + quoted(payload@) + b + quoted(signature@), "}"@);
        assert(cs@ =~= cs@.subrange(0, whole.len() as int));
        assert forall|p2: Seq<char>, s2: Seq<char>| #[trigger] payload_text(p2, s2) == text@ implies payload@ == p2 && signature@ == s2 by {
            lemma_payload_layout(cs@, p2, s2);
        }
    }
    Some((payload, signature))
}

/// Signs `text`, encrypts it together with its signature under a fresh
/// symmetric key, and wraps that key for the recipient's public key.
pub fn create_secure_payload(text: String, private_key_pem: String, public_key_pem: String) -> (r:
    Result<EncryptedMessage, CryptoError>)
    ensures
        match text_signing(text@, private_key_pem@) {
            Err(e) => r == Err::<EncryptedMessage, CryptoError>(e),
            Ok(s) => {
                let body = encode_utf8(payload_text(text@, s));
                &&& body.len() > AES_GCM_MAX_PLAINTEXT ==> r == Err::<EncryptedMessage, CryptoError>(
                    CryptoError::PlaintextTooLong,
                )
                &&& body.len() <= AES_GCM_MAX_PLAINTEXT ==> match public_key_of_pem(public_key_pem@) {
                    None => r == Err::<EncryptedMessage, CryptoError>(CryptoError::Key),
                    Some(pk) => {
                        &&& SYMMETRIC_KEY_LEN + 11 > modulus_bytes(pk) ==> r == Err::<
                            EncryptedMessage,
                            CryptoError,
                        >(CryptoError::KeyWrap)
                        &&& r matches Err(e) ==> e == CryptoError::KeyWrap
                        &&& r matches Ok(m) ==> seals_payload(m.encrypted_payload@, m.iv@, text@, s)
                            && (base64_decoded(m.symmetric_key@) matches Some(w) && w.len()
                            == modulus_bytes(pk))
                    },
                }
            },
        },
{
    let signature = sign(text.as_str(), private_key_pem.as_str())?;
    let serialized = payload_and_signature(text.as_str(), signature.as_str());
    let symmetric_key = generate_symmetric_key();
    let (encrypted_payload, iv) = encrypt(serialized.as_str(), symmetric_key.as_slice())?;
    let public_key = public_key_from_pem(public_key_pem.as_str())?;
    let wrapped = encrypt_symmetric_key(symmetric_key.as_slice(), &public_key)?;
    let m = EncryptedMessage {
        encrypted_payload: base64_encode(encrypted_payload.as_slice()),
        iv: base64_encode(iv.as_slice()),
        symmetric_key: base64_encode(wrapped.as_slice()),
    };
    assert(decryption(encrypted_payload@, symmetric_key@, iv@) == Ok::<Seq<char>, CryptoError>(
        payload_text(text@, signature@),
    ));
    assert(base64_decoded(m.encrypted_payload@) == Some(encrypted_payload@));
    assert(base64_decoded(m.iv@) == Some(iv@));
    assert(base64_decoded(m.symmetric_key@) == Some(wrapped@));
    Ok(m)
}

/// Unwraps the symmetric key, decrypts, reads the payload and its
/// signature, and checks the signature with the sender's public key. The
/// payload is returned only when the signature verifies.
pub fn verify_and_decrypt_payload(
    encrypted_message: EncryptedMessage,
    recipient_private_key_pem: String,
    sender_public_key_pem: String,
) -> (r: Result<String, CryptoError>)
    ensures
        match r {
            Ok(p) => payload_opening(
                encrypted_message.encrypted_payload@,
                encrypted_message.iv@,
                encrypted_message.symmetric_key@,
                recipient_private_key_pem@,
                sender_public_key_pem@,
            ) == Ok::<Seq<char>, CryptoError>(p@),
            Err(e) => payload_opening(
                encrypted_message.encrypted_payload@,
                encrypted_message.iv@,
                encrypted_message.symmetric_key@,
                recipient_private_key_pem@,
                sender_public_key_pem@,
            ) == Err::<Seq<char>, CryptoError>(e),
        },
{
    let encrypted_payload = match base64_decode(encrypted_message.encrypted_payload.as_str()) {
        Ok(v) => v,
        Err(_) => return Err(CryptoError::MalformedInput),
    };
    let iv = match base64_decode(encrypted_message.iv.as_str()) {
        Ok(v) => v,
        Err(_) => return Err(CryptoError::MalformedInput),
    };
    let wrapped = match base64_decode(encrypted_message.symmetric_key.as_str()) {
        Ok(v) => v,
        Err(_) => return Err(CryptoError::MalformedInput),
    };
    let recipient_private_key = private_key_from_pem(recipient_private_key_pem.as_str())?;
    let symmetric_key = decrypt_symmetric_key(wrapped.as_slice(), &recipient_private_key)?;
    let decrypted = decrypt(encrypted_payload.as_slice(), symmetric_key.as_slice(), iv.as_slice())?;
    let (payload, signature) = match parse_payload_and_signature(decrypted.as_str()) {
        Some(found) => found,
        None => {
            assert(carried(decrypted@) is None);
            return Err(CryptoError::MalformedInput);
        },
    };
    proof {
        let pair = choose|p: Seq<char>, s: Seq<char>| payload_text(p, s) == decrypted@;
        assert(payload_text(payload@, signature@) == decrypted@);
        assert(payload_text(pair.0, pair.1) == decrypted@);
        assert(carried(decrypted@) == Some((payload@, signature@)));
    }
    let valid = verify_signature(signature.as_str(), payload.as_str(), sender_public_key_pem.as_str())?;
    if !valid {
        return Err(CryptoError::SignatureInvalid);
    }
    Ok(payload)
}

} // verus!
