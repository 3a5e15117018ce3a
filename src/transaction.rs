//! The transaction record, its canonical texts, its signature and its
//! link hash.
use vstd::prelude::*;
use vstd::utf8::encode_utf8;

use rsa::{RsaPrivateKey, RsaPublicKey};

use crate::bindings::{
    base64_decode, base64_decoded, base64_encode, base64_of, hex_encode, new_uuid_text, rsa_sign,
    rsa_signature, rsa_verifies, rsa_verify, sha256, sha256_of, unix_time_now,
};
use crate::canonical::{
    amount_text, hex_text, lemma_hex_text_len, push_amount, push_quoted, push_signed_decimal, quoted, signed_decimal,
};
use crate::decode::{parse_transaction, same_chars, text_chars};
use crate::error::CryptoError;

verus! {

/// A transfer of `amount` hundredths from `sender_id` to `recipient_id`.
///
/// `signature` is set by [`Transaction::sign`]; `prev_hash` and
/// `current_hash` are set when the transaction joins a chain.
pub struct Transaction {
    pub id: String,
    pub sender_id: String,
    pub recipient_id: String,
    pub amount: u64,
    pub timestamp: i64,
    pub signature: Option<String>,
    pub prev_hash: Option<String>,
    pub current_hash: Option<String>,
}

/// The mathematical content of a [`Transaction`].
pub struct TransactionView {
    pub id: Seq<char>,
    pub sender_id: Seq<char>,
    pub recipient_id: Seq<char>,
    pub amount: u64,
    pub timestamp: i64,
    pub signature: Option<Seq<char>>,
    pub prev_hash: Option<Seq<char>>,
    pub current_hash: Option<Seq<char>>,
}

pub open spec fn text_option(o: Option<String>) -> Option<Seq<char>> {
    match o {
        Some(s) => Some(s@),
        None => None,
    }
}

impl View for Transaction {
    type V = TransactionView;

    open spec fn view(&self) -> TransactionView {
        TransactionView {
            id: self.id@,
            sender_id: self.sender_id@,
            recipient_id: self.recipient_id@,
            amount: self.amount,
            timestamp: self.timestamp,
            signature: text_option(self.signature),
            prev_hash: text_option(self.prev_hash),
            current_hash: text_option(self.current_hash),
        }
    }
}

/// `null`, or the JSON string literal holding the text.
pub open spec fn optional_text(o: Option<Seq<char>>) -> Seq<char> {
    match o {
        Some(s) => quoted(s),
        None => "null"@,
    }
}

/// The canonical text of a transaction: a JSON object with the fields in
/// declaration order and no whitespace.
pub open spec fn transaction_text(t: TransactionView) -> Seq<char> {
    "{\"id\":"@ + quoted(t.id) + ",\"sender_id\":"@ + quoted(t.sender_id) + ",\"recipient_id\":"@
        + quoted(t.recipient_id) + ",\"amount\":"@ + amount_text(t.amount as nat)
        + ",\"timestamp\":"@ + signed_decimal(t.timestamp as int) + ",\"signature\":"@
        + optional_text(t.signature) + ",\"prev_hash\":"@ + optional_text(t.prev_hash)
        + ",\"current_hash\":"@ + optional_text(t.current_hash) + "}"@
}

/// The transaction with the given signature, prior link and own hash.
pub open spec fn with_protocol_fields(
    t: TransactionView,
    signature: Option<Seq<char>>,
    prev_hash: Option<Seq<char>>,
    current_hash: Option<Seq<char>>,
) -> TransactionView {
    TransactionView {
        id: t.id,
        sender_id: t.sender_id,
        recipient_id: t.recipient_id,
        amount: t.amount,
        timestamp: t.timestamp,
        signature,
        prev_hash,
        current_hash,
    }
}

/// The content a signature covers: the fields the protocols fill are absent.
pub open spec fn content_only(t: TransactionView) -> TransactionView {
    with_protocol_fields(t, None, None, None)
}

/// The content a link hash covers: the content and the link to the
/// previous transaction.
pub open spec fn content_with_link(t: TransactionView) -> TransactionView {
    with_protocol_fields(t, None, t.prev_hash, None)
}

/// The text that is signed.
pub open spec fn signing_text(t: TransactionView) -> Seq<char> {
    transaction_text(content_only(t))
}

/// The text whose digest is the transaction's own hash.
pub open spec fn link_text(t: TransactionView) -> Seq<char> {
    transaction_text(content_with_link(t))
}

/// The SHA-256 digest that a signature is made over.
pub open spec fn signing_digest(t: TransactionView) -> Seq<u8> {
    sha256_of(encode_utf8(signing_text(t)))
}

/// The transaction's own hash: lowercase hexadecimal SHA-256 of its link text.
pub open spec fn link_hash(t: TransactionView) -> Seq<char> {
    hex_text(sha256_of(encode_utf8(link_text(t))))
}

/// What [`Transaction::verify_signature`] reports for `t` and `key`:
/// `Ok(false)` without a signature, an error for a signature that is not
/// base64, and otherwise whether RSA accepts it over the signing digest.
pub open spec fn verification(t: TransactionView, key: RsaPublicKey) -> Result<bool, CryptoError> {
    match t.signature {
        None => Ok(false),
        Some(s) => match base64_decoded(s) {
            None => Err(CryptoError::MalformedSignature),
            Some(b) => Ok(rsa_verifies(key, signing_digest(t), b)),
        },
    }
}

/// The canonical encoding is deterministic: transactions with equal
/// content have equal signing texts, bytes and digests, and with an equal
/// link too, equal link hashes.
pub proof fn lemma_encoding_deterministic(a: TransactionView, b: TransactionView)
    requires
        content_only(a) == content_only(b),
    ensures
        signing_text(a) == signing_text(b),
        encode_utf8(signing_text(a)) == encode_utf8(signing_text(b)),
        signing_digest(a) == signing_digest(b),
        a.prev_hash == b.prev_hash ==> link_text(a) == link_text(b) && link_hash(a) == link_hash(b),
{
    assert(content_with_link(a) == with_protocol_fields(content_only(a), None, a.prev_hash, None));
    assert(content_with_link(b) == with_protocol_fields(content_only(b), None, b.prev_hash, None));
}

/// The current hash depends only on the content and the previous hash:
/// transactions that agree there have the same current hash, whatever
/// their signatures and recorded hashes hold.
pub proof fn lemma_link_hash_deterministic(a: TransactionView, b: TransactionView)
    requires
        content_with_link(a) == content_with_link(b),
    ensures
        link_text(a) == link_text(b),
        link_hash(a) == link_hash(b),
{
}

/// What a signature covers does not depend on the signature, the link or
/// the hash: signing and then verifying digest the same text.
pub proof fn lemma_signing_text_ignores_protocol_fields(
    t: TransactionView,
    signature: Option<Seq<char>>,
    prev_hash: Option<Seq<char>>,
    current_hash: Option<Seq<char>>,
)
    ensures
        signing_text(with_protocol_fields(t, signature, prev_hash, current_hash)) == signing_text(t),
        signing_digest(with_protocol_fields(t, signature, prev_hash, current_hash)) == signing_digest(
            t,
        ),
{
    assert(content_only(with_protocol_fields(t, signature, prev_hash, current_hash)) == content_only(
        t,
    ));
}

fn clone_option(o: &Option<String>) -> (r: Option<String>)
    ensures
        text_option(r) == text_option(*o),
{
    match o {
        Some(s) => Some(s.clone()),
        None => None,
    }
}

fn push_optional(out: &mut String, o: &Option<String>)
    ensures
        final(out)@ == old(out)@ + optional_text(text_option(*o)),
{
    match o {
        Some(s) => push_quoted(out, s.as_str()),
        None => out.append("null"),
    }
}

/// The canonical text of `t` with the optional fields taken from the
/// arguments rather than from `t`.
fn text_with(
    t: &Transaction,
    signature: &Option<String>,
    prev_hash: &Option<String>,
    current_hash: &Option<String>,
) -> (r: String)
    ensures
        r@ == transaction_text(
            with_protocol_fields(
                t@,
                text_option(*signature),
                text_option(*prev_hash),
                text_option(*current_hash),
            ),
        ),
{
    let mut out = String::new();
    out.append("{\"id\":");
    push_quoted(&mut out, t.id.as_str());
    out.append(",\"sender_id\":");
    push_quoted(&mut out, t.sender_id.as_str());
    out.append(",\"recipient_id\":");
    push_quoted(&mut out, t.recipient_id.as_str());
    out.append(",\"amount\":");
    push_amount(&mut out, t.amount);
    out.append(",\"timestamp\":");
    push_signed_decimal(&mut out, t.timestamp);
    out.append(",\"signature\":");
    push_optional(&mut out, signature);
    out.append(",\"prev_hash\":");
    push_optional(&mut out, prev_hash);
    out.append(",\"current_hash\":");
    push_optional(&mut out, current_hash);
    out.append("}");
    out
}

impl Clone for Transaction {
    fn clone(&self) -> (r: Self)
        ensures
            r@ == self@,
    {
        Transaction {
            id: self.id.clone(),
            sender_id: self.sender_id.clone(),
            recipient_id: self.recipient_id.clone(),
            amount: self.amount,
            timestamp: self.timestamp,
            signature: clone_option(&self.signature),
            prev_hash: clone_option(&self.prev_hash),
            current_hash: clone_option(&self.current_hash),
        }
    }
}

impl Transaction {
    /// A new unsigned, unchained transaction with the given identifier and
    /// creation time.
    pub fn with_id_and_time(
        id: String,
        sender_id: String,
        recipient_id: String,
        amount: u64,
        timestamp: i64,
    ) -> (r: Transaction)
        ensures
            r@ == (TransactionView {
                id: id@,
                sender_id: sender_id@,
                recipient_id: recipient_id@,
                amount,
                timestamp,
                signature: None,
                prev_hash: None,
                current_hash: None,
            }),
    {
        Transaction {
            id,
            sender_id,
            recipient_id,
            amount,
            timestamp,
            signature: None,
            prev_hash: None,
            current_hash: None,
        }
    }

    /// A new unsigned, unchained transaction with a fresh random (version 4)
    /// UUID and the current time.
    pub fn new(sender_id: String, recipient_id: String, amount: u64) -> (r: Transaction)
        ensures
            r@.id.len() == 36,
            r@.sender_id == sender_id@,
            r@.recipient_id == recipient_id@,
            r@.amount == amount,
            r@.signature is None,
            r@.prev_hash is None,
            r@.current_hash is None,
    {
        let id = new_uuid_text();
        let timestamp = unix_time_now();
        Transaction::with_id_and_time(id, sender_id, recipient_id, amount, timestamp)
    }

    /// The canonical text of the whole transaction, signature and hashes
    /// included.
    pub fn serialize(&self) -> (r: String)
        ensures
            r@ == transaction_text(self@),
    {
        let r = text_with(self, &self.signature, &self.prev_hash, &self.current_hash);
        assert(with_protocol_fields(self@, self@.signature, self@.prev_hash, self@.current_hash)
            == self@);
        r
    }

    /// Reads a transaction from its canonical text (as [`Transaction::serialize`]
    /// writes it). Succeeds exactly on canonical texts.
    pub fn deserialize(json_str: &str) -> (r: Result<Transaction, CryptoError>)
        ensures
            r matches Ok(t) ==> transaction_text(t@) == json_str@,
            (exists|t: TransactionView| transaction_text(t) == json_str@) ==> r is Ok,
            r is Err ==> r == Err::<Transaction, CryptoError>(CryptoError::MalformedInput),
    {
        let cs = text_chars(json_str);
        match parse_transaction(cs.as_slice()) {
            Some(t) => {
                let again = t.serialize();
                let again_chars = text_chars(again.as_str());
                if same_chars(again_chars.as_slice(), cs.as_slice()) {
                    Ok(t)
                } else {
                    Err(CryptoError::MalformedInput)
                }
            },
            None => Err(CryptoError::MalformedInput),
        }
    }

    /// The canonical text that a signature covers: signature, previous hash
    /// and current hash are written as absent.
    pub fn serialize_without_signature(&self) -> (r: String)
        ensures
            r@ == signing_text(self@),
    {
        text_with(self, &None, &None, &None)
    }

    /// The canonical text that the link hash covers: signature and current
    /// hash are written as absent, the previous hash as it stands.
    pub fn serialize_with_link(&self) -> (r: String)
        ensures
            r@ == link_text(self@),
    {
        text_with(self, &None, &self.prev_hash, &None)
    }

    /// Signs the content-only text with PKCS#1 v1.5 over its SHA-256 digest
    /// and stores the signature in base64. Only the signature field changes.
    pub fn sign(&mut self, private_key: &RsaPrivateKey) -> (r: Result<(), CryptoError>)
        ensures
            match rsa_signature(*private_key, signing_digest(old(self)@)) {
                None => r == Err::<(), CryptoError>(CryptoError::Signing) && final(self)@ == old(
                    self,
                )@,
                Some(s) => r == Ok::<(), CryptoError>(()) && final(self)@ == with_protocol_fields(
                    old(self)@,
                    Some(base64_of(s)),
                    old(self)@.prev_hash,
                    old(self)@.current_hash,
                ),
            },
            r is Ok ==> (final(self)@.signature matches Some(s) && base64_decoded(s) is Some),
    {
        let text = self.serialize_without_signature();
        let digest = sha256(text.as_str().as_bytes());
        match rsa_sign(private_key, digest.as_slice()) {
            Ok(signature) => {
                self.signature = Some(base64_encode(signature.as_slice()));
                Ok(())
            },
            Err(_) => Err(CryptoError::Signing),
        }
    }

    /// Checks the stored signature against the content-only text. `Ok(false)`
    /// when there is no signature or it does not verify under `public_key`;
    /// an error only when the stored signature is not base64.
    pub fn verify_signature(&self, public_key: &RsaPublicKey) -> (r: Result<bool, CryptoError>)
        ensures
            r == verification(self@, *public_key),
    {
        match &self.signature {
            None => Ok(false),
            Some(encoded) => {
                let text = self.serialize_without_signature();
                let digest = sha256(text.as_str().as_bytes());
                match base64_decode(encoded.as_str()) {
                    Err(_) => Err(CryptoError::MalformedSignature),
                    Ok(signature) => Ok(rsa_verify(public_key, digest.as_slice(), signature.as_slice()).is_ok()),
                }
            },
        }
    }

    /// The transaction's own hash: lowercase hexadecimal SHA-256 of the text
    /// with the signature and the current hash absent and the previous hash
    /// included. Computed once the previous hash is set and before the
    /// current hash is.
    pub fn calculate_current_hash(&self) -> (r: String)
        requires
            self@.prev_hash is Some,
            self@.current_hash is None,
        ensures
            r@ == link_hash(self@),
            r@.len() == 64,
    {
        self.link_hash_text()
    }

    /// The hash that `current_hash` must hold for this transaction.
    pub(crate) fn link_hash_text(&self) -> (r: String)
        ensures
            r@ == link_hash(self@),
            r@.len() == 64,
    {
        let text = self.serialize_with_link();
        let digest = sha256(text.as_str().as_bytes());
        proof {
            lemma_hex_text_len(digest@);
        }
        hex_encode(digest.as_slice())
    }
}

} // verus!
