//! Tamper-evident transactions: a canonical text form, signatures over it,
//! a hybrid encryption envelope for transport, and a hash chain that links
//! each stored transaction to the one before it.

pub mod bindings;
pub mod canonical;
pub mod chain;
pub mod cipher;
pub mod decode;
pub mod envelope;
pub mod error;
pub mod keys;
pub mod payload;
pub mod session;
pub mod transaction;

pub use bindings::AES_GCM_MAX_PLAINTEXT;
pub use chain::{get_prev_hash, verify_chain, zero_hash, Ledger};
pub use cipher::{
    decrypt, decrypt_symmetric_key, encrypt, encrypt_symmetric_key, encrypt_with_nonce,
    generate_symmetric_key, NONCE_LEN, SYMMETRIC_KEY_LEN,
};
pub use envelope::{open, open_with_key, seal, Envelope};
pub use error::CryptoError;
pub use keys::{
    generate_rsa_key_pair, private_key_from_pem, private_key_to_pem, public_key_from_pem,
    public_key_to_pem, RSA_KEY_BITS,
};
pub use payload::{EncryptedMessage, RsaKeyPair};
pub use transaction::{Transaction, TransactionView};
