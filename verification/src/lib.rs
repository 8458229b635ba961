//! Passphrase-keyed secret codec: a string is cut into zero-padded 16-byte
//! blocks, each block is enciphered independently with AES-256 under a key
//! that is the passphrase right-padded with zero bytes, and the inverse path
//! recovers the string or reports why it cannot.
//!
//! The construction is deterministic and unauthenticated: equal blocks give
//! equal ciphertext blocks, and nothing detects tampering beyond the UTF-8
//! check on the deciphered bytes.

pub mod auth;
pub mod blocks;
pub mod cipher;
pub mod crypto;
pub mod key;
pub mod result;
pub mod service;
