//! The block cipher: AES-256 applied to every block by itself, with no
//! chaining value and no nonce between blocks.
//!
//! The cipher itself is not verified here. Its two directions are named, and
//! the code around it is proved against those names.

use aes::cipher::generic_array::GenericArray;
use aes::cipher::{BlockDecrypt, BlockEncrypt, KeyInit};
use aes::{Aes256, Block};
use vstd::prelude::*;

verus! {

/// The AES-256 encryption of one 16-byte block under a 32-byte key.
pub uninterp spec fn aes256_encrypt_block(key: Seq<u8>, block: Seq<u8>) -> Seq<u8>;

/// The AES-256 decryption of one 16-byte block under a 32-byte key.
pub uninterp spec fn aes256_decrypt_block(key: Seq<u8>, block: Seq<u8>) -> Seq<u8>;

/// Every block enciphered by itself under `key`, in order.
pub open spec fn enciphered(key: Seq<u8>, blocks: Seq<Seq<u8>>) -> Seq<Seq<u8>> {
    Seq::new(blocks.len(), |i: int| aes256_encrypt_block(key, blocks[i]))
}

/// Every block deciphered by itself under `key`, in order.
pub open spec fn deciphered(key: Seq<u8>, blocks: Seq<Seq<u8>>) -> Seq<Seq<u8>> {
    Seq::new(blocks.len(), |i: int| aes256_decrypt_block(key, blocks[i]))
}

/// `Aes256::new` followed by `BlockEncrypt::encrypt_blocks`: the cipher is
/// keyed once and encrypts each block independently, keeping their number
/// and order. Claimed without proof: block `i` of the result is the AES-256
/// encryption of block `i` of the input, and decrypting it under the same
/// key gives that input block back, decryption being the inverse
/// permutation.
#[verifier::external_body]
pub(crate) fn encrypt_blocks(key: &[u8; 32], blocks: Vec<[u8; 16]>) -> (res: Vec<[u8; 16]>)
    ensures
        res@.len() == blocks@.len(),
        forall|i: int|
            0 <= i < blocks@.len() ==> (#[trigger] res@[i])@ == aes256_encrypt_block(
                key@,
                blocks@[i]@,
            ),
        forall|i: int|
            0 <= i < blocks@.len() ==> aes256_decrypt_block(key@, (#[trigger] res@[i])@)
                == blocks@[i]@,
{
    let cipher = Aes256::new(&GenericArray::from(*key));
    let mut buf: Vec<Block> = blocks.into_iter().map(Block::from).collect();
    cipher.encrypt_blocks(&mut buf);
    buf.into_iter().map(|block| block.into()).collect()
}

/// `Aes256::new` followed by `BlockDecrypt::decrypt_blocks`: the cipher is
/// keyed once and decrypts each block independently, keeping their number
/// and order. Claimed without proof: block `i` of the result is the AES-256
/// decryption of block `i` of the input.
#[verifier::external_body]
pub(crate) fn decrypt_blocks(key: &[u8; 32], blocks: Vec<[u8; 16]>) -> (res: Vec<[u8; 16]>)
    ensures
        res@.len() == blocks@.len(),
        forall|i: int|
            0 <= i < blocks@.len() ==> (#[trigger] res@[i])@ == aes256_decrypt_block(
                key@,
                blocks@[i]@,
            ),
{
    let cipher = Aes256::new(&GenericArray::from(*key));
    let mut buf: Vec<Block> = blocks.into_iter().map(Block::from).collect();
    cipher.decrypt_blocks(&mut buf);
    buf.into_iter().map(|block| block.into()).collect()
}

} // verus!
