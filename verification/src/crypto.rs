//! The codec: sealing a plaintext under a passphrase, and opening a
//! ciphertext again.
//!
//! A ciphertext is the plain concatenation of the enciphered blocks: no
//! header, no nonce, no tag, no length. Its length is a multiple of the
//! block size.

use crate::blocks::{
    block_count, block_views, chars_fit_blocks, decode_result, encode_result, encoded_blocks,
    from_blocks, lemma_blocks_round_trip, lemma_first_nul, lemma_first_nul_is, nul_free, to_blocks,
    BLOCK_SIZE,
};
use crate::cipher::{decrypt_blocks, deciphered, enciphered, encrypt_blocks};
use crate::key::{derive_key, derived_key, padded_key, KEY_SIZE};
use crate::result::{reported, CodecError, Error};
use vstd::prelude::*;
use vstd::string::StringSliceAdditionalSpecFns;
use vstd::utf8::encode_utf8;

verus! {

/// The blocks laid end to end.
pub open spec fn joined(blocks: Seq<Seq<u8>>) -> Seq<u8> {
    Seq::new(
        (BLOCK_SIZE * blocks.len()) as nat,
        |i: int| blocks[i / (BLOCK_SIZE as int)][i % (BLOCK_SIZE as int)],
    )
}

/// The consecutive 16-byte pieces of `bytes`; what is left behind the last
/// whole piece is not part of any.
pub open spec fn split(bytes: Seq<u8>) -> Seq<Seq<u8>> {
    Seq::new(
        bytes.len() / (BLOCK_SIZE as nat),
        |k: int| bytes.subrange(BLOCK_SIZE * k, BLOCK_SIZE * k + BLOCK_SIZE),
    )
}

/// What cutting a ciphertext into blocks yields: the pieces, or an
/// alignment error where the length is no multiple of the block size.
pub open spec fn split_result(bytes: Seq<u8>) -> Result<Seq<Seq<u8>>, CodecError> {
    if bytes.len() % (BLOCK_SIZE as nat) != 0 {
        Err(CodecError::AlignmentError { len: bytes.len() as usize, block_size: BLOCK_SIZE })
    } else {
        Ok(split(bytes))
    }
}

/// What sealing yields for a passphrase and a plaintext, each by its bytes.
/// The passphrase is judged first, then the plaintext.
pub open spec fn seal_result(pass: Seq<u8>, text: Seq<u8>) -> Result<Seq<u8>, CodecError> {
    match derived_key(pass) {
        Err(e) => Err(e),
        Ok(key) => match encode_result(text) {
            Err(e) => Err(e),
            Ok(blocks) => Ok(joined(enciphered(key, blocks))),
        },
    }
}

/// What opening yields for a passphrase, by its bytes, and a ciphertext.
/// The passphrase is judged first, then the length, then the deciphered data.
pub open spec fn open_result(pass: Seq<u8>, bytes: Seq<u8>) -> Result<Seq<char>, CodecError> {
    match derived_key(pass) {
        Err(e) => Err(e),
        Ok(key) => match split_result(bytes) {
            Err(e) => Err(e),
            Ok(blocks) => decode_result(deciphered(key, blocks)),
        },
    }
}

/// What a sealed text opens to under the passphrase it was sealed with.
pub open spec fn reopened(text: Seq<char>) -> Result<Seq<char>, CodecError> {
    if chars_fit_blocks(encode_utf8(text)) {
        Ok(text)
    } else {
        Err(CodecError::DecodeError)
    }
}

/// Lays the blocks end to end.
pub fn join_blocks(blocks: Vec<[u8; 16]>) -> (res: Vec<u8>)
    ensures
        res@ == joined(block_views(blocks@)),
{
    let mut res: Vec<u8> = Vec::new();
    let mut k: usize = 0;
    while k < blocks.len()
        invariant
            k <= blocks@.len(),
            res@.len() == BLOCK_SIZE * k,
            forall|i: int|
                0 <= i < res@.len() ==> res@[i] == blocks@[i / (BLOCK_SIZE as int)]@[i % (
                BLOCK_SIZE as int)],
        decreases blocks@.len() - k,
    {
        let block: &[u8; 16] = &blocks[k];
        let mut j: usize = 0;
        while j < BLOCK_SIZE
            invariant
                k < blocks@.len(),
                *block == blocks@[k as int],
                j <= BLOCK_SIZE,
                res@.len() == BLOCK_SIZE * k + j,
                forall|i: int|
                    0 <= i < res@.len() ==> res@[i] == blocks@[i / (BLOCK_SIZE as int)]@[i % (
                    BLOCK_SIZE as int)],
            decreases BLOCK_SIZE - j,
        {
            res.push(block[j]);
            j += 1;
        }
        k += 1;
    }
    assert(res@ =~= joined(block_views(blocks@)));
    res
}

/// Cuts a ciphertext into blocks, refusing a length that is no multiple of
/// the block size.
pub fn split_blocks(bytes: &Vec<u8>) -> (res: Result<Vec<[u8; 16]>, CodecError>)
    ensures
        match split_result(bytes@) {
            Ok(b) => res matches Ok(v) && block_views(v@) == b,
            Err(e) => res == Err::<Vec<[u8; 16]>, CodecError>(e),
        },
{
    let n: usize = bytes.len();
    if n % BLOCK_SIZE != 0 {
        return Err(CodecError::AlignmentError { len: n, block_size: BLOCK_SIZE });
    }
    let count: usize = n / BLOCK_SIZE;
    let mut res: Vec<[u8; 16]> = Vec::with_capacity(count);
    let mut k: usize = 0;
    while k < count
        invariant
            n == bytes@.len(),
            count == n / BLOCK_SIZE,
            n % BLOCK_SIZE == 0,
            k <= count,
            res@.len() == k,
            forall|i: int|
                0 <= i < k ==> (#[trigger] res@[i])@ == bytes@.subrange(
                    BLOCK_SIZE * i,
                    BLOCK_SIZE * i + BLOCK_SIZE,
                ),
        decreases count - k,
    {
        let start: usize = k * BLOCK_SIZE;
        let mut block = [0u8; 16];
        let mut j: usize = 0;
        while j < BLOCK_SIZE
            invariant
                n == bytes@.len(),
                start == k * BLOCK_SIZE,
                start + BLOCK_SIZE <= n,
                j <= BLOCK_SIZE,
                forall|i: int| 0 <= i < j ==> block@[i] == bytes@[start + i],
            decreases BLOCK_SIZE - j,
        {
            block[j] = bytes[start + j];
            j += 1;
        }
        assert(block@ =~= bytes@.subrange(BLOCK_SIZE * k, BLOCK_SIZE * k + BLOCK_SIZE));
        res.push(block);
        k += 1;
    }
    assert(block_views(res@) =~= split(bytes@));
    Ok(res)
}

/// Seals `val` under `master_pw`: derives the key, cuts the plaintext into
/// blocks, enciphers each block and joins them.
///
/// What comes back opens again under the same passphrase: to the plaintext
/// where no character's encoding crosses a block boundary, and to a decode
/// error otherwise.
pub fn seal(master_pw: &str, val: &str) -> (res: Result<Vec<u8>, CodecError>)
    ensures
        match seal_result(master_pw.spec_bytes(), val.spec_bytes()) {
            Ok(c) => res matches Ok(v) && v@ == c,
            Err(e) => res == Err::<Vec<u8>, CodecError>(e),
        },
        res matches Ok(v) ==> open_result(master_pw.spec_bytes(), v@) == reopened(val@),
{
    let key = match derive_key(master_pw) {
        Ok(key) => key,
        Err(e) => {
            return Err(e);
        },
    };
    let blocks = match to_blocks(val) {
        Ok(blocks) => blocks,
        Err(e) => {
            return Err(e);
        },
    };
    let sealed = encrypt_blocks(&key, blocks);
    assert(block_views(sealed@) =~= enciphered(key@, block_views(blocks@)));
    let out = join_blocks(sealed);
    proof {
        let bytes = val.spec_bytes();
        lemma_first_nul(bytes);
        lemma_split_joined(block_views(sealed@));
        assert(deciphered(key@, split(out@)) =~= block_views(blocks@));
        lemma_round_trip(master_pw.spec_bytes(), val@, out@);
    }
    Ok(out)
}

/// Opens the ciphertext `bytes` under `master_pw`: derives the key, cuts the
/// ciphertext into blocks, deciphers each block and reads the text back.
pub fn open(master_pw: &str, bytes: &Vec<u8>) -> (res: Result<String, CodecError>)
    ensures
        match open_result(master_pw.spec_bytes(), bytes@) {
            Ok(t) => res matches Ok(s) && s@ == t,
            Err(e) => res matches Err(err) && err == e,
        },
{
    let key = match derive_key(master_pw) {
        Ok(key) => key,
        Err(e) => {
            return Err(e);
        },
    };
    let blocks = match split_blocks(bytes) {
        Ok(blocks) => blocks,
        Err(e) => {
            return Err(e);
        },
    };
    let opened = decrypt_blocks(&key, blocks);
    assert(block_views(opened@) =~= deciphered(key@, block_views(blocks@)));
    from_blocks(opened)
}

/// Seals `val` under `master_pw`, as `seal` does, and reports a failure as
/// an application error.
pub fn encrypt(master_pw: &str, val: &str) -> (res: Result<Vec<u8>, Error>)
    ensures
        match seal_result(master_pw.spec_bytes(), val.spec_bytes()) {
            Ok(c) => res matches Ok(v) && v@ == c,
            Err(e) => res matches Err(err) && err@ == reported(e),
        },
        res matches Ok(v) ==> open_result(master_pw.spec_bytes(), v@) == reopened(val@),
{
    match seal(master_pw, val) {
        Ok(sealed) => Ok(sealed),
        Err(e) => Err(Error::from_codec(e)),
    }
}

/// Opens the ciphertext `bytes` under `master_pw`, as `open` does, and
/// reports a failure as an application error.
pub fn decrypt(master_pw: &str, bytes: &Vec<u8>) -> (res: Result<String, Error>)
    ensures
        match open_result(master_pw.spec_bytes(), bytes@) {
            Ok(t) => res matches Ok(s) && s@ == t,
            Err(e) => res matches Err(err) && err@ == reported(e),
        },
{
    match open(master_pw, bytes) {
        Ok(text) => Ok(text),
        Err(e) => Err(Error::from_codec(e)),
    }
}

/// Sixteen-byte blocks laid end to end and cut again are the same blocks.
pub proof fn lemma_split_joined(blocks: Seq<Seq<u8>>)
    requires
        forall|i: int| 0 <= i < blocks.len() ==> (#[trigger] blocks[i]).len() == BLOCK_SIZE,
    ensures
        joined(blocks).len() == BLOCK_SIZE * blocks.len(),
        split(joined(blocks)) == blocks,
{
    let bytes = joined(blocks);
    assert(bytes.len() / (BLOCK_SIZE as nat) == blocks.len());
    assert forall|k: int| 0 <= k < blocks.len() implies #[trigger] split(bytes)[k] == blocks[k] by {
        let piece = bytes.subrange(BLOCK_SIZE * k, BLOCK_SIZE * k + BLOCK_SIZE);
        assert forall|j: int| 0 <= j < BLOCK_SIZE implies piece[j] == blocks[k][j] by {
            let i = BLOCK_SIZE * k + j;
            assert(i / (BLOCK_SIZE as int) == k && i % (BLOCK_SIZE as int) == j);
        }
        assert(piece =~= blocks[k]);
    }
    assert(split(bytes) =~= blocks);
}

/// A text without zero byte, sealed under a passphrase that fits a key,
/// opens under that passphrase to the same text where no
/// character's encoding crosses a block boundary, and to a decode error
/// otherwise. `sealed` stands for what sealing returned: a whole number of
/// blocks that decipher to the encoded blocks of the text, which is what the
/// cipher promises of its own output.
pub proof fn lemma_round_trip(pass: Seq<u8>, text: Seq<char>, sealed: Seq<u8>)
    requires
        pass.len() <= KEY_SIZE,
        nul_free(encode_utf8(text)),
        sealed.len() % (BLOCK_SIZE as nat) == 0,
        deciphered(padded_key(pass), split(sealed)) == encoded_blocks(encode_utf8(text)),
    ensures
        open_result(pass, sealed) == reopened(text),
{
    lemma_blocks_round_trip(text);
}

/// A passphrase of more bytes than a key holds makes both directions fail
/// with a size violation, whatever the other argument.
pub proof fn lemma_long_passphrase_refused(pass: Seq<u8>, text: Seq<u8>, bytes: Seq<u8>)
    requires
        pass.len() > KEY_SIZE,
    ensures
        seal_result(pass, text) == Err::<Seq<u8>, CodecError>(
            CodecError::SizeViolation { limit: KEY_SIZE },
        ),
        open_result(pass, bytes) == Err::<Seq<char>, CodecError>(
            CodecError::SizeViolation { limit: KEY_SIZE },
        ),
{
}

/// Under a passphrase that fits a key, a plaintext with a zero byte is
/// refused with the offset of the first one.
pub proof fn lemma_nul_refused(pass: Seq<u8>, text: Seq<u8>, i: int)
    requires
        pass.len() <= KEY_SIZE,
        text.len() <= usize::MAX,
        0 <= i < text.len(),
        text[i] == 0u8,
        forall|j: int| 0 <= j < i ==> text[j] != 0u8,
    ensures
        seal_result(pass, text) == Err::<Seq<u8>, CodecError>(
            CodecError::EncodeError { offset: i as usize },
        ),
{
    lemma_first_nul_is(text, i);
}

/// Under a passphrase that fits a key, a ciphertext whose length is no
/// multiple of the block size is refused with that length.
pub proof fn lemma_misaligned_refused(pass: Seq<u8>, bytes: Seq<u8>)
    requires
        pass.len() <= KEY_SIZE,
        bytes.len() % (BLOCK_SIZE as nat) != 0,
    ensures
        open_result(pass, bytes) == Err::<Seq<char>, CodecError>(
            CodecError::AlignmentError { len: bytes.len() as usize, block_size: BLOCK_SIZE },
        ),
{
}

/// A sealed text has sixteen bytes for every block of the plaintext: the
/// plaintext's length rounded up to a multiple of sixteen.
pub proof fn lemma_sealed_length(pass: Seq<u8>, text: Seq<u8>)
    requires
        seal_result(pass, text) is Ok,
    ensures
        seal_result(pass, text)->Ok_0.len() == BLOCK_SIZE * block_count(text.len() as int),
        seal_result(pass, text)->Ok_0.len() % (BLOCK_SIZE as nat) == 0,
        text.len() <= seal_result(pass, text)->Ok_0.len() < text.len() + BLOCK_SIZE,
{
}

/// Sealing is a function of the passphrase and the plaintext: two results
/// for the same arguments are the same bytes, or the same error.
pub proof fn lemma_seal_deterministic(
    pass: Seq<u8>,
    text: Seq<u8>,
    first: Result<Seq<u8>, CodecError>,
    second: Result<Seq<u8>, CodecError>,
)
    requires
        first == seal_result(pass, text),
        second == seal_result(pass, text),
    ensures
        first == second,
{
}

/// Opening never fails in another way than these: under a passphrase that
/// fits a key, a ciphertext of whole blocks opens to some text or fails
/// with a decode error, whatever key it was sealed with.
pub proof fn lemma_open_fails_safely(pass: Seq<u8>, bytes: Seq<u8>)
    requires
        pass.len() <= KEY_SIZE,
        bytes.len() % (BLOCK_SIZE as nat) == 0,
    ensures
        open_result(pass, bytes) is Ok || open_result(pass, bytes) == Err::<
            Seq<char>,
            CodecError,
        >(CodecError::DecodeError),
{
}

} // verus!
