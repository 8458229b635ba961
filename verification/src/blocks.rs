//! Block encoding: a byte string as a sequence of 16-byte blocks, the last
//! one right-padded with zero bytes, and the inverse that cuts each block at
//! its first zero byte.
//!
//! No length is stored: a zero byte ends the data of a block. That is why a
//! plaintext may hold no zero byte, and why a character whose encoding
//! crosses a block boundary cannot be read back.

use crate::result::CodecError;
use vstd::prelude::*;
use vstd::slice::slice_subrange;
use vstd::string::StringExecFns;
use vstd::string::StringSliceAdditionalSpecFns;
use vstd::utf8::*;

verus! {

/// Number of bytes in a block.
pub const BLOCK_SIZE: usize = 16;

/// Index of the first zero byte of `bytes`, or its length where it has none.
pub open spec fn first_nul(bytes: Seq<u8>) -> int
    decreases bytes.len(),
{
    if bytes.len() == 0 || bytes[0] == 0u8 {
        0
    } else {
        1 + first_nul(bytes.drop_first())
    }
}

/// `bytes` holds no zero byte.
pub open spec fn nul_free(bytes: Seq<u8>) -> bool {
    forall|j: int| 0 <= j < bytes.len() ==> bytes[j] != 0u8
}

/// Number of blocks that hold `n` bytes.
pub open spec fn block_count(n: int) -> int {
    (n + BLOCK_SIZE - 1) / (BLOCK_SIZE as int)
}

/// Block `k` of `bytes`: its bytes from offset `16 * k` on, then zero bytes.
pub open spec fn padded_chunk(bytes: Seq<u8>, k: int) -> Seq<u8> {
    Seq::new(
        BLOCK_SIZE as nat,
        |j: int|
            if BLOCK_SIZE * k + j < bytes.len() {
                bytes[BLOCK_SIZE * k + j]
            } else {
                0u8
            },
    )
}

/// The blocks of a byte string, in order. The empty string has no block.
pub open spec fn encoded_blocks(bytes: Seq<u8>) -> Seq<Seq<u8>> {
    Seq::new(block_count(bytes.len() as int) as nat, |k: int| padded_chunk(bytes, k))
}

/// What encoding yields: the blocks, or the offset of the first zero byte.
pub open spec fn encode_result(bytes: Seq<u8>) -> Result<Seq<Seq<u8>>, CodecError> {
    if first_nul(bytes) < bytes.len() {
        Err(CodecError::EncodeError { offset: first_nul(bytes) as usize })
    } else {
        Ok(encoded_blocks(bytes))
    }
}

/// The blocks of a vector, each as a byte sequence.
pub open spec fn block_views(blocks: Seq<[u8; 16]>) -> Seq<Seq<u8>> {
    Seq::new(blocks.len(), |i: int| blocks[i]@)
}

/// `first_nul` is the one index at which a zero byte stands behind none.
pub proof fn lemma_first_nul(bytes: Seq<u8>)
    ensures
        0 <= first_nul(bytes) <= bytes.len(),
        forall|j: int| 0 <= j < first_nul(bytes) ==> bytes[j] != 0u8,
        first_nul(bytes) < bytes.len() ==> bytes[first_nul(bytes)] == 0u8,
    decreases bytes.len(),
{
    if bytes.len() == 0 || bytes[0] == 0u8 {
    } else {
        let rest = bytes.drop_first();
        lemma_first_nul(rest);
        assert forall|j: int| 0 <= j < first_nul(bytes) implies bytes[j] != 0u8 by {
            if j > 0 {
                assert(bytes[j] == rest[j - 1]);
            }
        }
        if first_nul(bytes) < bytes.len() {
            assert(bytes[first_nul(bytes)] == rest[first_nul(rest)]);
        }
    }
}

/// An index with only non-zero bytes before it, and a zero byte or the end
/// at it, is `first_nul`.
pub proof fn lemma_first_nul_is(bytes: Seq<u8>, i: int)
    requires
        0 <= i <= bytes.len(),
        forall|j: int| 0 <= j < i ==> bytes[j] != 0u8,
        i < bytes.len() ==> bytes[i] == 0u8,
    ensures
        first_nul(bytes) == i,
{
    lemma_first_nul(bytes);
    let t = first_nul(bytes);
    if t < i {
        assert(bytes[t] == 0u8);
    } else if t > i {
        assert(bytes[i] != 0u8);
    }
}

/// Finds the first zero byte of `bytes`.
pub fn find_nul(bytes: &[u8]) -> (idx: usize)
    ensures
        idx == first_nul(bytes@),
{
    let n: usize = bytes.len();
    let mut i: usize = 0;
    while i < n && bytes[i] != 0
        invariant
            n == bytes@.len(),
            i <= n,
            forall|j: int| 0 <= j < i ==> bytes@[j] != 0u8,
        decreases n - i,
    {
        i += 1;
    }
    proof {
        lemma_first_nul_is(bytes@, i as int);
    }
    i
}

/// Cuts `val` into blocks. A plaintext with a zero byte is refused, with the
/// byte offset of the first one.
pub fn to_blocks(val: &str) -> (res: Result<Vec<[u8; 16]>, CodecError>)
    ensures
        match encode_result(val.spec_bytes()) {
            Ok(b) => res matches Ok(v) && block_views(v@) == b,
            Err(e) => res == Err::<Vec<[u8; 16]>, CodecError>(e),
        },
{
    let bytes = val.as_bytes();
    let n: usize = bytes.len();
    let nul: usize = find_nul(bytes);
    if nul < n {
        return Err(CodecError::EncodeError { offset: nul });
    }
    let count: usize = n / BLOCK_SIZE + if n % BLOCK_SIZE == 0 { 0 } else { 1 };
    let mut res: Vec<[u8; 16]> = Vec::with_capacity(count);
    let mut k: usize = 0;
    while k < count
        invariant
            n == bytes@.len(),
            count == block_count(n as int),
            k <= count,
            res@.len() == k,
            forall|i: int| 0 <= i < k ==> (#[trigger] res@[i])@ == padded_chunk(bytes@, i),
        decreases count - k,
    {
        let start: usize = k * BLOCK_SIZE;
        let rest: usize = n - start;
        let take: usize = if rest < BLOCK_SIZE { rest } else { BLOCK_SIZE };
        let mut block = [0u8; 16];
        let mut j: usize = 0;
        while j < take
            invariant
                n == bytes@.len(),
                start == k * BLOCK_SIZE,
                start + take <= n,
                take <= BLOCK_SIZE,
                j <= take,
                forall|i: int| 0 <= i < j ==> block@[i] == bytes@[start + i],
                forall|i: int| j <= i < BLOCK_SIZE ==> block@[i] == 0u8,
            decreases take - j,
        {
            block[j] = bytes[start + j];
            j += 1;
        }
        assert(block@ =~= padded_chunk(bytes@, k as int));
        res.push(block);
        k += 1;
    }
    assert(block_views(res@) =~= encoded_blocks(bytes@));
    Ok(res)
}

/// The data of a block: its bytes before the first zero byte, all sixteen
/// where it has none.
pub open spec fn block_data(block: Seq<u8>) -> Seq<u8> {
    block.take(first_nul(block))
}

/// The data of every block is valid UTF-8 by itself.
pub open spec fn segments_valid(blocks: Seq<Seq<u8>>) -> bool {
    forall|i: int| 0 <= i < blocks.len() ==> valid_utf8(block_data(#[trigger] blocks[i]))
}

/// The text of a block sequence: the data of each block decoded by itself,
/// in order.
pub open spec fn decoded_text(blocks: Seq<Seq<u8>>) -> Seq<char>
    decreases blocks.len(),
{
    if blocks.len() == 0 {
        Seq::empty()
    } else {
        decoded_text(blocks.drop_last()) + decode_utf8(block_data(blocks.last()))
    }
}

/// What decoding yields: the text, or a decode error where the data of some
/// block is not valid UTF-8.
pub open spec fn decode_result(blocks: Seq<Seq<u8>>) -> Result<Seq<char>, CodecError> {
    if segments_valid(blocks) {
        Ok(decoded_text(blocks))
    } else {
        Err(CodecError::DecodeError)
    }
}

/// `core::str::from_utf8`: the bytes as a string slice exactly when they are
/// well-formed UTF-8, and then the slice's encoding is those bytes; the
/// reason for a refusal is dropped.
#[verifier::external_body]
fn utf8_str(bytes: &[u8]) -> (res: Option<&str>)
    ensures
        res is Some <==> valid_utf8(bytes@),
        res matches Some(s) ==> s.spec_bytes() == bytes@,
{
    core::str::from_utf8(bytes).ok()
}

/// Reads the text back from blocks: the data of each block is decoded by
/// itself and the pieces are joined in order.
pub fn from_blocks(blocks: Vec<[u8; 16]>) -> (res: Result<String, CodecError>)
    ensures
        match decode_result(block_views(blocks@)) {
            Ok(t) => res matches Ok(s) && s@ == t,
            Err(e) => res matches Err(err) && err == e,
        },
{
    let ghost views = block_views(blocks@);
    let mut res = String::new();
    let mut i: usize = 0;
    while i < blocks.len()
        invariant
            views == block_views(blocks@),
            i <= blocks@.len(),
            forall|j: int| 0 <= j < i ==> valid_utf8(block_data(#[trigger] views[j])),
            res@ == decoded_text(views.take(i as int)),
        decreases blocks@.len() - i,
    {
        let block: &[u8; 16] = &blocks[i];
        let end: usize = find_nul(block);
        proof {
            lemma_first_nul(block@);
        }
        let segment = slice_subrange(block, 0, end);
        assert(segment@ == block_data(views[i as int]));
        match utf8_str(segment) {
            Some(piece) => {
                proof {
                    encode_utf8_decode_utf8(piece@);
                    assert(views.take(i + 1).drop_last() =~= views.take(i as int));
                    assert(views.take(i + 1).last() == views[i as int]);
                }
                res.append(piece);
            },
            None => {
                return Err(CodecError::DecodeError);
            },
        }
        i += 1;
    }
    assert(views.take(i as int) =~= views);
    Ok(res)
}

/// The bytes of `bytes` that block `k` holds: sixteen, or what is left.
pub open spec fn chunk(bytes: Seq<u8>, k: int) -> Seq<u8> {
    bytes.subrange(
        BLOCK_SIZE * k,
        if BLOCK_SIZE * k + BLOCK_SIZE < bytes.len() {
            BLOCK_SIZE * k + BLOCK_SIZE
        } else {
            bytes.len() as int
        },
    )
}

/// Number of bytes of `bytes` that its first `m` blocks hold.
pub open spec fn covered(bytes: Seq<u8>, m: int) -> int {
    if BLOCK_SIZE * m < bytes.len() {
        BLOCK_SIZE * m
    } else {
        bytes.len() as int
    }
}

/// No character's encoding crosses a block boundary: the bytes that each
/// block holds are valid UTF-8 by themselves.
pub open spec fn chars_fit_blocks(bytes: Seq<u8>) -> bool {
    forall|k: int| 0 <= k < block_count(bytes.len() as int) ==> valid_utf8(#[trigger] chunk(bytes, k))
}

/// The encoding of two texts joined is their encodings joined.
pub proof fn lemma_encode_concat(c1: Seq<char>, c2: Seq<char>)
    ensures
        encode_utf8(c1 + c2) == encode_utf8(c1) + encode_utf8(c2),
    decreases c1.len(),
{
    if c1.len() == 0 {
        assert(c1 + c2 =~= c2);
        assert(encode_utf8(c1) + encode_utf8(c2) =~= encode_utf8(c2));
    } else {
        assert((c1 + c2).drop_first() =~= c1.drop_first() + c2);
        lemma_encode_concat(c1.drop_first(), c2);
        assert(encode_utf8(c1 + c2) =~= encode_utf8(c1) + encode_utf8(c2));
    }
}

/// Two valid UTF-8 strings joined decode to their texts joined.
pub proof fn lemma_decode_concat(b1: Seq<u8>, b2: Seq<u8>)
    requires
        valid_utf8(b1),
        valid_utf8(b2),
    ensures
        valid_utf8(b1 + b2),
        decode_utf8(b1 + b2) == decode_utf8(b1) + decode_utf8(b2),
{
    let d1 = decode_utf8(b1);
    let d2 = decode_utf8(b2);
    decode_utf8_encode_utf8(b1);
    decode_utf8_encode_utf8(b2);
    lemma_encode_concat(d1, d2);
    encode_utf8_valid_utf8(d1 + d2);
    encode_utf8_decode_utf8(d1 + d2);
}

/// The data of an encoded block is the bytes it was made from: the padding
/// starts at the first zero byte, as the plaintext has none.
pub proof fn lemma_chunk_data(bytes: Seq<u8>, k: int)
    requires
        nul_free(bytes),
        0 <= k < block_count(bytes.len() as int),
    ensures
        block_data(padded_chunk(bytes, k)) == chunk(bytes, k),
{
    let block = padded_chunk(bytes, k);
    let held = chunk(bytes, k);
    assert forall|j: int| 0 <= j < held.len() implies block[j] != 0u8 by {
        assert(block[j] == bytes[BLOCK_SIZE * k + j]);
    }
    lemma_first_nul_is(block, held.len() as int);
    assert(block.take(held.len() as int) =~= held);
}

/// For a plaintext without zero byte, the first `m` blocks decode to the
/// text of the bytes they hold, where no character crosses a boundary.
proof fn lemma_text_of_blocks(bytes: Seq<u8>, m: int)
    requires
        nul_free(bytes),
        chars_fit_blocks(bytes),
        0 <= m <= block_count(bytes.len() as int),
    ensures
        valid_utf8(bytes.take(covered(bytes, m))),
        decoded_text(encoded_blocks(bytes).take(m)) == decode_utf8(
            bytes.take(covered(bytes, m)),
        ),
    decreases m,
{
    let blocks = encoded_blocks(bytes);
    if m == 0 {
        assert(bytes.take(0).len() == 0);
        assert(blocks.take(0).len() == 0);
    } else {
        lemma_text_of_blocks(bytes, m - 1);
        lemma_chunk_data(bytes, m - 1);
        let before = bytes.take(covered(bytes, m - 1));
        let held = chunk(bytes, m - 1);
        assert(valid_utf8(held));
        lemma_decode_concat(before, held);
        assert(bytes.take(covered(bytes, m)) =~= before + held);
        assert(blocks.take(m).drop_last() =~= blocks.take(m - 1));
        assert(blocks.take(m).last() == padded_chunk(bytes, m - 1));
    }
}

/// Encoding a text and decoding the blocks gives the text back exactly
/// when no character's encoding crosses a block boundary; otherwise
/// decoding fails. Stated for a text whose encoding holds no zero byte.
pub proof fn lemma_blocks_round_trip(text: Seq<char>)
    requires
        nul_free(encode_utf8(text)),
    ensures
        encode_result(encode_utf8(text)) == Ok::<Seq<Seq<u8>>, CodecError>(
            encoded_blocks(encode_utf8(text)),
        ),
        decode_result(encoded_blocks(encode_utf8(text))) == if chars_fit_blocks(
            encode_utf8(text),
        ) {
            Ok::<Seq<char>, CodecError>(text)
        } else {
            Err::<Seq<char>, CodecError>(CodecError::DecodeError)
        },
{
    let bytes = encode_utf8(text);
    let blocks = encoded_blocks(bytes);
    let count = block_count(bytes.len() as int);
    lemma_first_nul(bytes);
    assert forall|k: int| 0 <= k < count implies block_data(#[trigger] blocks[k]) == chunk(
        bytes,
        k,
    ) by {
        lemma_chunk_data(bytes, k);
    }
    if chars_fit_blocks(bytes) {
        lemma_text_of_blocks(bytes, count);
        assert(blocks.take(count) =~= blocks);
        assert(bytes.take(covered(bytes, count)) =~= bytes);
        encode_utf8_decode_utf8(text);
        assert(segments_valid(blocks));
    } else {
        let k = choose|k: int| 0 <= k < count && !valid_utf8(#[trigger] chunk(bytes, k));
        assert(!valid_utf8(block_data(blocks[k])));
    }
}

/// A text of ASCII characters keeps every character inside one block.
pub proof fn lemma_ascii_fits_blocks(text: Seq<char>)
    requires
        is_ascii_chars(text),
    ensures
        chars_fit_blocks(encode_utf8(text)),
{
    let bytes = encode_utf8(text);
    is_ascii_chars_encode_utf8(text);
    assert forall|k: int| 0 <= k < block_count(bytes.len() as int) implies valid_utf8(
        #[trigger] chunk(bytes, k),
    ) by {
        let part = text.subrange(BLOCK_SIZE * k, covered(bytes, k + 1));
        assert(is_ascii_chars(part));
        is_ascii_chars_encode_utf8(part);
        assert(chunk(bytes, k) =~= encode_utf8(part));
        encode_utf8_valid_utf8(part);
    }
}

/// A text whose encoding fills at most one block keeps every character
/// inside it.
pub proof fn lemma_single_block_fits(text: Seq<char>)
    requires
        encode_utf8(text).len() <= BLOCK_SIZE,
    ensures
        chars_fit_blocks(encode_utf8(text)),
{
    let bytes = encode_utf8(text);
    encode_utf8_valid_utf8(text);
    assert forall|k: int| 0 <= k < block_count(bytes.len() as int) implies valid_utf8(
        #[trigger] chunk(bytes, k),
    ) by {
        assert(k == 0);
        assert(chunk(bytes, k) =~= bytes);
    }
}

} // verus!
