//! Key derivation: a fixed-width embedding of the passphrase.

use crate::result::CodecError;
use vstd::prelude::*;
use vstd::string::StringSliceAdditionalSpecFns;

verus! {

/// Number of bytes in a key.
pub const KEY_SIZE: usize = 32;

/// The key that belongs to a passphrase of at most `KEY_SIZE` bytes: the
/// passphrase's bytes, then zero bytes up to the key size.
pub open spec fn padded_key(pass: Seq<u8>) -> Seq<u8> {
    Seq::new(KEY_SIZE as nat, |i: int| if i < pass.len() { pass[i] } else { 0u8 })
}

/// What key derivation yields for a passphrase with the given bytes.
pub open spec fn derived_key(pass: Seq<u8>) -> Result<Seq<u8>, CodecError> {
    if pass.len() > KEY_SIZE {
        Err(CodecError::SizeViolation { limit: KEY_SIZE })
    } else {
        Ok(padded_key(pass))
    }
}

/// Derives the key for `master_pw`. No salt and no stretching: passphrases
/// that differ only in trailing zero bytes share a key.
pub fn derive_key(master_pw: &str) -> (res: Result<[u8; 32], CodecError>)
    ensures
        match derived_key(master_pw.spec_bytes()) {
            Ok(k) => res matches Ok(key) && key@ == k,
            Err(e) => res == Err::<[u8; 32], CodecError>(e),
        },
{
    let bytes = master_pw.as_bytes();
    let n: usize = bytes.len();
    if n > KEY_SIZE {
        return Err(CodecError::SizeViolation { limit: KEY_SIZE });
    }
    let mut key = [0u8; 32];
    let mut i: usize = 0;
    while i < n
        invariant
            n == bytes@.len(),
            n <= KEY_SIZE,
            i <= n,
            forall|j: int| 0 <= j < i ==> key@[j] == bytes@[j],
            forall|j: int| i <= j < KEY_SIZE ==> key@[j] == 0u8,
        decreases n - i,
    {
        key[i] = bytes[i];
        i += 1;
    }
    assert(key@ =~= padded_key(bytes@));
    Ok(key)
}

} // verus!
