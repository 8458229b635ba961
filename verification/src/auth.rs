//! Checking the master password against its stored bcrypt hash. This comes
//! before any use of the codec, which knows nothing of the hash.

use crate::result::{Error, ErrorView};
use vstd::prelude::*;
use vstd::string::StringExecFns;
use vstd::string::StringSliceAdditionalSpecFns;

verus! {

/// What bcrypt says of a password, by its bytes, against a stored hash:
/// whether they match, or why the hash cannot be used, in words.
pub uninterp spec fn bcrypt_verdict(password: Seq<u8>, hash: Seq<char>) -> Result<
    bool,
    Seq<char>,
>;

/// What authentication makes of bcrypt's verdict.
pub open spec fn judged(verdict: Result<bool, Seq<char>>) -> Result<(), ErrorView> {
    match verdict {
        Ok(true) => Ok(()),
        Ok(false) => Err(ErrorView::AuthError("incorrect master password"@)),
        Err(reason) => Err(
            ErrorView::AuthError("failed to verify master password hash: "@ + reason),
        ),
    }
}

/// `bcrypt::verify`: reads cost and salt from the hash, hashes the password
/// with them and compares. Nothing is claimed of the outcome but that it is
/// the same for the same password and hash; a failure comes back as the
/// text that bcrypt's error displays.
#[verifier::external_body]
fn verify_hash(password: &str, hash: &str) -> (res: Result<bool, String>)
    ensures
        match bcrypt_verdict(password.spec_bytes(), hash@) {
            Ok(matches) => res == Ok::<bool, String>(matches),
            Err(reason) => res matches Err(text) && text@ == reason,
        },
{
    bcrypt::verify(password, hash).map_err(|e| e.to_string())
}

/// Turns bcrypt's verdict into the outcome of authentication: only a match
/// lets the caller pass; a mismatch and an unusable hash are both refused.
pub fn judge_verdict(verdict: Result<bool, String>) -> (res: Result<(), Error>)
    ensures
        match judged(
            match verdict {
                Ok(matches) => Ok(matches),
                Err(text) => Err(text@),
            },
        ) {
            Ok(_) => res is Ok,
            Err(e) => res matches Err(err) && err@ == e,
        },
{
    match verdict {
        Ok(true) => Ok(()),
        Ok(false) => Err(Error::AuthError(String::from_str("incorrect master password"))),
        Err(text) => {
            let mut m = String::from_str("failed to verify master password hash: ");
            m.append(text.as_str());
            Err(Error::AuthError(m))
        },
    }
}

/// Checks `master_pw` against the stored hash.
pub fn authenticate(master_pw: &str, master_pw_hash: &str) -> (res: Result<(), Error>)
    ensures
        match judged(bcrypt_verdict(master_pw.spec_bytes(), master_pw_hash@)) {
            Ok(_) => res is Ok,
            Err(e) => res matches Err(err) && err@ == e,
        },
{
    judge_verdict(verify_hash(master_pw, master_pw_hash))
}

} // verus!
