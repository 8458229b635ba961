//! Error values of the codec and of the application around it.

use vstd::prelude::*;
use vstd::string::StringExecFns;

verus! {

/// Why a call of the codec failed. Every failure is deterministic: the same
/// arguments fail again in the same way.
#[derive(Debug, Clone, Copy, PartialEq, Eq, Structural)]
pub enum CodecError {
    /// The passphrase has more bytes than a key holds; `limit` is the key size.
    SizeViolation { limit: usize },
    /// The plaintext holds a NUL byte; `offset` is the byte index of the first one.
    EncodeError { offset: usize },
    /// The ciphertext has `len` bytes, which is no multiple of `block_size`.
    AlignmentError { len: usize, block_size: usize },
    /// The deciphered data of some block is not valid UTF-8.
    DecodeError,
}

/// An error of the application, with a message for the person who reads it.
/// The variant says which part failed; the callers of the codec tell a
/// refused passphrase (`AuthError`) from a fault in the data (`AppError`).
#[derive(Debug, Clone, PartialEq, Eq)]
pub enum Error {
    ConfigError(String),
    ServerSetupError(String),
    AuthError(String),
    DBError(String),
    AppError(String),
}

/// An `Error` with its message as a sequence of characters.
pub enum ErrorView {
    ConfigError(Seq<char>),
    ServerSetupError(Seq<char>),
    AuthError(Seq<char>),
    DBError(Seq<char>),
    AppError(Seq<char>),
}

impl View for Error {
    type V = ErrorView;

    open spec fn view(&self) -> ErrorView {
        match self {
            Error::ConfigError(m) => ErrorView::ConfigError(m@),
            Error::ServerSetupError(m) => ErrorView::ServerSetupError(m@),
            Error::AuthError(m) => ErrorView::AuthError(m@),
            Error::DBError(m) => ErrorView::DBError(m@),
            Error::AppError(m) => ErrorView::AppError(m@),
        }
    }
}

/// The character of a decimal digit.
pub open spec fn digit(d: nat) -> char
    recommends
        d < 10,
{
    seq!['0', '1', '2', '3', '4', '5', '6', '7', '8', '9'][d as int]
}

/// A number in decimal, without sign or leading zeros.
pub open spec fn decimal(n: nat) -> Seq<char>
    decreases n,
{
    if n < 10 {
        seq![digit(n)]
    } else {
        decimal(n / 10).push(digit(n % 10))
    }
}

/// The message that tells of a codec error.
pub open spec fn codec_message(e: CodecError) -> Seq<char> {
    match e {
        CodecError::SizeViolation { limit } => "master password must be <= "@ + decimal(
            limit as nat,
        ) + " bytes long"@,
        CodecError::EncodeError { offset } => "value contains a NUL character at byte index "@
            + decimal(offset as nat),
        CodecError::AlignmentError { len, block_size } => "encoded bytes have size "@ + decimal(
            len as nat,
        ) + ", which is not a multiple of the block size ("@ + decimal(block_size as nat)
            + ")"@,
        CodecError::DecodeError => "UTF-8 decode error"@,
    }
}

/// The application error that stands for a codec error: a passphrase of
/// the wrong size is an `AuthError`, every other a fault of the data.
pub open spec fn reported(e: CodecError) -> ErrorView {
    match e {
        CodecError::SizeViolation { .. } => ErrorView::AuthError(codec_message(e)),
        _ => ErrorView::AppError(codec_message(e)),
    }
}

fn digit_str(d: usize) -> (s: &'static str)
    requires
        d < 10,
    ensures
        s@ == seq![digit(d as nat)],
{
    proof {
        reveal_strlit("0");
        reveal_strlit("1");
        reveal_strlit("2");
        reveal_strlit("3");
        reveal_strlit("4");
        reveal_strlit("5");
        reveal_strlit("6");
        reveal_strlit("7");
        reveal_strlit("8");
        reveal_strlit("9");
    }
    let s = match d {
        0 => "0",
        1 => "1",
        2 => "2",
        3 => "3",
        4 => "4",
        5 => "5",
        6 => "6",
        7 => "7",
        8 => "8",
        _ => "9",
    };
    assert(s@ =~= seq![digit(d as nat)]);
    s
}

/// Writes `n` in decimal.
pub fn decimal_string(n: usize) -> (s: String)
    ensures
        s@ == decimal(n as nat),
    decreases n,
{
    if n < 10 {
        String::from_str(digit_str(n))
    } else {
        let mut s = decimal_string(n / 10);
        s.append(digit_str(n % 10));
        assert(s@ =~= decimal(n as nat));
        s
    }
}

impl Error {
    /// The application error for a codec error, with its message.
    pub fn from_codec(e: CodecError) -> (res: Error)
        ensures
            res@ == reported(e),
    {
        match e {
            CodecError::SizeViolation { limit } => {
                let mut m = String::from_str("master password must be <= ");
                m.append(decimal_string(limit).as_str());
                m.append(" bytes long");
                Error::AuthError(m)
            },
            CodecError::EncodeError { offset } => {
                let mut m = String::from_str("value contains a NUL character at byte index ");
                m.append(decimal_string(offset).as_str());
                Error::AppError(m)
            },
            CodecError::AlignmentError { len, block_size } => {
                let mut m = String::from_str("encoded bytes have size ");
                m.append(decimal_string(len).as_str());
                m.append(", which is not a multiple of the block size (");
                m.append(decimal_string(block_size).as_str());
                m.append(")");
                Error::AppError(m)
            },
            CodecError::DecodeError => Error::AppError(String::from_str("UTF-8 decode error")),
        }
    }
}

} // verus!
