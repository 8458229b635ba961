//! The decisions of the request handlers: what a count of changed rows
//! means, and how a failure is answered. Connections, queries and responses
//! themselves belong to the program around the library.

use crate::result::{decimal, decimal_string, Error, ErrorView};
use vstd::prelude::*;
use vstd::string::StringExecFns;

verus! {

/// A change to one stored entry.
#[derive(Debug, Clone, Copy, PartialEq, Eq, Structural)]
pub enum Change {
    Update,
    Delete,
}

/// How a failure is answered: the HTTP status, and whether the body tells
/// the error or stays empty.
#[derive(Debug, Clone, Copy, PartialEq, Eq, Structural)]
pub struct Reply {
    pub status: u16,
    pub tells: bool,
}

/// A string as `Debug` writes it: in double quotes, with escapes.
pub uninterp spec fn debug_quoted(s: Seq<char>) -> Seq<char>;

/// The verb of a change, as the messages use it.
pub open spec fn verb(change: Change) -> Seq<char> {
    match change {
        Change::Update => "update"@,
        Change::Delete => "delete"@,
    }
}

/// The error for a key that no entry has, from the key as quoted.
pub open spec fn missing(quoted: Seq<char>) -> ErrorView {
    ErrorView::AppError("key "@ + quoted + " not found"@)
}

/// What a count of changed rows means for a change to the entry `name`:
/// exactly one row is success, none means that the key is unknown, and more
/// than one is a fault of the store.
pub open spec fn rows_judged(nrows: usize, name: Seq<char>, change: Change) -> Result<
    (),
    ErrorView,
> {
    if nrows == 1 {
        Ok(())
    } else if nrows == 0 {
        Err(missing(debug_quoted(name)))
    } else {
        Err(
            ErrorView::DBError(
                "tried to "@ + verb(change) + " "@ + decimal(nrows as nat)
                    + " rows ... rolling back transaction"@,
            ),
        )
    }
}

/// The reply to a failure: a refused passphrase is forbidden, everything
/// else is a server error; errors of configuration and of server setup are
/// not told to the client.
pub open spec fn reply_for(e: ErrorView) -> Reply {
    match e {
        ErrorView::AuthError(_) => Reply { status: 403, tells: true },
        ErrorView::AppError(_) => Reply { status: 500, tells: true },
        ErrorView::DBError(_) => Reply { status: 500, tells: true },
        _ => Reply { status: 500, tells: false },
    }
}

/// The `Debug` formatting of `str`, through `format!`: the string in double
/// quotes with its escapes. Claimed: the result depends on the string alone.
#[verifier::external_body]
fn quoted(s: &str) -> (res: String)
    ensures
        res@ == debug_quoted(s@),
{
    format!("{:?}", s)
}

/// The error for a key that no entry has; `quoted_name` is the key as
/// quoted for the message.
pub fn missing_key(quoted_name: &str) -> (res: Error)
    ensures
        res@ == missing(quoted_name@),
{
    let mut m = String::from_str("key ");
    m.append(quoted_name);
    m.append(" not found");
    Error::AppError(m)
}

/// The error for the key `name` that no entry has.
pub fn key_not_found(name: &str) -> (res: Error)
    ensures
        res@ == missing(debug_quoted(name@)),
{
    let q = quoted(name);
    missing_key(q.as_str())
}

/// Judges the number of rows that a change to the entry `name` touched.
pub fn rows_outcome(nrows: usize, name: &str, change: Change) -> (res: Result<(), Error>)
    ensures
        match rows_judged(nrows, name@, change) {
            Ok(_) => res is Ok,
            Err(e) => res matches Err(err) && err@ == e,
        },
{
    if nrows == 1 {
        Ok(())
    } else if nrows == 0 {
        Err(key_not_found(name))
    } else {
        let mut m = String::from_str("tried to ");
        match change {
            Change::Update => m.append("update"),
            Change::Delete => m.append("delete"),
        }
        m.append(" ");
        m.append(decimal_string(nrows).as_str());
        m.append(" rows ... rolling back transaction");
        Err(Error::DBError(m))
    }
}

/// Chooses the reply to a failure.
pub fn failure_reply(e: &Error) -> (res: Reply)
    ensures
        res == reply_for(e@),
{
    match e {
        Error::AuthError(_) => Reply { status: 403, tells: true },
        Error::AppError(_) => Reply { status: 500, tells: true },
        Error::DBError(_) => Reply { status: 500, tells: true },
        _ => Reply { status: 500, tells: false },
    }
}

} // verus!
