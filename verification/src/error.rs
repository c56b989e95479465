//! The error taxonomy of the store layer, and helpers that turn errors
//! into plain strings for callers outside the library.

use vstd::prelude::*;
use vstd::string::*;

verus! {

/// An error produced by an entity operation against the store.
#[derive(Debug)]
pub enum Error {
    /// The fetch target does not exist, or is hidden.
    NotFound,
    /// A supplied foreign identifier does not resolve to an existing,
    /// visible row.  A transaction that saw this error must not be
    /// committed.
    InvalidReference,
    /// An invariant violation that is not attributable to caller input,
    /// such as a stored timestamp outside the representable range.
    Internal,
    /// A connectivity or query failure of the underlying storage engine,
    /// recorded as its message.
    StoreFailure(String),
}

impl Error {
    /// The text that `describe` returns for this error.
    pub open spec fn describe_spec(self) -> Seq<char> {
        match self {
            Error::NotFound => "Resource not found"@,
            Error::InvalidReference => "Bad arguments: invalid reference"@,
            Error::Internal => "Internal error"@,
            Error::StoreFailure(message) => "Database error: "@ + message@,
        }
    }

    /// Renders the error as a human-readable line.
    pub fn describe(&self) -> (s: String)
        ensures
            s@ == self.describe_spec(),
    {
        match self {
            Error::NotFound => String::from_str("Resource not found"),
            Error::InvalidReference => String::from_str("Bad arguments: invalid reference"),
            Error::Internal => String::from_str("Internal error"),
            Error::StoreFailure(message) => {
                let mut s = String::from_str("Database error: ");
                s.append(message.as_str());
                s
            },
        }
    }
}

/// Converts a result whose error is the library's own into a result with a
/// plain `String` error.
pub fn stringify_err<T>(result: Result<T, Error>) -> (r: Result<T, String>)
    ensures
        match result {
            Ok(value) => r matches Ok(v) && v == value,
            Err(error) => r matches Err(message) && message@ == error.describe_spec(),
        },
{
    match result {
        Ok(value) => Ok(value),
        Err(error) => Err(error.describe()),
    }
}

} // verus!
