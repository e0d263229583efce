//! The errors that this library reports.

use vstd::prelude::*;

verus! {

/// What can go wrong in a fetch, as far as this library decides it.
#[derive(Debug)]
pub enum Error {
    /// The canonical algorithm name, which is none of `sha1`, `sha256`, `sha512`.
    UnsupportedAlgorithm(String),
    /// The digest of the content differs from the expected one.
    HashMismatch { expected: String, actual: String },
}

/// The text of an error.
pub open spec fn message_text(e: Error) -> Seq<char> {
    match e {
        Error::UnsupportedAlgorithm(name) => "unsupported algorithm: "@ + name@,
        Error::HashMismatch { expected, actual } => "hash mismatch: expected "@ + expected@
            + ", got "@ + actual@,
    }
}

impl Error {
    /// A line of text that describes the error.
    pub fn message(&self) -> (out: String)
        ensures
            out@ == message_text(*self),
    {
        match self {
            Error::UnsupportedAlgorithm(name) => {
                let mut out = String::from_str("unsupported algorithm: ");
                out.append(name.as_str());
                out
            },
            Error::HashMismatch { expected, actual } => {
                let mut out = String::from_str("hash mismatch: expected ");
                out.append(expected.as_str());
                out.append(", got ");
                out.append(actual.as_str());
                out
            },
        }
    }
}

} // verus!
