//! Error taxonomy of the service, with its mapping to HTTP status codes.

use vstd::prelude::*;
use vstd::string::StringExecFns;

verus! {

/// Every failure of the service falls under exactly one of these.
#[derive(PartialEq, Eq, Structural, Debug, Clone, Copy)]
pub enum Error {
    /// A valid-shaped identifier addressed no live bin.
    NotFound,
    /// No routing rule matched the request.
    BadRequest,
    /// The body or the request's query could not be decoded.
    MalformedInput,
    /// The shared-state guard is permanently broken.
    ConcurrencyFault,
    /// An internal invariant was violated.
    UnforeseenInternal,
}

/// HTTP status code owed to each error.
pub open spec fn status_of_error(e: Error) -> u16 {
    match e {
        Error::NotFound => 404,
        Error::BadRequest => 400,
        Error::MalformedInput => 400,
        Error::ConcurrencyFault => 500,
        Error::UnforeseenInternal => 500,
    }
}

/// Short description of each error.
pub open spec fn message_of_error(e: Error) -> Seq<char> {
    match e {
        Error::NotFound => "not found"@,
        Error::BadRequest => "bad request"@,
        Error::MalformedInput => "malformed input"@,
        Error::ConcurrencyFault => "concurrency fault"@,
        Error::UnforeseenInternal => "unforeseen internal error"@,
    }
}

impl Error {
    /// The HTTP status code this error maps to.
    pub fn status(&self) -> (r: u16)
        ensures
            r == status_of_error(*self),
    {
        match self {
            Error::NotFound => 404,
            Error::BadRequest => 400,
            Error::MalformedInput => 400,
            Error::ConcurrencyFault => 500,
            Error::UnforeseenInternal => 500,
        }
    }

    /// A short human-readable description.
    pub fn message(&self) -> (r: String)
        ensures
            r@ == message_of_error(*self),
    {
        match self {
            Error::NotFound => String::from_str("not found"),
            Error::BadRequest => String::from_str("bad request"),
            Error::MalformedInput => String::from_str("malformed input"),
            Error::ConcurrencyFault => String::from_str("concurrency fault"),
            Error::UnforeseenInternal => String::from_str("unforeseen internal error"),
        }
    }
}

} // verus!
