//! What can go wrong while a request is encoded.

use vstd::prelude::*;

verus! {

/// A request from which no head can be written.
#[derive(Clone, Copy, Debug, PartialEq, Eq, Structural)]
pub enum HeadError {
    /// The URL has no host, and the request needs one.
    MissingHostname,
    /// A CONNECT request names no port, and its scheme has no default one.
    NoDefaultPort,
}

impl HeadError {
    pub open spec fn text(self) -> &'static str {
        match self {
            HeadError::MissingHostname => "Missing hostname",
            HeadError::NoDefaultPort => "Unexpected scheme with no default port",
        }
    }

    /// A sentence for the reader of a log.
    pub fn message(self) -> (r: &'static str)
        ensures
            r@ == self.text()@,
    {
        match self {
            HeadError::MissingHostname => "Missing hostname",
            HeadError::NoDefaultPort => "Unexpected scheme with no default port",
        }
    }
}

/// A body that could not be sent whole. `E` is the error of the body's source.
#[derive(Debug)]
pub enum BodyError<E> {
    /// The body ended at another length than the request declared.
    UnexpectedEnd,
    /// The body's source failed; its error is passed on as it came.
    Upstream(E),
}

} // verus!
