//! Errors of the client session.

use crate::codec::Reason;
use vstd::prelude::*;

verus! {

/// What went wrong in a session.
#[derive(Debug, Copy, Clone, PartialEq, Eq, Structural)]
pub enum ErrorKind {
    /// A malformed frame.
    Codec,
    /// A semantic violation, reported by the peer or found locally.
    Protocol(Reason),
    /// The transport could not be established.
    Connection,
    /// A read or a wait for the connection exceeded its budget.
    Timeout,
    /// An I/O failure other than a timeout.
    Transport,
    /// Any other I/O error.
    IO,
}

impl Default for ErrorKind {
    fn default() -> (r: ErrorKind)
        ensures
            r == ErrorKind::Codec,
    {
        ErrorKind::Codec
    }
}

/// An error of the session: its kind and a message for people.
#[derive(Debug, Clone)]
pub struct MqttError {
    message: String,
    kind: ErrorKind,
}

impl MqttError {
    pub closed spec fn spec_kind(&self) -> ErrorKind {
        self.kind
    }

    pub closed spec fn spec_message(&self) -> Seq<char> {
        self.message@
    }

    pub fn new(message: &str, kind: ErrorKind) -> (r: MqttError)
        ensures
            r.spec_kind() == kind,
            r.spec_message() == message@,
    {
        MqttError { message: message.to_owned(), kind }
    }

    pub fn kind(&self) -> (r: ErrorKind)
        ensures
            r == self.spec_kind(),
    {
        self.kind
    }

    pub fn message(&self) -> (r: &str)
        ensures
            r@ == self.spec_message(),
    {
        self.message.as_str()
    }
}

} // verus!
