//! Why a connection ends early.

use vstd::prelude::*;

verus! {

/// The error of `std::io`, which is passed through as it is.
#[verifier::external_type_specification]
#[verifier::external_body]
pub struct ExIoError(std::io::Error);

/// Why a connection ends early.
#[derive(Debug)]
pub enum ServeError {
    /// The peer closed the connection for reading.
    ReadClosed,
    /// The peer closed the connection for writing.
    WriteClosed,
    /// A WebSocket upgrade without a key.
    MissingKey,
    /// What the socket, the request parser or a service reported.
    Io(std::io::Error),
}

/// The kinds of failure that do not come from outside.
#[derive(Debug, Clone, Copy, PartialEq, Eq, Structural)]
pub enum FailureKind {
    BrokenPipe,
    InvalidData,
}

impl ServeError {
    /// The kind of a failure that the server itself found; none for one from outside.
    pub open spec fn kind(self) -> Option<FailureKind> {
        match self {
            ServeError::ReadClosed | ServeError::WriteClosed => Some(FailureKind::BrokenPipe),
            ServeError::MissingKey => Some(FailureKind::InvalidData),
            ServeError::Io(_) => None,
        }
    }

    /// The words for a failure that the server itself found; none for one from outside.
    pub open spec fn words(self) -> Option<Seq<char>> {
        match self {
            ServeError::ReadClosed => Some("read closed"@),
            ServeError::WriteClosed => Some("write closed"@),
            ServeError::MissingKey => Some("Missing WebSocket key"@),
            ServeError::Io(_) => None,
        }
    }

    /// Kind and words of a failure that the server itself found; none for one from outside.
    pub fn describe(&self) -> (r: Option<(FailureKind, &'static str)>)
        ensures
            match r {
                Some((kind, words)) => self.kind() == Some(kind) && self.words() == Some(words@),
                None => self.kind() is None && self.words() is None,
            },
    {
        match self {
            ServeError::ReadClosed => Some((FailureKind::BrokenPipe, "read closed")),
            ServeError::WriteClosed => Some((FailureKind::BrokenPipe, "write closed")),
            ServeError::MissingKey => Some((FailureKind::InvalidData, "Missing WebSocket key")),
            ServeError::Io(_) => None,
        }
    }
}

/// The failing result that carries this error.
pub fn err<T>(e: std::io::Error) -> (r: std::io::Result<T>)
    ensures
        r == Err::<T, std::io::Error>(e),
{
    Err(e)
}

} // verus!
