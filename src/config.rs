//! Configuration values and the error taxonomy of the engine.
use vstd::prelude::*;
use crate::request::ParseError;

verus! {

/// Where a server listens.
#[derive(Debug, Clone)]
pub struct ServerConfig {
    pub address: String,
}

/// How many threads the application's pool uses.
#[derive(Debug, Clone, Copy, PartialEq, Eq, Structural)]
pub struct AppConfig {
    pub threads: usize,
}

/// The kinds of transport failure.
#[derive(Debug, Clone, Copy, PartialEq, Eq, Structural)]
pub enum IoFailure {
    Timeout,
    ConnectionReset,
    BrokenPipe,
    Other,
}

/// What can go wrong while serving a connection.
#[derive(Debug, Clone, Copy, PartialEq, Eq, Structural)]
pub enum Error {
    /// Reading from or writing to the socket failed.
    Io(IoFailure),
    /// The request line, a header or the URI is malformed.
    Parse(ParseError),
    /// The header block or the body is larger than allowed.
    PayloadTooLarge,
    /// The request asks for chunked transfer encoding.
    UnsupportedTransferEncoding,
    /// A handler returned an error that no error hook took.
    Handler,
    /// A connection handler or a job panicked.
    PoolPanic,
}

/// The status of the response that reports an error; none where no response
/// can be framed and the connection is dropped.
pub open spec fn error_status(e: Error) -> Option<u16> {
    match e {
        Error::Io(_) => None,
        Error::Parse(_) => Some(400),
        Error::PayloadTooLarge => Some(413),
        Error::UnsupportedTransferEncoding => Some(501),
        Error::Handler => Some(500),
        Error::PoolPanic => None,
    }
}

impl Error {
    /// The status that reports this error, if a response is sent at all.
    pub fn status(&self) -> (r: Option<u16>)
        ensures
            r == error_status(*self),
    {
        match self {
            Error::Io(_) => None,
            Error::Parse(_) => Some(400),
            Error::PayloadTooLarge => Some(413),
            Error::UnsupportedTransferEncoding => Some(501),
            Error::Handler => Some(500),
            Error::PoolPanic => None,
        }
    }
}

} // verus!
