//! The `Connection` header and the keep-alive decision.
use vstd::prelude::*;
use crate::text::{eq_ignore_case, equal_ignore_case};
use vstd::string::StringSliceAdditionalSpecFns;

verus! {

/// Whether a connection stays open after the current exchange.
#[derive(Debug, Clone, Copy, PartialEq, Eq, Structural)]
pub enum ConnectionState {
    KeepAlive,
    Close,
}

/// `close`
pub open spec fn close_token() -> Seq<u8> {
    seq![99u8, 108, 111, 115, 101]
}

/// `keep-alive`
pub open spec fn keep_alive_token() -> Seq<u8> {
    seq![107u8, 101, 101, 112, 45, 97, 108, 105, 118, 101]
}

pub fn close_bytes() -> (r: Vec<u8>)
    ensures
        r@ == close_token(),
{
    let r = vec![99u8, 108, 111, 115, 101];
    assert(r@ =~= close_token());
    r
}

pub fn keep_alive_bytes() -> (r: Vec<u8>)
    ensures
        r@ == keep_alive_token(),
{
    let r = vec![107u8, 101, 101, 112, 45, 97, 108, 105, 118, 101];
    assert(r@ =~= keep_alive_token());
    r
}

/// What a `Connection` header value says, compared without regard to ASCII case.
pub open spec fn connection_of(value: Seq<u8>) -> Option<ConnectionState> {
    if eq_ignore_case(value, close_token()) {
        Some(ConnectionState::Close)
    } else if eq_ignore_case(value, keep_alive_token()) {
        Some(ConnectionState::KeepAlive)
    } else {
        None
    }
}

/// Whether the connection stays open after a request of HTTP/1.`minor` that
/// carried the given `Connection` header value, if any. HTTP/1.1 keeps the
/// connection unless it says `close`; any other version closes it unless it
/// says `keep-alive`.
pub open spec fn keeps_alive(minor: u8, connection: Option<Seq<u8>>) -> bool {
    if minor == 1 {
        !(connection is Some && eq_ignore_case(connection->0, close_token()))
    } else {
        connection is Some && eq_ignore_case(connection->0, keep_alive_token())
    }
}

impl ConnectionState {
    /// Reads a `Connection` header value: `close` or `keep-alive`, in any ASCII case.
    pub fn parse(string: &str) -> (r: Option<ConnectionState>)
        ensures
            r == connection_of(string.spec_bytes()),
    {
        Self::parse_bytes(string.as_bytes())
    }

    pub fn parse_bytes(value: &[u8]) -> (r: Option<ConnectionState>)
        ensures
            r == connection_of(value@),
    {
        let close = close_bytes();
        let keep = keep_alive_bytes();
        if equal_ignore_case(value, close.as_slice()) {
            Some(ConnectionState::Close)
        } else if equal_ignore_case(value, keep.as_slice()) {
            Some(ConnectionState::KeepAlive)
        } else {
            None
        }
    }

    /// The header value that names this state.
    pub fn as_bytes(&self) -> (r: Vec<u8>)
        ensures
            r@ == (match self {
                ConnectionState::KeepAlive => keep_alive_token(),
                ConnectionState::Close => close_token(),
            }),
    {
        match self {
            ConnectionState::KeepAlive => keep_alive_bytes(),
            ConnectionState::Close => close_bytes(),
        }
    }
}

/// Decides whether the connection stays open after answering a request.
pub fn keep_alive(minor: u8, connection: Option<&[u8]>) -> (r: bool)
    ensures
        r == keeps_alive(minor, match connection {
            Some(v) => Some(v@),
            None => None,
        }),
{
    match connection {
        Some(v) => {
            if minor == 1 {
                let close = close_bytes();
                !equal_ignore_case(v, close.as_slice())
            } else {
                let keep = keep_alive_bytes();
                equal_ignore_case(v, keep.as_slice())
            }
        },
        None => minor == 1,
    }
}

} // verus!
