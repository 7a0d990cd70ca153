//! Incoming requests: the head as read by httparse, the target as read by
//! `http::Uri`, and the query string and path decoding.
use vstd::prelude::*;
use vstd::string::StringSliceAdditionalSpecFns;
use crate::connection::{ConnectionState, connection_of};
use crate::headers::{HeaderMap, HeaderSeq, built_from, lookup, pairs_view};
use crate::params::{Params, collected, value_of};
use crate::text::lower_seq;
use crate::wire::{connection_header, connection_header_bytes};

verus! {

/// What httparse reads from a request head: method, request target, minor
/// HTTP version and the header lines in order, or nothing when the head is
/// malformed or incomplete.
pub uninterp spec fn parsed_head(raw: Seq<u8>) -> Option<(Seq<u8>, Seq<u8>, u8, Seq<(Seq<u8>, Seq<u8>)>)>;

/// The path and the query of a request target as `http::Uri` reads them, or
/// nothing when the target is not a valid URI.
pub uninterp spec fn target_parts(target: Seq<u8>) -> Option<(Seq<u8>, Option<Seq<u8>>)>;

/// The pairs of a `application/x-www-form-urlencoded` string as
/// serde_urlencoded decodes them, or nothing when it cannot.
pub uninterp spec fn query_pairs(query: Seq<u8>) -> Option<Seq<(Seq<u8>, Seq<u8>)>>;

/// The value of a hexadecimal digit, in either case.
pub open spec fn hex_value(b: u8) -> Option<u8> {
    if 48 <= b <= 57 {
        Some((b - 48) as u8)
    } else if 65 <= b <= 70 {
        Some((b - 55) as u8)
    } else if 97 <= b <= 102 {
        Some((b - 87) as u8)
    } else {
        None
    }
}

/// A path with its escapes decoded: `%` and two hexadecimal digits stand for
/// the byte they write; every other byte, a lone `%` included, stays as it is.
pub open spec fn percent_decoded(path: Seq<u8>) -> Seq<u8>
    decreases path.len(),
{
    if path.len() == 0 {
        Seq::empty()
    } else if path.len() >= 3 && path[0] == 37 && hex_value(path[1]) is Some && hex_value(path[2]) is Some {
        seq![(hex_value(path[1])->0 * 16 + hex_value(path[2])->0) as u8] + percent_decoded(path.subrange(3, path.len() as int))
    } else {
        seq![path[0]] + percent_decoded(path.drop_first())
    }
}

/// Relies on httparse::Request::parse, with room for 64 headers: on a
/// complete head it gives the method, the target, the minor version and the
/// header lines; a malformed or incomplete head gives nothing.
#[verifier::external_body]
fn parse_head(raw: &[u8]) -> (r: Option<(Vec<u8>, Vec<u8>, u8, Vec<(Vec<u8>, Vec<u8>)>)>)
    ensures
        match r {
            Some(h) => parsed_head(raw@) == Some((h.0@, h.1@, h.2, pairs_view(h.3@))),
            None => parsed_head(raw@) is None,
        },
{
    let mut slots = [httparse::EMPTY_HEADER; 64];
    let mut req = httparse::Request::new(&mut slots);
    match req.parse(raw) {
        Ok(httparse::Status::Complete(_)) => Some((
            req.method.unwrap_or_default().as_bytes().to_vec(),
            req.path.unwrap_or_default().as_bytes().to_vec(),
            req.version.unwrap_or_default(),
            req.headers.iter().map(|h| (h.name.as_bytes().to_vec(), h.value.to_vec())).collect(),
        )),
        _ => None,
    }
}

/// Relies on `http::Uri::try_from`, `Uri::path` and `Uri::query`: the path
/// and query of a valid request target.
#[verifier::external_body]
fn split_target(target: &[u8]) -> (r: Option<(Vec<u8>, Option<Vec<u8>>)>)
    ensures
        match r {
            Some(p) => target_parts(target@) == Some((p.0@, match p.1 {
                Some(q) => Some(q@),
                None => None,
            })),
            None => target_parts(target@) is None,
        },
{
    http::Uri::try_from(target).ok().map(
        |u| (u.path().as_bytes().to_vec(), u.query().map(|q| q.as_bytes().to_vec())),
    )
}

/// Relies on serde_urlencoded::from_bytes into a list of string pairs.
#[verifier::external_body]
fn decode_query(query: &[u8]) -> (r: Option<Vec<(Vec<u8>, Vec<u8>)>>)
    ensures
        match r {
            Some(v) => query_pairs(query@) == Some(pairs_view(v@)),
            None => query_pairs(query@) is None,
        },
{
    serde_urlencoded::from_bytes::<Vec<(String, String)>>(query).ok().map(
        |v| v.into_iter().map(|(k, x)| (k.into_bytes(), x.into_bytes())).collect(),
    )
}

/// Relies on urlencoding::decode_binary, which decodes each `%` followed by
/// two hexadecimal digits and copies every other byte.
#[verifier::external_body]
fn decode_path(path: &[u8]) -> (r: Vec<u8>)
    ensures
        r@ == percent_decoded(path@),
{
    urlencoding::decode_binary(path).into_owned()
}

/// Why a request could not be read.
#[derive(Debug, Clone, Copy, PartialEq, Eq, Structural)]
pub enum ParseError {
    /// The request line or a header line is malformed.
    Malformed,
    /// The request target is not a valid URI.
    InvalidUri,
    /// The query string cannot be decoded.
    InvalidQuery,
}

/// The connection state a header map asks for.
pub open spec fn requested_connection(h: HeaderSeq) -> Option<ConnectionState> {
    match lookup(h, connection_header()) {
        Some(v) => connection_of(v),
        None => None,
    }
}

/// `req` is what `Request::parse` builds from `head` and `body`.
pub open spec fn read_from(req: Request, head: Seq<u8>, body: Seq<u8>) -> bool {
    match parsed_head(head) {
        None => false,
        Some(h) => match target_parts(h.1) {
            None => false,
            Some(t) => {
                &&& req.wf()
                &&& req.method@ == h.0
                &&& req.target@ == h.1
                &&& req.minor_version == h.2
                &&& req.headers@ == built_from(h.3)
                &&& req.raw_path@ == t.0
                &&& match req.raw_query {
                    Some(q) => t.1 == Some(q@),
                    None => t.1 is None,
                }
                &&& req.body@ == body
                &&& req.connection == requested_connection(built_from(h.3))
                &&& req.params@.len() == 0
            },
        },
    }
}

/// An HTTP request.
pub struct Request {
    /// The method, such as `GET`.
    pub method: Vec<u8>,
    /// The request target as it was sent.
    pub target: Vec<u8>,
    /// The path part of the target, still percent-encoded.
    pub raw_path: Vec<u8>,
    /// The query part of the target, if any.
    pub raw_query: Option<Vec<u8>>,
    /// The minor HTTP version: 1 for HTTP/1.1, 0 for HTTP/1.0.
    pub minor_version: u8,
    pub headers: HeaderMap,
    pub body: Vec<u8>,
    /// What the `Connection` header asked for.
    pub connection: Option<ConnectionState>,
    /// Route parameters, set once a route matched.
    pub params: Params,
}

impl Request {
    pub open spec fn wf(&self) -> bool {
        self.headers.wf() && self.params.wf()
    }

    /// Reads a request from its head (request line and header lines, up to
    /// and including the blank line) and its body.
    pub fn parse(head: &[u8], body: Vec<u8>) -> (r: Result<Request, ParseError>)
        ensures
            match parsed_head(head@) {
                None => r == Err::<Request, ParseError>(ParseError::Malformed),
                Some(h) => match target_parts(h.1) {
                    None => r == Err::<Request, ParseError>(ParseError::InvalidUri),
                    Some(t) => r is Ok && read_from(r->Ok_0, head@, body@),
                },
            },
    {
        let parsed = parse_head(head);
        match parsed {
            None => Err(ParseError::Malformed),
            Some((method, target, minor_version, pairs)) => {
                let parts = split_target(target.as_slice());
                match parts {
                    None => Err(ParseError::InvalidUri),
                    Some((raw_path, raw_query)) => {
                        let headers = HeaderMap::from_pairs(&pairs);
                        let cname = connection_header_bytes();
                        proof {
                            assert(lower_seq(cname@) =~= connection_header());
                        }
                        let connection = match headers.get_bytes(cname.as_slice()) {
                            Some(v) => ConnectionState::parse_bytes(v),
                            None => None,
                        };
                        let params = Params::new();
                        Ok(Request {
                            method,
                            target,
                            raw_path,
                            raw_query,
                            minor_version,
                            headers,
                            body,
                            connection,
                            params,
                        })
                    },
                }
            },
        }
    }

    /// The query parameters; a later value of a name replaces an earlier one.
    pub fn query(&self) -> (r: Result<Params, ParseError>)
        ensures
            match self.raw_query {
                None => r is Ok && r->Ok_0@.len() == 0 && r->Ok_0.wf(),
                Some(q) => match query_pairs(q@) {
                    None => r == Err::<Params, ParseError>(ParseError::InvalidQuery),
                    Some(p) => r is Ok && r->Ok_0@ == collected(p) && r->Ok_0.wf(),
                },
            },
    {
        match &self.raw_query {
            None => Ok(Params::new()),
            Some(q) => match decode_query(q.as_slice()) {
                None => Err(ParseError::InvalidQuery),
                Some(pairs) => Ok(Params::from_pairs(&pairs)),
            },
        }
    }

    /// The path with its percent-escapes decoded.
    pub fn path(&self) -> (r: Vec<u8>)
        ensures
            r@ == percent_decoded(self.raw_path@),
    {
        decode_path(self.raw_path.as_slice())
    }

    /// Replaces the route parameters.
    pub fn set_params(&mut self, params: Params)
        requires
            params.wf(),
        ensures
            final(self).params@ == params@,
            final(self).params.wf(),
            final(self).method == old(self).method,
            final(self).target == old(self).target,
            final(self).raw_path == old(self).raw_path,
            final(self).raw_query == old(self).raw_query,
            final(self).minor_version == old(self).minor_version,
            final(self).headers == old(self).headers,
            final(self).body == old(self).body,
            final(self).connection == old(self).connection,
    {
        self.params = params;
    }

    /// The route parameter called `key`.
    pub fn param(&self, key: &str) -> (r: Option<&[u8]>)
        requires
            self.wf(),
        ensures
            match r {
                Some(v) => value_of(self.params@, key.spec_bytes()) == Some(v@),
                None => value_of(self.params@, key.spec_bytes()) is None,
            },
    {
        self.params.get(key.as_bytes())
    }

    /// The value of the header called `name`, compared without regard to ASCII case.
    pub fn header(&self, name: &str) -> (r: Option<&[u8]>)
        requires
            self.wf(),
        ensures
            match r {
                Some(v) => lookup(self.headers@, lower_seq(name.spec_bytes())) == Some(v@),
                None => lookup(self.headers@, lower_seq(name.spec_bytes())) is None,
            },
    {
        self.headers.get_bytes(name.as_bytes())
    }
}

} // verus!
