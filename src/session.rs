//! The decisions of one connection: how a refused request is answered, and
//! whether the connection stays open after a response.
use vstd::prelude::*;
use crate::connection::{close_token, keep_alive, keeps_alive};
use crate::framing::{Framing, declares_chunked, framing, head_length};
use crate::headers::{HeaderSeq, built_from, inserted, lookup};
use crate::request::{Request, parsed_head, target_parts};
use crate::response::{Response, dated, reason_text, typed_headers};
use crate::text::{eq_ignore_case, equal_ignore_case, lower_seq};
use crate::wire::{connection_header, connection_header_bytes, deny_value, deny_value_bytes, frame_options_name, frame_options_name_bytes, nosniff_name, nosniff_name_bytes, nosniff_value, nosniff_value_bytes, text_plain, text_plain_bytes};

verus! {

/// What the application made of a request.
pub enum ServiceResult {
    /// A response for the connection to write.
    Response(Response),
    /// The application took the connection over; it must not be touched again.
    Consumed,
}

/// What the connection does next.
pub enum ConnectionStep {
    /// Write the response; then close, or read the next request.
    Respond { response: Response, close: bool },
    /// Leave the connection alone and stop.
    Stop,
}

/// The response says `Connection: close`.
pub open spec fn response_closes(h: HeaderSeq) -> bool {
    match lookup(h, connection_header()) {
        Some(v) => eq_ignore_case(v, close_token()),
        None => false,
    }
}

/// The headers of a refusal: `content-type`, `content-length`, `date` with
/// value `date`, then `x-content-type-options: nosniff`, `x-frame-options: DENY`,
/// `connection: close`.
pub open spec fn rejection_headers(status: u16, date: Seq<u8>) -> HeaderSeq {
    let h0 = dated(typed_headers(Seq::empty(), reason_text(status).len(), text_plain()), date);
    inserted(inserted(inserted(h0, nosniff_name(), nosniff_value()), frame_options_name(), deny_value()), connection_header(), close_token())
}

/// The answer to a request that is refused with `status`: its reason phrase as
/// plain text, and headers that close the connection.
pub fn rejection(status: u16) -> (r: Response)
    requires
        100 <= status <= 999,
    ensures
        r.wf(),
        r.status == status,
        r.body is Some && r.body->0@ == reason_text(status),
        exists|date: Seq<u8>| r.headers@ == rejection_headers(status, date),
        response_closes(r.headers@),
{
    let mut r = Response::new();
    r.set_status(status);
    let reason = crate::response::reason_bytes(status);
    let kind = text_plain_bytes();
    assert(r.headers@ =~= Seq::<(Seq<u8>, Seq<u8>)>::empty());
    r.send_typed(reason, kind.as_slice());
    let ghost h0 = r.headers@;
    let ghost d = choose|d: Seq<u8>| h0 == dated(typed_headers(Seq::empty(), reason_text(status).len(), text_plain()), d);
    let n1 = nosniff_name_bytes();
    let v1 = nosniff_value_bytes();
    r.headers.insert_bytes(n1.as_slice(), v1.as_slice());
    let n2 = frame_options_name_bytes();
    let v2 = deny_value_bytes();
    r.headers.insert_bytes(n2.as_slice(), v2.as_slice());
    let ghost h2 = r.headers@;
    let n3 = connection_header_bytes();
    let v3 = crate::connection::close_bytes();
    r.headers.insert_bytes(n3.as_slice(), v3.as_slice());
    proof {
        assert(lower_seq(nosniff_name()) =~= nosniff_name());
        assert(lower_seq(frame_options_name()) =~= frame_options_name());
        assert(lower_seq(connection_header()) =~= connection_header());
        crate::headers::lemma_inserted_wf(h2, connection_header(), close_token());
        assert(eq_ignore_case(close_token(), close_token()));
        assert(r.headers@ == rejection_headers(status, d));
    }
    r
}

/// Whether the connection stays open after `response` was written for `request`.
pub fn stays_open(request: &Request, response: &Response) -> (r: bool)
    requires
        request.wf(),
        response.wf(),
    ensures
        r == (keeps_alive(request.minor_version, lookup(request.headers@, connection_header()))
            && !response_closes(response.headers@)),
{
    let name = connection_header_bytes();
    proof {
        assert(lower_seq(connection_header()) =~= connection_header());
    }
    let wanted = keep_alive(request.minor_version, request.headers.get_bytes(name.as_slice()));
    let closing = match response.headers.get_bytes(name.as_slice()) {
        Some(v) => {
            let close = crate::connection::close_bytes();
            equal_ignore_case(v, close.as_slice())
        },
        None => false,
    };
    wanted && !closing
}

/// The step after the application answered a request whose connection
/// should stay open when `keep_open` holds.
pub fn after_service(keep_open: bool, result: ServiceResult) -> (r: ConnectionStep)
    requires
        match result {
            ServiceResult::Response(res) => res.wf(),
            ServiceResult::Consumed => true,
        },
    ensures
        match result {
            ServiceResult::Consumed => r is Stop,
            ServiceResult::Response(res) => r is Respond && r->response == res
                && r->close == (!keep_open || response_closes(res.headers@)),
        },
{
    match result {
        ServiceResult::Consumed => ConnectionStep::Stop,
        ServiceResult::Response(res) => {
            let name = connection_header_bytes();
            proof {
                assert(lower_seq(connection_header()) =~= connection_header());
            }
            let closing = match res.headers.get_bytes(name.as_slice()) {
                Some(v) => {
                    let close = crate::connection::close_bytes();
                    equal_ignore_case(v, close.as_slice())
                },
                None => false,
            };
            ConnectionStep::Respond { response: res, close: !keep_open || closing }
        },
    }
}

/// An HTTP/1.1 request that says `Connection: close` gets one response and
/// then the connection ends, although HTTP/1.1 keeps connections by default.
pub proof fn lemma_close_ends_connection(request_headers: HeaderSeq, response_headers: HeaderSeq)
    requires
        lookup(request_headers, connection_header()) is Some,
        eq_ignore_case(lookup(request_headers, connection_header())->0, close_token()),
    ensures
        !(keeps_alive(1, lookup(request_headers, connection_header())) && !response_closes(response_headers)),
        keeps_alive(1, None),
{
}

/// A request head that declares `Transfer-Encoding: chunked` is refused with
/// 501, whatever else was received, once the head is within the size limit
/// and reads as a request (a larger head gets 413, a malformed one 400).
pub proof fn lemma_chunked_rejected(buf: Seq<u8>, max: nat)
    requires
        match head_length(buf) {
            Some(h) => h <= max && match parsed_head(buf.subrange(0, h as int)) {
                Some(p) => target_parts(p.1) is Some && declares_chunked(built_from(p.3)),
                None => false,
            },
            None => false,
        },
    ensures
        framing(buf, max) == (Framing::Rejected { status: 501 }),
{
}

} // verus!
