//! Outgoing responses and their serialization.
use vstd::prelude::*;
use vstd::string::StringSliceAdditionalSpecFns;
use crate::headers::{HeaderMap, HeaderSeq, has_name, inserted, lemma_inserted_other, lemma_inserted_wf, lookup, name_index, wf_headers};
use crate::text::{all_digits, append_bytes, decimal, digits_value, lower_seq, write_decimal};
use crate::wire::{application_json, application_json_bytes, colon_space, colon_space_bytes, content_length_name, content_length_name_bytes, content_type_name, content_type_name_bytes, crlf, crlf_bytes, date_name, date_name_bytes, http_prefix, http_prefix_bytes, internal_error_text, internal_error_text_bytes, space, space_bytes, text_html, text_html_bytes, text_plain, text_plain_bytes, unknown_reason, unknown_reason_bytes};

verus! {

/// The reason phrase that `http::StatusCode::canonical_reason` gives a code.
pub uninterp spec fn reason_phrase(code: u16) -> Option<Seq<u8>>;

/// Relies on `http::StatusCode::from_u16`, which accepts exactly 100 to 999.
#[verifier::external_body]
fn checked_status(code: u16) -> (r: Option<u16>)
    ensures
        r == (if 100 <= code <= 999 {
            Some(code)
        } else {
            None::<u16>
        }),
{
    http::StatusCode::from_u16(code).ok().map(|s| s.as_u16())
}

/// Relies on `http::StatusCode::canonical_reason` for the reason phrase of a code.
#[verifier::external_body]
fn canonical_reason(code: u16) -> (r: Option<Vec<u8>>)
    ensures
        match r {
            Some(v) => reason_phrase(code) == Some(v@),
            None => reason_phrase(code) is None,
        },
{
    http::StatusCode::from_u16(code).ok().and_then(|s| s.canonical_reason()).map(|t| t.as_bytes().to_vec())
}

/// Relies on `chrono::Utc::now`, rendered with its `Display` impl, for the `Date` header.
#[verifier::external_body]
fn current_date() -> (r: Vec<u8>) {
    chrono::Utc::now().to_string().into_bytes()
}

/// Why a header could not be added.
#[derive(Debug, Clone, Copy, PartialEq, Eq, Structural)]
pub enum HeaderError {
    InvalidHeaderName,
    InvalidHeaderValue,
}

/// A byte allowed in a header name (an RFC 7230 token character).
pub open spec fn is_token_byte(b: u8) -> bool {
    (48 <= b <= 57) || (65 <= b <= 90) || (97 <= b <= 122) || b == 33 || b == 35 || b == 36
        || b == 37 || b == 38 || b == 39 || b == 42 || b == 43 || b == 45 || b == 46 || b == 94
        || b == 95 || b == 96 || b == 124 || b == 126
}

pub open spec fn valid_header_name(n: Seq<u8>) -> bool {
    0 < n.len() <= 65535 && forall|i: int| 0 <= i < n.len() ==> is_token_byte(#[trigger] n[i])
}

/// A byte allowed in a header value given as text: visible ASCII, space or tab.
pub open spec fn is_value_byte(b: u8) -> bool {
    (32 <= b && b < 127) || b == 9
}

pub open spec fn valid_header_value(v: Seq<u8>) -> bool {
    forall|i: int| 0 <= i < v.len() ==> is_value_byte(#[trigger] v[i])
}

fn check_header_name(n: &[u8]) -> (r: bool)
    ensures
        r == valid_header_name(n@),
{
    if n.len() == 0 || n.len() > 65535 {
        return false;
    }
    let mut i: usize = 0;
    while i < n.len()
        invariant
            i <= n@.len(),
            forall|j: int| 0 <= j < i ==> is_token_byte(#[trigger] n@[j]),
        decreases n.len() - i,
    {
        let b = n[i];
        let ok = (48 <= b && b <= 57) || (65 <= b && b <= 90) || (97 <= b && b <= 122) || b == 33
            || b == 35 || b == 36 || b == 37 || b == 38 || b == 39 || b == 42 || b == 43 || b == 45
            || b == 46 || b == 94 || b == 95 || b == 96 || b == 124 || b == 126;
        if !ok {
            return false;
        }
        i += 1;
    }
    true
}

pub fn check_header_value(v: &[u8]) -> (r: bool)
    ensures
        r == valid_header_value(v@),
{
    let mut i: usize = 0;
    while i < v.len()
        invariant
            i <= v@.len(),
            forall|j: int| 0 <= j < i ==> is_value_byte(#[trigger] v@[j]),
        decreases v.len() - i,
    {
        let b = v[i];
        if !((32 <= b && b < 127) || b == 9) {
            return false;
        }
        i += 1;
    }
    true
}

/// The reason phrase written for a code, as bytes.
pub fn reason_bytes(code: u16) -> (r: Vec<u8>)
    ensures
        r@ == reason_text(code),
{
    match canonical_reason(code) {
        Some(reason) => reason,
        None => unknown_reason_bytes(),
    }
}

/// The reason phrase written for a code.
pub open spec fn reason_text(code: u16) -> Seq<u8> {
    match reason_phrase(code) {
        Some(r) => r,
        None => unknown_reason(),
    }
}

/// `HTTP/1.1 <code> <reason>\r\n`
pub open spec fn status_line(code: u16) -> Seq<u8> {
    http_prefix() + decimal(code as nat) + space() + reason_text(code) + crlf()
}

/// One `<name>: <value>\r\n` line per header, in order.
pub open spec fn header_lines(h: HeaderSeq) -> Seq<u8>
    decreases h.len(),
{
    if h.len() == 0 {
        Seq::empty()
    } else {
        header_lines(h.drop_last()) + h.last().0 + colon_space() + h.last().1 + crlf()
    }
}

pub open spec fn body_view(body: Option<Vec<u8>>) -> Option<Seq<u8>> {
    match body {
        Some(b) => Some(b@),
        None => None,
    }
}

/// The headers that go on the wire: where there is a body, a missing
/// `content-length` and then a missing `date` are added at the end.
pub open spec fn wire_headers(h: HeaderSeq, body: Option<Seq<u8>>, date: Seq<u8>) -> HeaderSeq {
    match body {
        None => h,
        Some(b) => {
            let h1 = if lookup(h, content_length_name()) is Some {
                h
            } else {
                h.push((content_length_name(), decimal(b.len())))
            };
            if lookup(h1, date_name()) is Some {
                h1
            } else {
                h1.push((date_name(), date))
            }
        },
    }
}

/// The bytes of a response: status line, header lines, a blank line, the body.
pub open spec fn wire_bytes(code: u16, h: HeaderSeq, body: Option<Seq<u8>>) -> Seq<u8> {
    status_line(code) + header_lines(h) + crlf() + match body {
        Some(b) => b,
        None => Seq::empty(),
    }
}

/// An HTTP response under construction.
pub struct Response {
    pub status: u16,
    pub headers: HeaderMap,
    pub body: Option<Vec<u8>>,
}

impl Response {
    pub open spec fn wf(&self) -> bool {
        self.headers.wf()
    }

    /// A `200 OK` response with no headers and no body.
    pub fn new() -> (r: Response)
        ensures
            r.wf(),
            r.status == 200,
            r.headers@.len() == 0,
            r.body is None,
    {
        Response { status: 200, headers: HeaderMap::new(), body: None }
    }

    /// Sets the status code; a code outside 100 to 999 becomes 500.
    pub fn set_status(&mut self, status: u16)
        ensures
            final(self).status == (if 100 <= status <= 999 { status } else { 500 }),
            final(self).headers == old(self).headers,
            final(self).body == old(self).body,
    {
        self.status = match checked_status(status) {
            Some(s) => s,
            None => 500,
        };
    }

    /// Stores a header, replacing an earlier one of the same name (compared
    /// without regard to ASCII case). Nothing changes when the name or the
    /// value is invalid.
    pub fn add_header(&mut self, key: &str, value: &str) -> (r: Result<(), HeaderError>)
        requires
            old(self).wf(),
        ensures
            final(self).wf(),
            final(self).status == old(self).status,
            final(self).body == old(self).body,
            !valid_header_name(key.spec_bytes()) ==> r == Err::<(), HeaderError>(HeaderError::InvalidHeaderName)
                && final(self).headers@ == old(self).headers@,
            valid_header_name(key.spec_bytes()) && !valid_header_value(value.spec_bytes())
                ==> r == Err::<(), HeaderError>(HeaderError::InvalidHeaderValue)
                && final(self).headers@ == old(self).headers@,
            valid_header_name(key.spec_bytes()) && valid_header_value(value.spec_bytes()) ==> r is Ok
                && final(self).headers@ == inserted(old(self).headers@, key.spec_bytes(), value.spec_bytes()),
    {
        let k = key.as_bytes();
        let v = value.as_bytes();
        if !check_header_name(k) {
            return Err(HeaderError::InvalidHeaderName);
        }
        if !check_header_value(v) {
            return Err(HeaderError::InvalidHeaderValue);
        }
        self.headers.insert_bytes(k, v);
        Ok(())
    }

    fn set_body(&mut self, data: Vec<u8>)
        requires
            old(self).wf(),
        ensures
            final(self).wf(),
            final(self).status == old(self).status,
            final(self).body == Some(data),
            final(self).headers@ == inserted(old(self).headers@, content_length_name(), decimal(data@.len())),
    {
        let name = content_length_name_bytes();
        let mut len_text: Vec<u8> = Vec::new();
        write_decimal(&mut len_text, data.len());
        assert(len_text@ =~= decimal(data@.len()));
        self.headers.insert_bytes(name.as_slice(), len_text.as_slice());
        self.body = Some(data);
    }

    /// Adds a `date` header with the current time when there is none.
    fn add_date(&mut self)
        requires
            old(self).wf(),
        ensures
            final(self).wf(),
            final(self).status == old(self).status,
            final(self).body == old(self).body,
            date_added(old(self).headers@, final(self).headers@),
    {
        let dn = date_name_bytes();
        proof {
            assert(lower_seq(date_name()) =~= date_name());
        }
        if !self.headers.contains(dn.as_slice()) {
            let now = current_date();
            self.headers.insert_bytes(dn.as_slice(), now.as_slice());
            assert(self.headers@ == dated(old(self).headers@, now@));
        } else {
            assert(self.headers@ == dated(old(self).headers@, Seq::<u8>::empty()));
        }
    }

    /// Sets the body, a `content-length` that matches it, and a `date` with
    /// the current time unless one is already there.
    pub fn send_bytes(&mut self, data: Vec<u8>)
        requires
            old(self).wf(),
        ensures
            final(self).wf(),
            final(self).status == old(self).status,
            final(self).body == Some(data),
            date_added(inserted(old(self).headers@, content_length_name(), decimal(data@.len())), final(self).headers@),
            lookup(final(self).headers@, content_length_name()) == Some(decimal(data@.len())),
            lookup(final(self).headers@, date_name()) is Some,
            lookup(old(self).headers@, date_name()) is Some
                ==> lookup(final(self).headers@, date_name()) == lookup(old(self).headers@, date_name()),
    {
        let ghost h0 = self.headers@;
        self.set_body(data);
        self.add_date();
        proof {
            lemma_length_then_date(h0, data@.len(), self.headers@);
        }
    }

    /// Sets the body, a matching `content-length`, a `content-type` of `kind`
    /// unless one is already there, and a `date` with the current time unless
    /// one is already there.
    pub fn send_typed(&mut self, data: Vec<u8>, kind: &[u8])
        requires
            old(self).wf(),
        ensures
            final(self).wf(),
            final(self).status == old(self).status,
            final(self).body == Some(data),
            date_added(typed_headers(old(self).headers@, data@.len(), kind@), final(self).headers@),
            lookup(final(self).headers@, content_length_name()) == Some(decimal(data@.len())),
            lookup(final(self).headers@, date_name()) is Some,
            lookup(old(self).headers@, date_name()) is Some
                ==> lookup(final(self).headers@, date_name()) == lookup(old(self).headers@, date_name()),
    {
        let ghost h0 = self.headers@;
        let ct = content_type_name_bytes();
        proof {
            assert(lower_seq(content_type_name()) =~= content_type_name());
            assert(lower_seq(content_length_name()) =~= content_length_name());
        }
        if !self.headers.contains(ct.as_slice()) {
            self.headers.insert_bytes(ct.as_slice(), kind);
            proof {
                lemma_inserted_other(h0, content_type_name(), kind@, date_name());
            }
        }
        let ghost h1 = self.headers@;
        self.set_body(data);
        self.add_date();
        proof {
            lemma_length_then_date(h1, data@.len(), self.headers@);
        }
    }

    /// Sends `data` as `text/plain`.
    pub fn send_text(&mut self, data: &str)
        requires
            old(self).wf(),
        ensures
            final(self).wf(),
            final(self).status == old(self).status,
            final(self).body is Some && final(self).body->0@ == data.spec_bytes(),
            date_added(typed_headers(old(self).headers@, data.spec_bytes().len(), text_plain()), final(self).headers@),
    {
        let kind = text_plain_bytes();
        let bytes = crate::text::copy_bytes(data.as_bytes());
        self.send_typed(bytes, kind.as_slice());
    }

    /// Sends `data` as `text/html`.
    pub fn send_html(&mut self, data: &str)
        requires
            old(self).wf(),
        ensures
            final(self).wf(),
            final(self).status == old(self).status,
            final(self).body is Some && final(self).body->0@ == data.spec_bytes(),
            date_added(typed_headers(old(self).headers@, data.spec_bytes().len(), text_html()), final(self).headers@),
    {
        let kind = text_html_bytes();
        let bytes = crate::text::copy_bytes(data.as_bytes());
        self.send_typed(bytes, kind.as_slice());
    }

    /// Sends already serialized JSON as `application/json`.
    pub fn send_json_bytes(&mut self, json: Vec<u8>)
        requires
            old(self).wf(),
        ensures
            final(self).wf(),
            final(self).status == old(self).status,
            final(self).body == Some(json),
            date_added(typed_headers(old(self).headers@, json@.len(), application_json()), final(self).headers@),
    {
        let kind = application_json_bytes();
        self.send_typed(json, kind.as_slice());
    }

    /// The answer when a value could not be serialized: status 500 and a plain text body.
    pub fn send_internal_error(&mut self)
        requires
            old(self).wf(),
        ensures
            final(self).wf(),
            final(self).status == 500,
            final(self).body is Some && final(self).body->0@ == internal_error_text(),
            date_added(typed_headers(old(self).headers@, internal_error_text().len(), text_plain()), final(self).headers@),
    {
        self.status = 500;
        let kind = text_plain_bytes();
        let bytes = internal_error_text_bytes();
        self.send_typed(bytes, kind.as_slice());
    }

    /// The response on the wire, with `date` as the value of an added `Date` header.
    #[verifier::rlimit(60)]
    pub fn to_raw_at(&self, date: &[u8]) -> (r: Vec<u8>)
        requires
            self.wf(),
        ensures
            r@ == wire_bytes(self.status, wire_headers(self.headers@, body_view(self.body), date@), body_view(self.body)),
    {
        let mut out = http_prefix_bytes();
        write_decimal(&mut out, self.status as usize);
        let sp = space_bytes();
        append_bytes(&mut out, sp.as_slice());
        match canonical_reason(self.status) {
            Some(reason) => append_bytes(&mut out, reason.as_slice()),
            None => {
                let unknown = unknown_reason_bytes();
                append_bytes(&mut out, unknown.as_slice());
            },
        }
        let nl = crlf_bytes();
        append_bytes(&mut out, nl.as_slice());
        assert(out@ =~= status_line(self.status));
        let ghost start = out@;
        let ghost hs = self.headers@;
        let mut i: usize = 0;
        while i < self.headers.len()
            invariant
                i <= hs.len(),
                hs == self.headers@,
                out@ == start + header_lines(hs.subrange(0, i as int)),
            decreases hs.len() - i,
        {
            let (n, v) = self.headers.entry(i);
            write_header_line(&mut out, n, v);
            assert(hs.subrange(0, i + 1).drop_last() =~= hs.subrange(0, i as int));
            i += 1;
        }
        assert(hs.subrange(0, hs.len() as int) =~= hs);
        let ghost mut h1 = hs;
        match &self.body {
            Some(b) => {
                let cl = content_length_name_bytes();
                let dn = date_name_bytes();
                proof {
                    assert(lower_seq(content_length_name()) =~= content_length_name());
                    assert(lower_seq(date_name()) =~= date_name());
                }
                let has_len = self.headers.contains(cl.as_slice());
                if !has_len {
                    let mut len_text: Vec<u8> = Vec::new();
                    write_decimal(&mut len_text, b.len());
                    assert(len_text@ =~= decimal(b@.len()));
                    write_header_line(&mut out, cl.as_slice(), len_text.as_slice());
                    proof {
                        h1 = hs.push((content_length_name(), decimal(b@.len())));
                        assert(h1.drop_last() =~= hs);
                        assert(out@ =~= start + header_lines(h1));
                    }
                }
                assert(out@ =~= start + header_lines(h1));
                let has_date = self.headers.contains(dn.as_slice());
                proof {
                    if !has_len {
                        lemma_lookup_push_other(hs, content_length_name(), decimal(b@.len()), date_name());
                    }
                }
                let ghost h0 = h1;
                if !has_date {
                    write_header_line(&mut out, dn.as_slice(), date);
                    proof {
                        h1 = h0.push((date_name(), date@));
                        assert(h1.drop_last() =~= h0);
                        assert(out@ =~= start + header_lines(h1));
                    }
                }
                assert(h1 == wire_headers(self.headers@, body_view(self.body), date@));
                append_bytes(&mut out, nl.as_slice());
                append_bytes(&mut out, b.as_slice());
            },
            None => {
                append_bytes(&mut out, nl.as_slice());
            },
        }
        assert(out@ =~= wire_bytes(self.status, wire_headers(self.headers@, body_view(self.body), date@), body_view(self.body)));
        out
    }

    /// The response on the wire; a `Date` header, if one is added, holds the current time.
    pub fn to_raw(&self) -> (r: Vec<u8>)
        requires
            self.wf(),
        ensures
            exists|date: Seq<u8>| r@ == wire_bytes(self.status, wire_headers(self.headers@, body_view(self.body), date), body_view(self.body)),
    {
        let date = current_date();
        self.to_raw_at(date.as_slice())
    }
}

impl Default for Response {
    /// Same as `Response::new`.
    fn default() -> (r: Response)
        ensures
            r.wf(),
            r.status == 200,
            r.headers@.len() == 0,
            r.body is None,
    {
        Response::new()
    }
}

/// `h` with a `date` of value `d` added when it has none.
pub open spec fn dated(h: HeaderSeq, d: Seq<u8>) -> HeaderSeq {
    if lookup(h, date_name()) is Some {
        h
    } else {
        inserted(h, date_name(), d)
    }
}

/// `after` is `before` with a `date` header added, holding the time of the
/// call, when `before` had none.
pub open spec fn date_added(before: HeaderSeq, after: HeaderSeq) -> bool {
    exists|d: Seq<u8>| after == dated(before, d)
}

proof fn lemma_length_then_date(h: HeaderSeq, len: nat, after: HeaderSeq)
    requires
        wf_headers(h),
        date_added(inserted(h, content_length_name(), decimal(len)), after),
    ensures
        lookup(after, content_length_name()) == Some(decimal(len)),
        lookup(after, date_name()) is Some,
        lookup(h, date_name()) is Some ==> lookup(after, date_name()) == lookup(h, date_name()),
{
    assert(lower_seq(content_length_name()) =~= content_length_name());
    assert(lower_seq(date_name()) =~= date_name());
    let h1 = inserted(h, content_length_name(), decimal(len));
    lemma_inserted_wf(h, content_length_name(), decimal(len));
    lemma_inserted_other(h, content_length_name(), decimal(len), date_name());
    let d = choose|d: Seq<u8>| after == dated(h1, d);
    if lookup(h1, date_name()) is None {
        lemma_inserted_wf(h1, date_name(), d);
        lemma_inserted_other(h1, date_name(), d, content_length_name());
    }
}

/// The headers after a typed body of `len` bytes is set: `content-type`
/// added when missing, then `content-length` set to `len`.
pub open spec fn typed_headers(h: HeaderSeq, len: nat, kind: Seq<u8>) -> HeaderSeq {
    let h1 = if lookup(h, content_type_name()) is Some {
        h
    } else {
        inserted(h, content_type_name(), kind)
    };
    inserted(h1, content_length_name(), decimal(len))
}

fn write_header_line(out: &mut Vec<u8>, name: &[u8], value: &[u8])
    ensures
        final(out)@ == old(out)@ + name@ + colon_space() + value@ + crlf(),
{
    append_bytes(out, name);
    let cs = colon_space_bytes();
    append_bytes(out, cs.as_slice());
    append_bytes(out, value);
    let nl = crlf_bytes();
    append_bytes(out, nl.as_slice());
    assert(final(out)@ =~= old(out)@ + name@ + colon_space() + value@ + crlf());
}

proof fn lemma_lookup_push_other(h: HeaderSeq, n: Seq<u8>, v: Seq<u8>, other: Seq<u8>)
    requires
        wf_headers(h),
        n != other,
    ensures
        lookup(h.push((n, v)), other) == lookup(h, other),
{
    let r = h.push((n, v));
    if has_name(h, other) {
        let i = name_index(h, other);
        assert(r[i].0 == other);
        assert(has_name(r, other));
        let j = name_index(r, other);
        assert(r[j].0 == other);
        assert(j < h.len());
        assert(h[j].0 == other);
    } else if has_name(r, other) {
        let j = name_index(r, other);
        assert(h[j].0 == other);
    }
}

/// One `<name>: <value>\r\n` line.
pub open spec fn header_line(e: (Seq<u8>, Seq<u8>)) -> Seq<u8> {
    e.0 + colon_space() + e.1 + crlf()
}

/// Header `i` of `h` stands as its own line where the serialized response
/// `w` has it: after the status line and the lines of the headers before it.
pub open spec fn line_found(w: Seq<u8>, code: u16, h: HeaderSeq, i: int) -> bool {
    let at = (status_line(code).len() + header_lines(h.subrange(0, i)).len()) as int;
    w.subrange(at, at + header_line(h[i]).len() as int) == header_line(h[i])
}

pub proof fn lemma_header_lines_append(a: HeaderSeq, b: HeaderSeq)
    ensures
        header_lines(a + b) == header_lines(a) + header_lines(b),
    decreases b.len(),
{
    if b.len() == 0 {
        assert(a + b =~= a);
        assert(header_lines(a) + header_lines(b) =~= header_lines(a));
    } else {
        lemma_header_lines_append(a, b.drop_last());
        assert((a + b).drop_last() =~= a + b.drop_last());
        assert(header_lines(a + b) =~= header_lines(a) + header_lines(b));
    }
}

proof fn lemma_decimal_digits(n: nat)
    ensures
        all_digits(decimal(n)),
        digits_value(decimal(n)) == n,
        decimal(n).len() > 0,
    decreases n,
{
    let d = decimal(n);
    if n >= 10 {
        lemma_decimal_digits(n / 10);
        assert(d.drop_last() =~= decimal(n / 10));
        assert(n == (n / 10) * 10 + n % 10) by (nonlinear_arith);
        assert(d.last() == (48 + n % 10) as u8);
        assert(d.last() - 48 == n % 10);
        assert(digits_value(d) == digits_value(d.drop_last()) * 10 + (d.last() - 48) as nat);
    } else {
        assert(d.drop_last() =~= Seq::<u8>::empty());
        assert(digits_value(d.drop_last()) == 0);
        assert(d.last() - 48 == n);
        assert(digits_value(d) == digits_value(d.drop_last()) * 10 + (d.last() - 48) as nat);
    }
}

proof fn lemma_line_found(code: u16, h: HeaderSeq, body: Option<Seq<u8>>, i: int)
    requires
        0 <= i < h.len(),
    ensures
        line_found(wire_bytes(code, h, body), code, h, i),
{
    let w = wire_bytes(code, h, body);
    let pre = h.subrange(0, i);
    let mid = h.subrange(i, i + 1);
    let post = h.subrange(i + 1, h.len() as int);
    assert(h =~= pre + mid + post);
    lemma_header_lines_append(pre, mid);
    lemma_header_lines_append(pre + mid, post);
    let empty = Seq::<(Seq<u8>, Seq<u8>)>::empty();
    assert(mid.drop_last() =~= empty);
    assert(header_lines(empty) == Seq::<u8>::empty());
    assert(mid.last() == h[i]);
    assert(header_lines(mid) =~= header_line(h[i]));
    let at = (status_line(code).len() + header_lines(pre).len()) as int;
    let rest = match body {
        Some(b) => b,
        None => Seq::<u8>::empty(),
    };
    assert(w =~= status_line(code) + header_lines(pre) + header_line(h[i]) + header_lines(post) + crlf() + rest);
    assert(w.subrange(at, at + header_line(h[i]).len() as int) =~= header_line(h[i]));
}

/// What a reader of the serialized response finds: after `HTTP/1.1 ` the
/// decimal digits of the status code, which read back as that code; each
/// header as its own `<name>: <value>` line, in order, right after the
/// status line and the lines before it; then a blank line and the body.
pub proof fn lemma_response_round_trip(code: u16, h: HeaderSeq, body: Option<Seq<u8>>)
    ensures
        ({
            let w = wire_bytes(code, h, body);
            let d = decimal(code as nat);
            &&& w.subrange(0, 9) == http_prefix()
            &&& w.subrange(9, 9 + d.len() as int) == d
            &&& all_digits(d) && digits_value(d) == code
            &&& w[9 + d.len() as int] == 32
            &&& forall|i: int| 0 <= i < h.len() ==> #[trigger] line_found(w, code, h, i)
            &&& w.subrange((status_line(code).len() + header_lines(h).len()) as int, (status_line(code).len() + header_lines(h).len() + 2) as int) == crlf()
            &&& w.subrange((status_line(code).len() + header_lines(h).len() + 2) as int, w.len() as int) == match body {
                Some(b) => b,
                None => Seq::<u8>::empty(),
            }
        }),
{
    let w = wire_bytes(code, h, body);
    let d = decimal(code as nat);
    lemma_decimal_digits(code as nat);
    assert(w.subrange(0, 9) =~= http_prefix());
    assert(w.subrange(9, 9 + d.len() as int) =~= d);
    let at = (status_line(code).len() + header_lines(h).len()) as int;
    assert(w.subrange(at, at + 2) =~= crlf());
    assert(w.subrange(at + 2, w.len() as int) =~= match body {
        Some(b) => b,
        None => Seq::<u8>::empty(),
    });
    assert forall|i: int| 0 <= i < h.len() implies #[trigger] line_found(w, code, h, i) by {
        lemma_line_found(code, h, body, i);
    }
}

proof fn lemma_inserted_existing_len(h: HeaderSeq, n: Seq<u8>, v: Seq<u8>)
    requires
        lower_seq(n) == n,
        lookup(h, n) is Some,
    ensures
        inserted(h, n, v).len() == h.len(),
{
}

proof fn lemma_typed_has_names(h: HeaderSeq, len: nat, kind: Seq<u8>, d: Seq<u8>)
    requires
        wf_headers(h),
    ensures
        wf_headers(dated(typed_headers(h, len, kind), d)),
        lookup(dated(typed_headers(h, len, kind), d), content_type_name()) is Some,
        lookup(dated(typed_headers(h, len, kind), d), content_length_name()) == Some(decimal(len)),
        lookup(dated(typed_headers(h, len, kind), d), date_name()) is Some,
{
    assert(lower_seq(content_length_name()) =~= content_length_name());
    assert(lower_seq(content_type_name()) =~= content_type_name());
    assert(lower_seq(date_name()) =~= date_name());
    let h1 = if lookup(h, content_type_name()) is Some {
        h
    } else {
        inserted(h, content_type_name(), kind)
    };
    lemma_inserted_wf(h, content_type_name(), kind);
    let t = typed_headers(h, len, kind);
    lemma_inserted_wf(h1, content_length_name(), decimal(len));
    lemma_inserted_other(h1, content_length_name(), decimal(len), content_type_name());
    if lookup(t, date_name()) is None {
        lemma_inserted_wf(t, date_name(), d);
        lemma_inserted_other(t, date_name(), d, content_type_name());
        lemma_inserted_other(t, date_name(), d, content_length_name());
    }
}

/// Setting a typed body twice leaves one `content-length`, matching the
/// second body, and no more header entries than setting it once.
pub proof fn lemma_body_set_twice(h: HeaderSeq, first: nat, second: nat, kind: Seq<u8>, d1: Seq<u8>, d2: Seq<u8>)
    requires
        wf_headers(h),
    ensures
        ({
            let once = dated(typed_headers(h, first, kind), d1);
            let twice = dated(typed_headers(once, second, kind), d2);
            &&& wf_headers(twice)
            &&& lookup(twice, content_length_name()) == Some(decimal(second))
            &&& twice.len() == once.len()
        }),
{
    let once = dated(typed_headers(h, first, kind), d1);
    lemma_typed_has_names(h, first, kind, d1);
    lemma_typed_has_names(once, second, kind, d2);
    assert(lower_seq(content_length_name()) =~= content_length_name());
    lemma_inserted_existing_len(once, content_length_name(), decimal(second));
    lemma_inserted_other(once, content_length_name(), decimal(second), date_name());
}

} // verus!
