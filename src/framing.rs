//! Turning the bytes read from a connection into requests: the header block
//! ends at the first `\r\n\r\n`, the body is `Content-Length` bytes long.
use vstd::prelude::*;
use crate::headers::{HeaderSeq, built_from, lookup};
use crate::request::{Request, parsed_head, read_from, target_parts};
use crate::text::{all_digits, digits_value, eq_ignore_case, equal_ignore_case, find_terminator, first_terminator, lower_seq, parse_decimal, terminator_at, is_digit};
use crate::wire::{chunked_token, chunked_token_bytes, content_length_name, content_length_name_bytes, transfer_encoding_name, transfer_encoding_name_bytes};

verus! {

/// Where the bytes received so far stand.
pub enum Framing {
    /// More bytes are needed.
    Incomplete,
    /// A request is complete: a head of `head_len` bytes, then `body_len` body bytes.
    Ready { head_len: nat, body_len: nat },
    /// The request is refused with this status; the connection closes.
    Rejected { status: u16 },
}

/// The length of the header block, terminator included, if it is complete.
pub open spec fn head_length(buf: Seq<u8>) -> Option<nat> {
    if exists|i: int| first_terminator(buf, i) {
        Some((choose|i: int| first_terminator(buf, i)) as nat + 4)
    } else {
        None
    }
}

/// The headers declare `Transfer-Encoding: chunked`.
pub open spec fn declares_chunked(h: HeaderSeq) -> bool {
    match lookup(h, transfer_encoding_name()) {
        Some(v) => eq_ignore_case(v, chunked_token()),
        None => false,
    }
}

/// Where a buffer of received bytes stands, with at most `max` bytes allowed
/// for the header block (terminator included) and for the body.
pub open spec fn framing(buf: Seq<u8>, max: nat) -> Framing {
    match head_length(buf) {
        None => if buf.len() > max {
            Framing::Rejected { status: 413 }
        } else {
            Framing::Incomplete
        },
        Some(h) => if h > max {
            Framing::Rejected { status: 413 }
        } else {
            framing_head(buf, h, max)
        },
    }
}

/// Where a buffer stands whose header block of `h` bytes is complete and within the limit.
pub open spec fn framing_head(buf: Seq<u8>, h: nat, max: nat) -> Framing {
    match parsed_head(buf.subrange(0, h as int)) {
        None => Framing::Rejected { status: 400 },
        Some(p) => if target_parts(p.1) is None {
            Framing::Rejected { status: 400 }
        } else if declares_chunked(built_from(p.3)) {
            Framing::Rejected { status: 501 }
        } else {
            match lookup(built_from(p.3), content_length_name()) {
                None => Framing::Ready { head_len: h, body_len: 0 },
                Some(v) => if !(v.len() > 0 && all_digits(v)) {
                    Framing::Rejected { status: 400 }
                } else if digits_value(v) > max {
                    Framing::Rejected { status: 413 }
                } else if buf.len() >= h + digits_value(v) {
                    Framing::Ready { head_len: h, body_len: digits_value(v) }
                } else {
                    Framing::Incomplete
                },
            }
        },
    }
}


pub proof fn lemma_first_terminator_unique(s: Seq<u8>, i: int, j: int)
    requires
        first_terminator(s, i),
        first_terminator(s, j),
    ensures
        i == j,
{
    if i < j {
        assert(!terminator_at(s, i));
    } else if j < i {
        assert(!terminator_at(s, j));
    }
}

/// Once the bytes received so far hold a complete request, later bytes do not
/// change it: the head and body are the same whatever follows, so the body is
/// the same however the stream was cut into reads.
pub proof fn lemma_ready_prefix_stable(stream: Seq<u8>, k: int, max: nat)
    requires
        0 <= k <= stream.len(),
        framing(stream.subrange(0, k), max) is Ready,
    ensures
        framing(stream, max) == framing(stream.subrange(0, k), max),
        ({
            let h = framing(stream, max)->head_len;
            let n = framing(stream, max)->body_len;
            &&& h + n <= k
            &&& stream.subrange(0, k).subrange(h as int, (h + n) as int) == stream.subrange(h as int, (h + n) as int)
        }),
{
    let p = stream.subrange(0, k);
    let i = choose|i: int| first_terminator(p, i);
    assert(first_terminator(p, i));
    assert forall|j: int| 0 <= j < i implies !terminator_at(stream, j) by {
        assert(!terminator_at(p, j));
    }
    assert(terminator_at(stream, i));
    assert(first_terminator(stream, i));
    let i2 = choose|i2: int| first_terminator(stream, i2);
    lemma_first_terminator_unique(stream, i, i2);
    assert(stream.subrange(0, i + 4) =~= p.subrange(0, i + 4));
    let h = framing(p, max)->head_len;
    let n = framing(p, max)->body_len;
    assert(p.subrange(h as int, (h + n) as int) =~= stream.subrange(h as int, (h + n) as int));
}

/// The bytes of a list of reads, one after another.
pub open spec fn joined(reads: Seq<Seq<u8>>) -> Seq<u8>
    decreases reads.len(),
{
    if reads.len() == 0 {
        Seq::empty()
    } else {
        joined(reads.drop_last()) + reads.last()
    }
}

proof fn lemma_joined_prefix(reads: Seq<Seq<u8>>, k: int)
    requires
        0 <= k <= reads.len(),
    ensures
        joined(reads.subrange(0, k)).len() <= joined(reads).len(),
        joined(reads) == joined(reads.subrange(0, k)) + joined(reads).subrange(joined(reads.subrange(0, k)).len() as int, joined(reads).len() as int),
    decreases reads.len() - k,
{
    if k == reads.len() {
        assert(reads.subrange(0, k) =~= reads);
        assert(joined(reads).subrange(joined(reads).len() as int, joined(reads).len() as int) =~= Seq::<u8>::empty());
        assert(joined(reads) =~= joined(reads) + Seq::<u8>::empty());
    } else {
        lemma_joined_prefix(reads.drop_last(), k);
        assert(reads.drop_last().subrange(0, k) =~= reads.subrange(0, k));
        let a = joined(reads.subrange(0, k));
        assert(joined(reads) =~= a + joined(reads).subrange(a.len() as int, joined(reads).len() as int));
    }
}

/// However the bytes of a connection were cut into reads, once the reads
/// taken so far hold a complete request, its head and its body are those of
/// the whole stream: the body is the declared number of bytes right after the
/// header block, whatever follows.
pub proof fn lemma_body_whatever_the_reads(reads: Seq<Seq<u8>>, k: int, max: nat)
    requires
        0 <= k <= reads.len(),
        framing(joined(reads.subrange(0, k)), max) is Ready,
    ensures
        ({
            let stream = joined(reads);
            let f = framing(joined(reads.subrange(0, k)), max);
            &&& framing(stream, max) == f
            &&& joined(reads.subrange(0, k)).subrange(f->head_len as int, (f->head_len + f->body_len) as int)
                == stream.subrange(f->head_len as int, (f->head_len + f->body_len) as int)
        }),
{
    let stream = joined(reads);
    let p = joined(reads.subrange(0, k));
    lemma_joined_prefix(reads, k);
    assert(stream.subrange(0, p.len() as int) =~= p);
    lemma_ready_prefix_stable(stream, p.len() as int, max);
}

/// A complete request has the declared number of body bytes, and they are
/// those right after the header block.
pub proof fn lemma_ready_body_is_declared(buf: Seq<u8>, max: nat)
    requires
        framing(buf, max) is Ready,
    ensures
        ({
            let h = framing(buf, max)->head_len;
            let n = framing(buf, max)->body_len;
            &&& h >= 4
            &&& first_terminator(buf, h - 4)
            &&& h + n <= buf.len()
            &&& match parsed_head(buf.subrange(0, h as int)) {
                Some(p) => match lookup(built_from(p.3), content_length_name()) {
                    Some(v) => n == digits_value(v),
                    None => n == 0,
                },
                None => false,
            }
        }),
{
    let i = choose|i: int| first_terminator(buf, i);
    assert(first_terminator(buf, i));
}

/// What one read brings about.
pub enum ReadEvent {
    /// Keep reading.
    NeedMore,
    /// A complete request.
    Ready(Request),
    /// Answer with this status and close.
    Reject(u16),
}

fn copy_range(s: &[u8], lo: usize, hi: usize) -> (r: Vec<u8>)
    requires
        lo <= hi <= s@.len(),
    ensures
        r@ == s@.subrange(lo as int, hi as int),
{
    let mut r: Vec<u8> = Vec::new();
    let mut i: usize = lo;
    while i < hi
        invariant
            lo <= i <= hi,
            hi <= s@.len(),
            r@ =~= s@.subrange(lo as int, i as int),
        decreases hi - i,
    {
        r.push(s[i]);
        i += 1;
    }
    r
}

fn all_digits_exec(v: &[u8]) -> (r: bool)
    ensures
        r == all_digits(v@),
{
    let mut i: usize = 0;
    while i < v.len()
        invariant
            i <= v@.len(),
            forall|j: int| 0 <= j < i ==> is_digit(#[trigger] v@[j]),
        decreases v.len() - i,
    {
        if !(48 <= v[i] && v[i] <= 57) {
            return false;
        }
        i += 1;
    }
    true
}

/// The bytes of one connection that are not yet part of a request.
pub struct ConnectionReader {
    pub buffer: Vec<u8>,
    /// The most bytes allowed for a header block or a body.
    pub max_size: usize,
}

impl ConnectionReader {
    pub fn new(max_size: usize) -> (r: ConnectionReader)
        ensures
            r.buffer@.len() == 0,
            r.max_size == max_size,
    {
        ConnectionReader { buffer: Vec::new(), max_size }
    }

    /// Takes the bytes of one read. A complete request leaves the buffer with
    /// the bytes after it; a refusal empties it.
    pub fn push(&mut self, chunk: &[u8]) -> (r: ReadEvent)
        ensures
            final(self).max_size == old(self).max_size,
            ({
                let all = old(self).buffer@ + chunk@;
                match framing(all, old(self).max_size as nat) {
                    Framing::Incomplete => r is NeedMore && final(self).buffer@ == all,
                    Framing::Rejected { status } => r == ReadEvent::Reject(status)
                        && final(self).buffer@.len() == 0,
                    Framing::Ready { head_len, body_len } => r is Ready
                        && read_from(r->Ready_0, all.subrange(0, head_len as int), all.subrange(head_len as int, (head_len + body_len) as int))
                        && final(self).buffer@ == all.subrange((head_len + body_len) as int, all.len() as int),
                }
            }),
    {
        let ghost all = self.buffer@ + chunk@;
        crate::text::append_bytes(&mut self.buffer, chunk);
        assert(self.buffer@ == all);
        let max = self.max_size;
        let blen = self.buffer.len();
        match find_terminator(self.buffer.as_slice()) {
            None => {
                if self.buffer.len() > max {
                    self.buffer = Vec::new();
                    ReadEvent::Reject(413)
                } else {
                    ReadEvent::NeedMore
                }
            },
            Some(i) => {
                assert(first_terminator(all, i as int));
                proof {
                    let c = choose|c: int| first_terminator(all, c);
                    lemma_first_terminator_unique(all, i as int, c);
                }
                let h = i + 4;
                if h > max {
                    self.buffer = Vec::new();
                    return ReadEvent::Reject(413);
                }
                let head = copy_range(self.buffer.as_slice(), 0, h);
                let parsed = Request::parse(head.as_slice(), Vec::new());
                let mut req = match parsed {
                    Err(_) => {
                        self.buffer = Vec::new();
                        return ReadEvent::Reject(400);
                    },
                    Ok(req) => req,
                };
                let te = transfer_encoding_name_bytes();
                let cl = content_length_name_bytes();
                proof {
                    assert(lower_seq(transfer_encoding_name()) =~= transfer_encoding_name());
                    assert(lower_seq(content_length_name()) =~= content_length_name());
                }
                match req.headers.get_bytes(te.as_slice()) {
                    Some(v) => {
                        let chunked = chunked_token_bytes();
                        if equal_ignore_case(v, chunked.as_slice()) {
                            self.buffer = Vec::new();
                            return ReadEvent::Reject(501);
                        }
                    },
                    None => {},
                }
                let n: usize = match req.headers.get_bytes(cl.as_slice()) {
                    None => 0,
                    Some(v) => {
                        if v.len() == 0 || !all_digits_exec(v) {
                            self.buffer = Vec::new();
                            return ReadEvent::Reject(400);
                        }
                        match parse_decimal(v) {
                            None => {
                                self.buffer = Vec::new();
                                return ReadEvent::Reject(413);
                            },
                            Some(n) => {
                                if n > max {
                                    self.buffer = Vec::new();
                                    return ReadEvent::Reject(413);
                                }
                                n
                            },
                        }
                    },
                };
                if self.buffer.len() - h >= n {
                    let body = copy_range(self.buffer.as_slice(), h, h + n);
                    let rest = copy_range(self.buffer.as_slice(), h + n, self.buffer.len());
                    req.body = body;
                    self.buffer = rest;
                    ReadEvent::Ready(req)
                } else {
                    ReadEvent::NeedMore
                }
            },
        }
    }
}

} // verus!
