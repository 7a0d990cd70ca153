//! Route patterns: `/user/:id` matches `/user/42` and binds `id` to `42`.
use vstd::prelude::*;
use vstd::string::StringSliceAdditionalSpecFns;
use crate::headers::HeaderSeq;
use crate::params::{Params, collected, with_value};

verus! {

/// `s` without its leading `/` bytes.
pub open spec fn trim_start(s: Seq<u8>) -> Seq<u8>
    decreases s.len(),
{
    if s.len() > 0 && s[0] == 47 {
        trim_start(s.drop_first())
    } else {
        s
    }
}

/// `s` without its trailing `/` bytes.
pub open spec fn trim_end(s: Seq<u8>) -> Seq<u8>
    decreases s.len(),
{
    if s.len() > 0 && s.last() == 47 {
        trim_end(s.drop_last())
    } else {
        s
    }
}

/// The pieces of `s` between `/` bytes, scanning from `i` with the current
/// piece starting at `st`.
pub open spec fn pieces(s: Seq<u8>, st: int, i: int) -> Seq<Seq<u8>>
    decreases s.len() - i,
{
    if i >= s.len() || i < st || st < 0 {
        seq![s.subrange(st, s.len() as int)]
    } else if s[i] == 47 {
        seq![s.subrange(st, i)] + pieces(s, i + 1, i + 1)
    } else {
        pieces(s, st, i + 1)
    }
}

/// The segments of a path: without leading and trailing `/`, split at each `/`.
/// An empty path has one empty segment.
pub open spec fn segments(s: Seq<u8>) -> Seq<Seq<u8>> {
    pieces(trim_end(trim_start(s)), 0, 0)
}

/// A pattern segment of the form `:name`.
pub open spec fn is_capture(seg: Seq<u8>) -> bool {
    seg.len() > 0 && seg[0] == 58
}

/// The (name, value) pairs that the capture segments of `pat` take from `path`, in order.
pub open spec fn captures(pat: Seq<Seq<u8>>, path: Seq<Seq<u8>>) -> HeaderSeq
    decreases pat.len(),
{
    if pat.len() == 0 || path.len() == 0 {
        Seq::empty()
    } else {
        let rest = captures(pat.drop_last(), path.drop_last());
        if is_capture(pat.last()) {
            rest.push((pat.last().drop_first(), path.last()))
        } else {
            rest
        }
    }
}

/// Segment lists of equal length where every literal segment is equal.
pub open spec fn segments_match(pat: Seq<Seq<u8>>, path: Seq<Seq<u8>>) -> bool {
    pat.len() == path.len() && forall|i: int| 0 <= i < pat.len() && !is_capture(#[trigger] pat[i]) ==> pat[i] == path[i]
}

/// The parameters bound when `pattern` matches `path`; a repeated name keeps its last value.
pub open spec fn route_match(pattern: Seq<u8>, path: Seq<u8>) -> Option<HeaderSeq> {
    let pat = segments(pattern);
    let segs = segments(path);
    if segments_match(pat, segs) {
        Some(collected(captures(pat, segs)))
    } else {
        None
    }
}

fn trimmed(s: &[u8]) -> (r: Vec<u8>)
    ensures
        r@ == trim_end(trim_start(s@)),
{
    let mut lo: usize = 0;
    assert(s@.subrange(0, s@.len() as int) =~= s@);
    while lo < s.len() && s[lo] == 47
        invariant
            lo <= s@.len(),
            trim_start(s@) == trim_start(s@.subrange(lo as int, s@.len() as int)),
        decreases s.len() - lo,
    {
        assert(s@.subrange(lo as int, s@.len() as int).drop_first() =~= s@.subrange(lo + 1, s@.len() as int));
        lo += 1;
    }
    assert(trim_start(s@.subrange(lo as int, s@.len() as int)) == s@.subrange(lo as int, s@.len() as int));
    let ghost t = s@.subrange(lo as int, s@.len() as int);
    let mut hi: usize = s.len();
    while hi > lo && s[hi - 1] == 47
        invariant
            lo <= hi <= s@.len(),
            t == s@.subrange(lo as int, s@.len() as int),
            trim_end(t) == trim_end(s@.subrange(lo as int, hi as int)),
        decreases hi,
    {
        assert(s@.subrange(lo as int, hi as int).drop_last() =~= s@.subrange(lo as int, hi - 1));
        hi -= 1;
    }
    let mut r: Vec<u8> = Vec::new();
    let mut i: usize = lo;
    while i < hi
        invariant
            lo <= i <= hi,
            hi <= s@.len(),
            r@ =~= s@.subrange(lo as int, i as int),
        decreases hi - i,
    {
        r.push(s[i]);
        i += 1;
    }
    r
}

fn split_segments(s: &[u8]) -> (r: Vec<Vec<u8>>)
    ensures
        r@.len() == pieces(s@, 0, 0).len(),
        forall|k: int| 0 <= k < r@.len() ==> (#[trigger] r@[k])@ == pieces(s@, 0, 0)[k],
{
    let mut out: Vec<Vec<u8>> = Vec::new();
    let mut st: usize = 0;
    let mut i: usize = 0;
    let ghost mut acc: Seq<Seq<u8>> = Seq::empty();
    while i < s.len()
        invariant
            st <= i <= s@.len(),
            acc + pieces(s@, st as int, i as int) == pieces(s@, 0, 0),
            out@.len() == acc.len(),
            forall|k: int| 0 <= k < out@.len() ==> (#[trigger] out@[k])@ == acc[k],
        decreases s.len() - i,
    {
        if s[i] == 47 {
            let mut piece: Vec<u8> = Vec::new();
            let mut j: usize = st;
            while j < i
                invariant
                    st <= j <= i,
                    i < s@.len(),
                    piece@ =~= s@.subrange(st as int, j as int),
                decreases i - j,
            {
                piece.push(s[j]);
                j += 1;
            }
            proof {
                assert(acc.push(piece@) + pieces(s@, i + 1, i + 1) =~= acc + pieces(s@, st as int, i as int));
                acc = acc.push(piece@);
            }
            out.push(piece);
            st = i + 1;
        }
        i += 1;
    }
    let mut piece: Vec<u8> = Vec::new();
    let mut j: usize = st;
    while j < s.len()
        invariant
            st <= j <= s@.len(),
            piece@ =~= s@.subrange(st as int, j as int),
        decreases s.len() - j,
    {
        piece.push(s[j]);
        j += 1;
    }
    proof {
        assert(acc.push(piece@) =~= acc + pieces(s@, st as int, i as int));
        acc = acc.push(piece@);
    }
    out.push(piece);
    out
}

fn bytes_eq(a: &Vec<u8>, b: &Vec<u8>) -> (r: bool)
    ensures
        r == (a@ == b@),
{
    crate::text::bytes_equal(a.as_slice(), b.as_slice())
}

fn drop_first_byte(s: &Vec<u8>) -> (r: Vec<u8>)
    requires
        s@.len() > 0,
    ensures
        r@ == s@.drop_first(),
{
    let mut r: Vec<u8> = Vec::new();
    let mut i: usize = 1;
    while i < s.len()
        invariant
            1 <= i <= s@.len(),
            r@ =~= s@.subrange(1, i as int),
        decreases s.len() - i,
    {
        r.push(s[i]);
        i += 1;
    }
    r
}

/// Matches a request path against a route pattern, binding its `:name` segments.
pub fn match_route(pattern: &str, path: &[u8]) -> (r: Option<Params>)
    ensures
        match r {
            Some(p) => route_match(pattern.spec_bytes(), path@) == Some(p@) && p.wf(),
            None => route_match(pattern.spec_bytes(), path@) is None,
        },
{
    match_pattern(pattern.as_bytes(), path)
}

/// `match_route` on a pattern given as bytes.
pub fn match_pattern(pattern: &[u8], path: &[u8]) -> (r: Option<Params>)
    ensures
        match r {
            Some(p) => route_match(pattern@, path@) == Some(p@) && p.wf(),
            None => route_match(pattern@, path@) is None,
        },
{
    let tp = trimmed(pattern);
    let tq = trimmed(path);
    let pat = split_segments(tp.as_slice());
    let segs = split_segments(tq.as_slice());
    let ghost ps = segments(pattern@);
    let ghost qs = segments(path@);
    if pat.len() != segs.len() {
        assert(!segments_match(ps, qs));
        assert(route_match(pattern@, path@) is None);
        return None;
    }
    let mut params = Params::new();
    let mut i: usize = 0;
    assert(ps.subrange(0, 0) =~= Seq::<Seq<u8>>::empty());
    assert(qs.subrange(0, 0) =~= Seq::<Seq<u8>>::empty());
    assert(collected(captures(ps.subrange(0, 0), qs.subrange(0, 0))) =~= Seq::<(Seq<u8>, Seq<u8>)>::empty());
    while i < pat.len()
        invariant
            i <= pat@.len(),
            ps == segments(pattern@),
            qs == segments(path@),
            pat@.len() == segs@.len(),
            ps.len() == pat@.len(),
            qs.len() == segs@.len(),
            forall|k: int| 0 <= k < pat@.len() ==> (#[trigger] pat@[k])@ == ps[k],
            forall|k: int| 0 <= k < segs@.len() ==> (#[trigger] segs@[k])@ == qs[k],
            forall|k: int| 0 <= k < i && !is_capture(#[trigger] ps[k]) ==> ps[k] == qs[k],
            params.wf(),
            params@ == collected(captures(ps.subrange(0, i as int), qs.subrange(0, i as int))),
        decreases pat.len() - i,
    {
        assert(pat@[i as int]@ == ps[i as int]);
        assert(segs@[i as int]@ == qs[i as int]);
        assert(ps.subrange(0, i + 1).drop_last() =~= ps.subrange(0, i as int));
        assert(qs.subrange(0, i + 1).drop_last() =~= qs.subrange(0, i as int));
        let ghost pre_p = ps.subrange(0, i + 1);
        let ghost pre_q = qs.subrange(0, i + 1);
        assert(pre_p.last() == ps[i as int]);
        assert(pre_q.last() == qs[i as int]);
        if pat[i].len() > 0 && pat[i][0] == 58 {
            let name = drop_first_byte(&pat[i]);
            assert(is_capture(ps[i as int]));
            assert(captures(pre_p, pre_q) == captures(ps.subrange(0, i as int), qs.subrange(0, i as int)).push((ps[i as int].drop_first(), qs[i as int])));
            let ghost c0 = captures(ps.subrange(0, i as int), qs.subrange(0, i as int));
            let ghost e = (ps[i as int].drop_first(), qs[i as int]);
            assert(c0.push(e).drop_last() =~= c0);
            assert(collected(c0.push(e)) == with_value(collected(c0), e.0, e.1));
            params.set(name.as_slice(), segs[i].as_slice());
        } else {
            assert(!is_capture(ps[i as int]));
            assert(captures(pre_p, pre_q) == captures(ps.subrange(0, i as int), qs.subrange(0, i as int)));
            if !bytes_eq(&pat[i], &segs[i]) {
                assert(!segments_match(ps, qs));
                assert(route_match(pattern@, path@) is None);
                return None;
            }
        }
        i += 1;
    }
    assert(ps.subrange(0, i as int) =~= ps);
    assert(qs.subrange(0, i as int) =~= qs);
    assert(segments_match(ps, qs));
    assert(route_match(pattern@, path@) == Some(collected(captures(ps, qs))));
    assert(params@ == collected(captures(ps, qs)));
    assert(params.wf());
    Some(params)
}

/// A path matches itself read as a pattern: each segment equals itself.
pub proof fn lemma_matches_itself(p: Seq<u8>)
    ensures
        route_match(p, p) is Some,
{
    assert(segments_match(segments(p), segments(p)));
}

} // verus!
