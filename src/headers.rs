//! An ordered header map with case-insensitive names.
use vstd::prelude::*;
use crate::text::{copy_bytes, lower_seq, lowercase, bytes_equal};

verus! {

/// Header entries as byte strings, in the order the names were first inserted.
pub type HeaderSeq = Seq<(Seq<u8>, Seq<u8>)>;

pub open spec fn pairs_view(v: Seq<(Vec<u8>, Vec<u8>)>) -> HeaderSeq {
    Seq::new(v.len(), |i: int| (v[i].0@, v[i].1@))
}

pub open spec fn has_name(s: HeaderSeq, n: Seq<u8>) -> bool {
    exists|i: int| 0 <= i < s.len() && (#[trigger] s[i]).0 == n
}

pub open spec fn name_index(s: HeaderSeq, n: Seq<u8>) -> int {
    choose|i: int| 0 <= i < s.len() && (#[trigger] s[i]).0 == n
}

/// The value stored under the (already lowercase) name `n`.
pub open spec fn lookup(s: HeaderSeq, n: Seq<u8>) -> Option<Seq<u8>> {
    if has_name(s, n) {
        Some(s[name_index(s, n)].1)
    } else {
        None
    }
}

/// `s` after storing `v` under the lowercase form of `n`: an existing entry
/// keeps its place and gets the new value, a new name goes last.
pub open spec fn inserted(s: HeaderSeq, n: Seq<u8>, v: Seq<u8>) -> HeaderSeq {
    let ln = lower_seq(n);
    if has_name(s, ln) {
        s.update(name_index(s, ln), (ln, v))
    } else {
        s.push((ln, v))
    }
}

/// Names are lowercase and appear once.
pub open spec fn wf_headers(s: HeaderSeq) -> bool {
    &&& forall|i: int| 0 <= i < s.len() ==> lower_seq((#[trigger] s[i]).0) == s[i].0
    &&& forall|i: int, j: int| 0 <= i < s.len() && 0 <= j < s.len() && i != j ==> (#[trigger] s[i]).0 != (#[trigger] s[j]).0
}

/// The map that results from inserting the pairs of `s` one by one.
pub open spec fn built_from(s: HeaderSeq) -> HeaderSeq
    decreases s.len(),
{
    if s.len() == 0 {
        Seq::empty()
    } else {
        inserted(built_from(s.drop_last()), s.last().0, s.last().1)
    }
}

pub proof fn lemma_lower_idempotent(n: Seq<u8>)
    ensures
        lower_seq(lower_seq(n)) == lower_seq(n),
{
    assert(lower_seq(lower_seq(n)) =~= lower_seq(n));
}

pub proof fn lemma_name_index_unique(s: HeaderSeq, n: Seq<u8>, i: int)
    requires
        wf_headers(s),
        0 <= i < s.len(),
        s[i].0 == n,
    ensures
        has_name(s, n),
        name_index(s, n) == i,
{
    assert(has_name(s, n));
    let j = name_index(s, n);
    assert(s[j].0 == n);
}

pub proof fn lemma_inserted_wf(s: HeaderSeq, n: Seq<u8>, v: Seq<u8>)
    requires
        wf_headers(s),
    ensures
        wf_headers(inserted(s, n, v)),
        lookup(inserted(s, n, v), lower_seq(n)) == Some(v),
{
    let ln = lower_seq(n);
    lemma_lower_idempotent(n);
    let r = inserted(s, n, v);
    if has_name(s, ln) {
        let k = name_index(s, ln);
        assert(s[k].0 == ln);
        assert forall|i: int, j: int| 0 <= i < r.len() && 0 <= j < r.len() && i != j implies (#[trigger] r[i]).0 != (#[trigger] r[j]).0 by {
            assert(r[i].0 == s[i].0);
            assert(r[j].0 == s[j].0);
        }
        lemma_name_index_unique(r, ln, k);
    } else {
        assert forall|i: int, j: int| 0 <= i < r.len() && 0 <= j < r.len() && i != j implies (#[trigger] r[i]).0 != (#[trigger] r[j]).0 by {
            if i < s.len() && j < s.len() {
            } else if i == s.len() {
                assert(s[j].0 != ln);
            } else {
                assert(s[i].0 != ln);
            }
        }
        lemma_name_index_unique(r, ln, s.len() as int);
    }
}

/// Storing a value under one name leaves the values of the other names alone.
pub proof fn lemma_inserted_other(s: HeaderSeq, n: Seq<u8>, v: Seq<u8>, other: Seq<u8>)
    requires
        wf_headers(s),
        other != lower_seq(n),
    ensures
        lookup(inserted(s, n, v), other) == lookup(s, other),
{
    let ln = lower_seq(n);
    let r = inserted(s, n, v);
    lemma_inserted_wf(s, n, v);
    if has_name(s, other) {
        let m = name_index(s, other);
        assert(s[m].0 == other);
        if has_name(s, ln) {
            let k = name_index(s, ln);
            assert(s[k].0 == ln);
            assert(m != k);
        }
        assert(r[m].0 == other);
        lemma_name_index_unique(r, other, m);
    } else if has_name(r, other) {
        let m = name_index(r, other);
        assert(r[m].0 == other);
        if has_name(s, ln) {
            assert(s[m].0 == other);
        } else {
            assert(m < s.len());
            assert(s[m].0 == other);
        }
    }
}

/// Response and request headers. Names are kept in lowercase, each once.
pub struct HeaderMap {
    entries: Vec<(Vec<u8>, Vec<u8>)>,
}

impl View for HeaderMap {
    type V = HeaderSeq;

    closed spec fn view(&self) -> HeaderSeq {
        pairs_view(self.entries@)
    }
}

impl HeaderMap {
    pub open spec fn wf(&self) -> bool {
        wf_headers(self@)
    }

    pub fn new() -> (r: HeaderMap)
        ensures
            r@ == Seq::<(Seq<u8>, Seq<u8>)>::empty(),
            r.wf(),
    {
        let r = HeaderMap { entries: Vec::new() };
        assert(r@ =~= Seq::<(Seq<u8>, Seq<u8>)>::empty());
        r
    }

    /// Number of distinct header names.
    pub fn len(&self) -> (r: usize)
        ensures
            r == self@.len(),
    {
        self.entries.len()
    }

    /// The entry at position `i`, in insertion order.
    pub fn entry(&self, i: usize) -> (r: (&[u8], &[u8]))
        requires
            i < self@.len(),
        ensures
            r.0@ == self@[i as int].0,
            r.1@ == self@[i as int].1,
    {
        (self.entries[i].0.as_slice(), self.entries[i].1.as_slice())
    }

    fn position(&self, lname: &[u8]) -> (r: Option<usize>)
        ensures
            match r {
                Some(i) => i < self@.len() && self@[i as int].0 == lname@,
                None => !has_name(self@, lname@),
            },
    {
        let mut i: usize = 0;
        while i < self.entries.len()
            invariant
                i <= self@.len(),
                forall|j: int| 0 <= j < i ==> (#[trigger] self@[j]).0 != lname@,
            decreases self.entries.len() - i,
        {
            if bytes_equal(self.entries[i].0.as_slice(), lname) {
                return Some(i);
            }
            i += 1;
        }
        None
    }

    /// The value stored under `name`, compared without regard to ASCII case.
    pub fn get_bytes(&self, name: &[u8]) -> (r: Option<&[u8]>)
        requires
            self.wf(),
        ensures
            match r {
                Some(v) => lookup(self@, lower_seq(name@)) == Some(v@),
                None => lookup(self@, lower_seq(name@)) is None,
            },
    {
        let lname = lowercase(name);
        match self.position(lname.as_slice()) {
            Some(i) => {
                proof {
                    lemma_name_index_unique(self@, lname@, i as int);
                }
                Some(self.entries[i].1.as_slice())
            },
            None => None,
        }
    }

    /// Whether a value is stored under `name`, compared without regard to ASCII case.
    pub fn contains(&self, name: &[u8]) -> (r: bool)
        requires
            self.wf(),
        ensures
            r == (lookup(self@, lower_seq(name@)) is Some),
    {
        self.get_bytes(name).is_some()
    }

    /// Stores `value` under `name`, replacing any earlier value of that name.
    pub fn insert_bytes(&mut self, name: &[u8], value: &[u8])
        requires
            old(self).wf(),
        ensures
            final(self).wf(),
            final(self)@ == inserted(old(self)@, name@, value@),
    {
        let lname = lowercase(name);
        let v = copy_bytes(value);
        proof {
            lemma_inserted_wf(self@, name@, value@);
        }
        match self.position(lname.as_slice()) {
            Some(i) => {
                proof {
                    lemma_name_index_unique(self@, lname@, i as int);
                }
                self.entries.set(i, (lname, v));
            },
            None => {
                self.entries.push((lname, v));
            },
        }
        assert(self@ =~= inserted(old(self)@, name@, value@));
    }

    /// The map holding the given pairs, inserted in order.
    pub fn from_pairs(pairs: &Vec<(Vec<u8>, Vec<u8>)>) -> (r: HeaderMap)
        ensures
            r.wf(),
            r@ == built_from(pairs_view(pairs@)),
    {
        let mut r = HeaderMap::new();
        let mut i: usize = 0;
        while i < pairs.len()
            invariant
                i <= pairs@.len(),
                r.wf(),
                r@ == built_from(pairs_view(pairs@).subrange(0, i as int)),
            decreases pairs.len() - i,
        {
            r.insert_bytes(pairs[i].0.as_slice(), pairs[i].1.as_slice());
            assert(pairs_view(pairs@).subrange(0, i + 1).drop_last() =~= pairs_view(pairs@).subrange(0, i as int));
            i += 1;
        }
        assert(pairs_view(pairs@).subrange(0, pairs@.len() as int) =~= pairs_view(pairs@));
        r
    }
}

} // verus!
