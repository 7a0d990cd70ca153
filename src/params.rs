//! A small ordered string map for route parameters and query strings.
use vstd::prelude::*;
use crate::headers::{HeaderSeq, pairs_view};
use crate::text::{bytes_equal, copy_bytes};

verus! {

pub open spec fn has_key(s: HeaderSeq, k: Seq<u8>) -> bool {
    exists|i: int| 0 <= i < s.len() && (#[trigger] s[i]).0 == k
}

pub open spec fn key_index(s: HeaderSeq, k: Seq<u8>) -> int {
    choose|i: int| 0 <= i < s.len() && (#[trigger] s[i]).0 == k
}

/// The value stored under `k`.
pub open spec fn value_of(s: HeaderSeq, k: Seq<u8>) -> Option<Seq<u8>> {
    if has_key(s, k) {
        Some(s[key_index(s, k)].1)
    } else {
        None
    }
}

/// `s` after setting `k` to `v`: an existing key keeps its place, a new key goes last.
pub open spec fn with_value(s: HeaderSeq, k: Seq<u8>, v: Seq<u8>) -> HeaderSeq {
    if has_key(s, k) {
        s.update(key_index(s, k), (k, v))
    } else {
        s.push((k, v))
    }
}

pub open spec fn keys_unique(s: HeaderSeq) -> bool {
    forall|i: int, j: int| 0 <= i < s.len() && 0 <= j < s.len() && i != j ==> (#[trigger] s[i]).0 != (#[trigger] s[j]).0
}

/// The map that results from setting the pairs of `s` one by one: the last value of a key wins.
pub open spec fn collected(s: HeaderSeq) -> HeaderSeq
    decreases s.len(),
{
    if s.len() == 0 {
        Seq::empty()
    } else {
        with_value(collected(s.drop_last()), s.last().0, s.last().1)
    }
}

pub proof fn lemma_key_index_unique(s: HeaderSeq, k: Seq<u8>, i: int)
    requires
        keys_unique(s),
        0 <= i < s.len(),
        s[i].0 == k,
    ensures
        has_key(s, k),
        key_index(s, k) == i,
{
    assert(has_key(s, k));
    let j = key_index(s, k);
    assert(s[j].0 == k);
}

pub proof fn lemma_with_value(s: HeaderSeq, k: Seq<u8>, v: Seq<u8>)
    requires
        keys_unique(s),
    ensures
        keys_unique(with_value(s, k, v)),
        value_of(with_value(s, k, v), k) == Some(v),
        forall|k2: Seq<u8>| k2 != k ==> value_of(with_value(s, k, v), k2) == value_of(s, k2),
{
    let r = with_value(s, k, v);
    if has_key(s, k) {
        let idx = key_index(s, k);
        assert(s[idx].0 == k);
        assert forall|i: int, j: int| 0 <= i < r.len() && 0 <= j < r.len() && i != j implies (#[trigger] r[i]).0 != (#[trigger] r[j]).0 by {
            assert(r[i].0 == s[i].0);
            assert(r[j].0 == s[j].0);
        }
        lemma_key_index_unique(r, k, idx);
        assert forall|k2: Seq<u8>| k2 != k implies value_of(r, k2) == value_of(s, k2) by {
            if has_key(s, k2) {
                let m = key_index(s, k2);
                assert(r[m].0 == k2);
                lemma_key_index_unique(r, k2, m);
            } else if has_key(r, k2) {
                let m = key_index(r, k2);
                assert(s[m].0 == k2);
            }
        }
    } else {
        assert forall|i: int, j: int| 0 <= i < r.len() && 0 <= j < r.len() && i != j implies (#[trigger] r[i]).0 != (#[trigger] r[j]).0 by {
            if i < s.len() && j < s.len() {
            } else if i == s.len() {
                assert(s[j].0 != k);
            } else {
                assert(s[i].0 != k);
            }
        }
        lemma_key_index_unique(r, k, s.len() as int);
        assert forall|k2: Seq<u8>| k2 != k implies value_of(r, k2) == value_of(s, k2) by {
            if has_key(s, k2) {
                let m = key_index(s, k2);
                assert(r[m].0 == k2);
                lemma_key_index_unique(r, k2, m);
            } else if has_key(r, k2) {
                let m = key_index(r, k2);
                assert(m < s.len());
                assert(s[m].0 == k2);
            }
        }
    }
}

/// Named values, each key once, in the order keys were first set.
pub struct Params {
    entries: Vec<(Vec<u8>, Vec<u8>)>,
}

impl View for Params {
    type V = HeaderSeq;

    closed spec fn view(&self) -> HeaderSeq {
        pairs_view(self.entries@)
    }
}

impl Params {
    pub open spec fn wf(&self) -> bool {
        keys_unique(self@)
    }

    pub fn new() -> (r: Params)
        ensures
            r@ == Seq::<(Seq<u8>, Seq<u8>)>::empty(),
            r.wf(),
    {
        let r = Params { entries: Vec::new() };
        assert(r@ =~= Seq::<(Seq<u8>, Seq<u8>)>::empty());
        r
    }

    pub fn len(&self) -> (r: usize)
        ensures
            r == self@.len(),
    {
        self.entries.len()
    }

    /// The pair at position `i`.
    pub fn entry(&self, i: usize) -> (r: (&[u8], &[u8]))
        requires
            i < self@.len(),
        ensures
            r.0@ == self@[i as int].0,
            r.1@ == self@[i as int].1,
    {
        (self.entries[i].0.as_slice(), self.entries[i].1.as_slice())
    }

    fn position(&self, key: &[u8]) -> (r: Option<usize>)
        ensures
            match r {
                Some(i) => i < self@.len() && self@[i as int].0 == key@,
                None => !has_key(self@, key@),
            },
    {
        let mut i: usize = 0;
        while i < self.entries.len()
            invariant
                i <= self@.len(),
                forall|j: int| 0 <= j < i ==> (#[trigger] self@[j]).0 != key@,
            decreases self.entries.len() - i,
        {
            if bytes_equal(self.entries[i].0.as_slice(), key) {
                return Some(i);
            }
            i += 1;
        }
        None
    }

    /// The value stored under `key`.
    pub fn get(&self, key: &[u8]) -> (r: Option<&[u8]>)
        requires
            self.wf(),
        ensures
            match r {
                Some(v) => value_of(self@, key@) == Some(v@),
                None => value_of(self@, key@) is None,
            },
    {
        match self.position(key) {
            Some(i) => {
                proof {
                    lemma_key_index_unique(self@, key@, i as int);
                }
                Some(self.entries[i].1.as_slice())
            },
            None => None,
        }
    }

    /// Sets `key` to `value`, replacing an earlier value.
    pub fn set(&mut self, key: &[u8], value: &[u8])
        requires
            old(self).wf(),
        ensures
            final(self).wf(),
            final(self)@ == with_value(old(self)@, key@, value@),
    {
        let k = copy_bytes(key);
        let v = copy_bytes(value);
        proof {
            lemma_with_value(self@, key@, value@);
        }
        match self.position(key) {
            Some(i) => {
                proof {
                    lemma_key_index_unique(self@, key@, i as int);
                }
                self.entries.set(i, (k, v));
            },
            None => {
                self.entries.push((k, v));
            },
        }
        assert(self@ =~= with_value(old(self)@, key@, value@));
    }

    /// The map holding the given pairs; a later value of a key replaces an earlier one.
    pub fn from_pairs(pairs: &Vec<(Vec<u8>, Vec<u8>)>) -> (r: Params)
        ensures
            r.wf(),
            r@ == collected(pairs_view(pairs@)),
    {
        let mut r = Params::new();
        let mut i: usize = 0;
        while i < pairs.len()
            invariant
                i <= pairs@.len(),
                r.wf(),
                r@ == collected(pairs_view(pairs@).subrange(0, i as int)),
            decreases pairs.len() - i,
        {
            r.set(pairs[i].0.as_slice(), pairs[i].1.as_slice());
            assert(pairs_view(pairs@).subrange(0, i + 1).drop_last() =~= pairs_view(pairs@).subrange(0, i as int));
            i += 1;
        }
        assert(pairs_view(pairs@).subrange(0, pairs@.len() as int) =~= pairs_view(pairs@));
        r
    }
}

} // verus!
