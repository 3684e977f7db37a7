//! The header mapping of one HTTP request: byte-string keys and values,
//! keys stored lower-cased, one entry per key, insertion order kept.

use vstd::prelude::*;

verus! {

/// Index of the first pair at or after `i` whose key is `k`.
pub open spec fn key_idx_from(ps: Seq<(Seq<u8>, Seq<u8>)>, k: Seq<u8>, i: int) -> Option<int>
    decreases ps.len() - i when 0 <= i
{
    if i >= ps.len() {
        None
    } else if ps[i].0 == k {
        Some(i)
    } else {
        key_idx_from(ps, k, i + 1)
    }
}

/// What [`key_idx_from`] returns, when it finds a pair.
pub proof fn lemma_key_idx_forward(ps: Seq<(Seq<u8>, Seq<u8>)>, k: Seq<u8>, i: int)
    requires
        0 <= i,
    ensures
        key_idx_from(ps, k, i) matches Some(j) ==>
            i <= j < ps.len() && ps[j].0 == k && (forall|m: int| i <= m < j ==> ps[m].0 != k),
        key_idx_from(ps, k, i) is None ==>
            (forall|m: int| i <= m < ps.len() ==> ps[m].0 != k),
    decreases ps.len() - i,
{
    if i < ps.len() && ps[i].0 != k {
        lemma_key_idx_forward(ps, k, i + 1);
    }
}

/// [`key_idx_from`] finds the first match.
pub proof fn lemma_key_idx_exists(ps: Seq<(Seq<u8>, Seq<u8>)>, k: Seq<u8>, i: int, j: int)
    requires
        0 <= i <= j < ps.len(),
        ps[j].0 == k,
        forall|m: int| i <= m < j ==> ps[m].0 != k,
    ensures
        key_idx_from(ps, k, i) == Some(j),
    decreases j - i,
{
    if i < j {
        lemma_key_idx_exists(ps, k, i + 1, j);
    }
}

/// [`key_idx_from`] finds nothing when no key matches.
pub proof fn lemma_key_idx_none(ps: Seq<(Seq<u8>, Seq<u8>)>, k: Seq<u8>, i: int)
    requires
        0 <= i,
        forall|m: int| i <= m < ps.len() ==> ps[m].0 != k,
    ensures
        key_idx_from(ps, k, i) is None,
    decreases ps.len() - i,
{
    if i < ps.len() {
        lemma_key_idx_none(ps, k, i + 1);
    }
}

/// The value stored under `k`: the first pair with that key.
pub open spec fn lookup(ps: Seq<(Seq<u8>, Seq<u8>)>, k: Seq<u8>) -> Option<Seq<u8>> {
    match key_idx_from(ps, k, 0) {
        None => None,
        Some(j) => Some(ps[j].1),
    }
}

/// `ps` after storing `v` under `k`: the first pair with key `k` is
/// replaced in place, or a new pair is appended.
pub open spec fn upsert(
    ps: Seq<(Seq<u8>, Seq<u8>)>,
    k: Seq<u8>,
    v: Seq<u8>,
) -> Seq<(Seq<u8>, Seq<u8>)> {
    match key_idx_from(ps, k, 0) {
        None => ps.push((k, v)),
        Some(j) => ps.update(j, (k, v)),
    }
}

/// Storing under a key makes that key hold exactly the stored value.
pub proof fn lemma_lookup_upsert_same(ps: Seq<(Seq<u8>, Seq<u8>)>, k: Seq<u8>, v: Seq<u8>)
    ensures
        lookup(upsert(ps, k, v), k) == Some(v),
{
    lemma_key_idx_forward(ps, k, 0);
    match key_idx_from(ps, k, 0) {
        None => {
            let up = ps.push((k, v));
            lemma_key_idx_exists(up, k, 0, ps.len() as int);
        },
        Some(j) => {
            let up = ps.update(j, (k, v));
            lemma_key_idx_exists(up, k, 0, j);
        },
    }
}

/// Storing under one key leaves every other key unchanged.
pub proof fn lemma_lookup_upsert_other(
    ps: Seq<(Seq<u8>, Seq<u8>)>,
    k: Seq<u8>,
    v: Seq<u8>,
    k2: Seq<u8>,
)
    requires
        k2 != k,
    ensures
        lookup(upsert(ps, k, v), k2) == lookup(ps, k2),
{
    lemma_key_idx_forward(ps, k, 0);
    lemma_key_idx_forward(ps, k2, 0);
    let up = upsert(ps, k, v);
    match key_idx_from(ps, k2, 0) {
        None => {
            lemma_key_idx_none(up, k2, 0);
        },
        Some(j2) => {
            lemma_key_idx_exists(up, k2, 0, j2);
        },
    }
}

/// The header mapping: looked up by exact byte key, replaced in place
/// on repeated insertion, iterated in insertion order.
pub struct HeaderMap {
    pairs: Vec<(Vec<u8>, Vec<u8>)>,
}

/// The views of a vector of byte-string pairs.
pub open spec fn pairs_view(ps: Seq<(Vec<u8>, Vec<u8>)>) -> Seq<(Seq<u8>, Seq<u8>)> {
    ps.map_values(|p: (Vec<u8>, Vec<u8>)| (p.0@, p.1@))
}

impl View for HeaderMap {
    type V = Seq<(Seq<u8>, Seq<u8>)>;

    closed spec fn view(&self) -> Seq<(Seq<u8>, Seq<u8>)> {
        pairs_view(self.pairs@)
    }
}

impl Clone for HeaderMap {
    fn clone(&self) -> (r: Self)
        ensures
            r@ == self@,
    {
        let mut out: Vec<(Vec<u8>, Vec<u8>)> = Vec::new();
        let mut i: usize = 0;
        while i < self.pairs.len()
            invariant
                i <= self.pairs@.len(),
                pairs_view(out@) == self@.take(i as int),
            decreases self.pairs@.len() - i,
        {
            let k = crate::text::clone_bytes(self.pairs[i].0.as_slice());
            let v = crate::text::clone_bytes(self.pairs[i].1.as_slice());
            let ghost prev = out@;
            out.push((k, v));
            i = i + 1;
            proof {
                assert(self@.len() == self.pairs@.len());
                assert(pairs_view(prev).len() == prev.len());
                assert forall|j: int| 0 <= j < i implies
                    #[trigger] pairs_view(out@)[j] == self@.take(i as int)[j] by {
                    if j < prev.len() {
                        assert(pairs_view(prev)[j] == self@.take(i - 1)[j]);
                    }
                }
                assert(pairs_view(out@) =~= self@.take(i as int));
            }
        }
        let r = HeaderMap { pairs: out };
        assert(r@ =~= self@);
        r
    }
}

impl HeaderMap {
    /// An empty mapping.
    pub fn new() -> (r: HeaderMap)
        ensures
            r@ == Seq::<(Seq<u8>, Seq<u8>)>::empty(),
    {
        let r = HeaderMap { pairs: Vec::new() };
        proof {
            assert(r@ =~= Seq::<(Seq<u8>, Seq<u8>)>::empty());
        }
        r
    }

    /// How many keys are stored.
    pub fn count(&self) -> (r: usize)
        ensures
            r == self@.len(),
    {
        self.pairs.len()
    }

    /// The key of the `i`-th pair.
    pub fn key_at(&self, i: usize) -> (r: &Vec<u8>)
        requires
            i < self@.len(),
        ensures
            r@ == self@[i as int].0,
    {
        &self.pairs[i].0
    }

    /// The value of the `i`-th pair.
    pub fn val_at(&self, i: usize) -> (r: &Vec<u8>)
        requires
            i < self@.len(),
        ensures
            r@ == self@[i as int].1,
    {
        &self.pairs[i].1
    }

    fn find_key(&self, k: &[u8]) -> (r: Option<usize>)
        ensures
            match r {
                Some(i) => key_idx_from(self@, k@, 0) == Some(i as int),
                None => key_idx_from(self@, k@, 0) is None,
            },
    {
        let mut i: usize = 0;
        while i < self.pairs.len()
            invariant
                i <= self@.len(),
                self@.len() == self.pairs@.len(),
                key_idx_from(self@, k@, 0) == key_idx_from(self@, k@, i as int),
        decreases self@.len() - i,
        {
            if crate::text::bytes_eq(self.pairs[i].0.as_slice(), k) {
                return Some(i);
            }
            i = i + 1;
        }
        None
    }

    /// The value stored under `k`, if any.
    pub fn get(&self, k: &[u8]) -> (r: Option<&Vec<u8>>)
        ensures
            match r {
                Some(v) => lookup(self@, k@) == Some(v@),
                None => lookup(self@, k@) is None,
            },
    {
        match self.find_key(k) {
            Some(i) => {
                proof {
                    lemma_key_idx_forward(self@, k@, 0);
                }
                Some(&self.pairs[i].1)
            },
            None => None,
        }
    }

    /// Stores `v` under `k`, replacing any earlier value for `k`.
    pub fn insert(&mut self, k: Vec<u8>, v: Vec<u8>)
        ensures
            final(self)@ == upsert(old(self)@, k@, v@),
    {
        match self.find_key(k.as_slice()) {
            Some(i) => {
                proof {
                    lemma_key_idx_forward(self@, k@, 0);
                }
                self.pairs.set(i, (k, v));
                assert(self@ =~= upsert(old(self)@, k@, v@));
            },
            None => {
                self.pairs.push((k, v));
                assert(self@ =~= upsert(old(self)@, k@, v@));
            },
        }
    }
}

} // verus!
