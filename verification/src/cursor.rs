//! Restartable, two-ended traversal over the nested "key -> set" stores,
//! without materializing the flattened sequence: a cursor holds an outer and
//! an inner position for each end and steps the inner position, falling back
//! to the outer one at set boundaries.

use vstd::prelude::*;

use crate::to_set::{ToSet, VSet, lemma_key_index};

verus! {

/// One key's pairs: the key paired with each of its values in order.
pub open spec fn pair_with(k: u64, vs: Seq<u64>) -> Seq<(u64, u64)> {
    Seq::new(vs.len(), |j: int| (k, vs[j]))
}

/// All pairs of the first `n` keys, key-major ascending.
pub open spec fn pairs_upto(t: ToSet, n: int) -> Seq<(u64, u64)>
    decreases n,
{
    if n <= 0 {
        Seq::empty()
    } else {
        pairs_upto(t, n - 1) + pair_with(t.keys@[n - 1], t.sets@[n - 1]@)
    }
}

/// All pairs of the store, key-major ascending.
pub open spec fn pairs_seq(t: ToSet) -> Seq<(u64, u64)> {
    pairs_upto(t, t.keys@.len() as int)
}

/// Key-major, then value, strict ordering on pairs.
pub open spec fn pair_lt(p: (u64, u64), q: (u64, u64)) -> bool {
    p.0 < q.0 || (p.0 == q.0 && p.1 < q.1)
}

/// A shorter prefix of the flattened pairs is a prefix of a longer one.
pub proof fn lemma_upto_prefix(t: ToSet, m: int, n: int)
    requires
        0 <= m <= n,
    ensures
        pairs_upto(t, m).len() <= pairs_upto(t, n).len(),
        forall|i: int|
            0 <= i < pairs_upto(t, m).len() ==> pairs_upto(t, n)[i] == pairs_upto(t, m)[i],
    decreases n,
{
    if m < n {
        lemma_upto_prefix(t, m, n - 1);
    }
}

/// The pair at inner position `ii` of key position `oi` sits at flat index
/// `pairs_upto(t, oi).len() + ii`.
pub proof fn lemma_pair_at(t: ToSet, n: int, oi: int, ii: int)
    requires
        0 <= oi < n,
        0 <= ii < t.sets@[oi]@.len(),
    ensures
        0 <= pairs_upto(t, oi).len() + ii < pairs_upto(t, n).len(),
        pairs_upto(t, n)[pairs_upto(t, oi).len() + ii] == (t.keys@[oi], t.sets@[oi]@[ii]),
    decreases n,
{
    if n == oi + 1 {
        assert(pairs_upto(t, n) == pairs_upto(t, oi) + pair_with(t.keys@[oi], t.sets@[oi]@));
    } else {
        lemma_pair_at(t, n - 1, oi, ii);
    }
}

/// A two-ended cursor over all pairs of one store.  The store is handed to
/// each step, so a cursor holds no borrow; `done` marks an exhausted cursor.
pub struct PairCursor {
    pub fo: usize,
    pub fi: usize,
    pub bo: usize,
    pub bi: usize,
    pub done: bool,
}

impl PairCursor {
    /// Flat index of the next pair the front will yield.
    pub open spec fn front_at(self, t: ToSet) -> int {
        pairs_upto(t, self.fo as int).len() + self.fi
    }

    /// Flat index of the next pair the back will yield.
    pub open spec fn back_at(self, t: ToSet) -> int {
        pairs_upto(t, self.bo as int).len() + self.bi
    }

    pub open spec fn wf(self, t: ToSet) -> bool {
        &&& t.wf()
        &&& !self.done ==> {
            &&& self.fo <= self.bo < t.keys@.len()
            &&& self.fi < t.sets@[self.fo as int]@.len()
            &&& self.bi < t.sets@[self.bo as int]@.len()
            &&& (self.fo == self.bo ==> self.fi <= self.bi)
        }
    }

    /// The pairs not yet yielded, in ascending order.
    pub open spec fn remaining(self, t: ToSet) -> Seq<(u64, u64)> {
        if self.done {
            Seq::empty()
        } else {
            pairs_seq(t).subrange(self.front_at(t), self.back_at(t) + 1)
        }
    }
}

/// Both ends of a live cursor point into the flattened pairs, at the pairs
/// their positions name, and the ends coincide exactly when the positions do.
pub proof fn lemma_span(c: PairCursor, t: ToSet)
    requires
        c.wf(t),
        !c.done,
    ensures
        0 <= c.front_at(t) <= c.back_at(t) < pairs_seq(t).len(),
        pairs_seq(t)[c.front_at(t)] == (t.keys@[c.fo as int], t.sets@[c.fo as int]@[c.fi as int]),
        pairs_seq(t)[c.back_at(t)] == (t.keys@[c.bo as int], t.sets@[c.bo as int]@[c.bi as int]),
        (c.fo == c.bo && c.fi == c.bi) <==> c.front_at(t) == c.back_at(t),
{
    let n = t.keys@.len() as int;
    lemma_pair_at(t, n, c.fo as int, c.fi as int);
    lemma_pair_at(t, n, c.bo as int, c.bi as int);
    if c.fo == c.bo {
        assert(c.front_at(t) <= c.back_at(t));
    } else {
        assert(pairs_upto(t, c.fo as int + 1) == pairs_upto(t, c.fo as int) + pair_with(
            t.keys@[c.fo as int],
            t.sets@[c.fo as int]@,
        ));
        lemma_upto_prefix(t, c.fo as int + 1, c.bo as int);
        assert(c.front_at(t) < pairs_upto(t, c.fo as int + 1).len());
        assert(c.front_at(t) < c.back_at(t));
    }
}

impl PairCursor {
    /// A fresh cursor over all pairs of `t`.
    pub fn new(t: &ToSet) -> (r: PairCursor)
        requires
            t.wf(),
        ensures
            r.wf(*t),
            r.remaining(*t) == pairs_seq(*t),
    {
        if t.keys.len() == 0 {
            let r = PairCursor { fo: 0, fi: 0, bo: 0, bi: 0, done: true };
            proof {
                assert(r.remaining(*t) =~= pairs_seq(*t));
            }
            r
        } else {
            let bo = t.keys.len() - 1;
            let bi = t.sets[bo].len() - 1;
            let r = PairCursor { fo: 0, fi: 0, bo, bi, done: false };
            proof {
                lemma_span(r, *t);
                assert(pairs_upto(*t, bo as int + 1) == pairs_upto(*t, bo as int) + pair_with(
                    t.keys@[bo as int],
                    t.sets@[bo as int]@,
                ));
                assert(r.back_at(*t) + 1 == pairs_seq(*t).len());
                assert(r.front_at(*t) == 0);
                assert(r.remaining(*t) =~= pairs_seq(*t));
            }
            r
        }
    }

    /// Yields the least remaining pair, or `None` when the cursor is spent.
    pub fn next(&mut self, t: &ToSet) -> (r: Option<(u64, u64)>)
        requires
            old(self).wf(*t),
        ensures
            final(self).wf(*t),
            (if old(self).remaining(*t).len() == 0 {
                r == None::<(u64, u64)> && final(self).remaining(*t) == old(self).remaining(*t)
            } else {
                r == Some(old(self).remaining(*t)[0]) && final(self).remaining(*t) == old(
                    self,
                ).remaining(*t).drop_first()
            }),
    {
        if self.done {
            return None;
        }
        let ghost c0 = *self;
        proof {
            lemma_span(c0, *t);
        }
        let k = self.keys_at(t);
        let v = t.sets[self.fo][self.fi];
        if self.fo == self.bo && self.fi == self.bi {
            self.done = true;
            proof {
                assert(c0.remaining(*t).len() == 1);
                assert(self.remaining(*t) =~= c0.remaining(*t).drop_first());
            }
        } else {
            if self.fi < t.sets[self.fo].len() - 1 {
                self.fi = self.fi + 1;
            } else {
                proof {
                    if self.fo == self.bo {
                        assert(self.fi < self.bi);
                        assert(self.fi + 1 < t.sets@[self.fo as int]@.len());
                    }
                }
                self.fo = self.fo + 1;
                self.fi = 0;
                proof {
                    assert(pairs_upto(*t, self.fo as int) == pairs_upto(*t, self.fo as int - 1)
                        + pair_with(
                        t.keys@[self.fo as int - 1],
                        t.sets@[self.fo as int - 1]@,
                    ));
                }
            }
            proof {
                assert(self.front_at(*t) == c0.front_at(*t) + 1);
                lemma_span(*self, *t);
                assert(self.remaining(*t) =~= c0.remaining(*t).drop_first());
            }
        }
        Some((k, v))
    }

    /// Yields the greatest remaining pair, or `None` when the cursor is spent.
    pub fn next_back(&mut self, t: &ToSet) -> (r: Option<(u64, u64)>)
        requires
            old(self).wf(*t),
        ensures
            final(self).wf(*t),
            (if old(self).remaining(*t).len() == 0 {
                r == None::<(u64, u64)> && final(self).remaining(*t) == old(self).remaining(*t)
            } else {
                r == Some(old(self).remaining(*t).last()) && final(self).remaining(*t) == old(
                    self,
                ).remaining(*t).drop_last()
            }),
    {
        if self.done {
            return None;
        }
        let ghost c0 = *self;
        proof {
            lemma_span(c0, *t);
        }
        let k = t.keys[self.bo];
        let v = t.sets[self.bo][self.bi];
        if self.fo == self.bo && self.fi == self.bi {
            self.done = true;
            proof {
                assert(c0.remaining(*t).len() == 1);
                assert(self.remaining(*t) =~= c0.remaining(*t).drop_last());
            }
        } else {
            if self.bi > 0 {
                self.bi = self.bi - 1;
            } else {
                proof {
                    assert(self.fo < self.bo);
                }
                self.bo = self.bo - 1;
                let bi = t.sets[self.bo].len() - 1;
                self.bi = bi;
                proof {
                    assert(pairs_upto(*t, self.bo as int + 1) == pairs_upto(*t, self.bo as int)
                        + pair_with(t.keys@[self.bo as int], t.sets@[self.bo as int]@));
                }
            }
            proof {
                assert(self.back_at(*t) == c0.back_at(*t) - 1);
                lemma_span(*self, *t);
                assert(self.remaining(*t) =~= c0.remaining(*t).drop_last());
            }
        }
        Some((k, v))
    }

    /// The key under the front of a live cursor.
    fn keys_at(&self, t: &ToSet) -> (r: u64)
        requires
            self.wf(*t),
            !self.done,
        ensures
            r == t.keys@[self.fo as int],
    {
        t.keys[self.fo]
    }
}

/// A two-ended cursor over one sorted vector of words (keys of a store, or
/// one key's value set).
pub struct VecCursor {
    pub f: usize,
    pub b: usize,
    pub done: bool,
}

impl VecCursor {
    pub open spec fn wf(self, s: Seq<u64>) -> bool {
        !self.done ==> self.f <= self.b < s.len()
    }

    /// The elements not yet yielded, in ascending position order.
    pub open spec fn remaining(self, s: Seq<u64>) -> Seq<u64> {
        if self.done {
            Seq::empty()
        } else {
            s.subrange(self.f as int, self.b as int + 1)
        }
    }

    /// A fresh cursor over all of `v`.
    pub fn new(v: &Vec<u64>) -> (r: VecCursor)
        ensures
            r.wf(v@),
            r.remaining(v@) == v@,
    {
        if v.len() == 0 {
            let r = VecCursor { f: 0, b: 0, done: true };
            proof {
                assert(r.remaining(v@) =~= v@);
            }
            r
        } else {
            let r = VecCursor { f: 0, b: v.len() - 1, done: false };
            proof {
                assert(r.remaining(v@) =~= v@);
            }
            r
        }
    }

    /// Yields the first remaining element, or `None` when the cursor is spent.
    pub fn next(&mut self, v: &Vec<u64>) -> (r: Option<u64>)
        requires
            old(self).wf(v@),
        ensures
            final(self).wf(v@),
            (if old(self).remaining(v@).len() == 0 {
                r == None::<u64> && final(self).remaining(v@) == old(self).remaining(v@)
            } else {
                r == Some(old(self).remaining(v@)[0]) && final(self).remaining(v@) == old(
                    self,
                ).remaining(v@).drop_first()
            }),
    {
        if self.done {
            return None;
        }
        let ghost c0 = *self;
        let x = v[self.f];
        if self.f == self.b {
            self.done = true;
        } else {
            self.f = self.f + 1;
        }
        proof {
            assert(self.remaining(v@) =~= c0.remaining(v@).drop_first());
        }
        Some(x)
    }

    /// Yields the last remaining element, or `None` when the cursor is spent.
    pub fn next_back(&mut self, v: &Vec<u64>) -> (r: Option<u64>)
        requires
            old(self).wf(v@),
        ensures
            final(self).wf(v@),
            (if old(self).remaining(v@).len() == 0 {
                r == None::<u64> && final(self).remaining(v@) == old(self).remaining(v@)
            } else {
                r == Some(old(self).remaining(v@).last()) && final(self).remaining(v@) == old(
                    self,
                ).remaining(v@).drop_last()
            }),
    {
        if self.done {
            return None;
        }
        let ghost c0 = *self;
        let x = v[self.b];
        if self.f == self.b {
            self.done = true;
        } else {
            self.b = self.b - 1;
        }
        proof {
            assert(self.remaining(v@) =~= c0.remaining(v@).drop_last());
        }
        Some(x)
    }
}

impl ToSet {
    /// A two-ended cursor over all (key, value) pairs of this store,
    /// key-major ascending; step it with the same store.
    pub fn iter(&self) -> (r: PairCursor)
        requires
            self.wf(),
        ensures
            r.wf(*self),
            r.remaining(*self) == pairs_seq(*self),
    {
        PairCursor::new(self)
    }

    /// A two-ended cursor over the keys of this store, ascending; step it
    /// with the store's key vector.
    pub fn keys_iter(&self) -> (r: VecCursor)
        requires
            self.wf(),
        ensures
            r.wf(self.keys@),
            r.remaining(self.keys@) == self.keys@,
    {
        VecCursor::new(&self.keys)
    }
}

/// The value components of a pair sequence, in order.
pub open spec fn values_of(s: Seq<(u64, u64)>) -> Seq<u64> {
    Seq::new(s.len(), |i: int| s[i].1)
}

/// A two-ended cursor over the values of all pairs, in pair order.
pub struct ValsCursor {
    pub inner: PairCursor,
}

impl ValsCursor {
    pub open spec fn wf(self, t: ToSet) -> bool {
        self.inner.wf(t)
    }

    /// The values not yet yielded, in pair order.
    pub open spec fn remaining(self, t: ToSet) -> Seq<u64> {
        values_of(self.inner.remaining(t))
    }

    /// A fresh cursor over the values of all pairs of `t`.
    pub fn new(t: &ToSet) -> (r: ValsCursor)
        requires
            t.wf(),
        ensures
            r.wf(*t),
            r.remaining(*t) == values_of(pairs_seq(*t)),
    {
        ValsCursor { inner: PairCursor::new(t) }
    }

    /// Yields the value of the least remaining pair, or `None` when spent.
    pub fn next(&mut self, t: &ToSet) -> (r: Option<u64>)
        requires
            old(self).wf(*t),
        ensures
            final(self).wf(*t),
            (if old(self).remaining(*t).len() == 0 {
                r == None::<u64> && final(self).remaining(*t) == old(self).remaining(*t)
            } else {
                r == Some(old(self).remaining(*t)[0]) && final(self).remaining(*t) == old(
                    self,
                ).remaining(*t).drop_first()
            }),
    {
        let ghost c0 = *self;
        let p = self.inner.next(t);
        proof {
            if c0.remaining(*t).len() > 0 {
                assert(self.remaining(*t) =~= c0.remaining(*t).drop_first());
            }
        }
        match p {
            Some(kv) => Some(kv.1),
            None => None,
        }
    }

    /// Yields the value of the greatest remaining pair, or `None` when spent.
    pub fn next_back(&mut self, t: &ToSet) -> (r: Option<u64>)
        requires
            old(self).wf(*t),
        ensures
            final(self).wf(*t),
            (if old(self).remaining(*t).len() == 0 {
                r == None::<u64> && final(self).remaining(*t) == old(self).remaining(*t)
            } else {
                r == Some(old(self).remaining(*t).last()) && final(self).remaining(*t) == old(
                    self,
                ).remaining(*t).drop_last()
            }),
    {
        let ghost c0 = *self;
        let p = self.inner.next_back(t);
        proof {
            if c0.remaining(*t).len() > 0 {
                assert(self.remaining(*t) =~= c0.remaining(*t).drop_last());
            }
        }
        match p {
            Some(kv) => Some(kv.1),
            None => None,
        }
    }
}

/// A two-ended cursor pairing each key, in order, with a snapshot view of
/// its value set.
pub struct SetsCursor {
    pub keys: VecCursor,
}

impl SetsCursor {
    pub open spec fn wf(self, t: ToSet) -> bool {
        &&& t.wf()
        &&& self.keys.wf(t.keys@)
    }

    /// The keys whose sets have not yet been yielded, in ascending order.
    pub open spec fn remaining(self, t: ToSet) -> Seq<u64> {
        self.keys.remaining(t.keys@)
    }

    /// A fresh cursor over all keys of `t` with their sets.
    pub fn new(t: &ToSet) -> (r: SetsCursor)
        requires
            t.wf(),
        ensures
            r.wf(*t),
            r.remaining(*t) == t.keys@,
    {
        SetsCursor { keys: VecCursor::new(&t.keys) }
    }

    /// Yields the least remaining key with a view of its set, or `None` when
    /// the cursor is spent.
    pub fn next(&mut self, t: &ToSet) -> (r: Option<(u64, VSet)>)
        requires
            old(self).wf(*t),
        ensures
            final(self).wf(*t),
            (match r {
                Some(p) => old(self).remaining(*t).len() > 0 && p.0 == old(self).remaining(*t)[0]
                    && p.1.vals@ == t.val_seq(p.0) && final(self).remaining(*t) == old(
                    self,
                ).remaining(*t).drop_first(),
                None => old(self).remaining(*t).len() == 0 && final(self).remaining(*t) == old(
                    self,
                ).remaining(*t),
            }),
    {
        match self.keys.next(&t.keys) {
            None => None,
            Some(k) => Some((k, t.get(k))),
        }
    }

    /// Yields the greatest remaining key with a view of its set, or `None`
    /// when the cursor is spent.
    pub fn next_back(&mut self, t: &ToSet) -> (r: Option<(u64, VSet)>)
        requires
            old(self).wf(*t),
        ensures
            final(self).wf(*t),
            (match r {
                Some(p) => old(self).remaining(*t).len() > 0 && p.0 == old(self).remaining(
                    *t,
                ).last() && p.1.vals@ == t.val_seq(p.0) && final(self).remaining(*t) == old(
                    self,
                ).remaining(*t).drop_last(),
                None => old(self).remaining(*t).len() == 0 && final(self).remaining(*t) == old(
                    self,
                ).remaining(*t),
            }),
    {
        match self.keys.next_back(&t.keys) {
            None => None,
            Some(k) => Some((k, t.get(k))),
        }
    }
}

/// The flattened pairs of a well-formed store are strictly ascending in
/// key-major order, so a full front-to-back traversal yields them ascending
/// and a back-to-front traversal yields the exact reverse.
pub proof fn lemma_pairs_ordered(t: ToSet, i: int, j: int)
    requires
        t.wf(),
        0 <= i < j < pairs_seq(t).len(),
    ensures
        pair_lt(pairs_seq(t)[i], pairs_seq(t)[j]),
{
    lemma_upto_ordered(t, t.keys@.len() as int);
}

/// Every pair of the flattened sequence is a stored pair and conversely.
pub proof fn lemma_pairs_complete(t: ToSet, k: u64, v: u64)
    requires
        t.wf(),
    ensures
        pairs_seq(t).contains((k, v)) <==> t.spec_has(k, v),
{
    let n = t.keys@.len() as int;
    if t.spec_has(k, v) {
        lemma_key_index(t, k);
        let oi = t.key_index(k);
        let ii = choose|ii: int| 0 <= ii < t.val_seq(k).len() && t.val_seq(k)[ii] == v;
        lemma_pair_at(t, n, oi, ii);
        assert(pairs_seq(t)[pairs_upto(t, oi).len() + ii] == (k, v));
    }
    if pairs_seq(t).contains((k, v)) {
        let idx = choose|idx: int| 0 <= idx < pairs_seq(t).len() && pairs_seq(t)[idx] == (k, v);
        lemma_upto_member(t, n, idx);
        let oi = choose|oi: int|
            0 <= oi < n && pairs_seq(t)[idx].0 == t.keys@[oi] && t.sets@[oi]@.contains(
                pairs_seq(t)[idx].1,
            );
        assert(t.keys@.contains(k));
        lemma_key_index(t, k);
        assert(t.key_index(k) == oi);
    }
}

/// Helper induction: pairs of a prefix are ordered, and all carry a key among
/// the first `n` keys.
proof fn lemma_upto_ordered(t: ToSet, n: int)
    requires
        t.wf(),
        0 <= n <= t.keys@.len(),
    ensures
        forall|i: int, j: int|
            0 <= i < j < pairs_upto(t, n).len() ==> pair_lt(
                pairs_upto(t, n)[i],
                pairs_upto(t, n)[j],
            ),
        n > 0 ==> forall|i: int|
            0 <= i < pairs_upto(t, n).len() ==> (#[trigger] pairs_upto(t, n)[i]).0 <= t.keys@[n
                - 1],
    decreases n,
{
    if n > 0 {
        lemma_upto_ordered(t, n - 1);
        let prev = pairs_upto(t, n - 1);
        let blk = pair_with(t.keys@[n - 1], t.sets@[n - 1]@);
        let cur = pairs_upto(t, n);
        assert(cur == prev + blk);
        assert forall|i: int, j: int| 0 <= i < j < cur.len() implies pair_lt(cur[i], cur[j]) by {
            if j < prev.len() {
            } else if i >= prev.len() {
                assert(cur[i] == blk[i - prev.len()] && cur[j] == blk[j - prev.len()]);
                assert(t.sets@[n - 1]@[i - prev.len()] < t.sets@[n - 1]@[j - prev.len()]);
            } else {
                assert(cur[i] == prev[i] && cur[j] == blk[j - prev.len()]);
                if n - 1 > 0 {
                    assert(prev[i].0 <= t.keys@[n - 2]);
                    assert(t.keys@[n - 2] < t.keys@[n - 1]);
                }
            }
        }
        assert forall|i: int| 0 <= i < cur.len() implies (#[trigger] cur[i]).0 <= t.keys@[n
            - 1] by {
            if i < prev.len() {
                if n - 1 > 0 {
                    assert(prev[i].0 <= t.keys@[n - 2]);
                    assert(t.keys@[n - 2] < t.keys@[n - 1]);
                }
            } else {
                assert(cur[i] == blk[i - prev.len()]);
            }
        }
    }
}

/// Helper induction: each flat index names a key position and a stored value.
proof fn lemma_upto_member(t: ToSet, n: int, idx: int)
    requires
        t.wf(),
        0 <= n <= t.keys@.len(),
        0 <= idx < pairs_upto(t, n).len(),
    ensures
        exists|oi: int|
            0 <= oi < n && pairs_upto(t, n)[idx].0 == t.keys@[oi] && t.sets@[oi]@.contains(
                pairs_upto(t, n)[idx].1,
            ),
    decreases n,
{
    let prev = pairs_upto(t, n - 1);
    let blk = pair_with(t.keys@[n - 1], t.sets@[n - 1]@);
    if idx < prev.len() {
        lemma_upto_member(t, n - 1, idx);
        let oi = choose|oi: int|
            0 <= oi < n - 1 && pairs_upto(t, n - 1)[idx].0 == t.keys@[oi] && t.sets@[oi]@.contains(
                pairs_upto(t, n - 1)[idx].1,
            );
        assert(pairs_upto(t, n)[idx] == prev[idx]);
        assert(0 <= oi < n && pairs_upto(t, n)[idx].0 == t.keys@[oi] && t.sets@[oi]@.contains(
            pairs_upto(t, n)[idx].1,
        ));
    } else {
        let ii = idx - prev.len();
        assert(pairs_upto(t, n)[idx] == blk[ii]);
        assert(t.sets@[n - 1]@.contains(t.sets@[n - 1]@[ii]));
        assert(0 <= n - 1 < n && pairs_upto(t, n)[idx].0 == t.keys@[n - 1] && t.sets@[n
            - 1]@.contains(pairs_upto(t, n)[idx].1));
    }
}

} // verus!
