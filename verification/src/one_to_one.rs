//! The one-to-one relation: each key maps to at most one value on each side.
//! An insert therefore evicts, on both sides, any pre-existing edge sharing
//! either endpoint, and reports both displaced partners distinctly.

use vstd::prelude::*;

use crate::to_set::{lemma_insert_sorted, lemma_remove_sorted, lower_bound, strictly_sorted};

verus! {

/// A single-valued leaf map: strictly sorted keys parallel to their values.
pub struct ToOne {
    pub keys: Vec<u64>,
    pub vals: Vec<u64>,
}

impl ToOne {
    pub open spec fn wf(self) -> bool {
        &&& self.keys@.len() == self.vals@.len()
        &&& strictly_sorted(self.keys@)
    }

    pub open spec fn key_index(self, k: u64) -> int {
        choose|i: int| 0 <= i < self.keys@.len() && self.keys@[i] == k
    }

    pub open spec fn spec_has_key(self, k: u64) -> bool {
        self.keys@.contains(k)
    }

    /// The value mapped to `k`, when any.
    pub open spec fn spec_get(self, k: u64) -> Option<u64> {
        if self.spec_has_key(k) {
            Some(self.vals@[self.key_index(k)])
        } else {
            None
        }
    }

    pub open spec fn spec_has(self, k: u64, v: u64) -> bool {
        self.spec_get(k) == Some(v)
    }
}

/// A present key has exactly one position, and `key_index` is it.
pub proof fn lemma_one_index(t: ToOne, k: u64)
    requires
        t.wf(),
        t.spec_has_key(k),
    ensures
        0 <= t.key_index(k) < t.keys@.len(),
        t.keys@[t.key_index(k)] == k,
        forall|j: int| 0 <= j < t.keys@.len() && t.keys@[j] == k ==> j == t.key_index(k),
{
    assert(exists|i: int| 0 <= i < t.keys@.len() && t.keys@[i] == k);
    let i = t.key_index(k);
    assert forall|j: int| 0 <= j < t.keys@.len() && t.keys@[j] == k implies j == i by {
        if j < i {
            assert(t.keys@[j] < t.keys@[i]);
        } else if i < j {
            assert(t.keys@[i] < t.keys@[j]);
        }
    }
}

impl ToOne {
    pub fn new() -> (r: ToOne)
        ensures
            r.wf(),
            forall|k: u64| r.spec_get(k) == None::<u64>,
            r.keys@.len() == 0,
    {
        let r = ToOne { keys: Vec::new(), vals: Vec::new() };
        proof {
            assert(forall|k: u64| !r.keys@.contains(k));
        }
        r
    }

    /// Position of `k` among the keys, when present.
    fn find_key(&self, k: u64) -> (r: Option<usize>)
        requires
            self.wf(),
        ensures
            match r {
                Some(i) => self.spec_has_key(k) && i as int == self.key_index(k),
                None => !self.spec_has_key(k),
            },
    {
        let i = lower_bound(&self.keys, k);
        if i < self.keys.len() && self.keys[i] == k {
            proof {
                assert(self.keys@.contains(k));
                lemma_one_index(*self, k);
            }
            Some(i)
        } else {
            proof {
                if self.keys@.contains(k) {
                    let w = choose|w: int| 0 <= w < self.keys@.len() && self.keys@[w] == k;
                    if w < i {
                        assert(self.keys@[w] < k);
                    } else if w == i {
                        assert(self.keys@[i as int] == k);
                    } else {
                        assert(self.keys@[i as int] < self.keys@[w]);
                        assert(self.keys@[i as int] >= k);
                    }
                }
            }
            None
        }
    }

    /// The value mapped to `k`, when any.
    pub fn lookup(&self, k: u64) -> (r: Option<u64>)
        requires
            self.wf(),
        ensures
            r == self.spec_get(k),
    {
        match self.find_key(k) {
            Some(i) => Some(self.vals[i]),
            None => None,
        }
    }

    /// Maps `k` (currently unmapped) to `v`.
    pub fn insert_new(&mut self, k: u64, v: u64)
        requires
            old(self).wf(),
            !old(self).spec_has_key(k),
        ensures
            final(self).wf(),
            forall|p: u64|
                final(self).spec_get(p) == (if p == k {
                    Some(v)
                } else {
                    old(self).spec_get(p)
                }),
    {
        let ghost t0 = *self;
        let kpos = lower_bound(&self.keys, k);
        self.keys.insert(kpos, k);
        self.vals.insert(kpos, v);
        proof {
            assert forall|j: int| kpos <= j < t0.keys@.len() implies t0.keys@[j] > k by {
                if t0.keys@[j] == k {
                    assert(t0.keys@.contains(k));
                }
            }
            lemma_insert_sorted(t0.keys@, kpos as int, k);
            t0.keys@.insert_ensures(kpos as int, k);
            t0.vals@.insert_ensures(kpos as int, v);
            assert(self.wf());
            assert(self.spec_has_key(k) && self.key_index(k) == kpos) by {
                lemma_one_index(*self, k);
            }
            assert forall|p: u64| #![auto]
                true implies self.spec_get(p) == (if p == k {
                Some(v)
            } else {
                t0.spec_get(p)
            }) by {
                if p != k {
                    if t0.spec_has_key(p) {
                        lemma_one_index(t0, p);
                        let j = t0.key_index(p);
                        if j < kpos {
                            assert(self.keys@[j] == p);
                            assert(self.keys@.contains(p));
                            lemma_one_index(*self, p);
                            assert(self.key_index(p) == j);
                        } else {
                            assert(self.keys@[j + 1] == p);
                            assert(self.keys@.contains(p));
                            lemma_one_index(*self, p);
                            assert(self.key_index(p) == j + 1);
                        }
                    } else {
                        assert(!self.spec_has_key(p));
                    }
                }
            }
        }
    }

    /// Unmaps `k`, returning its former value when any.
    pub fn remove_key(&mut self, k: u64) -> (r: Option<u64>)
        requires
            old(self).wf(),
        ensures
            final(self).wf(),
            r == old(self).spec_get(k),
            forall|p: u64|
                final(self).spec_get(p) == (if p == k {
                    None::<u64>
                } else {
                    old(self).spec_get(p)
                }),
            old(self).spec_get(k) == None::<u64> ==> *final(self) == *old(self),
    {
        let ghost t0 = *self;
        match self.find_key(k) {
            None => None,
            Some(i) => {
                let v = self.vals[i];
                self.keys.remove(i);
                self.vals.remove(i);
                proof {
                    lemma_one_index(t0, k);
                    lemma_remove_sorted(t0.keys@, i as int);
                    t0.keys@.remove_ensures(i as int);
                    t0.vals@.remove_ensures(i as int);
                    assert(self.wf());
                    assert forall|p: u64| #![auto]
                        true implies self.spec_get(p) == (if p == k {
                        None::<u64>
                    } else {
                        t0.spec_get(p)
                    }) by {
                        assert(self.keys@.contains(p) <==> t0.keys@.contains(p) && p
                            != t0.keys@[i as int]);
                        if p != k && t0.spec_has_key(p) {
                            lemma_one_index(t0, p);
                            let j = t0.key_index(p);
                            if j < i {
                                assert(self.keys@[j] == p);
                                lemma_one_index(*self, p);
                                assert(self.key_index(p) == j);
                            } else {
                                assert(j > i);
                                assert(self.keys@[j - 1] == p);
                                lemma_one_index(*self, p);
                                assert(self.key_index(p) == j - 1);
                            }
                        }
                    }
                }
                Some(v)
            },
        }
    }
}

/// A one-to-one relation: forward and backward single-valued maps, mutually
/// consistent.
pub struct RawOneToOne {
    pub fwd: ToOne,
    pub bwd: ToOne,
}

/// The abstract effect of a one-to-one insert of `(a, b)`: that edge is
/// installed and every edge sharing either endpoint is gone.
pub open spec fn one_insert_step(s0: RawOneToOne, s1: RawOneToOne, a: u64, b: u64) -> bool {
    forall|x: u64, y: u64|
        #[trigger] s1.fwd.spec_has(x, y) <==> (x == a && y == b) || (s0.fwd.spec_has(x, y) && x
            != a && y != b)
}

impl RawOneToOne {
    pub open spec fn inv(self) -> bool {
        &&& self.fwd.wf()
        &&& self.bwd.wf()
        &&& forall|x: u64, y: u64| #[trigger] self.fwd.spec_has(x, y) <==> self.bwd.spec_has(y, x)
    }

    pub fn new() -> (r: RawOneToOne)
        ensures
            r.inv(),
            forall|a: u64| r.fwd.spec_get(a) == None::<u64>,
            forall|b: u64| r.bwd.spec_get(b) == None::<u64>,
    {
        RawOneToOne { fwd: ToOne::new(), bwd: ToOne::new() }
    }

    /// Installs `a <-> b`, evicting on both sides any edge sharing either
    /// endpoint.  Returns the two displaced partners distinctly: `a`'s former
    /// value, and `b`'s former key when the pair itself was not already
    /// present.
    pub fn insert(&mut self, a: u64, b: u64) -> (r: (Option<u64>, Option<u64>))
        requires
            old(self).inv(),
        ensures
            final(self).inv(),
            one_insert_step(*old(self), *final(self), a, b),
            final(self).fwd.spec_get(a) == Some(b),
            final(self).bwd.spec_get(b) == Some(a),
            r.0 == old(self).fwd.spec_get(a),
            r.1 == (if old(self).fwd.spec_has(a, b) {
                None::<u64>
            } else {
                old(self).bwd.spec_get(b)
            }),
    {
        let ghost s0 = *self;
        let prev_b = self.fwd.remove_key(a);
        let ghost f1 = self.fwd;
        match prev_b {
            Some(b0) => {
                self.bwd.remove_key(b0);
            },
            None => {},
        }
        let ghost b2 = self.bwd;
        let prev_a = self.bwd.remove_key(b);
        let ghost b3 = self.bwd;
        match prev_a {
            Some(a0) => {
                self.fwd.remove_key(a0);
            },
            None => {},
        }
        let ghost f3 = self.fwd;
        proof {
            assert(f3.spec_get(a) == None::<u64>);
            assert(b3.spec_get(b) == None::<u64>);
        }
        self.fwd.insert_new(a, b);
        self.bwd.insert_new(b, a);
        proof {
            assert(s0.fwd.spec_has(a, b) <==> s0.bwd.spec_has(b, a));
            assert forall|x: u64|
                x != a implies #[trigger] f3.spec_get(x) == (if prev_a == Some(x) {
                None::<u64>
            } else {
                s0.fwd.spec_get(x)
            }) by {
                assert(f1.spec_get(x) == s0.fwd.spec_get(x));
            }
            assert forall|y: u64|
                y != b implies #[trigger] b3.spec_get(y) == (if prev_b == Some(y) {
                None::<u64>
            } else {
                s0.bwd.spec_get(y)
            }) by {
                assert(b2.spec_get(y) == (if prev_b == Some(y) {
                    None::<u64>
                } else {
                    s0.bwd.spec_get(y)
                }));
            }
            assert forall|x: u64, y: u64| #[trigger]
                self.fwd.spec_has(x, y) <==> ((x == a && y == b) || (s0.fwd.spec_has(x, y) && x
                    != a && y != b)) by {
                assert(self.fwd.spec_get(x) == (if x == a {
                    Some(b)
                } else {
                    f3.spec_get(x)
                }));
                assert(s0.fwd.spec_has(x, y) <==> s0.bwd.spec_has(y, x));
                if x != a {
                    if prev_a == Some(x) {
                        assert(b2.spec_get(b) == Some(x));
                        assert(s0.bwd.spec_get(b) == Some(x));
                        assert(s0.fwd.spec_has(x, b) <==> s0.bwd.spec_has(b, x));
                        assert(s0.fwd.spec_get(x) == Some(b));
                    } else if y == b && s0.fwd.spec_has(x, b) {
                        assert(s0.bwd.spec_get(b) == Some(x));
                        if prev_b == Some(b) {
                            assert(s0.fwd.spec_get(a) == Some(b));
                            assert(s0.fwd.spec_has(a, b));
                            assert(s0.bwd.spec_has(b, a));
                        } else {
                            assert(b2.spec_get(b) == Some(x));
                        }
                    }
                }
            }
            assert forall|y: u64, x: u64| #[trigger]
                self.bwd.spec_has(y, x) <==> ((x == a && y == b) || (s0.bwd.spec_has(y, x) && x
                    != a && y != b)) by {
                assert(self.bwd.spec_get(y) == (if y == b {
                    Some(a)
                } else {
                    b3.spec_get(y)
                }));
                assert(s0.fwd.spec_has(x, y) <==> s0.bwd.spec_has(y, x));
                if y != b {
                    assert(b3.spec_get(y) == (if prev_b == Some(y) {
                        None::<u64>
                    } else {
                        s0.bwd.spec_get(y)
                    }));
                    if prev_b == Some(y) {
                        assert(s0.fwd.spec_get(a) == Some(y));
                        assert(s0.fwd.spec_has(a, y));
                        assert(s0.bwd.spec_get(y) == Some(a));
                    } else if x == a && s0.bwd.spec_has(y, a) {
                        assert(s0.fwd.spec_has(a, y));
                        assert(s0.fwd.spec_get(a) == Some(y));
                    }
                }
            }
            assert forall|x: u64, y: u64| #[trigger]
                self.fwd.spec_has(x, y) <==> self.bwd.spec_has(y, x) by {
                assert(self.fwd.spec_has(x, y) <==> ((x == a && y == b) || (s0.fwd.spec_has(x, y)
                    && x != a && y != b)));
                assert(self.bwd.spec_has(y, x) <==> ((x == a && y == b) || (s0.bwd.spec_has(y, x)
                    && x != a && y != b)));
                assert(s0.fwd.spec_has(x, y) <==> s0.bwd.spec_has(y, x));
            }
            assert(prev_a == (if s0.fwd.spec_has(a, b) {
                None::<u64>
            } else {
                s0.bwd.spec_get(b)
            })) by {
                assert(b2.spec_get(b) == (if prev_b == Some(b) {
                    None::<u64>
                } else {
                    s0.bwd.spec_get(b)
                }));
                if s0.fwd.spec_has(a, b) {
                    assert(prev_b == Some(b));
                } else if prev_b == Some(b) {
                    assert(s0.fwd.spec_get(a) == Some(b));
                }
            }
            assert(self.fwd.spec_get(a) == Some(b));
            assert(self.bwd.spec_get(b) == Some(a));
        }
        (prev_b, prev_a)
    }

    /// Removes the edge `(a, b)` when present.
    pub fn remove(&mut self, a: u64, b: u64) -> (r: Option<u64>)
        requires
            old(self).inv(),
        ensures
            final(self).inv(),
            r == (if old(self).fwd.spec_has(a, b) {
                Some(b)
            } else {
                None::<u64>
            }),
            forall|x: u64, y: u64|
                #[trigger] final(self).fwd.spec_has(x, y) <==> old(self).fwd.spec_has(x, y) && !(x
                    == a && y == b),
            !old(self).fwd.spec_has(a, b) ==> *final(self) == *old(self),
    {
        let ghost s0 = *self;
        let cur = self.fwd.lookup(a);
        if cur == Some(b) {
            self.fwd.remove_key(a);
            self.bwd.remove_key(b);
            proof {
                assert(s0.fwd.spec_has(a, b) <==> s0.bwd.spec_has(b, a));
                assert forall|x: u64, y: u64| #[trigger]
                    self.fwd.spec_has(x, y) <==> self.bwd.spec_has(y, x) by {
                    assert(self.fwd.spec_get(x) == (if x == a {
                        None::<u64>
                    } else {
                        s0.fwd.spec_get(x)
                    }));
                    assert(self.bwd.spec_get(y) == (if y == b {
                        None::<u64>
                    } else {
                        s0.bwd.spec_get(y)
                    }));
                    assert(s0.fwd.spec_has(x, y) <==> s0.bwd.spec_has(y, x));
                    if x == a && y != b && s0.bwd.spec_has(y, a) {
                        assert(s0.fwd.spec_get(a) == Some(y));
                    }
                    if y == b && x != a && s0.fwd.spec_has(x, b) {
                        assert(s0.bwd.spec_get(b) == Some(x));
                        assert(s0.bwd.spec_has(b, a));
                    }
                }
            }
            Some(b)
        } else {
            None
        }
    }

    /// Unmaps `a` on both sides, returning its former partner when any.
    pub fn expunge(&mut self, a: u64) -> (r: Option<u64>)
        requires
            old(self).inv(),
        ensures
            final(self).inv(),
            r == old(self).fwd.spec_get(a),
            final(self).fwd.spec_get(a) == None::<u64>,
            forall|x: u64, y: u64|
                #[trigger] final(self).fwd.spec_has(x, y) <==> old(self).fwd.spec_has(x, y) && x
                    != a,
    {
        let ghost s0 = *self;
        let r = self.fwd.remove_key(a);
        match r {
            Some(b0) => {
                self.bwd.remove_key(b0);
            },
            None => {},
        }
        proof {
            assert forall|x: u64, y: u64| #[trigger]
                self.fwd.spec_has(x, y) <==> self.bwd.spec_has(y, x) by {
                assert(self.fwd.spec_get(x) == (if x == a {
                    None::<u64>
                } else {
                    s0.fwd.spec_get(x)
                }));
                assert(self.bwd.spec_get(y) == (if r == Some(y) {
                    None::<u64>
                } else {
                    s0.bwd.spec_get(y)
                }));
                assert(s0.fwd.spec_has(x, y) <==> s0.bwd.spec_has(y, x));
                if r == Some(y) && x != a && s0.bwd.spec_has(y, x) {
                    assert(s0.fwd.spec_get(a) == Some(y));
                    assert(s0.fwd.spec_has(a, y));
                    assert(s0.bwd.spec_get(y) == Some(a));
                }
                if x == a && r != Some(y) && s0.bwd.spec_has(y, x) {
                    assert(s0.fwd.spec_has(a, y));
                    assert(s0.fwd.spec_get(a) == Some(y));
                }
            }
        }
        r
    }

    pub fn fwd_get(&self, a: u64) -> (r: Option<u64>)
        requires
            self.inv(),
        ensures
            r == self.fwd.spec_get(a),
    {
        self.fwd.lookup(a)
    }

    pub fn bwd_get(&self, b: u64) -> (r: Option<u64>)
        requires
            self.inv(),
        ensures
            r == self.bwd.spec_get(b),
    {
        self.bwd.lookup(b)
    }

    pub fn contains(&self, a: u64, b: u64) -> (r: bool)
        requires
            self.inv(),
        ensures
            r == self.fwd.spec_has(a, b),
    {
        self.fwd.lookup(a) == Some(b)
    }

    /// Number of stored edges.
    pub fn len(&self) -> (r: usize)
        requires
            self.inv(),
        ensures
            r as int == self.fwd.keys@.len(),
    {
        self.fwd.keys.len()
    }
}

/// One-to-one displacement: installing `(a, b2)` over an existing `a <-> b1`
/// removes that edge entirely, leaving `b1` unmapped on the backward side.
pub proof fn lemma_one_to_one_displacement(
    s0: RawOneToOne,
    s1: RawOneToOne,
    a: u64,
    b1: u64,
    b2: u64,
)
    requires
        s0.inv(),
        s1.inv(),
        s0.fwd.spec_has(a, b1),
        b1 != b2,
        one_insert_step(s0, s1, a, b2),
    ensures
        s1.fwd.spec_has(a, b2),
        !s1.fwd.spec_has(a, b1),
        forall|x: u64| !s1.fwd.spec_has(x, b1),
        forall|x: u64| !(#[trigger] s1.bwd.spec_has(b1, x)),
{
    assert forall|x: u64| !(#[trigger] s1.fwd.spec_has(x, b1)) by {
        if s1.fwd.spec_has(x, b1) {
            assert(s0.fwd.spec_has(x, b1) && x != a);
            assert(s0.bwd.spec_has(b1, x));
            assert(s0.bwd.spec_has(b1, a));
        }
    }
    assert forall|x: u64| !(#[trigger] s1.bwd.spec_has(b1, x)) by {
        assert(s1.fwd.spec_has(x, b1) <==> s1.bwd.spec_has(b1, x));
    }
}

} // verus!
