//! The shared wrapper for the one-to-one relation: one owner, per-key read
//! accessors that memoize the key's partner on first use, and mutations
//! through exclusive leases scoped to a single call.  The exclusivity policy
//! is the same as for the set-to-set wrapper.

use vstd::prelude::*;

use crate::one_to_one::{RawOneToOne, one_insert_step};

verus! {

/// Owner of one one-to-one relation, brokering shared reads and exclusive
/// mutations.
pub struct OneToOne {
    pub raw: RawOneToOne,
}

/// Shared access port for the forward direction of one wrapped relation.
pub struct Fwd {}

/// Shared access port for the backward direction of one wrapped relation.
pub struct Bwd {}

/// A per-key read accessor with a private memoization cell: the key's
/// partner is looked up at most once per accessor and reused afterwards.
pub struct FwdVal {
    pub key: u64,
    pub cache: Option<Option<u64>>,
}

/// A per-key read accessor for the backward direction.
pub struct BwdVal {
    pub key: u64,
    pub cache: Option<Option<u64>>,
}

impl OneToOne {
    pub open spec fn inv(self) -> bool {
        self.raw.inv()
    }

    pub fn new() -> (r: OneToOne)
        ensures
            r.inv(),
            forall|a: u64| r.raw.fwd.spec_get(a) == None::<u64>,
            forall|b: u64| r.raw.bwd.spec_get(b) == None::<u64>,
    {
        OneToOne { raw: RawOneToOne::new() }
    }

    pub fn fwd(&self) -> (r: Fwd) {
        Fwd {  }
    }

    pub fn bwd(&self) -> (r: Bwd) {
        Bwd {  }
    }
}

impl FwdVal {
    /// The accessor's cache, when filled, holds exactly its key's current
    /// partner.
    pub open spec fn wf(self, s: OneToOne) -> bool {
        match self.cache {
            Some(c) => c == s.raw.fwd.spec_get(self.key),
            None => true,
        }
    }

    pub open spec fn cached(self) -> bool {
        self.cache is Some
    }

    /// The key's partner, memoized: looked up on first use, answered from
    /// the cache afterwards.
    pub fn fetch(&mut self, s: &OneToOne) -> (r: Option<u64>)
        requires
            s.inv(),
            old(self).wf(*s),
        ensures
            final(self).wf(*s),
            final(self).cached(),
            final(self).key == old(self).key,
            r == s.raw.fwd.spec_get(old(self).key),
    {
        match &self.cache {
            Some(c) => *c,
            None => {
                let r = s.raw.fwd_get(self.key);
                self.cache = Some(r);
                r
            },
        }
    }

    pub fn contains(&mut self, s: &OneToOne, b: u64) -> (r: bool)
        requires
            s.inv(),
            old(self).wf(*s),
        ensures
            final(self).wf(*s),
            final(self).key == old(self).key,
            r == s.raw.fwd.spec_has(old(self).key, b),
    {
        self.fetch(s) == Some(b)
    }
}

impl BwdVal {
    /// The accessor's cache, when filled, holds exactly its key's current
    /// partner.
    pub open spec fn wf(self, s: OneToOne) -> bool {
        match self.cache {
            Some(c) => c == s.raw.bwd.spec_get(self.key),
            None => true,
        }
    }

    pub open spec fn cached(self) -> bool {
        self.cache is Some
    }

    /// The key's partner, memoized.
    pub fn fetch(&mut self, s: &OneToOne) -> (r: Option<u64>)
        requires
            s.inv(),
            old(self).wf(*s),
        ensures
            final(self).wf(*s),
            final(self).cached(),
            final(self).key == old(self).key,
            r == s.raw.bwd.spec_get(old(self).key),
    {
        match &self.cache {
            Some(c) => *c,
            None => {
                let r = s.raw.bwd_get(self.key);
                self.cache = Some(r);
                r
            },
        }
    }

    pub fn contains(&mut self, s: &OneToOne, a: u64) -> (r: bool)
        requires
            s.inv(),
            old(self).wf(*s),
        ensures
            final(self).wf(*s),
            final(self).key == old(self).key,
            r == s.raw.bwd.spec_has(old(self).key, a),
    {
        self.fetch(s) == Some(a)
    }
}

impl Fwd {
    /// A fresh per-key accessor; its cache starts empty, so its first query
    /// recomputes from the relation.
    pub fn get(&self, a: u64) -> (r: FwdVal)
        ensures
            r.key == a,
            !r.cached(),
            forall|s: OneToOne| r.wf(s),
    {
        FwdVal { key: a, cache: None }
    }

    pub fn contains_key(&self, s: &OneToOne, a: u64) -> (r: bool)
        requires
            s.inv(),
        ensures
            r == (s.raw.fwd.spec_get(a) is Some),
    {
        s.raw.fwd_get(a).is_some()
    }

    /// Number of stored edges.
    pub fn len(&self, s: &OneToOne) -> (r: usize)
        requires
            s.inv(),
        ensures
            r as int == s.raw.fwd.keys@.len(),
    {
        s.raw.len()
    }

    /// Installs `a <-> b` through an exclusive lease scoped to this call,
    /// reporting both displaced partners.
    pub fn insert(&self, s: &mut OneToOne, a: u64, b: u64) -> (r: (Option<u64>, Option<u64>))
        requires
            old(s).inv(),
        ensures
            final(s).inv(),
            one_insert_step(old(s).raw, final(s).raw, a, b),
            final(s).raw.fwd.spec_get(a) == Some(b),
            r.0 == old(s).raw.fwd.spec_get(a),
            r.1 == (if old(s).raw.fwd.spec_has(a, b) {
                None::<u64>
            } else {
                old(s).raw.bwd.spec_get(b)
            }),
    {
        s.raw.insert(a, b)
    }

    /// Unmaps `a` through an exclusive lease scoped to this call.
    pub fn expunge(&self, s: &mut OneToOne, a: u64) -> (r: Option<u64>)
        requires
            old(s).inv(),
        ensures
            final(s).inv(),
            r == old(s).raw.fwd.spec_get(a),
            final(s).raw.fwd.spec_get(a) == None::<u64>,
            forall|x: u64, y: u64|
                #[trigger] final(s).raw.fwd.spec_has(x, y) <==> old(s).raw.fwd.spec_has(x, y) && x
                    != a,
    {
        s.raw.expunge(a)
    }
}

impl Bwd {
    /// A fresh per-key accessor for the backward direction.
    pub fn get(&self, b: u64) -> (r: BwdVal)
        ensures
            r.key == b,
            !r.cached(),
            forall|s: OneToOne| r.wf(s),
    {
        BwdVal { key: b, cache: None }
    }

    pub fn contains_key(&self, s: &OneToOne, b: u64) -> (r: bool)
        requires
            s.inv(),
        ensures
            r == (s.raw.bwd.spec_get(b) is Some),
    {
        s.raw.bwd_get(b).is_some()
    }
}

/// Shared-cache correctness for the one-to-one wrapper: a read accessor
/// stays well-formed across any mutation that leaves its own key's partner
/// unchanged.
pub proof fn lemma_one_cache_stable(h: FwdVal, s0: OneToOne, s1: OneToOne)
    requires
        h.wf(s0),
        s1.raw.fwd.spec_get(h.key) == s0.raw.fwd.spec_get(h.key),
    ensures
        h.wf(s1),
{
}

} // verus!
