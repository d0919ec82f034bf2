//! The shared relation wrapper.  It owns one set-to-set relation and hands
//! out per-key read accessors that memoize the key's value set on first use:
//! a fresh accessor always recomputes, while later queries through the same
//! accessor reuse the cached set.
//!
//! Exclusivity policy: a mutation needs exclusive access to the wrapper
//! (`&mut`), so no mutation can run while any read borrow is live, and a
//! cached accessor may be used after a mutation only while its cache still
//! matches the relation — its well-formedness ties the cache to the current
//! state, so using a handle whose own key was mutated is ruled out by
//! construction rather than detected at run time.

use vstd::prelude::*;

use crate::cursor::{PairCursor, SetsCursor, ValsCursor, VecCursor, pairs_seq, values_of};
use crate::set_to_set::RawSetToSet;
use crate::to_set::{copy_vec, strictly_sorted};

verus! {

/// Owner of one set-to-set relation, brokering shared reads and exclusive
/// mutations.
pub struct SetToSet {
    pub raw: RawSetToSet,
}

/// Shared access port for the forward direction of one wrapped relation.
pub struct Fwd {}

/// A per-key read accessor with a private memoization cell: the key's value
/// set is computed at most once per accessor and reused afterwards.
pub struct FwdSet {
    pub key: u64,
    pub cache: Option<Vec<u64>>,
}

impl SetToSet {
    pub open spec fn inv(self) -> bool {
        self.raw.inv()
    }

    pub fn new() -> (r: SetToSet)
        ensures
            r.inv(),
            forall|a: u64, b: u64| !r.raw.fwd.spec_has(a, b),
    {
        SetToSet { raw: RawSetToSet::new() }
    }

    pub fn fwd(&self) -> (r: Fwd) {
        Fwd {  }
    }
}

impl FwdSet {
    /// The accessor's cache, when filled, holds exactly its key's current
    /// forward value set.
    pub open spec fn wf(self, s: SetToSet) -> bool {
        match self.cache {
            Some(c) => c@ == s.raw.fwd.val_seq(self.key),
            None => true,
        }
    }

    pub open spec fn cached(self) -> bool {
        self.cache is Some
    }

    /// The key's value set, memoized: computed from the relation on first
    /// use, answered from the cache afterwards.
    pub fn fetch(&mut self, s: &SetToSet) -> (r: Vec<u64>)
        requires
            s.inv(),
            old(self).wf(*s),
        ensures
            final(self).wf(*s),
            final(self).cached(),
            final(self).key == old(self).key,
            r@ == s.raw.fwd.val_seq(old(self).key),
            strictly_sorted(r@),
    {
        proof {
            crate::to_set::lemma_val_seq(s.raw.fwd, self.key);
        }
        match &self.cache {
            Some(c) => copy_vec(c),
            None => {
                let vs = s.raw.get(self.key);
                let r = copy_vec(&vs.vals);
                self.cache = Some(vs.vals);
                r
            },
        }
    }

    pub fn contains(&mut self, s: &SetToSet, b: u64) -> (r: bool)
        requires
            s.inv(),
            old(self).wf(*s),
        ensures
            final(self).wf(*s),
            final(self).cached(),
            final(self).key == old(self).key,
            r == s.raw.fwd.spec_has(old(self).key, b),
    {
        let vs = self.fetch(s);
        let (_, found) = crate::to_set::search(&vs, b);
        found
    }

    pub fn len(&mut self, s: &SetToSet) -> (r: usize)
        requires
            s.inv(),
            old(self).wf(*s),
        ensures
            final(self).wf(*s),
            final(self).cached(),
            final(self).key == old(self).key,
            r as int == s.raw.fwd.val_seq(old(self).key).len(),
    {
        let vs = self.fetch(s);
        vs.len()
    }

    /// A two-ended cursor over the key's set as it stands now; step it with
    /// the vector that `fetch` returned.
    pub fn iter(&mut self, s: &SetToSet) -> (r: (Vec<u64>, VecCursor))
        requires
            s.inv(),
            old(self).wf(*s),
        ensures
            final(self).wf(*s),
            final(self).key == old(self).key,
            r.0@ == s.raw.fwd.val_seq(old(self).key),
            r.1.wf(r.0@),
            r.1.remaining(r.0@) == r.0@,
    {
        let vs = self.fetch(s);
        let c = VecCursor::new(&vs);
        (vs, c)
    }

    /// Inserts `(key, b)` through an exclusive lease on the wrapper; the
    /// accessor's own cache is discarded, since its key's set changed.
    pub fn insert(&mut self, s: &mut SetToSet, b: u64) -> (r: Option<u64>)
        requires
            old(s).inv(),
            old(s).raw.fwd.spec_has(old(self).key, b) || (old(s).raw.fwd.pair_count < usize::MAX
                && old(s).raw.bwd.pair_count < usize::MAX),
        ensures
            final(s).inv(),
            final(self).wf(*final(s)),
            final(self).key == old(self).key,
            r == (if old(s).raw.fwd.spec_has(old(self).key, b) {
                None::<u64>
            } else {
                Some(b)
            }),
            forall|p: u64, q: u64|
                final(s).raw.fwd.spec_has(p, q) <==> old(s).raw.fwd.spec_has(p, q) || (p == old(
                    self,
                ).key && q == b),
    {
        self.cache = None;
        s.raw.insert(self.key, b)
    }

    /// Removes `(key, b)` through an exclusive lease on the wrapper; the
    /// accessor's own cache is discarded, since its key's set changed.
    pub fn remove(&mut self, s: &mut SetToSet, b: u64) -> (r: Option<u64>)
        requires
            old(s).inv(),
        ensures
            final(s).inv(),
            final(self).wf(*final(s)),
            final(self).key == old(self).key,
            r == (if old(s).raw.fwd.spec_has(old(self).key, b) {
                Some(b)
            } else {
                None::<u64>
            }),
            forall|p: u64, q: u64|
                final(s).raw.fwd.spec_has(p, q) <==> old(s).raw.fwd.spec_has(p, q) && !(p == old(
                    self,
                ).key && q == b),
    {
        self.cache = None;
        s.raw.remove(self.key, b)
    }
}

impl Fwd {
    /// A fresh per-key accessor; its cache starts empty, so its first query
    /// recomputes from the relation.
    pub fn get(&self, a: u64) -> (r: FwdSet)
        ensures
            r.key == a,
            !r.cached(),
            forall|s: SetToSet| r.wf(s),
    {
        FwdSet { key: a, cache: None }
    }

    pub fn contains_key(&self, s: &SetToSet, a: u64) -> (r: bool)
        requires
            s.inv(),
        ensures
            r == s.raw.fwd.spec_has_key(a),
    {
        s.raw.contains_key(a)
    }

    /// Number of stored edges.
    pub fn len(&self, s: &SetToSet) -> (r: usize)
        requires
            s.inv(),
        ensures
            r as int == s.raw.fwd.total_pairs(),
    {
        s.raw.len()
    }

    /// Number of distinct left keys.
    pub fn keys_len(&self, s: &SetToSet) -> (r: usize)
        requires
            s.inv(),
        ensures
            r as int == s.raw.fwd.keys@.len(),
    {
        s.raw.keys_len()
    }

    /// A two-ended cursor over all edges under a shared lease, key-major
    /// ascending; step it with the forward index of the wrapped relation.
    pub fn iter(&self, s: &SetToSet) -> (r: PairCursor)
        requires
            s.inv(),
        ensures
            r.wf(s.raw.fwd),
            r.remaining(s.raw.fwd) == pairs_seq(s.raw.fwd),
    {
        s.raw.iter()
    }

    /// A two-ended cursor over the left keys under a shared lease.
    pub fn keys(&self, s: &SetToSet) -> (r: VecCursor)
        requires
            s.inv(),
        ensures
            r.wf(s.raw.fwd.keys@),
            r.remaining(s.raw.fwd.keys@) == s.raw.fwd.keys@,
    {
        s.raw.keys()
    }

    /// A two-ended cursor over the right-hand values of all edges under a
    /// shared lease, in edge order.
    pub fn values(&self, s: &SetToSet) -> (r: ValsCursor)
        requires
            s.inv(),
        ensures
            r.wf(s.raw.fwd),
            r.remaining(s.raw.fwd) == values_of(pairs_seq(s.raw.fwd)),
    {
        s.raw.values()
    }

    /// A two-ended cursor pairing each left key with a view of its set,
    /// under a shared lease.
    pub fn sets(&self, s: &SetToSet) -> (r: SetsCursor)
        requires
            s.inv(),
        ensures
            r.wf(s.raw.fwd),
            r.remaining(s.raw.fwd) == s.raw.fwd.keys@,
    {
        s.raw.sets()
    }

    /// Inserts the edge `(a, b)` through an exclusive lease scoped to this
    /// call.
    pub fn insert(&self, s: &mut SetToSet, a: u64, b: u64) -> (r: Option<u64>)
        requires
            old(s).inv(),
            old(s).raw.fwd.spec_has(a, b) || (old(s).raw.fwd.pair_count < usize::MAX
                && old(s).raw.bwd.pair_count < usize::MAX),
        ensures
            final(s).inv(),
            r == (if old(s).raw.fwd.spec_has(a, b) {
                None::<u64>
            } else {
                Some(b)
            }),
            forall|p: u64, q: u64|
                final(s).raw.fwd.spec_has(p, q) <==> old(s).raw.fwd.spec_has(p, q) || (p == a && q
                == b),
            forall|p: u64| p != a ==> final(s).raw.fwd.val_seq(p) == old(s).raw.fwd.val_seq(p),
    {
        s.raw.insert(a, b)
    }

    /// Removes every edge out of `a` through an exclusive lease scoped to
    /// this call.
    pub fn expunge(&self, s: &mut SetToSet, a: u64) -> (r: Vec<u64>)
        requires
            old(s).inv(),
        ensures
            final(s).inv(),
            r@ == old(s).raw.fwd.val_seq(a),
            !final(s).raw.fwd.spec_has_key(a),
            forall|p: u64, q: u64|
                final(s).raw.fwd.spec_has(p, q) <==> old(s).raw.fwd.spec_has(p, q) && p != a,
            forall|p: u64| p != a ==> final(s).raw.fwd.val_seq(p) == old(s).raw.fwd.val_seq(p),
    {
        s.raw.expunge(a)
    }
}

/// Shared-cache correctness: a read accessor stays well-formed across any
/// mutation that leaves its own key's forward set unchanged, so read handles
/// taken before and after a mutation of a different key observe the same,
/// correct set for their key.
pub proof fn lemma_cache_stable(h: FwdSet, s0: SetToSet, s1: SetToSet)
    requires
        h.wf(s0),
        s1.raw.fwd.val_seq(h.key) == s0.raw.fwd.val_seq(h.key),
    ensures
        h.wf(s1),
{
}

} // verus!
