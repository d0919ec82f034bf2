//! The set-to-set relation: the same two-index shape as the many-to-many
//! relation.  It backs the shared wrapper, so its operations sit directly on
//! the relation value.

use vstd::prelude::*;

use crate::cursor::{PairCursor, SetsCursor, ValsCursor, VecCursor, pairs_seq, values_of};
use crate::junction::{consistent, rel_expunge, rel_insert, rel_remove};
use crate::to_set::{ToSet, VSet, strictly_sorted};

verus! {

/// A binary relation between two word domains, with forward and backward
/// indices kept mutually consistent.
pub struct RawSetToSet {
    pub fwd: ToSet,
    pub bwd: ToSet,
}

impl RawSetToSet {
    /// Both indices are well-formed and mutually consistent.
    pub open spec fn inv(self) -> bool {
        &&& self.fwd.wf()
        &&& self.bwd.wf()
        &&& consistent(self.fwd, self.bwd)
    }

    pub fn new() -> (r: RawSetToSet)
        ensures
            r.inv(),
            forall|a: u64, b: u64| !r.fwd.spec_has(a, b),
            forall|b: u64, a: u64| !r.bwd.spec_has(b, a),
            r.fwd.keys@.len() == 0,
            r.bwd.keys@.len() == 0,
    {
        RawSetToSet { fwd: ToSet::new(), bwd: ToSet::new() }
    }

    /// Inserts the edge `(a, b)` on both sides; `Some(b)` exactly when new.
    pub fn insert(&mut self, a: u64, b: u64) -> (ret: Option<u64>)
        requires
            old(self).inv(),
            old(self).fwd.spec_has(a, b) || (old(self).fwd.pair_count < usize::MAX
                && old(self).bwd.pair_count < usize::MAX),
        ensures
            final(self).inv(),
            ret == (if old(self).fwd.spec_has(a, b) {
                None::<u64>
            } else {
                Some(b)
            }),
            forall|p: u64, q: u64|
                final(self).fwd.spec_has(p, q) <==> old(self).fwd.spec_has(p, q) || (p == a && q
                == b),
            forall|p: u64, q: u64|
                final(self).bwd.spec_has(p, q) <==> old(self).bwd.spec_has(p, q) || (p == b && q
                == a),
            forall|p: u64| p != a ==> final(self).fwd.val_seq(p) == old(self).fwd.val_seq(p),
            forall|p: u64| p != b ==> final(self).bwd.val_seq(p) == old(self).bwd.val_seq(p),
            old(self).fwd.spec_has(a, b) ==> *final(self) == *old(self),
    {
        rel_insert(&mut self.fwd, &mut self.bwd, a, b)
    }

    /// Removes the edge `(a, b)` from both sides; `Some(b)` exactly when it
    /// was present.
    pub fn remove(&mut self, a: u64, b: u64) -> (ret: Option<u64>)
        requires
            old(self).inv(),
        ensures
            final(self).inv(),
            ret == (if old(self).fwd.spec_has(a, b) {
                Some(b)
            } else {
                None::<u64>
            }),
            forall|p: u64, q: u64|
                final(self).fwd.spec_has(p, q) <==> old(self).fwd.spec_has(p, q) && !(p == a && q
                == b),
            forall|p: u64, q: u64|
                final(self).bwd.spec_has(p, q) <==> old(self).bwd.spec_has(p, q) && !(p == b && q
                == a),
            forall|p: u64| p != a ==> final(self).fwd.val_seq(p) == old(self).fwd.val_seq(p),
            forall|p: u64| p != b ==> final(self).bwd.val_seq(p) == old(self).bwd.val_seq(p),
    {
        rel_remove(&mut self.fwd, &mut self.bwd, a, b)
    }

    /// Removes every edge out of `a`, returning `a`'s former partners in
    /// ascending order.
    pub fn expunge(&mut self, a: u64) -> (ret: Vec<u64>)
        requires
            old(self).inv(),
        ensures
            final(self).inv(),
            ret@ == old(self).fwd.val_seq(a),
            strictly_sorted(ret@),
            !final(self).fwd.spec_has_key(a),
            forall|p: u64, q: u64|
                final(self).fwd.spec_has(p, q) <==> old(self).fwd.spec_has(p, q) && p != a,
            forall|q: u64| old(self).fwd.spec_has(a, q) ==> !final(self).bwd.spec_has(q, a),
            forall|p: u64| p != a ==> final(self).fwd.val_seq(p) == old(self).fwd.val_seq(p),
            forall|p: u64|
                !ret@.contains(p) ==> final(self).bwd.val_seq(p) == old(self).bwd.val_seq(p),
    {
        rel_expunge(&mut self.fwd, &mut self.bwd, a)
    }

    /// A read-only snapshot of `a`'s forward set.
    pub fn get(&self, a: u64) -> (ret: VSet)
        requires
            self.inv(),
        ensures
            ret.wf(),
            ret.vals@ == self.fwd.val_seq(a),
    {
        self.fwd.get(a)
    }

    pub fn contains_key(&self, a: u64) -> (ret: bool)
        requires
            self.inv(),
        ensures
            ret == self.fwd.spec_has_key(a),
    {
        self.fwd.contains_key(a)
    }

    /// Number of stored edges.
    pub fn len(&self) -> (ret: usize)
        requires
            self.inv(),
        ensures
            ret as int == self.fwd.total_pairs(),
    {
        self.fwd.pairs_len()
    }

    /// Number of distinct left keys.
    pub fn keys_len(&self) -> (ret: usize)
        requires
            self.inv(),
        ensures
            ret as int == self.fwd.keys@.len(),
    {
        self.fwd.len()
    }

    /// A two-ended cursor over all edges, key-major ascending; step it with
    /// the forward index.
    pub fn iter(&self) -> (ret: PairCursor)
        requires
            self.inv(),
        ensures
            ret.wf(self.fwd),
            ret.remaining(self.fwd) == pairs_seq(self.fwd),
    {
        PairCursor::new(&self.fwd)
    }

    /// A two-ended cursor over the left keys; step it with the forward
    /// index's key vector.
    pub fn keys(&self) -> (ret: VecCursor)
        requires
            self.inv(),
        ensures
            ret.wf(self.fwd.keys@),
            ret.remaining(self.fwd.keys@) == self.fwd.keys@,
    {
        VecCursor::new(&self.fwd.keys)
    }

    /// A two-ended cursor over the right-hand values of all edges, in edge
    /// order; step it with the forward index.
    pub fn values(&self) -> (ret: ValsCursor)
        requires
            self.inv(),
        ensures
            ret.wf(self.fwd),
            ret.remaining(self.fwd) == values_of(pairs_seq(self.fwd)),
    {
        ValsCursor::new(&self.fwd)
    }

    /// A two-ended cursor pairing each left key, in order, with a view of
    /// its set; step it with the forward index.
    pub fn sets(&self) -> (ret: SetsCursor)
        requires
            self.inv(),
        ensures
            ret.wf(self.fwd),
            ret.remaining(self.fwd) == self.fwd.keys@,
    {
        SetsCursor::new(&self.fwd)
    }
}

} // verus!
