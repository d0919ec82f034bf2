//! The many-to-many relation: two leaf multimaps kept mutually consistent,
//! reached only through capability-scoped accessors.  A read accessor is
//! obtained from a shared borrow of the relation and a mutation accessor from
//! an exclusive one; since an accessor cannot carry the borrow itself, every
//! accessor operation takes the relation it is scoped to, so the borrow lasts
//! exactly as long as the call.

use vstd::prelude::*;

use crate::cursor::{PairCursor, SetsCursor, ValsCursor, VecCursor, pairs_seq, values_of};
use crate::junction::{consistent, lemma_consistent_symmetric, rel_expunge, rel_insert, rel_remove};
use crate::to_set::{ToSet, VSet, lemma_canonical, strictly_sorted};

verus! {

/// A binary relation between two word domains, as a forward index (left to
/// right) and a backward index (right to left).
pub struct RawManyToMany {
    pub fwd: ToSet,
    pub bwd: ToSet,
}

impl RawManyToMany {
    /// Both indices are well-formed and mutually consistent.
    pub open spec fn inv(self) -> bool {
        &&& self.fwd.wf()
        &&& self.bwd.wf()
        &&& consistent(self.fwd, self.bwd)
    }

    pub fn new() -> (r: RawManyToMany)
        ensures
            r.inv(),
            forall|a: u64, b: u64| !r.fwd.spec_has(a, b),
            forall|b: u64, a: u64| !r.bwd.spec_has(b, a),
            r.fwd.keys@.len() == 0,
            r.bwd.keys@.len() == 0,
    {
        RawManyToMany { fwd: ToSet::new(), bwd: ToSet::new() }
    }

    pub fn fwd(&self) -> (r: VFwd) {
        VFwd {  }
    }

    pub fn bwd(&self) -> (r: VBwd) {
        VBwd {  }
    }

    pub fn mut_fwd(&mut self) -> (r: MFwd)
        ensures
            *final(self) == *old(self),
    {
        MFwd {  }
    }

    pub fn mut_bwd(&mut self) -> (r: MBwd)
        ensures
            *final(self) == *old(self),
    {
        MBwd {  }
    }
}

/// The abstract effect of inserting the edge `(a, b)`: both indices gain
/// exactly that edge.
pub open spec fn insert_step(s0: RawManyToMany, s1: RawManyToMany, a: u64, b: u64) -> bool {
    &&& forall|p: u64, q: u64|
        s1.fwd.spec_has(p, q) <==> s0.fwd.spec_has(p, q) || (p == a && q == b)
    &&& forall|p: u64, q: u64|
        s1.bwd.spec_has(p, q) <==> s0.bwd.spec_has(p, q) || (p == b && q == a)
}

/// The abstract effect of removing the edge `(a, b)`: both indices lose
/// exactly that edge.
pub open spec fn remove_step(s0: RawManyToMany, s1: RawManyToMany, a: u64, b: u64) -> bool {
    &&& forall|p: u64, q: u64|
        s1.fwd.spec_has(p, q) <==> s0.fwd.spec_has(p, q) && !(p == a && q == b)
    &&& forall|p: u64, q: u64|
        s1.bwd.spec_has(p, q) <==> s0.bwd.spec_has(p, q) && !(p == b && q == a)
}

/// Full state equality of two relations: same keys, same value sequences and
/// same pair counts on both sides.
pub open spec fn same_state(x: RawManyToMany, y: RawManyToMany) -> bool {
    &&& x.fwd.keys@ == y.fwd.keys@
    &&& x.bwd.keys@ == y.bwd.keys@
    &&& forall|k: u64| x.fwd.val_seq(k) == y.fwd.val_seq(k)
    &&& forall|k: u64| x.bwd.val_seq(k) == y.bwd.val_seq(k)
    &&& x.fwd.pair_count == y.fwd.pair_count
    &&& x.bwd.pair_count == y.bwd.pair_count
}

/// Mutation accessor for the forward direction.
pub struct MFwd {}

/// Mutation accessor for the backward direction.
pub struct MBwd {}

/// Read accessor for the forward direction.
pub struct VFwd {}

/// Read accessor for the backward direction.
pub struct VBwd {}

/// Mutation handle for one key's set, forward direction.
pub struct MFwdSet {
    pub k: u64,
}

/// Mutation handle for one key's set, backward direction.
pub struct MBwdSet {
    pub k: u64,
}

/// Read view of one key's set, forward direction.
pub struct VFwdSet {
    pub set: VSet,
}

/// Read view of one key's set, backward direction.
pub struct VBwdSet {
    pub set: VSet,
}

impl MFwd {
    /// Inserts the edge `(a, b)` on both sides; `Some(b)` exactly when new.
    pub fn insert(&self, r: &mut RawManyToMany, a: u64, b: u64) -> (ret: Option<u64>)
        requires
            old(r).inv(),
            old(r).fwd.spec_has(a, b) || (old(r).fwd.pair_count < usize::MAX
                && old(r).bwd.pair_count < usize::MAX),
        ensures
            final(r).inv(),
            ret == (if old(r).fwd.spec_has(a, b) {
                None::<u64>
            } else {
                Some(b)
            }),
            insert_step(*old(r), *final(r), a, b),
            forall|p: u64| p != a ==> final(r).fwd.val_seq(p) == old(r).fwd.val_seq(p),
            forall|p: u64| p != b ==> final(r).bwd.val_seq(p) == old(r).bwd.val_seq(p),
            old(r).fwd.spec_has(a, b) ==> *final(r) == *old(r),
    {
        rel_insert(&mut r.fwd, &mut r.bwd, a, b)
    }

    /// Removes every edge out of `a` from both sides, returning `a`'s former
    /// partners in ascending order.
    pub fn expunge(&self, r: &mut RawManyToMany, a: u64) -> (ret: Vec<u64>)
        requires
            old(r).inv(),
        ensures
            final(r).inv(),
            ret@ == old(r).fwd.val_seq(a),
            strictly_sorted(ret@),
            !final(r).fwd.spec_has_key(a),
            forall|p: u64, q: u64|
                final(r).fwd.spec_has(p, q) <==> old(r).fwd.spec_has(p, q) && p != a,
            forall|q: u64| old(r).fwd.spec_has(a, q) ==> !final(r).bwd.spec_has(q, a),
            forall|p: u64, q: u64|
                final(r).bwd.spec_has(p, q) <==> old(r).bwd.spec_has(p, q) && !(q == a
                    && ret@.contains(p)),
            forall|p: u64| p != a ==> final(r).fwd.val_seq(p) == old(r).fwd.val_seq(p),
            forall|p: u64| !ret@.contains(p) ==> final(r).bwd.val_seq(p) == old(r).bwd.val_seq(p),
    {
        rel_expunge(&mut r.fwd, &mut r.bwd, a)
    }

    /// A mutation handle scoped to `a`'s set.
    pub fn get_mut(&self, a: u64) -> (ret: MFwdSet)
        ensures
            ret.k == a,
    {
        MFwdSet { k: a }
    }

    pub fn get(&self, r: &RawManyToMany, a: u64) -> (ret: VFwdSet)
        requires
            r.inv(),
        ensures
            ret.set.wf(),
            ret.set.vals@ == r.fwd.val_seq(a),
    {
        VFwdSet { set: r.fwd.get(a) }
    }

    pub fn contains_key(&self, r: &RawManyToMany, a: u64) -> (ret: bool)
        requires
            r.inv(),
        ensures
            ret == r.fwd.spec_has_key(a),
    {
        r.fwd.contains_key(a)
    }

    /// Number of stored edges.
    pub fn len(&self, r: &RawManyToMany) -> (ret: usize)
        requires
            r.inv(),
        ensures
            ret as int == r.fwd.total_pairs(),
    {
        r.fwd.pairs_len()
    }

    /// Number of distinct left keys.
    pub fn keys_len(&self, r: &RawManyToMany) -> (ret: usize)
        requires
            r.inv(),
        ensures
            ret as int == r.fwd.keys@.len(),
    {
        r.fwd.len()
    }

    pub fn contains(&self, r: &RawManyToMany, a: u64, b: u64) -> (ret: bool)
        requires
            r.inv(),
        ensures
            ret == r.fwd.spec_has(a, b),
    {
        r.fwd.get(a).contains(b)
    }

    /// A two-ended cursor over all edges, key-major ascending; step it with
    /// the forward index of the same relation.
    pub fn iter(&self, r: &RawManyToMany) -> (ret: PairCursor)
        requires
            r.inv(),
        ensures
            ret.wf(r.fwd),
            ret.remaining(r.fwd) == pairs_seq(r.fwd),
    {
        PairCursor::new(&r.fwd)
    }

    /// A two-ended cursor over the left keys; step it with the forward
    /// index's key vector.
    pub fn keys(&self, r: &RawManyToMany) -> (ret: VecCursor)
        requires
            r.inv(),
        ensures
            ret.wf(r.fwd.keys@),
            ret.remaining(r.fwd.keys@) == r.fwd.keys@,
    {
        VecCursor::new(&r.fwd.keys)
    }

    /// A two-ended cursor over the right-hand values of all edges, in edge
    /// order; step it with the forward index.
    pub fn values(&self, r: &RawManyToMany) -> (ret: ValsCursor)
        requires
            r.inv(),
        ensures
            ret.wf(r.fwd),
            ret.remaining(r.fwd) == values_of(pairs_seq(r.fwd)),
    {
        ValsCursor::new(&r.fwd)
    }

    /// A two-ended cursor pairing each left key, in order, with a view of
    /// its set; step it with the forward index.
    pub fn sets(&self, r: &RawManyToMany) -> (ret: SetsCursor)
        requires
            r.inv(),
        ensures
            ret.wf(r.fwd),
            ret.remaining(r.fwd) == r.fwd.keys@,
    {
        SetsCursor::new(&r.fwd)
    }
}

impl VFwd {
    pub fn get(&self, r: &RawManyToMany, a: u64) -> (ret: VFwdSet)
        requires
            r.inv(),
        ensures
            ret.set.wf(),
            ret.set.vals@ == r.fwd.val_seq(a),
    {
        VFwdSet { set: r.fwd.get(a) }
    }

    pub fn contains_key(&self, r: &RawManyToMany, a: u64) -> (ret: bool)
        requires
            r.inv(),
        ensures
            ret == r.fwd.spec_has_key(a),
    {
        r.fwd.contains_key(a)
    }

    /// Number of stored edges.
    pub fn len(&self, r: &RawManyToMany) -> (ret: usize)
        requires
            r.inv(),
        ensures
            ret as int == r.fwd.total_pairs(),
    {
        r.fwd.pairs_len()
    }

    /// Number of distinct left keys.
    pub fn keys_len(&self, r: &RawManyToMany) -> (ret: usize)
        requires
            r.inv(),
        ensures
            ret as int == r.fwd.keys@.len(),
    {
        r.fwd.len()
    }

    pub fn contains(&self, r: &RawManyToMany, a: u64, b: u64) -> (ret: bool)
        requires
            r.inv(),
        ensures
            ret == r.fwd.spec_has(a, b),
    {
        r.fwd.get(a).contains(b)
    }

    /// A two-ended cursor over all edges, key-major ascending.
    pub fn iter(&self, r: &RawManyToMany) -> (ret: PairCursor)
        requires
            r.inv(),
        ensures
            ret.wf(r.fwd),
            ret.remaining(r.fwd) == pairs_seq(r.fwd),
    {
        PairCursor::new(&r.fwd)
    }

    /// A two-ended cursor over the left keys.
    pub fn keys(&self, r: &RawManyToMany) -> (ret: VecCursor)
        requires
            r.inv(),
        ensures
            ret.wf(r.fwd.keys@),
            ret.remaining(r.fwd.keys@) == r.fwd.keys@,
    {
        VecCursor::new(&r.fwd.keys)
    }

    /// A two-ended cursor over the right-hand values of all edges, in edge
    /// order; step it with the forward index.
    pub fn values(&self, r: &RawManyToMany) -> (ret: ValsCursor)
        requires
            r.inv(),
        ensures
            ret.wf(r.fwd),
            ret.remaining(r.fwd) == values_of(pairs_seq(r.fwd)),
    {
        ValsCursor::new(&r.fwd)
    }

    /// A two-ended cursor pairing each left key, in order, with a view of
    /// its set; step it with the forward index.
    pub fn sets(&self, r: &RawManyToMany) -> (ret: SetsCursor)
        requires
            r.inv(),
        ensures
            ret.wf(r.fwd),
            ret.remaining(r.fwd) == r.fwd.keys@,
    {
        SetsCursor::new(&r.fwd)
    }
}

impl MFwdSet {
    pub fn key(&self) -> (ret: u64)
        ensures
            ret == self.k,
    {
        self.k
    }

    /// Inserts the edge `(key, b)` on both sides of the relation.
    pub fn insert(&self, r: &mut RawManyToMany, b: u64) -> (ret: Option<u64>)
        requires
            old(r).inv(),
            old(r).fwd.spec_has(self.k, b) || (old(r).fwd.pair_count < usize::MAX
                && old(r).bwd.pair_count < usize::MAX),
        ensures
            final(r).inv(),
            ret == (if old(r).fwd.spec_has(self.k, b) {
                None::<u64>
            } else {
                Some(b)
            }),
            insert_step(*old(r), *final(r), self.k, b),
    {
        rel_insert(&mut r.fwd, &mut r.bwd, self.k, b)
    }

    /// Removes the edge `(key, b)` from both sides of the relation.
    pub fn remove(&self, r: &mut RawManyToMany, b: u64) -> (ret: Option<u64>)
        requires
            old(r).inv(),
        ensures
            final(r).inv(),
            ret == (if old(r).fwd.spec_has(self.k, b) {
                Some(b)
            } else {
                None::<u64>
            }),
            remove_step(*old(r), *final(r), self.k, b),
            !old(r).fwd.spec_has(self.k, b) ==> *final(r) == *old(r),
    {
        rel_remove(&mut r.fwd, &mut r.bwd, self.k, b)
    }

    pub fn contains(&self, r: &RawManyToMany, b: u64) -> (ret: bool)
        requires
            r.inv(),
        ensures
            ret == r.fwd.spec_has(self.k, b),
    {
        r.fwd.get(self.k).contains(b)
    }

    pub fn len(&self, r: &RawManyToMany) -> (ret: usize)
        requires
            r.inv(),
        ensures
            ret as int == r.fwd.val_seq(self.k).len(),
    {
        r.fwd.get(self.k).len()
    }

    /// A snapshot of the key's current set together with a two-ended cursor
    /// over it; step the cursor with the returned vector.
    pub fn iter(&self, r: &RawManyToMany) -> (ret: (Vec<u64>, VecCursor))
        requires
            r.inv(),
        ensures
            ret.0@ == r.fwd.val_seq(self.k),
            ret.1.wf(ret.0@),
            ret.1.remaining(ret.0@) == ret.0@,
    {
        let vs = r.fwd.get(self.k);
        let c = VecCursor::new(&vs.vals);
        (vs.vals, c)
    }
}

impl VFwdSet {
    pub fn contains(&self, b: u64) -> (ret: bool)
        requires
            self.set.wf(),
        ensures
            ret == self.set.vals@.contains(b),
    {
        self.set.contains(b)
    }

    pub fn len(&self) -> (ret: usize)
        requires
            self.set.wf(),
        ensures
            ret as int == self.set.vals@.len(),
    {
        self.set.len()
    }

    /// A two-ended cursor over this set; step it with the view's vector.
    pub fn iter(&self) -> (ret: VecCursor)
        ensures
            ret.wf(self.set.vals@),
            ret.remaining(self.set.vals@) == self.set.vals@,
    {
        VecCursor::new(&self.set.vals)
    }
}

impl MBwd {
    /// Inserts the edge `(b, a)`: `(b, a)` backward and `(a, b)` forward.
    pub fn insert(&self, r: &mut RawManyToMany, b: u64, a: u64) -> (ret: Option<u64>)
        requires
            old(r).inv(),
            old(r).bwd.spec_has(b, a) || (old(r).fwd.pair_count < usize::MAX
                && old(r).bwd.pair_count < usize::MAX),
        ensures
            final(r).inv(),
            ret == (if old(r).bwd.spec_has(b, a) {
                None::<u64>
            } else {
                Some(a)
            }),
            insert_step(*old(r), *final(r), a, b),
            old(r).bwd.spec_has(b, a) ==> *final(r) == *old(r),
    {
        proof {
            assert(old(r).bwd.spec_has(b, a) <==> old(r).fwd.spec_has(a, b));
        }
        let ret = rel_insert(&mut r.bwd, &mut r.fwd, b, a);
        proof {
            lemma_consistent_symmetric(r.bwd, r.fwd);
        }
        ret
    }

    /// Removes every edge into `b` from both sides, returning `b`'s former
    /// partners in ascending order.
    pub fn expunge(&self, r: &mut RawManyToMany, b: u64) -> (ret: Vec<u64>)
        requires
            old(r).inv(),
        ensures
            final(r).inv(),
            ret@ == old(r).bwd.val_seq(b),
            strictly_sorted(ret@),
            !final(r).bwd.spec_has_key(b),
            forall|p: u64, q: u64|
                final(r).bwd.spec_has(p, q) <==> old(r).bwd.spec_has(p, q) && p != b,
            forall|q: u64| old(r).bwd.spec_has(b, q) ==> !final(r).fwd.spec_has(q, b),
            forall|p: u64, q: u64|
                final(r).fwd.spec_has(p, q) <==> old(r).fwd.spec_has(p, q) && !(q == b
                    && ret@.contains(p)),
    {
        let ret = rel_expunge(&mut r.bwd, &mut r.fwd, b);
        proof {
            lemma_consistent_symmetric(r.bwd, r.fwd);
        }
        ret
    }

    /// A mutation handle scoped to `b`'s set.
    pub fn get_mut(&self, b: u64) -> (ret: MBwdSet)
        ensures
            ret.k == b,
    {
        MBwdSet { k: b }
    }

    pub fn get(&self, r: &RawManyToMany, b: u64) -> (ret: VBwdSet)
        requires
            r.inv(),
        ensures
            ret.set.wf(),
            ret.set.vals@ == r.bwd.val_seq(b),
    {
        VBwdSet { set: r.bwd.get(b) }
    }

    pub fn contains_key(&self, r: &RawManyToMany, b: u64) -> (ret: bool)
        requires
            r.inv(),
        ensures
            ret == r.bwd.spec_has_key(b),
    {
        r.bwd.contains_key(b)
    }

    /// Number of stored edges.
    pub fn len(&self, r: &RawManyToMany) -> (ret: usize)
        requires
            r.inv(),
        ensures
            ret as int == r.bwd.total_pairs(),
    {
        r.bwd.pairs_len()
    }

    /// Number of distinct right keys.
    pub fn keys_len(&self, r: &RawManyToMany) -> (ret: usize)
        requires
            r.inv(),
        ensures
            ret as int == r.bwd.keys@.len(),
    {
        r.bwd.len()
    }

    pub fn contains(&self, r: &RawManyToMany, b: u64, a: u64) -> (ret: bool)
        requires
            r.inv(),
        ensures
            ret == r.bwd.spec_has(b, a),
    {
        r.bwd.get(b).contains(a)
    }

    /// A two-ended cursor over all edges as seen backward; step it with the
    /// backward index of the same relation.
    pub fn iter(&self, r: &RawManyToMany) -> (ret: PairCursor)
        requires
            r.inv(),
        ensures
            ret.wf(r.bwd),
            ret.remaining(r.bwd) == pairs_seq(r.bwd),
    {
        PairCursor::new(&r.bwd)
    }

    /// A two-ended cursor over the right keys.
    pub fn keys(&self, r: &RawManyToMany) -> (ret: VecCursor)
        requires
            r.inv(),
        ensures
            ret.wf(r.bwd.keys@),
            ret.remaining(r.bwd.keys@) == r.bwd.keys@,
    {
        VecCursor::new(&r.bwd.keys)
    }

    /// A two-ended cursor over the left-hand values of all edges as seen
    /// backward, in edge order; step it with the backward index.
    pub fn values(&self, r: &RawManyToMany) -> (ret: ValsCursor)
        requires
            r.inv(),
        ensures
            ret.wf(r.bwd),
            ret.remaining(r.bwd) == values_of(pairs_seq(r.bwd)),
    {
        ValsCursor::new(&r.bwd)
    }

    /// A two-ended cursor pairing each right key, in order, with a view of
    /// its set; step it with the backward index.
    pub fn sets(&self, r: &RawManyToMany) -> (ret: SetsCursor)
        requires
            r.inv(),
        ensures
            ret.wf(r.bwd),
            ret.remaining(r.bwd) == r.bwd.keys@,
    {
        SetsCursor::new(&r.bwd)
    }
}

impl VBwd {
    pub fn get(&self, r: &RawManyToMany, b: u64) -> (ret: VBwdSet)
        requires
            r.inv(),
        ensures
            ret.set.wf(),
            ret.set.vals@ == r.bwd.val_seq(b),
    {
        VBwdSet { set: r.bwd.get(b) }
    }

    pub fn contains_key(&self, r: &RawManyToMany, b: u64) -> (ret: bool)
        requires
            r.inv(),
        ensures
            ret == r.bwd.spec_has_key(b),
    {
        r.bwd.contains_key(b)
    }

    /// Number of stored edges.
    pub fn len(&self, r: &RawManyToMany) -> (ret: usize)
        requires
            r.inv(),
        ensures
            ret as int == r.bwd.total_pairs(),
    {
        r.bwd.pairs_len()
    }

    /// Number of distinct right keys.
    pub fn keys_len(&self, r: &RawManyToMany) -> (ret: usize)
        requires
            r.inv(),
        ensures
            ret as int == r.bwd.keys@.len(),
    {
        r.bwd.len()
    }

    pub fn contains(&self, r: &RawManyToMany, b: u64, a: u64) -> (ret: bool)
        requires
            r.inv(),
        ensures
            ret == r.bwd.spec_has(b, a),
    {
        r.bwd.get(b).contains(a)
    }

    /// A two-ended cursor over all edges as seen backward.
    pub fn iter(&self, r: &RawManyToMany) -> (ret: PairCursor)
        requires
            r.inv(),
        ensures
            ret.wf(r.bwd),
            ret.remaining(r.bwd) == pairs_seq(r.bwd),
    {
        PairCursor::new(&r.bwd)
    }

    /// A two-ended cursor over the right keys.
    pub fn keys(&self, r: &RawManyToMany) -> (ret: VecCursor)
        requires
            r.inv(),
        ensures
            ret.wf(r.bwd.keys@),
            ret.remaining(r.bwd.keys@) == r.bwd.keys@,
    {
        VecCursor::new(&r.bwd.keys)
    }

    /// A two-ended cursor over the left-hand values of all edges as seen
    /// backward, in edge order; step it with the backward index.
    pub fn values(&self, r: &RawManyToMany) -> (ret: ValsCursor)
        requires
            r.inv(),
        ensures
            ret.wf(r.bwd),
            ret.remaining(r.bwd) == values_of(pairs_seq(r.bwd)),
    {
        ValsCursor::new(&r.bwd)
    }

    /// A two-ended cursor pairing each right key, in order, with a view of
    /// its set; step it with the backward index.
    pub fn sets(&self, r: &RawManyToMany) -> (ret: SetsCursor)
        requires
            r.inv(),
        ensures
            ret.wf(r.bwd),
            ret.remaining(r.bwd) == r.bwd.keys@,
    {
        SetsCursor::new(&r.bwd)
    }
}

impl MBwdSet {
    pub fn key(&self) -> (ret: u64)
        ensures
            ret == self.k,
    {
        self.k
    }

    /// Inserts the edge `(a, key)` on both sides of the relation.
    pub fn insert(&self, r: &mut RawManyToMany, a: u64) -> (ret: Option<u64>)
        requires
            old(r).inv(),
            old(r).bwd.spec_has(self.k, a) || (old(r).fwd.pair_count < usize::MAX
                && old(r).bwd.pair_count < usize::MAX),
        ensures
            final(r).inv(),
            ret == (if old(r).bwd.spec_has(self.k, a) {
                None::<u64>
            } else {
                Some(a)
            }),
            insert_step(*old(r), *final(r), a, self.k),
    {
        proof {
            assert(old(r).bwd.spec_has(self.k, a) <==> old(r).fwd.spec_has(a, self.k));
        }
        let ret = rel_insert(&mut r.bwd, &mut r.fwd, self.k, a);
        proof {
            lemma_consistent_symmetric(r.bwd, r.fwd);
        }
        ret
    }

    /// Removes the edge `(a, key)` from both sides of the relation.
    pub fn remove(&self, r: &mut RawManyToMany, a: u64) -> (ret: Option<u64>)
        requires
            old(r).inv(),
        ensures
            final(r).inv(),
            ret == (if old(r).bwd.spec_has(self.k, a) {
                Some(a)
            } else {
                None::<u64>
            }),
            remove_step(*old(r), *final(r), a, self.k),
    {
        let ret = rel_remove(&mut r.bwd, &mut r.fwd, self.k, a);
        proof {
            lemma_consistent_symmetric(r.bwd, r.fwd);
        }
        ret
    }

    pub fn contains(&self, r: &RawManyToMany, a: u64) -> (ret: bool)
        requires
            r.inv(),
        ensures
            ret == r.bwd.spec_has(self.k, a),
    {
        r.bwd.get(self.k).contains(a)
    }

    pub fn len(&self, r: &RawManyToMany) -> (ret: usize)
        requires
            r.inv(),
        ensures
            ret as int == r.bwd.val_seq(self.k).len(),
    {
        r.bwd.get(self.k).len()
    }

    /// A snapshot of the key's current set together with a two-ended cursor
    /// over it; step the cursor with the returned vector.
    pub fn iter(&self, r: &RawManyToMany) -> (ret: (Vec<u64>, VecCursor))
        requires
            r.inv(),
        ensures
            ret.0@ == r.bwd.val_seq(self.k),
            ret.1.wf(ret.0@),
            ret.1.remaining(ret.0@) == ret.0@,
    {
        let vs = r.bwd.get(self.k);
        let c = VecCursor::new(&vs.vals);
        (vs.vals, c)
    }
}

impl VBwdSet {
    pub fn contains(&self, a: u64) -> (ret: bool)
        requires
            self.set.wf(),
        ensures
            ret == self.set.vals@.contains(a),
    {
        self.set.contains(a)
    }

    pub fn len(&self) -> (ret: usize)
        requires
            self.set.wf(),
        ensures
            ret as int == self.set.vals@.len(),
    {
        self.set.len()
    }

    /// A two-ended cursor over this set; step it with the view's vector.
    pub fn iter(&self) -> (ret: VecCursor)
        ensures
            ret.wf(self.set.vals@),
            ret.remaining(self.set.vals@) == self.set.vals@,
    {
        VecCursor::new(&self.set.vals)
    }
}

/// Bidirectional consistency: in every relation satisfying the invariant —
/// and every operation of this module preserves it — an edge is stored
/// forward exactly when its mirror is stored backward.
pub proof fn lemma_bidirectional_consistency(r: RawManyToMany, a: u64, b: u64)
    requires
        r.inv(),
    ensures
        r.fwd.spec_has(a, b) <==> r.bwd.spec_has(b, a),
{
}

/// Insert idempotence: a second insert of the same edge changes nothing, so
/// the state after it equals the state after the first insert.
pub proof fn lemma_insert_idempotent(
    s0: RawManyToMany,
    s1: RawManyToMany,
    s2: RawManyToMany,
    a: u64,
    b: u64,
)
    requires
        s0.inv(),
        s1.inv(),
        s2.inv(),
        insert_step(s0, s1, a, b),
        insert_step(s1, s2, a, b),
    ensures
        same_state(s1, s2),
{
    assert(s1.fwd.spec_has(a, b));
    assert(forall|p: u64, q: u64| s2.fwd.spec_has(p, q) <==> s1.fwd.spec_has(p, q));
    assert(forall|p: u64, q: u64| s2.bwd.spec_has(p, q) <==> s1.bwd.spec_has(p, q));
    lemma_canonical(s1.fwd, s2.fwd);
    lemma_canonical(s1.bwd, s2.bwd);
}

/// Remove undoes insert: inserting an absent edge and then removing it
/// restores the relation to its prior state.
pub proof fn lemma_remove_undoes_insert(
    s0: RawManyToMany,
    s1: RawManyToMany,
    s2: RawManyToMany,
    a: u64,
    b: u64,
)
    requires
        s0.inv(),
        s1.inv(),
        s2.inv(),
        !s0.fwd.spec_has(a, b),
        insert_step(s0, s1, a, b),
        remove_step(s1, s2, a, b),
    ensures
        same_state(s0, s2),
{
    assert(forall|p: u64, q: u64| s2.fwd.spec_has(p, q) <==> s0.fwd.spec_has(p, q));
    assert(forall|p: u64, q: u64| s2.bwd.spec_has(p, q) <==> s0.bwd.spec_has(p, q));
    lemma_canonical(s0.fwd, s2.fwd);
    lemma_canonical(s0.bwd, s2.bwd);
}

} // verus!
