//! The bidirectional engine core: a pair of leaf multimaps (forward,
//! backward) updated by an explicit two-step transaction — update one side,
//! then apply the complementing change to the other — so that the pair
//! satisfies the mutual-consistency invariant after every operation.

use vstd::prelude::*;

use crate::to_set::{ToSet, strictly_sorted};

verus! {

/// Bidirectional consistency: `b` is among `f`'s values for `a` exactly when
/// `a` is among `b`'s values in the other direction.
pub open spec fn consistent(f: ToSet, b: ToSet) -> bool {
    forall|x: u64, y: u64| #[trigger] f.spec_has(x, y) <==> b.spec_has(y, x)
}

/// Consistency is symmetric in the two directions.
pub proof fn lemma_consistent_symmetric(f: ToSet, b: ToSet)
    requires
        consistent(f, b),
    ensures
        consistent(b, f),
{
    assert forall|x: u64, y: u64| #[trigger] b.spec_has(x, y) <==> f.spec_has(y, x) by {
        assert(f.spec_has(y, x) <==> b.spec_has(x, y));
    }
}

/// Inserts the edge `(x, y)`: `(x, y)` into `f` and `(y, x)` into `b`.
/// Returns `Some(y)` exactly when the edge is new.
pub fn rel_insert(f: &mut ToSet, b: &mut ToSet, x: u64, y: u64) -> (r: Option<u64>)
    requires
        old(f).wf(),
        old(b).wf(),
        consistent(*old(f), *old(b)),
        old(f).spec_has(x, y) || (old(f).pair_count < usize::MAX && old(b).pair_count
            < usize::MAX),
    ensures
        final(f).wf(),
        final(b).wf(),
        consistent(*final(f), *final(b)),
        r == (if old(f).spec_has(x, y) {
            None::<u64>
        } else {
            Some(y)
        }),
        forall|p: u64, q: u64|
            final(f).spec_has(p, q) <==> old(f).spec_has(p, q) || (p == x && q == y),
        forall|p: u64, q: u64|
            final(b).spec_has(p, q) <==> old(b).spec_has(p, q) || (p == y && q == x),
        forall|p: u64| p != x ==> final(f).val_seq(p) == old(f).val_seq(p),
        forall|p: u64| p != y ==> final(b).val_seq(p) == old(b).val_seq(p),
        old(f).spec_has(x, y) ==> *final(f) == *old(f) && *final(b) == *old(b),
{
    proof {
        assert(old(f).spec_has(x, y) <==> old(b).spec_has(y, x));
    }
    let r = f.insert(x, y);
    b.insert(y, x);
    r
}

/// Removes the edge `(x, y)`: `(x, y)` from `f` and, when it was present,
/// `(y, x)` from `b`.  Returns `Some(y)` exactly when a removal occurred.
pub fn rel_remove(f: &mut ToSet, b: &mut ToSet, x: u64, y: u64) -> (r: Option<u64>)
    requires
        old(f).wf(),
        old(b).wf(),
        consistent(*old(f), *old(b)),
    ensures
        final(f).wf(),
        final(b).wf(),
        consistent(*final(f), *final(b)),
        r == (if old(f).spec_has(x, y) {
            Some(y)
        } else {
            None::<u64>
        }),
        forall|p: u64, q: u64|
            final(f).spec_has(p, q) <==> old(f).spec_has(p, q) && !(p == x && q == y),
        forall|p: u64, q: u64|
            final(b).spec_has(p, q) <==> old(b).spec_has(p, q) && !(p == y && q == x),
        forall|p: u64| p != x ==> final(f).val_seq(p) == old(f).val_seq(p),
        forall|p: u64| p != y ==> final(b).val_seq(p) == old(b).val_seq(p),
        !old(f).spec_has(x, y) ==> *final(f) == *old(f) && *final(b) == *old(b),
{
    let r = f.remove(x, y);
    if r.is_some() {
        b.remove(y, x);
    } else {
        proof {
            assert(!old(b).spec_has(y, x));
        }
    }
    r
}

/// Removes every edge out of `x`: the whole value set of `x` from `f` and,
/// for each removed partner `v`, the edge `(v, x)` from `b`.  Returns the
/// removed partners in ascending order.
pub fn rel_expunge(f: &mut ToSet, b: &mut ToSet, x: u64) -> (r: Vec<u64>)
    requires
        old(f).wf(),
        old(b).wf(),
        consistent(*old(f), *old(b)),
    ensures
        final(f).wf(),
        final(b).wf(),
        consistent(*final(f), *final(b)),
        r@ == old(f).val_seq(x),
        strictly_sorted(r@),
        !final(f).spec_has_key(x),
        forall|p: u64| final(f).spec_has_key(p) <==> old(f).spec_has_key(p) && p != x,
        forall|p: u64| p != x ==> final(f).val_seq(p) == old(f).val_seq(p),
        forall|p: u64, q: u64| final(f).spec_has(p, q) <==> old(f).spec_has(p, q) && p != x,
        forall|p: u64, q: u64|
            final(b).spec_has(p, q) <==> old(b).spec_has(p, q) && !(q == x && r@.contains(p)),
        forall|p: u64| !r@.contains(p) ==> final(b).val_seq(p) == old(b).val_seq(p),
{
    let ghost f0 = *f;
    let ghost b0 = *b;
    let vs = f.expunge(x);
    let mut i: usize = 0;
    while i < vs.len()
        invariant
            b.wf(),
            i <= vs@.len(),
            strictly_sorted(vs@),
            forall|p: u64, q: u64|
                #[trigger] b.spec_has(p, q) <==> b0.spec_has(p, q) && !(q == x && vs@.take(
                    i as int,
                ).contains(p)),
            forall|p: u64|
                !vs@.take(i as int).contains(p) ==> #[trigger] b.val_seq(p) == b0.val_seq(p),
        decreases vs@.len() - i,
    {
        let v = vs[i];
        b.remove(v, x);
        proof {
            assert(vs@.take(i + 1) =~= vs@.take(i as int).push(v));
            assert forall|p: u64| #![auto]
                vs@.take(i + 1).contains(p) <==> vs@.take(i as int).contains(p) || p == v by {
                let s1 = vs@.take(i + 1);
                let s0 = vs@.take(i as int);
                if s1.contains(p) {
                    let w = choose|w: int| 0 <= w < s1.len() && s1[w] == p;
                    if w < i {
                        assert(s0[w] == p);
                    }
                } else {
                    if s0.contains(p) {
                        let w = choose|w: int| 0 <= w < s0.len() && s0[w] == p;
                        assert(s1[w] == p);
                    }
                    if p == v {
                        assert(s1[i as int] == p);
                    }
                }
            }
        }
        i = i + 1;
    }
    proof {
        assert(vs@.take(vs@.len() as int) =~= vs@);
        assert forall|p: u64, q: u64| #[trigger] f.spec_has(p, q) implies b.spec_has(q, p) by {
            assert(f0.spec_has(p, q) && p != x);
        }
        assert forall|p: u64, q: u64| #[trigger] b.spec_has(q, p) implies f.spec_has(p, q) by {
            assert(b0.spec_has(q, p) && !(p == x && vs@.contains(q)));
            assert(f0.spec_has(p, q));
            if p == x {
                assert(vs@.contains(q));
            }
        }
        assert(consistent(*f, *b));
    }
    vs
}

} // verus!
