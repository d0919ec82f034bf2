//! The leaf multimap: an ordered map from a key to a non-empty ascending set
//! of values, stored as a strictly sorted vector of keys parallel to a vector
//! of strictly sorted, non-empty value vectors.
//!
//! Identifiers of both domains are machine words (`u64`); their total order is
//! the numeric one.

use vstd::prelude::*;

verus! {

/// True when `s` is strictly increasing.
pub open spec fn strictly_sorted(s: Seq<u64>) -> bool {
    forall|i: int, j: int| 0 <= i < j < s.len() ==> s[i] < s[j]
}

/// Sum of the lengths of the first `n` inner vectors.
pub open spec fn sum_lens(ss: Seq<Vec<u64>>, n: int) -> int
    decreases n,
{
    if n <= 0 {
        0
    } else {
        sum_lens(ss, n - 1) + ss[n - 1]@.len()
    }
}

/// An ordered "key -> set of values" store.  A key is present exactly when its
/// value set is non-empty; `pair_count` caches the number of stored pairs.
pub struct ToSet {
    pub keys: Vec<u64>,
    pub sets: Vec<Vec<u64>>,
    pub pair_count: usize,
}

impl ToSet {
    pub open spec fn wf(self) -> bool {
        &&& self.keys@.len() == self.sets@.len()
        &&& strictly_sorted(self.keys@)
        &&& forall|i: int| 0 <= i < self.sets@.len() ==> strictly_sorted(#[trigger] self.sets@[i]@)
        &&& forall|i: int| 0 <= i < self.sets@.len() ==> (#[trigger] self.sets@[i]@).len() > 0
        &&& self.pair_count as int == sum_lens(self.sets@, self.sets@.len() as int)
    }

    /// The position of `k` among the keys (meaningful only when the key is present).
    pub open spec fn key_index(self, k: u64) -> int {
        choose|i: int| 0 <= i < self.keys@.len() && self.keys@[i] == k
    }

    pub open spec fn spec_has_key(self, k: u64) -> bool {
        self.keys@.contains(k)
    }

    /// The ascending value set of `k`; empty when `k` is absent.
    pub open spec fn val_seq(self, k: u64) -> Seq<u64> {
        if self.spec_has_key(k) {
            self.sets@[self.key_index(k)]@
        } else {
            Seq::empty()
        }
    }

    /// Whether the pair `(k, v)` is stored.
    pub open spec fn spec_has(self, k: u64, v: u64) -> bool {
        self.val_seq(k).contains(v)
    }

    pub open spec fn total_pairs(self) -> int {
        sum_lens(self.sets@, self.sets@.len() as int)
    }
}

/// A present key has exactly one position, and `key_index` is it.
pub proof fn lemma_key_index(t: ToSet, k: u64)
    requires
        t.wf(),
        t.spec_has_key(k),
    ensures
        0 <= t.key_index(k) < t.keys@.len(),
        t.keys@[t.key_index(k)] == k,
        forall|j: int| 0 <= j < t.keys@.len() && t.keys@[j] == k ==> j == t.key_index(k),
{
    assert(exists|i: int| 0 <= i < t.keys@.len() && t.keys@[i] == k);
    let i = t.key_index(k);
    assert forall|j: int| 0 <= j < t.keys@.len() && t.keys@[j] == k implies j == i by {
        if j < i {
            assert(t.keys@[j] < t.keys@[i]);
        } else if i < j {
            assert(t.keys@[i] < t.keys@[j]);
        }
    }
}

/// Inserting a fresh element at its sorted position keeps the sequence
/// strictly sorted and adds exactly that element.
pub proof fn lemma_insert_sorted(s: Seq<u64>, pos: int, x: u64)
    requires
        strictly_sorted(s),
        0 <= pos <= s.len(),
        forall|j: int| 0 <= j < pos ==> s[j] < x,
        forall|j: int| pos <= j < s.len() ==> s[j] > x,
    ensures
        strictly_sorted(s.insert(pos, x)),
        forall|y: u64| s.insert(pos, x).contains(y) <==> s.contains(y) || y == x,
        s.insert(pos, x).len() == s.len() + 1,
{
    let s2 = s.insert(pos, x);
    s.insert_ensures(pos, x);
    assert forall|i: int, j: int| 0 <= i < j < s2.len() implies s2[i] < s2[j] by {
        if i < pos && j < pos {
            assert(s2[i] == s[i] && s2[j] == s[j]);
        } else if i < pos && j == pos {
        } else if i < pos && j > pos {
            assert(s2[j] == s[j - 1] && s[j - 1] > x);
        } else if i == pos {
            assert(s2[j] == s[j - 1] && s[j - 1] > x);
        } else {
            assert(s2[i] == s[i - 1] && s2[j] == s[j - 1]);
        }
    }
    assert forall|y: u64| s2.contains(y) implies s.contains(y) || y == x by {
        let w = choose|w: int| 0 <= w < s2.len() && s2[w] == y;
        if w < pos {
            assert(s[w] == y);
        } else if w > pos {
            assert(s[w - 1] == y);
        }
    }
    assert forall|y: u64| s.contains(y) || y == x implies s2.contains(y) by {
        if y == x {
            assert(s2[pos] == y);
        } else {
            let w = choose|w: int| 0 <= w < s.len() && s[w] == y;
            if w < pos {
                assert(s2[w] == y);
            } else {
                assert(s2[w + 1] == y);
            }
        }
    }
}

/// Removing one position from a strictly sorted sequence removes exactly that
/// element.
pub proof fn lemma_remove_sorted(s: Seq<u64>, pos: int)
    requires
        strictly_sorted(s),
        0 <= pos < s.len(),
    ensures
        strictly_sorted(s.remove(pos)),
        forall|y: u64| s.remove(pos).contains(y) <==> s.contains(y) && y != s[pos],
        s.remove(pos).len() == s.len() - 1,
{
    let s2 = s.remove(pos);
    s.remove_ensures(pos);
    assert forall|i: int, j: int| 0 <= i < j < s2.len() implies s2[i] < s2[j] by {
        let i0: int = if i < pos { i } else { i + 1 };
        let j0: int = if j < pos { j } else { j + 1 };
        assert(s2[i] == s[i0] && s2[j] == s[j0]);
    }
    assert forall|y: u64| s2.contains(y) implies s.contains(y) && y != s[pos] by {
        let w = choose|w: int| 0 <= w < s2.len() && s2[w] == y;
        let w0: int = if w < pos { w } else { w + 1 };
        assert(s[w0] == y);
        if w0 < pos {
            assert(s[w0] < s[pos]);
        } else {
            assert(s[pos] < s[w0]);
        }
    }
    assert forall|y: u64| s.contains(y) && y != s[pos] implies s2.contains(y) by {
        let w = choose|w: int| 0 <= w < s.len() && s[w] == y;
        if w < pos {
            assert(s2[w] == y);
        } else {
            assert(s2[w - 1] == y);
        }
    }
}

/// Two strictly sorted sequences with the same members are the same sequence.
pub proof fn lemma_sorted_same_members(s1: Seq<u64>, s2: Seq<u64>)
    requires
        strictly_sorted(s1),
        strictly_sorted(s2),
        forall|x: u64| s1.contains(x) <==> s2.contains(x),
    ensures
        s1 == s2,
    decreases s1.len(),
{
    if s1.len() == 0 {
        if s2.len() > 0 {
            assert(s2.contains(s2[0]));
            assert(s1.contains(s2[0]));
        }
        assert(s1 =~= s2);
    } else if s2.len() == 0 {
        assert(s1.contains(s1[0]));
        assert(s2.contains(s1[0]));
    } else {
        assert(s1.contains(s1[0]));
        assert(s2.contains(s2[0]));
        let i = choose|i: int| 0 <= i < s2.len() && s2[i] == s1[0];
        let j = choose|j: int| 0 <= j < s1.len() && s1[j] == s2[0];
        assert(s2[0] <= s2[i]) by {
            if i > 0 {
                assert(s2[0] < s2[i]);
            }
        }
        assert(s1[0] <= s1[j]) by {
            if j > 0 {
                assert(s1[0] < s1[j]);
            }
        }
        let t1 = s1.skip(1);
        let t2 = s2.skip(1);
        assert forall|x: u64| t1.contains(x) <==> t2.contains(x) by {
            lemma_skip_first_members(s1, x);
            lemma_skip_first_members(s2, x);
        }
        lemma_sorted_same_members(t1, t2);
        assert(s1 =~= s2) by {
            assert(forall|w: int| 1 <= w < s1.len() ==> s1[w] == t1[w - 1] && s2[w] == t2[w - 1]);
        }
    }
}

/// For a strictly sorted sequence, membership in the tail is membership above
/// the head.
pub proof fn lemma_skip_first_members(s: Seq<u64>, x: u64)
    requires
        strictly_sorted(s),
        s.len() > 0,
    ensures
        s.skip(1).contains(x) <==> s.contains(x) && x > s[0],
{
    let t = s.skip(1);
    assert(forall|w: int| 0 <= w < t.len() ==> t[w] == s[w + 1]);
    if t.contains(x) {
        let w = choose|w: int| 0 <= w < t.len() && t[w] == x;
        assert(s[w + 1] == x);
        assert(s[0] < s[w + 1]);
    }
    if s.contains(x) && x > s[0] {
        let w = choose|w: int| 0 <= w < s.len() && s[w] == x;
        assert(w != 0);
        assert(t[w - 1] == x);
    }
}

/// `sum_lens` is non-negative.
pub proof fn lemma_sum_nonneg(ss: Seq<Vec<u64>>, n: int)
    ensures
        sum_lens(ss, n) >= 0,
    decreases n,
{
    if n > 0 {
        lemma_sum_nonneg(ss, n - 1);
    }
}

/// `sum_lens` only reads the first `n` entries.
pub proof fn lemma_sum_agree(ss1: Seq<Vec<u64>>, ss2: Seq<Vec<u64>>, n: int)
    requires
        forall|i: int| 0 <= i < n ==> ss1[i]@ == ss2[i]@,
    ensures
        sum_lens(ss1, n) == sum_lens(ss2, n),
    decreases n,
{
    if n > 0 {
        lemma_sum_agree(ss1, ss2, n - 1);
    }
}

/// Updating entry `i` changes the sum by the difference of lengths.
pub proof fn lemma_sum_update(ss: Seq<Vec<u64>>, i: int, v: Vec<u64>, n: int)
    requires
        0 <= i < ss.len(),
        n <= ss.len(),
    ensures
        sum_lens(ss.update(i, v), n) == sum_lens(ss, n) + if i < n {
            v@.len() - ss[i]@.len()
        } else {
            0
        },
    decreases n,
{
    if n > 0 {
        lemma_sum_update(ss, i, v, n - 1);
        if n - 1 == i {
            assert(ss.update(i, v)[n - 1] == v);
        } else {
            assert(ss.update(i, v)[n - 1] == ss[n - 1]);
        }
    }
}

/// Inserting an entry at `i` adds its length to any sum reaching past `i`.
pub proof fn lemma_sum_insert(ss: Seq<Vec<u64>>, i: int, v: Vec<u64>, n: int)
    requires
        0 <= i <= ss.len(),
        n <= ss.len() + 1,
    ensures
        sum_lens(ss.insert(i, v), n) == if n <= i {
            sum_lens(ss, n)
        } else {
            sum_lens(ss, n - 1) + v@.len()
        },
    decreases n,
{
    ss.insert_ensures(i, v);
    if n > 0 {
        lemma_sum_insert(ss, i, v, n - 1);
        if n - 1 < i {
            assert(ss.insert(i, v)[n - 1] == ss[n - 1]);
        } else if n - 1 == i {
            assert(ss.insert(i, v)[n - 1] == v);
        } else {
            assert(ss.insert(i, v)[n - 1] == ss[n - 2]);
        }
    }
}

/// Removing entry `i` subtracts its length from any sum reaching past `i`.
pub proof fn lemma_sum_remove(ss: Seq<Vec<u64>>, i: int, n: int)
    requires
        0 <= i < ss.len(),
        n <= ss.len() - 1,
    ensures
        sum_lens(ss.remove(i), n) == if n <= i {
            sum_lens(ss, n)
        } else {
            sum_lens(ss, n + 1) - ss[i]@.len()
        },
    decreases n,
{
    ss.remove_ensures(i);
    if n > 0 {
        lemma_sum_remove(ss, i, n - 1);
        assert(sum_lens(ss.remove(i), n) == sum_lens(ss.remove(i), n - 1) + ss.remove(i)[n
            - 1]@.len());
        if n - 1 < i {
            assert(ss.remove(i)[n - 1] == ss[n - 1]);
        } else {
            assert(ss.remove(i)[n - 1] == ss[n]);
            assert(sum_lens(ss, n + 1) == sum_lens(ss, n) + ss[n]@.len());
        }
    }
}

/// First position whose element is at least `x` in a strictly sorted vector.
pub fn lower_bound(v: &Vec<u64>, x: u64) -> (r: usize)
    requires
        strictly_sorted(v@),
    ensures
        r <= v@.len(),
        forall|j: int| 0 <= j < r ==> v@[j] < x,
        forall|j: int| r <= j < v@.len() ==> v@[j] >= x,
{
    let mut i: usize = 0;
    while i < v.len() && v[i] < x
        invariant
            i <= v@.len(),
            strictly_sorted(v@),
            forall|j: int| 0 <= j < i ==> v@[j] < x,
        decreases v@.len() - i,
    {
        i = i + 1;
    }
    proof {
        assert forall|j: int| i <= j < v@.len() implies v@[j] >= x by {
            if i < v@.len() && (i as int) < j {
                assert(v@[i as int] < v@[j]);
            }
        }
    }
    i
}

/// Sorted search: the insertion position for `x`, and whether `x` is present
/// there.
pub fn search(v: &Vec<u64>, x: u64) -> (r: (usize, bool))
    requires
        strictly_sorted(v@),
    ensures
        r.0 <= v@.len(),
        forall|j: int| 0 <= j < r.0 ==> v@[j] < x,
        forall|j: int| r.0 <= j < v@.len() ==> v@[j] >= x,
        r.1 == v@.contains(x),
        r.1 ==> r.0 < v@.len() && v@[r.0 as int] == x,
{
    let pos = lower_bound(v, x);
    if pos < v.len() && v[pos] == x {
        proof {
            assert(v@.contains(x));
        }
        (pos, true)
    } else {
        proof {
            if v@.contains(x) {
                let w = choose|w: int| 0 <= w < v@.len() && v@[w] == x;
                if w < pos {
                    assert(v@[w] < x);
                } else if w == pos {
                    assert(v@[pos as int] == x);
                } else {
                    assert(v@[pos as int] < v@[w]);
                    assert(v@[pos as int] >= x);
                }
            }
        }
        (pos, false)
    }
}

/// The value set of a present key is non-empty and sorted.
pub proof fn lemma_val_seq(t: ToSet, k: u64)
    requires
        t.wf(),
    ensures
        strictly_sorted(t.val_seq(k)),
        t.spec_has_key(k) <==> t.val_seq(k).len() > 0,
        forall|v: u64| t.spec_has(k, v) ==> t.spec_has_key(k),
{
    if t.spec_has_key(k) {
        lemma_key_index(t, k);
    }
}

/// A key is present exactly when some pair with it is.
pub proof fn lemma_has_key_iff(t: ToSet, k: u64)
    requires
        t.wf(),
    ensures
        t.spec_has_key(k) <==> exists|v: u64| t.spec_has(k, v),
{
    lemma_val_seq(t, k);
    if t.spec_has_key(k) {
        assert(t.spec_has(k, t.val_seq(k)[0])) by {
            assert(t.val_seq(k).contains(t.val_seq(k)[0]));
        }
    }
    if exists|v: u64| t.spec_has(k, v) {
        let v = choose|v: u64| t.spec_has(k, v);
        assert(t.val_seq(k).len() > 0);
    }
}

impl ToSet {
    /// An empty store.
    pub fn new() -> (r: ToSet)
        ensures
            r.wf(),
            r.keys@.len() == 0,
            forall|k: u64| !r.spec_has_key(k),
            forall|k: u64, v: u64| !r.spec_has(k, v),
            r.total_pairs() == 0,
    {
        let r = ToSet { keys: Vec::new(), sets: Vec::new(), pair_count: 0 };
        proof {
            assert(forall|k: u64| !r.keys@.contains(k));
        }
        r
    }

    /// Position of `k` among the keys, when present.
    fn find_key(&self, k: u64) -> (r: Option<usize>)
        requires
            self.wf(),
        ensures
            match r {
                Some(i) => self.spec_has_key(k) && i as int == self.key_index(k),
                None => !self.spec_has_key(k),
            },
    {
        let i = lower_bound(&self.keys, k);
        if i < self.keys.len() && self.keys[i] == k {
            proof {
                assert(self.keys@.contains(k));
                lemma_key_index(*self, k);
            }
            Some(i)
        } else {
            proof {
                if self.keys@.contains(k) {
                    let w = choose|w: int| 0 <= w < self.keys@.len() && self.keys@[w] == k;
                    if w < i {
                        assert(self.keys@[w] < k);
                    } else if w == i {
                        assert(self.keys@[i as int] == k);
                    } else {
                        assert(self.keys@[i as int] < self.keys@[w]);
                        assert(self.keys@[i as int] >= k);
                    }
                }
            }
            None
        }
    }

    pub fn contains_key(&self, key: u64) -> (r: bool)
        requires
            self.wf(),
        ensures
            r == self.spec_has_key(key),
    {
        self.find_key(key).is_some()
    }

    /// Number of distinct keys.
    pub fn len(&self) -> (r: usize)
        requires
            self.wf(),
        ensures
            r as int == self.keys@.len(),
    {
        self.keys.len()
    }

    /// Number of stored pairs.
    pub fn pairs_len(&self) -> (r: usize)
        requires
            self.wf(),
        ensures
            r as int == self.total_pairs(),
    {
        self.pair_count
    }
}

impl ToSet {
    /// Adds `value` to `key`'s set.  Returns `Some(value)` exactly when the
    /// pair was newly added; an already-present pair leaves the store
    /// untouched and returns `None`.
    pub fn insert(&mut self, key: u64, value: u64) -> (r: Option<u64>)
        requires
            old(self).wf(),
            old(self).spec_has(key, value) || old(self).pair_count < usize::MAX,
        ensures
            final(self).wf(),
            r == (if old(self).spec_has(key, value) {
                None::<u64>
            } else {
                Some(value)
            }),
            forall|p: u64, q: u64|
                final(self).spec_has(p, q) <==> old(self).spec_has(p, q) || (p == key && q
                == value),
            forall|p: u64| final(self).spec_has_key(p) <==> old(self).spec_has_key(p) || p == key,
            forall|p: u64| p != key ==> final(self).val_seq(p) == old(self).val_seq(p),
            old(self).spec_has(key, value) ==> *final(self) == *old(self),
            final(self).total_pairs() == old(self).total_pairs() + (if old(self).spec_has(
                key,
                value,
            ) {
                0int
            } else {
                1int
            }),
    {
        let ghost t0 = *self;
        match self.find_key(key) {
            Some(i) => {
                proof {
                    lemma_key_index(t0, key);
                }
                let (pos, found) = search(&self.sets[i], value);
                if found {
                    proof {
                        assert(t0.spec_has(key, value));
                    }
                    None
                } else {
                    proof {
                        assert(!t0.spec_has(key, value));
                    }
                    let mut s = self.sets.remove(i);
                    s.insert(pos, value);
                    self.sets.insert(i, s);
                    self.pair_count = self.pair_count + 1;
                    proof {
                        self.lemma_after_set_update(t0, i as int, key, value, pos as int);
                    }
                    Some(value)
                }
            },
            None => {
                proof {
                    assert(!t0.spec_has(key, value));
                }
                let kpos = lower_bound(&self.keys, key);
                let mut s: Vec<u64> = Vec::new();
                s.push(value);
                self.keys.insert(kpos, key);
                self.sets.insert(kpos, s);
                self.pair_count = self.pair_count + 1;
                proof {
                    self.lemma_after_key_insert(t0, kpos as int, key, value);
                }
                Some(value)
            },
        }
    }

    /// Proof that replacing the value set at position `i` (the position of
    /// `key`) with its sorted extension by `value` yields the stated state.
    proof fn lemma_after_set_update(self, t0: ToSet, i: int, key: u64, value: u64, pos: int)
        requires
            t0.wf(),
            t0.spec_has_key(key),
            i == t0.key_index(key),
            !t0.sets@[i]@.contains(value),
            0 <= pos <= t0.sets@[i]@.len(),
            forall|j: int| 0 <= j < pos ==> t0.sets@[i]@[j] < value,
            forall|j: int| pos <= j < t0.sets@[i]@.len() ==> t0.sets@[i]@[j] >= value,
            self.keys@ == t0.keys@,
            self.sets@.len() == t0.sets@.len(),
            self.sets@[i]@ == t0.sets@[i]@.insert(pos, value),
            forall|j: int| 0 <= j < t0.sets@.len() && j != i ==> self.sets@[j]@ == t0.sets@[j]@,
            self.pair_count == t0.pair_count + 1,
        ensures
            self.wf(),
            forall|p: u64, q: u64|
                self.spec_has(p, q) <==> t0.spec_has(p, q) || (p == key && q == value),
            forall|p: u64| self.spec_has_key(p) <==> t0.spec_has_key(p) || p == key,
            forall|p: u64| p != key ==> self.val_seq(p) == t0.val_seq(p),
            self.total_pairs() == t0.total_pairs() + 1,
    {
        lemma_key_index(t0, key);
        assert forall|j: int| pos <= j < t0.sets@[i]@.len() implies t0.sets@[i]@[j] > value by {
            if t0.sets@[i]@[j] == value {
                assert(t0.sets@[i]@.contains(value));
            }
        }
        lemma_insert_sorted(t0.sets@[i]@, pos, value);
        lemma_sum_agree(self.sets@, t0.sets@.update(i, self.sets@[i]), self.sets@.len() as int);
        lemma_sum_update(t0.sets@, i, self.sets@[i], t0.sets@.len() as int);
        assert(self.wf());
        assert forall|p: u64| p != key && self.spec_has_key(p) implies self.val_seq(p) == t0.val_seq(
            p,
        ) by {
            lemma_key_index(self, p);
            lemma_key_index(t0, p);
            assert(self.key_index(p) == t0.key_index(p));
            assert(self.key_index(p) != i);
        }
        assert(self.spec_has_key(key) && self.key_index(key) == i) by {
            lemma_key_index(self, key);
        }
        assert forall|p: u64, q: u64| #![auto]
            true implies (self.spec_has(p, q) <==> t0.spec_has(p, q) || (p == key && q
            == value)) by {
            if p == key {
                assert(self.val_seq(key) == t0.sets@[i]@.insert(pos, value));
            } else {
                if self.spec_has_key(p) {
                } else {
                    assert(self.val_seq(p) == Seq::<u64>::empty());
                    assert(t0.val_seq(p) == Seq::<u64>::empty());
                }
            }
        }
    }

    /// Proof that inserting a brand-new key at its sorted position with a
    /// one-value set yields the stated state.
    proof fn lemma_after_key_insert(self, t0: ToSet, kpos: int, key: u64, value: u64)
        requires
            t0.wf(),
            !t0.spec_has_key(key),
            0 <= kpos <= t0.keys@.len(),
            forall|j: int| 0 <= j < kpos ==> t0.keys@[j] < key,
            forall|j: int| kpos <= j < t0.keys@.len() ==> t0.keys@[j] >= key,
            self.keys@ == t0.keys@.insert(kpos, key),
            self.sets@.len() == t0.sets@.len() + 1,
            self.sets@[kpos]@ == seq![value],
            forall|j: int| 0 <= j < kpos ==> self.sets@[j]@ == t0.sets@[j]@,
            forall|j: int| kpos < j < self.sets@.len() ==> self.sets@[j]@ == t0.sets@[j - 1]@,
            self.pair_count == t0.pair_count + 1,
        ensures
            self.wf(),
            forall|p: u64, q: u64|
                self.spec_has(p, q) <==> t0.spec_has(p, q) || (p == key && q == value),
            forall|p: u64| self.spec_has_key(p) <==> t0.spec_has_key(p) || p == key,
            forall|p: u64| p != key ==> self.val_seq(p) == t0.val_seq(p),
            self.total_pairs() == t0.total_pairs() + 1,
    {
        assert forall|j: int| kpos <= j < t0.keys@.len() implies t0.keys@[j] > key by {
            if t0.keys@[j] == key {
                assert(t0.keys@.contains(key));
            }
        }
        lemma_insert_sorted(t0.keys@, kpos, key);
        t0.keys@.insert_ensures(kpos, key);
        assert(self.sets@[kpos]@.len() == 1);
        assert forall|j: int| 0 <= j < self.sets@.len() implies strictly_sorted(
            #[trigger] self.sets@[j]@,
        ) && self.sets@[j]@.len() > 0 by {
            if j < kpos {
                assert(self.sets@[j]@ == t0.sets@[j]@);
            } else if j == kpos {
                assert(self.sets@[j]@ == seq![value]);
            } else {
                assert(self.sets@[j]@ == t0.sets@[j - 1]@);
            }
        }
        assert(self.pair_count as int == sum_lens(self.sets@, self.sets@.len() as int)) by {
            let patched = t0.sets@.insert(kpos, self.sets@[kpos]);
            t0.sets@.insert_ensures(kpos, self.sets@[kpos]);
            lemma_sum_agree(self.sets@, patched, self.sets@.len() as int);
            lemma_sum_insert(t0.sets@, kpos, self.sets@[kpos], self.sets@.len() as int);
        }
        assert(self.wf());
        assert(self.spec_has_key(key) && self.key_index(key) == kpos) by {
            lemma_key_index(self, key);
        }
        assert forall|p: u64| p != key && t0.spec_has_key(p) implies self.spec_has_key(p)
            && self.val_seq(p) == t0.val_seq(p) by {
            lemma_key_index(t0, p);
            let j = t0.key_index(p);
            if j < kpos {
                assert(self.keys@[j] == p);
                assert(self.keys@.contains(p));
                lemma_key_index(self, p);
                assert(self.key_index(p) == j);
            } else {
                assert(self.keys@[j + 1] == p);
                assert(self.keys@.contains(p));
                lemma_key_index(self, p);
                assert(self.key_index(p) == j + 1);
                assert(self.sets@[j + 1]@ == t0.sets@[j]@);
            }
        }
        assert forall|p: u64| p != key && self.spec_has_key(p) implies t0.spec_has_key(p) by {
            assert(t0.keys@.contains(p) || p == key);
        }
        assert forall|p: u64| p != key implies self.val_seq(p) == t0.val_seq(p) by {
            if !self.spec_has_key(p) {
                assert(self.val_seq(p) == Seq::<u64>::empty());
                assert(!t0.spec_has_key(p));
            }
        }
        assert(self.val_seq(key) == seq![value]);
        assert forall|p: u64, q: u64| #![auto]
            true implies (self.spec_has(p, q) <==> t0.spec_has(p, q) || (p == key && q
            == value)) by {
            if p == key {
                assert(seq![value].contains(q) <==> q == value) by {
                    if seq![value].contains(q) {
                        let w = choose|w: int| 0 <= w < seq![value].len() && seq![value][w] == q;
                    } else if q == value {
                        assert(seq![value][0] == q);
                    }
                }
                assert(!t0.spec_has(key, q));
            }
        }
    }
}

impl ToSet {
    /// Removes `value` from `key`'s set if present; removing the last value
    /// for a key deletes the key entry.  Returns `Some(value)` exactly when a
    /// removal occurred.
    pub fn remove(&mut self, key: u64, value: u64) -> (r: Option<u64>)
        requires
            old(self).wf(),
        ensures
            final(self).wf(),
            r == (if old(self).spec_has(key, value) {
                Some(value)
            } else {
                None::<u64>
            }),
            forall|p: u64, q: u64|
                final(self).spec_has(p, q) <==> old(self).spec_has(p, q) && !(p == key && q
                == value),
            forall|p: u64| p != key ==> final(self).val_seq(p) == old(self).val_seq(p),
            forall|p: u64| p != key
                ==> (final(self).spec_has_key(p) <==> old(self).spec_has_key(p)),
            !old(self).spec_has(key, value) ==> *final(self) == *old(self),
            final(self).total_pairs() == old(self).total_pairs() - (if old(self).spec_has(
                key,
                value,
            ) {
                1int
            } else {
                0int
            }),
            final(self).spec_has_key(key) <==> old(self).val_seq(key).len() > (if old(
                self,
            ).spec_has(key, value) {
                1int
            } else {
                0int
            }),
    {
        let ghost t0 = *self;
        proof {
            lemma_val_seq(t0, key);
        }
        match self.find_key(key) {
            None => {
                proof {
                    assert(t0.val_seq(key) == Seq::<u64>::empty());
                }
                None
            },
            Some(i) => {
                proof {
                    lemma_key_index(t0, key);
                }
                let (pos, found) = search(&self.sets[i], value);
                if !found {
                    None
                } else {
                    if self.sets[i].len() == 1 {
                        self.keys.remove(i);
                        self.sets.remove(i);
                        proof {
                            lemma_sum_remove(t0.sets@, i as int, t0.sets@.len() - 1);
                            lemma_sum_nonneg(self.sets@, self.sets@.len() as int);
                        }
                        self.pair_count = self.pair_count - 1;
                        proof {
                            self.lemma_after_key_remove(t0, i as int, key);
                            assert(t0.sets@[i as int]@[0] == value);
                            assert forall|q: u64| t0.spec_has(key, q) implies q == value by {
                                let w = choose|w: int|
                                    0 <= w < t0.val_seq(key).len() && t0.val_seq(key)[w] == q;
                            }
                        }
                        Some(value)
                    } else {
                        let mut s = self.sets.remove(i);
                        s.remove(pos);
                        self.sets.insert(i, s);
                        proof {
                            lemma_sum_remove(t0.sets@, i as int, t0.sets@.len() - 1);
                            lemma_sum_nonneg(t0.sets@.remove(i as int), t0.sets@.len() - 1);
                        }
                        self.pair_count = self.pair_count - 1;
                        proof {
                            self.lemma_after_set_shrink(t0, i as int, key, value, pos as int);
                        }
                        Some(value)
                    }
                }
            },
        }
    }

    /// Proof that deleting the whole entry at position `i` (a singleton set of
    /// `key`) yields the stated state.
    proof fn lemma_after_key_remove(self, t0: ToSet, i: int, key: u64)
        requires
            t0.wf(),
            t0.spec_has_key(key),
            i == t0.key_index(key),
            t0.sets@[i]@.len() == 1,
            self.keys@ == t0.keys@.remove(i),
            self.sets@ == t0.sets@.remove(i),
            self.pair_count == t0.pair_count - 1,
        ensures
            self.wf(),
            forall|p: u64, q: u64| self.spec_has(p, q) <==> t0.spec_has(p, q) && p != key,
            forall|p: u64| p != key ==> self.val_seq(p) == t0.val_seq(p),
            forall|p: u64| self.spec_has_key(p) <==> t0.spec_has_key(p) && p != key,
            self.total_pairs() == t0.total_pairs() - 1,
    {
        lemma_key_index(t0, key);
        lemma_remove_sorted(t0.keys@, i);
        t0.keys@.remove_ensures(i);
        t0.sets@.remove_ensures(i);
        assert forall|j: int| 0 <= j < self.sets@.len() implies strictly_sorted(
            #[trigger] self.sets@[j]@,
        ) && self.sets@[j]@.len() > 0 by {
            if j < i {
                assert(self.sets@[j]@ == t0.sets@[j]@);
            } else {
                assert(self.sets@[j]@ == t0.sets@[j + 1]@);
            }
        }
        assert(self.pair_count as int == sum_lens(self.sets@, self.sets@.len() as int)) by {
            lemma_sum_remove(t0.sets@, i, t0.sets@.len() - 1);
        }
        assert(self.wf());
        assert forall|p: u64| p != key && t0.spec_has_key(p) implies self.spec_has_key(p)
            && self.val_seq(p) == t0.val_seq(p) by {
            lemma_key_index(t0, p);
            let j = t0.key_index(p);
            if j < i {
                assert(self.keys@[j] == p);
                assert(self.keys@.contains(p));
                lemma_key_index(self, p);
                assert(self.key_index(p) == j);
            } else {
                assert(j > i);
                assert(self.keys@[j - 1] == p);
                assert(self.keys@.contains(p));
                lemma_key_index(self, p);
                assert(self.key_index(p) == j - 1);
                assert(self.sets@[j - 1]@ == t0.sets@[j]@);
            }
        }
        assert forall|p: u64| #![auto] true implies (self.spec_has_key(p) <==> t0.spec_has_key(p)
            && p != key) by {
            assert(self.keys@.contains(p) <==> t0.keys@.contains(p) && p != t0.keys@[i]);
        }
        assert forall|p: u64| p != key implies self.val_seq(p) == t0.val_seq(p) by {
            if !self.spec_has_key(p) {
                assert(self.val_seq(p) == Seq::<u64>::empty());
            }
        }
        assert forall|p: u64, q: u64| #![auto] true implies (self.spec_has(p, q) <==> t0.spec_has(
            p,
            q,
        ) && p != key) by {
            if p == key {
                assert(self.val_seq(key) == Seq::<u64>::empty());
            }
        }
    }

    /// Proof that shrinking the value set at position `i` (the position of
    /// `key`) by the value at `pos` yields the stated state.
    proof fn lemma_after_set_shrink(self, t0: ToSet, i: int, key: u64, value: u64, pos: int)
        requires
            t0.wf(),
            t0.spec_has_key(key),
            i == t0.key_index(key),
            t0.sets@[i]@.len() > 1,
            0 <= pos < t0.sets@[i]@.len(),
            t0.sets@[i]@[pos] == value,
            self.keys@ == t0.keys@,
            self.sets@.len() == t0.sets@.len(),
            self.sets@[i]@ == t0.sets@[i]@.remove(pos),
            forall|j: int| 0 <= j < t0.sets@.len() && j != i ==> self.sets@[j]@ == t0.sets@[j]@,
            self.pair_count == t0.pair_count - 1,
        ensures
            self.wf(),
            forall|p: u64, q: u64|
                self.spec_has(p, q) <==> t0.spec_has(p, q) && !(p == key && q == value),
            forall|p: u64| p != key ==> self.val_seq(p) == t0.val_seq(p),
            forall|p: u64| self.spec_has_key(p) <==> t0.spec_has_key(p),
            self.total_pairs() == t0.total_pairs() - 1,
    {
        lemma_key_index(t0, key);
        lemma_remove_sorted(t0.sets@[i]@, pos);
        lemma_sum_agree(self.sets@, t0.sets@.update(i, self.sets@[i]), self.sets@.len() as int);
        lemma_sum_update(t0.sets@, i, self.sets@[i], t0.sets@.len() as int);
        assert(self.wf());
        assert forall|p: u64| p != key && self.spec_has_key(p) implies self.val_seq(p)
            == t0.val_seq(p) by {
            lemma_key_index(self, p);
            lemma_key_index(t0, p);
            assert(self.key_index(p) == t0.key_index(p));
            assert(self.key_index(p) != i);
        }
        assert(self.spec_has_key(key) && self.key_index(key) == i) by {
            lemma_key_index(self, key);
        }
        assert forall|p: u64| p != key implies self.val_seq(p) == t0.val_seq(p) by {
            if !self.spec_has_key(p) {
                assert(self.val_seq(p) == Seq::<u64>::empty());
            }
        }
        assert forall|p: u64, q: u64| #![auto] true implies (self.spec_has(p, q) <==> t0.spec_has(
            p,
            q,
        ) && !(p == key && q == value)) by {
            if p == key {
                assert(self.val_seq(key) == t0.sets@[i]@.remove(pos));
            }
        }
    }

    /// Removes the entire value set for `key`, returning it in ascending
    /// order (empty when the key is absent).
    pub fn expunge(&mut self, key: u64) -> (r: Vec<u64>)
        requires
            old(self).wf(),
        ensures
            final(self).wf(),
            r@ == old(self).val_seq(key),
            strictly_sorted(r@),
            !final(self).spec_has_key(key),
            forall|p: u64| final(self).spec_has_key(p) <==> old(self).spec_has_key(p) && p != key,
            forall|p: u64| p != key ==> final(self).val_seq(p) == old(self).val_seq(p),
            forall|p: u64, q: u64|
                final(self).spec_has(p, q) <==> old(self).spec_has(p, q) && p != key,
            !old(self).spec_has_key(key) ==> *final(self) == *old(self),
            final(self).total_pairs() == old(self).total_pairs() - old(self).val_seq(key).len(),
    {
        let ghost t0 = *self;
        proof {
            lemma_val_seq(t0, key);
        }
        match self.find_key(key) {
            None => {
                let r = Vec::new();
                proof {
                    assert(r@ =~= t0.val_seq(key));
                }
                r
            },
            Some(i) => {
                proof {
                    lemma_key_index(t0, key);
                }
                self.keys.remove(i);
                let r = self.sets.remove(i);
                proof {
                    lemma_sum_remove(t0.sets@, i as int, t0.sets@.len() - 1);
                    lemma_sum_nonneg(self.sets@, self.sets@.len() as int);
                }
                self.pair_count = self.pair_count - r.len();
                proof {
                    self.lemma_after_expunge(t0, i as int, key);
                }
                r
            },
        }
    }

    /// Proof that deleting the whole entry at position `i` (the position of
    /// `key`) yields the stated state.
    proof fn lemma_after_expunge(self, t0: ToSet, i: int, key: u64)
        requires
            t0.wf(),
            t0.spec_has_key(key),
            i == t0.key_index(key),
            self.keys@ == t0.keys@.remove(i),
            self.sets@ == t0.sets@.remove(i),
            self.pair_count == t0.pair_count - t0.sets@[i]@.len(),
        ensures
            self.wf(),
            !self.spec_has_key(key),
            forall|p: u64, q: u64| self.spec_has(p, q) <==> t0.spec_has(p, q) && p != key,
            forall|p: u64| p != key ==> self.val_seq(p) == t0.val_seq(p),
            forall|p: u64| self.spec_has_key(p) <==> t0.spec_has_key(p) && p != key,
            self.total_pairs() == t0.total_pairs() - t0.sets@[i]@.len(),
    {
        lemma_key_index(t0, key);
        lemma_remove_sorted(t0.keys@, i);
        t0.keys@.remove_ensures(i);
        t0.sets@.remove_ensures(i);
        assert forall|j: int| 0 <= j < self.sets@.len() implies strictly_sorted(
            #[trigger] self.sets@[j]@,
        ) && self.sets@[j]@.len() > 0 by {
            if j < i {
                assert(self.sets@[j]@ == t0.sets@[j]@);
            } else {
                assert(self.sets@[j]@ == t0.sets@[j + 1]@);
            }
        }
        assert(self.pair_count as int == sum_lens(self.sets@, self.sets@.len() as int)) by {
            lemma_sum_remove(t0.sets@, i, t0.sets@.len() - 1);
        }
        assert(self.wf());
        assert forall|p: u64| p != key && t0.spec_has_key(p) implies self.spec_has_key(p)
            && self.val_seq(p) == t0.val_seq(p) by {
            lemma_key_index(t0, p);
            let j = t0.key_index(p);
            if j < i {
                assert(self.keys@[j] == p);
                assert(self.keys@.contains(p));
                lemma_key_index(self, p);
                assert(self.key_index(p) == j);
            } else {
                assert(j > i);
                assert(self.keys@[j - 1] == p);
                assert(self.keys@.contains(p));
                lemma_key_index(self, p);
                assert(self.key_index(p) == j - 1);
                assert(self.sets@[j - 1]@ == t0.sets@[j]@);
            }
        }
        assert forall|p: u64| #![auto] true implies (self.spec_has_key(p) <==> t0.spec_has_key(p)
            && p != key) by {
            assert(self.keys@.contains(p) <==> t0.keys@.contains(p) && p != t0.keys@[i]);
        }
        assert forall|p: u64| p != key implies self.val_seq(p) == t0.val_seq(p) by {
            if !self.spec_has_key(p) {
                assert(self.val_seq(p) == Seq::<u64>::empty());
            }
        }
        assert forall|p: u64, q: u64| #![auto] true implies (self.spec_has(p, q) <==> t0.spec_has(
            p,
            q,
        ) && p != key) by {
            if p == key {
                assert(self.val_seq(key) == Seq::<u64>::empty());
            }
        }
    }
}

/// Copies a vector of words.
pub fn copy_vec(v: &Vec<u64>) -> (r: Vec<u64>)
    ensures
        r@ == v@,
{
    let mut r: Vec<u64> = Vec::new();
    let mut i: usize = 0;
    while i < v.len()
        invariant
            i <= v@.len(),
            r@ == v@.take(i as int),
        decreases v@.len() - i,
    {
        r.push(v[i]);
        proof {
            assert(r@ =~= v@.take(i + 1));
        }
        i = i + 1;
    }
    proof {
        assert(v@.take(v@.len() as int) =~= v@);
    }
    r
}

/// A read-only snapshot of one key's value set; an absent key reads as an
/// empty set.
pub struct VSet {
    pub vals: Vec<u64>,
}

impl VSet {
    pub open spec fn wf(self) -> bool {
        strictly_sorted(self.vals@)
    }

    pub fn contains(&self, v: u64) -> (r: bool)
        requires
            self.wf(),
        ensures
            r == self.vals@.contains(v),
    {
        let (_, found) = search(&self.vals, v);
        found
    }

    pub fn len(&self) -> (r: usize)
        requires
            self.wf(),
        ensures
            r as int == self.vals@.len(),
    {
        self.vals.len()
    }
}

/// A handle scoped to one key of a store, through which that key's set is
/// read and mutated; the store itself is passed to each operation, so the
/// handle never outlives its use.
pub struct MSet {
    pub k: u64,
}

impl MSet {
    pub fn key(&self) -> (r: u64)
        ensures
            r == self.k,
    {
        self.k
    }

    pub fn insert(&self, t: &mut ToSet, v: u64) -> (r: Option<u64>)
        requires
            old(t).wf(),
            old(t).spec_has(self.k, v) || old(t).pair_count < usize::MAX,
        ensures
            final(t).wf(),
            r == (if old(t).spec_has(self.k, v) {
                None::<u64>
            } else {
                Some(v)
            }),
            forall|p: u64, q: u64|
                final(t).spec_has(p, q) <==> old(t).spec_has(p, q) || (p == self.k && q == v),
            forall|p: u64| p != self.k ==> final(t).val_seq(p) == old(t).val_seq(p),
    {
        t.insert(self.k, v)
    }

    pub fn remove(&self, t: &mut ToSet, v: u64) -> (r: Option<u64>)
        requires
            old(t).wf(),
        ensures
            final(t).wf(),
            r == (if old(t).spec_has(self.k, v) {
                Some(v)
            } else {
                None::<u64>
            }),
            forall|p: u64, q: u64|
                final(t).spec_has(p, q) <==> old(t).spec_has(p, q) && !(p == self.k && q == v),
            forall|p: u64| p != self.k ==> final(t).val_seq(p) == old(t).val_seq(p),
    {
        t.remove(self.k, v)
    }

    pub fn contains(&self, t: &ToSet, v: u64) -> (r: bool)
        requires
            t.wf(),
        ensures
            r == t.spec_has(self.k, v),
    {
        t.get(self.k).contains(v)
    }

    pub fn len(&self, t: &ToSet) -> (r: usize)
        requires
            t.wf(),
        ensures
            r as int == t.val_seq(self.k).len(),
    {
        t.get(self.k).len()
    }
}

impl ToSet {
    /// A read-only view of `key`'s value set; `key` need not exist.
    pub fn get(&self, key: u64) -> (r: VSet)
        requires
            self.wf(),
        ensures
            r.wf(),
            r.vals@ == self.val_seq(key),
    {
        proof {
            lemma_val_seq(*self, key);
        }
        match self.find_key(key) {
            Some(i) => VSet { vals: copy_vec(&self.sets[i]) },
            None => {
                let r = VSet { vals: Vec::new() };
                proof {
                    assert(r.vals@ =~= self.val_seq(key));
                }
                r
            },
        }
    }

    /// A mutation handle scoped to `key`; `key` need not exist.
    pub fn get_mut(&mut self, key: u64) -> (r: MSet)
        ensures
            *final(self) == *old(self),
            r.k == key,
    {
        MSet { k: key }
    }
}

/// A well-formed store is canonical: two stores with the same pairs have the
/// same keys, the same value sequences, and the same pair count.
pub proof fn lemma_canonical(t1: ToSet, t2: ToSet)
    requires
        t1.wf(),
        t2.wf(),
        forall|k: u64, v: u64| t1.spec_has(k, v) <==> t2.spec_has(k, v),
    ensures
        t1.keys@ == t2.keys@,
        forall|k: u64| t1.val_seq(k) == t2.val_seq(k),
        t1.sets@.len() == t2.sets@.len(),
        forall|i: int| 0 <= i < t1.sets@.len() ==> t1.sets@[i]@ == t2.sets@[i]@,
        t1.total_pairs() == t2.total_pairs(),
        t1.pair_count == t2.pair_count,
{
    assert forall|k: u64| t1.keys@.contains(k) <==> t2.keys@.contains(k) by {
        lemma_has_key_iff(t1, k);
        lemma_has_key_iff(t2, k);
        assert(t1.spec_has_key(k) <==> t2.spec_has_key(k));
    }
    lemma_sorted_same_members(t1.keys@, t2.keys@);
    assert forall|k: u64| t1.val_seq(k) == t2.val_seq(k) by {
        lemma_val_seq(t1, k);
        lemma_val_seq(t2, k);
        assert forall|x: u64| t1.val_seq(k).contains(x) <==> t2.val_seq(k).contains(x) by {
            assert(t1.spec_has(k, x) <==> t2.spec_has(k, x));
        }
        lemma_sorted_same_members(t1.val_seq(k), t2.val_seq(k));
    }
    assert forall|i: int| 0 <= i < t1.sets@.len() implies t1.sets@[i]@ == t2.sets@[i]@ by {
        let k = t1.keys@[i];
        assert(t1.keys@.contains(k));
        lemma_key_index(t1, k);
        lemma_key_index(t2, k);
        assert(t1.key_index(k) == i && t2.key_index(k) == i);
        assert(t1.sets@[i]@ == t1.val_seq(k));
        assert(t2.sets@[i]@ == t2.val_seq(k));
    }
    lemma_sum_agree(t1.sets@, t2.sets@, t1.sets@.len() as int);
}

} // verus!
