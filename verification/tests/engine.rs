use moogle::many_to_many::RawManyToMany;
use moogle::one_to_one::RawOneToOne;
use moogle::set_to_set::RawSetToSet;
use moogle::shared::SetToSet;
use moogle::shared_one_to_one::OneToOne;
use moogle::to_set::ToSet;

#[test]
fn to_set_insert_reports_newness() {
    let mut t = ToSet::new();
    assert_eq!(t.insert(1, 10), Some(10));
    assert_eq!(t.insert(1, 10), None);
    assert_eq!(t.insert(1, 11), Some(11));
    assert_eq!(t.len(), 1);
    assert_eq!(t.pairs_len(), 2);
    assert!(t.contains_key(1));
    assert!(!t.contains_key(2));
}

#[test]
fn to_set_remove_last_value_drops_key() {
    let mut t = ToSet::new();
    t.insert(5, 50);
    t.insert(5, 51);
    assert_eq!(t.remove(5, 50), Some(50));
    assert!(t.contains_key(5));
    assert_eq!(t.remove(5, 51), Some(51));
    assert!(!t.contains_key(5));
    assert_eq!(t.remove(5, 51), None);
    assert_eq!(t.len(), 0);
    assert_eq!(t.pairs_len(), 0);
}

#[test]
fn to_set_expunge_returns_ascending_set() {
    let mut t = ToSet::new();
    t.insert(7, 30);
    t.insert(7, 10);
    t.insert(7, 20);
    t.insert(8, 80);
    let gone = t.expunge(7);
    assert_eq!(gone, vec![10, 20, 30]);
    assert!(!t.contains_key(7));
    assert!(t.contains_key(8));
    let nothing = t.expunge(99);
    assert_eq!(nothing, Vec::<u64>::new());
}

#[test]
fn to_set_get_on_absent_key_is_empty() {
    let t = ToSet::new();
    let v = t.get(42);
    assert_eq!(v.len(), 0);
    assert!(!v.contains(1));
}

#[test]
fn to_set_get_mut_handle() {
    let mut t = ToSet::new();
    let h = t.get_mut(3);
    assert_eq!(h.key(), 3);
    assert_eq!(h.insert(&mut t, 33), Some(33));
    assert_eq!(h.insert(&mut t, 33), None);
    assert!(h.contains(&t, 33));
    assert_eq!(h.len(&t), 1);
    assert_eq!(h.remove(&mut t, 33), Some(33));
    assert_eq!(h.len(&t), 0);
}

#[test]
fn bidirectional_consistency_scenario() {
    let mut r = RawManyToMany::new();
    let m = r.mut_fwd();
    m.insert(&mut r, 1, 10);
    m.insert(&mut r, 1, 11);
    m.insert(&mut r, 2, 10);
    let f = r.fwd();
    let b = r.bwd();
    assert!(f.contains(&r, 1, 10));
    assert!(b.contains(&r, 10, 1));
    assert!(f.contains(&r, 2, 10));
    assert!(b.contains(&r, 10, 2));
    assert!(!f.contains(&r, 2, 11));
    assert!(!b.contains(&r, 11, 2));
    assert_eq!(f.len(&r), 3);
    assert_eq!(b.len(&r), 3);
    assert_eq!(f.keys_len(&r), 2);
    assert_eq!(b.keys_len(&r), 2);
}

#[test]
fn insert_twice_yields_some_then_none() {
    let mut r = RawManyToMany::new();
    let m = r.mut_fwd();
    assert_eq!(m.insert(&mut r, 4, 40), Some(40));
    let keys_after_first = {
        let f = r.fwd();
        (f.len(&r), f.keys_len(&r))
    };
    assert_eq!(m.insert(&mut r, 4, 40), None);
    let f = r.fwd();
    assert_eq!((f.len(&r), f.keys_len(&r)), keys_after_first);
    assert!(f.contains(&r, 4, 40));
}

#[test]
fn remove_restores_prior_state() {
    let mut r = RawManyToMany::new();
    let m = r.mut_fwd();
    m.insert(&mut r, 1, 10);
    m.insert(&mut r, 2, 20);
    let m_set = m.get_mut(1);
    assert_eq!(m_set.insert(&mut r, 99), Some(99));
    assert_eq!(m_set.remove(&mut r, 99), Some(99));
    let f = r.fwd();
    assert_eq!(f.len(&r), 2);
    assert!(f.contains(&r, 1, 10));
    assert!(f.contains(&r, 2, 20));
    assert!(!f.contains(&r, 1, 99));
    let b = r.bwd();
    assert!(!b.contains_key(&r, 99));
}

#[test]
fn expunge_removes_key_and_mirrors() {
    let mut r = RawManyToMany::new();
    let m = r.mut_fwd();
    m.insert(&mut r, 1, 10);
    m.insert(&mut r, 1, 11);
    m.insert(&mut r, 2, 10);
    let gone = m.expunge(&mut r, 1);
    assert_eq!(gone, vec![10, 11]);
    let f = r.fwd();
    let b = r.bwd();
    assert!(!f.contains_key(&r, 1));
    assert!(!b.contains(&r, 10, 1));
    assert!(!b.contains(&r, 11, 1));
    assert!(b.contains(&r, 10, 2));
    assert!(!b.contains_key(&r, 11));
    assert_eq!(f.len(&r), 1);
}

#[test]
fn backward_accessors_mirror_forward() {
    let mut r = RawManyToMany::new();
    let mb = r.mut_bwd();
    assert_eq!(mb.insert(&mut r, 10, 1), Some(1));
    let f = r.fwd();
    assert!(f.contains(&r, 1, 10));
    let vb = r.bwd();
    assert!(vb.contains(&r, 10, 1));
    let s = vb.get(&r, 10);
    assert!(s.contains(1));
    assert_eq!(s.len(), 1);
    let gone = mb.expunge(&mut r, 10);
    assert_eq!(gone, vec![1]);
    assert!(!r.fwd().contains_key(&r, 1));
}

#[test]
fn iteration_order_is_key_major_ascending() {
    // the same pairs in several insertion orders
    let orders: Vec<Vec<(u64, u64)>> = vec![
        vec![(1, 10), (1, 11), (2, 20)],
        vec![(2, 20), (1, 11), (1, 10)],
        vec![(1, 11), (2, 20), (1, 10)],
    ];
    for order in orders {
        let mut r = RawManyToMany::new();
        let m = r.mut_fwd();
        for (a, b) in order {
            m.insert(&mut r, a, b);
        }
        let f = r.fwd();
        let mut c = f.iter(&r);
        let mut fwd_list = Vec::new();
        while let Some(p) = c.next(&r.fwd) {
            fwd_list.push(p);
        }
        assert_eq!(fwd_list, vec![(1, 10), (1, 11), (2, 20)]);
        let mut c2 = f.iter(&r);
        let mut rev_list = Vec::new();
        while let Some(p) = c2.next_back(&r.fwd) {
            rev_list.push(p);
        }
        assert_eq!(rev_list, vec![(2, 20), (1, 11), (1, 10)]);
    }
}

#[test]
fn cursor_can_be_driven_from_both_ends() {
    let mut r = RawManyToMany::new();
    let m = r.mut_fwd();
    m.insert(&mut r, 1, 10);
    m.insert(&mut r, 2, 20);
    m.insert(&mut r, 3, 30);
    let f = r.fwd();
    let mut c = f.iter(&r);
    assert_eq!(c.next(&r.fwd), Some((1, 10)));
    assert_eq!(c.next_back(&r.fwd), Some((3, 30)));
    assert_eq!(c.next(&r.fwd), Some((2, 20)));
    assert_eq!(c.next(&r.fwd), None);
    assert_eq!(c.next_back(&r.fwd), None);
}

#[test]
fn cursor_restarts_fresh() {
    let mut r = RawManyToMany::new();
    let m = r.mut_fwd();
    m.insert(&mut r, 6, 60);
    let f = r.fwd();
    let mut c1 = f.iter(&r);
    assert_eq!(c1.next(&r.fwd), Some((6, 60)));
    assert_eq!(c1.next(&r.fwd), None);
    let mut c2 = f.iter(&r);
    assert_eq!(c2.next(&r.fwd), Some((6, 60)));
}

#[test]
fn keys_cursor_ascending_and_back() {
    let mut r = RawManyToMany::new();
    let m = r.mut_fwd();
    m.insert(&mut r, 3, 1);
    m.insert(&mut r, 1, 1);
    m.insert(&mut r, 2, 1);
    let f = r.fwd();
    let mut c = f.keys(&r);
    assert_eq!(c.next(&r.fwd.keys), Some(1));
    assert_eq!(c.next(&r.fwd.keys), Some(2));
    assert_eq!(c.next(&r.fwd.keys), Some(3));
    assert_eq!(c.next(&r.fwd.keys), None);
    let mut cb = f.keys(&r);
    assert_eq!(cb.next_back(&r.fwd.keys), Some(3));
    assert_eq!(cb.next_back(&r.fwd.keys), Some(2));
    assert_eq!(cb.next_back(&r.fwd.keys), Some(1));
    assert_eq!(cb.next_back(&r.fwd.keys), None);
}

#[test]
fn per_key_set_view_and_cursor() {
    let mut r = RawManyToMany::new();
    let m = r.mut_fwd();
    m.insert(&mut r, 9, 92);
    m.insert(&mut r, 9, 91);
    let f = r.fwd();
    let s = f.get(&r, 9);
    assert_eq!(s.len(), 2);
    assert!(s.contains(91));
    assert!(!s.contains(90));
    let mut c = s.iter();
    assert_eq!(c.next(&s.set.vals), Some(91));
    assert_eq!(c.next(&s.set.vals), Some(92));
    assert_eq!(c.next(&s.set.vals), None);
    let absent = f.get(&r, 1000);
    assert_eq!(absent.len(), 0);
}

#[test]
fn values_cursor_in_pair_order() {
    let mut r = RawManyToMany::new();
    let m = r.mut_fwd();
    m.insert(&mut r, 2, 20);
    m.insert(&mut r, 1, 11);
    m.insert(&mut r, 1, 10);
    let f = r.fwd();
    let mut c = f.values(&r);
    assert_eq!(c.next(&r.fwd), Some(10));
    assert_eq!(c.next(&r.fwd), Some(11));
    assert_eq!(c.next(&r.fwd), Some(20));
    assert_eq!(c.next(&r.fwd), None);
    let mut cb = f.values(&r);
    assert_eq!(cb.next_back(&r.fwd), Some(20));
    assert_eq!(cb.next_back(&r.fwd), Some(11));
    assert_eq!(cb.next_back(&r.fwd), Some(10));
    assert_eq!(cb.next_back(&r.fwd), None);
}

#[test]
fn sets_cursor_pairs_keys_with_views() {
    let mut r = RawManyToMany::new();
    let m = r.mut_fwd();
    m.insert(&mut r, 1, 10);
    m.insert(&mut r, 1, 11);
    m.insert(&mut r, 2, 20);
    let f = r.fwd();
    let mut c = f.sets(&r);
    let (k1, s1) = c.next(&r.fwd).unwrap();
    assert_eq!(k1, 1);
    assert_eq!(s1.len(), 2);
    assert!(s1.contains(10) && s1.contains(11));
    let (k2, s2) = c.next(&r.fwd).unwrap();
    assert_eq!(k2, 2);
    assert_eq!(s2.len(), 1);
    assert!(c.next(&r.fwd).is_none());
}

#[test]
fn one_to_one_displacement() {
    let mut r = RawOneToOne::new();
    assert_eq!(r.insert(1, 10), (None, None));
    // inserting (1, 20) removes 1 <-> 10 entirely
    assert_eq!(r.insert(1, 20), (Some(10), None));
    assert_eq!(r.fwd_get(1), Some(20));
    assert_eq!(r.bwd_get(10), None);
    assert_eq!(r.bwd_get(20), Some(1));
    // inserting (2, 20) further removes 1 <-> 20
    assert_eq!(r.insert(2, 20), (None, Some(1)));
    assert_eq!(r.fwd_get(1), None);
    assert_eq!(r.fwd_get(2), Some(20));
    assert_eq!(r.bwd_get(20), Some(2));
    assert_eq!(r.len(), 1);
}

#[test]
fn one_to_one_reinsert_and_remove() {
    let mut r = RawOneToOne::new();
    r.insert(5, 50);
    // re-inserting the same pair reports the old partner and keeps the pair
    assert_eq!(r.insert(5, 50), (Some(50), None));
    assert!(r.contains(5, 50));
    assert_eq!(r.remove(5, 51), None);
    assert_eq!(r.remove(5, 50), Some(50));
    assert!(!r.contains(5, 50));
    assert_eq!(r.bwd_get(50), None);
    assert_eq!(r.expunge(7), None);
    r.insert(7, 70);
    assert_eq!(r.expunge(7), Some(70));
    assert_eq!(r.bwd_get(70), None);
}

#[test]
fn set_to_set_mirrors_many_to_many() {
    let mut r = RawSetToSet::new();
    assert_eq!(r.insert(1, 10), Some(10));
    assert_eq!(r.insert(1, 10), None);
    assert_eq!(r.remove(1, 10), Some(10));
    assert_eq!(r.remove(1, 10), None);
    r.insert(2, 20);
    r.insert(2, 21);
    assert_eq!(r.expunge(2), vec![20, 21]);
    assert_eq!(r.len(), 0);
}

#[test]
fn shared_cache_observes_other_key_mutations() {
    let mut s = SetToSet::new();
    let port = s.fwd();
    port.insert(&mut s, 1, 10);
    port.insert(&mut s, 2, 20);
    // handle taken before the mutation, cache filled
    let mut before = port.get(1);
    assert!(before.contains(&s, 10));
    // mutation to a different key
    port.insert(&mut s, 2, 21);
    // the earlier handle still answers correctly for its own key
    assert!(before.contains(&s, 10));
    assert_eq!(before.len(&s), 1);
    // a handle taken after the mutation answers the same
    let mut after = port.get(1);
    assert!(after.contains(&s, 10));
    assert_eq!(after.len(&s), 1);
}

#[test]
fn shared_fresh_handle_recomputes() {
    let mut s = SetToSet::new();
    let port = s.fwd();
    port.insert(&mut s, 3, 30);
    let mut h1 = port.get(3);
    assert_eq!(h1.len(&s), 1);
    // mutate the handle's own key through a new exclusive lease
    port.insert(&mut s, 3, 31);
    // a freshly obtained accessor always recomputes
    let mut h2 = port.get(3);
    assert_eq!(h2.len(&s), 2);
    assert_eq!(h2.fetch(&s), vec![30, 31]);
}

#[test]
fn shared_set_handle_mutates_through_wrapper() {
    let mut s = SetToSet::new();
    let port = s.fwd();
    let mut h = port.get(4);
    assert_eq!(h.insert(&mut s, 40), Some(40));
    assert_eq!(h.insert(&mut s, 40), None);
    assert!(h.contains(&s, 40));
    let (vals, mut c) = h.iter(&s);
    assert_eq!(c.next(&vals), Some(40));
    assert_eq!(c.next(&vals), None);
    assert_eq!(h.remove(&mut s, 40), Some(40));
    assert_eq!(h.len(&s), 0);
    assert!(!port.contains_key(&s, 4));
}

#[test]
fn shared_whole_direction_reads() {
    let mut s = SetToSet::new();
    let port = s.fwd();
    port.insert(&mut s, 1, 10);
    port.insert(&mut s, 1, 11);
    port.insert(&mut s, 5, 50);
    assert_eq!(port.len(&s), 3);
    assert_eq!(port.keys_len(&s), 2);
    assert!(port.contains_key(&s, 5));
    let gone = port.expunge(&mut s, 1);
    assert_eq!(gone, vec![10, 11]);
    assert_eq!(port.len(&s), 1);
    assert!(!port.contains_key(&s, 1));
}

#[test]
fn shared_one_to_one_caches_and_displaces() {
    let mut s = OneToOne::new();
    let port = s.fwd();
    assert_eq!(port.insert(&mut s, 1, 10), (None, None));
    let mut h = port.get(1);
    assert_eq!(h.fetch(&s), Some(10));
    assert!(h.contains(&s, 10));
    // mutation to a different key leaves the cached handle correct
    port.insert(&mut s, 2, 20);
    assert_eq!(h.fetch(&s), Some(10));
    // displacement through the shared port
    assert_eq!(port.insert(&mut s, 1, 20), (Some(10), Some(2)));
    let mut h2 = port.get(1);
    assert_eq!(h2.fetch(&s), Some(20));
    let back = s.bwd();
    let mut hb = back.get(20);
    assert!(hb.contains(&s, 1));
    assert!(!back.contains_key(&s, 10));
    assert_eq!(port.len(&s), 1);
    assert_eq!(port.expunge(&mut s, 1), Some(20));
    assert!(!port.contains_key(&s, 1));
}

#[test]
fn empty_relation_reads_as_empty() {
    let r = RawManyToMany::new();
    let f = r.fwd();
    assert_eq!(f.len(&r), 0);
    assert_eq!(f.keys_len(&r), 0);
    assert!(!f.contains_key(&r, 0));
    assert!(!f.contains(&r, 0, 0));
    let mut c = f.iter(&r);
    assert_eq!(c.next(&r.fwd), None);
    assert_eq!(c.next_back(&r.fwd), None);
}

#[test]
fn same_identifier_both_domains() {
    // both domains are words, so an edge may relate equal identifiers
    let mut r = RawManyToMany::new();
    let m = r.mut_fwd();
    m.insert(&mut r, 5, 5);
    assert!(r.fwd().contains(&r, 5, 5));
    assert!(r.bwd().contains(&r, 5, 5));
    m.insert(&mut r, 5, 6);
    m.insert(&mut r, 6, 5);
    let gone = m.expunge(&mut r, 5);
    assert_eq!(gone, vec![5, 6]);
    assert!(r.fwd().contains(&r, 6, 5));
    assert!(!r.bwd().contains(&r, 5, 5));
    assert!(r.bwd().contains(&r, 5, 6));
}

#[test]
fn largest_identifiers() {
    let mut r = RawManyToMany::new();
    let m = r.mut_fwd();
    assert_eq!(m.insert(&mut r, u64::MAX, u64::MAX - 1), Some(u64::MAX - 1));
    assert_eq!(m.insert(&mut r, 0, u64::MAX), Some(u64::MAX));
    assert!(r.fwd().contains(&r, u64::MAX, u64::MAX - 1));
    assert!(r.bwd().contains(&r, u64::MAX, 0));
    let f = r.fwd();
    let mut c = f.iter(&r);
    assert_eq!(c.next(&r.fwd), Some((0, u64::MAX)));
    assert_eq!(c.next(&r.fwd), Some((u64::MAX, u64::MAX - 1)));
    assert_eq!(c.next(&r.fwd), None);
}
