use rpds_py::{Error, HashTrieMap, HashTrieSet, Key, Value};

fn key(id: u64) -> Key {
    Key { id, hash: (id as i64) * 7919 - 3 }
}

fn val(id: u64) -> Value {
    Value { id, hash: Some(id as i64 + 100) }
}

fn unhashable(id: u64) -> Value {
    Value { id, hash: None }
}

#[test]
fn scenario_insert_insert_remove() {
    let a = key(1);
    let b = key(2);
    let m0 = HashTrieMap::new();
    let m1 = m0.insert(a, val(1));
    let m2 = m1.insert(b, val(2));
    assert_eq!(m0.len(), 0);
    assert_eq!(m1.len(), 1);
    assert_eq!(m1.get_item(&b), Err(Error::KeyNotFound(b)));
    assert_eq!(m2.len(), 2);
    let m3 = m2.remove(&a).unwrap();
    assert_eq!(m3.len(), 1);
    assert_eq!(m3.get_item(&a), Err(Error::KeyNotFound(a)));
    assert_eq!(m2.get_item(&a), Ok(val(1)));
    assert_eq!(m2.get_item(&b), Ok(val(2)));
    assert_eq!(m2.len(), 2);
}

#[test]
fn insert_then_get_returns_value() {
    let m = HashTrieMap::new().insert(key(5), val(50));
    assert_eq!(m.get_item(&key(5)), Ok(val(50)));
    assert!(m.contains_key(&key(5)));
    assert!(!m.contains_key(&key(6)));
}

#[test]
fn remove_then_get_is_not_found() {
    let m = HashTrieMap::new().insert(key(5), val(50)).insert(key(6), val(60));
    let r = m.remove(&key(5)).unwrap();
    assert_eq!(r.get_item(&key(5)), Err(Error::KeyNotFound(key(5))));
    assert_eq!(r.get_item(&key(6)), Ok(val(60)));
}

#[test]
fn remove_missing_key_fails() {
    let m = HashTrieMap::new().insert(key(5), val(50));
    assert_eq!(m.remove(&key(9)).err(), Some(Error::KeyNotFound(key(9))));
}

#[test]
fn reinsert_changes_value_not_size() {
    let m = HashTrieMap::new().insert(key(1), val(1)).insert(key(2), val(2));
    let r = m.insert(key(1), val(9));
    assert_eq!(r.len(), 2);
    assert_eq!(r.get_item(&key(1)), Ok(val(9)));
    assert_eq!(m.get_item(&key(1)), Ok(val(1)));
}

#[test]
fn insert_keeps_other_keys_and_old_map() {
    let mut old = HashTrieMap::new();
    for i in 0..200u64 {
        old = old.insert(key(i), val(i));
    }
    let new = old.insert(key(7), val(1000));
    let newer = new.discard(&key(8)).insert(key(500), val(5));
    for i in 0..200u64 {
        assert_eq!(old.get_item(&key(i)), Ok(val(i)));
        if i != 7 {
            assert_eq!(new.get_item(&key(i)), Ok(val(i)));
        }
    }
    assert_eq!(old.len(), 200);
    assert_eq!(new.len(), 200);
    assert_eq!(newer.len(), 200);
    assert_eq!(new.get_item(&key(7)), Ok(val(1000)));
}

#[test]
fn hash_collisions_keep_keys_apart() {
    let a = Key { id: 1, hash: 42 };
    let b = Key { id: 2, hash: 42 };
    let m = HashTrieMap::new().insert(a, val(1)).insert(b, val(2));
    assert_eq!(m.len(), 2);
    assert_eq!(m.get_item(&a), Ok(val(1)));
    assert_eq!(m.get_item(&b), Ok(val(2)));
    let r = m.remove(&a).unwrap();
    assert_eq!(r.len(), 1);
    assert_eq!(r.get_item(&b), Ok(val(2)));
}

#[test]
fn get_with_default() {
    let m = HashTrieMap::new().insert(key(1), val(1));
    assert_eq!(m.get(&key(1), None), Some(val(1)));
    assert_eq!(m.get(&key(2), None), None);
    assert_eq!(m.get(&key(2), Some(val(3))), Some(val(3)));
}

#[test]
fn discard_missing_key_keeps_entries() {
    let m = HashTrieMap::new().insert(key(1), val(1));
    let d = m.discard(&key(2));
    assert!(d.is_equal(&m));
    let e = m.discard(&key(1));
    assert_eq!(e.len(), 0);
}

#[test]
fn from_entries_later_entry_wins() {
    let m = HashTrieMap::from_entries(&vec![(key(1), val(1)), (key(2), val(2)), (key(1), val(3))]);
    assert_eq!(m.len(), 2);
    assert_eq!(m.get_item(&key(1)), Ok(val(3)));
}

#[test]
fn init_from_value_and_keywords() {
    let base = HashTrieMap::from_entries(&vec![(key(1), val(1))]);
    let m = HashTrieMap::init(Some(base), &vec![(key(2), val(2)), (key(1), val(5))]);
    assert_eq!(m.len(), 2);
    assert_eq!(m.get_item(&key(1)), Ok(val(5)));
    let e = HashTrieMap::init(None, &vec![]);
    assert_eq!(e.len(), 0);
}

#[test]
fn fromkeys_binds_each_key() {
    let m = HashTrieMap::fromkeys(&vec![val(1), val(2), val(1)], val(0)).unwrap();
    assert_eq!(m.len(), 2);
    assert_eq!(m.get_item(&key_of(val(1))), Ok(val(0)));
    let e = HashTrieMap::fromkeys(&vec![val(1), unhashable(2), unhashable(3)], val(0));
    assert_eq!(e.err(), Some(Error::Unhashable(unhashable(2))));
}

fn key_of(v: Value) -> Key {
    Key::extract(v).unwrap()
}

#[test]
fn update_later_writer_wins() {
    let base = HashTrieMap::from_entries(&vec![(key(1), val(1)), (key(2), val(2))]);
    let m1 = HashTrieMap::from_entries(&vec![(key(2), val(20)), (key(3), val(30))]);
    let m2 = HashTrieMap::from_entries(&vec![(key(3), val(300))]);
    let r = base.update(&vec![m1, m2], &vec![(key(4), val(4)), (key(1), val(10))]);
    assert_eq!(r.len(), 4);
    assert_eq!(r.get_item(&key(1)), Ok(val(10)));
    assert_eq!(r.get_item(&key(2)), Ok(val(20)));
    assert_eq!(r.get_item(&key(3)), Ok(val(300)));
    assert_eq!(r.get_item(&key(4)), Ok(val(4)));
    assert_eq!(base.len(), 2);
}

#[test]
fn insertion_order_does_not_matter() {
    let forward: Vec<(Key, Value)> = (0..50u64).map(|i| (key(i), val(i))).collect();
    let backward: Vec<(Key, Value)> = forward.iter().rev().copied().collect();
    let a = HashTrieMap::from_entries(&forward);
    let b = HashTrieMap::from_entries(&backward);
    assert!(a.is_equal(&b));
    assert_eq!(a.hash(), b.hash());
    assert!(a.hash().is_ok());
}

#[test]
fn equality_sees_values() {
    let a = HashTrieMap::from_entries(&vec![(key(1), val(1)), (key(2), val(2))]);
    let b = HashTrieMap::from_entries(&vec![(key(1), val(1)), (key(2), val(3))]);
    let c = HashTrieMap::from_entries(&vec![(key(1), val(1))]);
    assert!(!a.is_equal(&b));
    assert!(!a.is_equal(&c));
    assert!(!c.is_equal(&a));
    assert!(a.is_equal(&a.share()));
    assert_ne!(a.hash(), b.hash());
}

#[test]
fn hash_fails_on_unhashable_value() {
    let m = HashTrieMap::from_entries(&vec![(key(1), val(1)), (key(2), unhashable(2))]);
    assert_eq!(m.hash(), Err(Error::Unhashable(unhashable(2))));
}

#[test]
fn empty_map_hash() {
    assert_eq!(HashTrieMap::new().hash(), Ok(133146708735736));
}

#[test]
fn entries_traverse_every_key_once() {
    let m = HashTrieMap::from_entries(&(0..100u64).map(|i| (key(i), val(i * 2))).collect());
    let mut entries = m.entries();
    assert_eq!(entries.len(), m.len());
    entries.sort_by_key(|e| e.0.id);
    for (i, e) in entries.iter().enumerate() {
        assert_eq!(*e, (key(i as u64), val(i as u64 * 2)));
    }
}

#[test]
fn keys_iterator_is_one_pass_snapshot() {
    let m = HashTrieMap::from_entries(&vec![(key(1), val(1)), (key(2), val(2))]);
    let mut it = m.iter();
    let mut seen = vec![];
    while let Some(k) = it.next() {
        seen.push(k.id);
    }
    seen.sort();
    assert_eq!(seen, vec![1, 2]);
    assert_eq!(it.next(), None);
    assert_eq!(m.len(), 2);
}

#[test]
fn values_and_items_iterators() {
    let m = HashTrieMap::from_entries(&vec![(key(1), val(10)), (key(2), val(20))]);
    let mut vi = m.values().iter();
    let mut vs = vec![];
    while let Some(v) = vi.next() {
        vs.push(v.id);
    }
    vs.sort();
    assert_eq!(vs, vec![10, 20]);
    let mut ii = m.items().iter();
    let mut is = vec![];
    while let Some((k, v)) = ii.next() {
        is.push((k.id, v.id));
    }
    is.sort();
    assert_eq!(is, vec![(1, 10), (2, 20)]);
    assert_eq!(m.values().len(), 2);
}

#[test]
fn views_are_snapshots() {
    let m = HashTrieMap::from_entries(&vec![(key(1), val(1))]);
    let keys = m.keys();
    let m2 = m.insert(key(2), val(2));
    assert_eq!(keys.len(), 1);
    assert!(!keys.contains(&key(2)));
    assert_eq!(m2.keys().len(), 2);
}

#[test]
fn keys_view_compares_with_sets() {
    let m = HashTrieMap::from_entries(&vec![(key(1), val(1)), (key(2), val(2))]);
    let keys = m.keys();
    let same = HashTrieSet::from_keys(&vec![key(1), key(2)]);
    let bigger = HashTrieSet::from_keys(&vec![key(1), key(2), key(3)]);
    let smaller = HashTrieSet::from_keys(&vec![key(2)]);
    let other = HashTrieSet::from_keys(&vec![key(2), key(3)]);
    assert!(keys.is_equal(&same));
    assert!(!keys.is_equal(&bigger));
    assert!(keys.is_subset(&same));
    assert!(keys.is_subset(&bigger));
    assert!(!keys.is_proper_subset(&same));
    assert!(keys.is_proper_subset(&bigger));
    assert!(keys.is_superset(&smaller));
    assert!(keys.is_proper_superset(&smaller));
    assert!(!keys.is_proper_superset(&same));
    assert!(!keys.is_subset(&other));
    assert!(!keys.is_superset(&other));
}

#[test]
fn keys_view_intersection_and_union() {
    let m = HashTrieMap::from_entries(&vec![(key(1), val(1)), (key(2), val(2))]);
    let keys = m.keys();
    let i = keys.intersection(&vec![key(2), key(3), key(2)]);
    assert_eq!(i.len(), 1);
    assert!(i.contains(&key(2)));
    let u = keys.union(&vec![key(3), key(2)]);
    assert_eq!(u.len(), 3);
    assert!(u.contains(&key(1)) && u.contains(&key(3)));
}

#[test]
fn items_view_contains_and_compares() {
    let m = HashTrieMap::from_entries(&vec![(key(1), val(1)), (key(2), val(2))]);
    let items = m.items();
    assert!(items.contains(&key(1), &val(1)));
    assert!(!items.contains(&key(1), &val(2)));
    assert!(!items.contains(&key(3), &val(1)));
    let same = vec![(key(2), val(2)), (key(1), val(1))];
    let more = vec![(key(2), val(2)), (key(1), val(1)), (key(3), val(3))];
    let less = vec![(key(2), val(2))];
    let wrong = vec![(key(2), val(2)), (key(1), val(5))];
    assert!(items.is_equal(&same));
    assert!(!items.is_equal(&wrong));
    assert!(items.is_subset(&more));
    assert!(items.is_proper_subset(&more));
    assert!(!items.is_proper_subset(&same));
    assert!(items.is_superset(&less));
    assert!(items.is_proper_superset(&less));
    assert!(!items.is_superset(&more));
    assert!(!items.is_superset(&wrong));
}

#[test]
fn cached_size_matches_traversal_after_updates() {
    let mut model = std::collections::HashMap::new();
    let mut m = HashTrieMap::new();
    let mut set = HashTrieSet::new();
    let mut seed: u64 = 99;
    for step in 0..2000u64 {
        seed = seed.wrapping_mul(6364136223846793005).wrapping_add(1442695040888963407);
        let id = (seed >> 40) % 97;
        let k = Key { id, hash: (id % 13) as i64 };
        if (seed >> 20) % 4 == 0 {
            m = m.discard(&k);
            set = set.discard(&k);
            model.remove(&id);
        } else {
            m = m.insert(k, val(step));
            set = set.insert(k);
            model.insert(id, step);
        }
        if step % 97 == 0 {
            assert_eq!(m.entries().len(), m.len());
            assert_eq!(set.elements().len(), set.len());
        }
    }
    assert_eq!(m.len(), model.len());
    assert_eq!(set.len(), model.len());
    for (id, step) in &model {
        let k = Key { id: *id, hash: (*id % 13) as i64 };
        assert_eq!(m.get_item(&k), Ok(val(*step)));
        assert!(set.contains(&k));
    }
}

#[test]
fn draining_the_key_iterator_counts_the_size() {
    let mut m = HashTrieMap::new();
    for i in 0..150u64 {
        m = m.insert(key(i % 90), val(i));
    }
    m = m.discard(&key(3)).discard(&key(500));
    let mut it = m.iter();
    let mut keys = it.drain();
    assert_eq!(keys.len(), m.len());
    assert_eq!(m.len(), 89);
    keys.sort_by_key(|k| k.id);
    keys.dedup();
    assert_eq!(keys.len(), 89);
    assert_eq!(it.next(), None);
    assert_eq!(m.keys().iter().drain().len(), 89);
}

#[test]
fn old_handle_survives_every_later_operation() {
    let old = HashTrieMap::from_entries(&vec![(key(1), val(1)), (key(2), val(2))]);
    let new = old.insert(key(3), val(3));
    let other = HashTrieMap::from_entries(&vec![(key(1), val(9)), (key(4), val(4))]);
    let a = new.update(&vec![other], &vec![(key(2), val(8))]);
    let b = a.remove(&key(1)).unwrap().discard(&key(2)).insert(key(5), val(5));
    let _ = b.iter().drain();
    assert_eq!(old.len(), 2);
    assert_eq!(old.get_item(&key(1)), Ok(val(1)));
    assert_eq!(old.get_item(&key(2)), Ok(val(2)));
    assert_eq!(old.get_item(&key(3)), Err(Error::KeyNotFound(key(3))));
    assert_eq!(new.len(), 3);
    assert_eq!(b.len(), 3);
}
