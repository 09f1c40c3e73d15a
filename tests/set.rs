use rpds_py::{Error, HashTrieSet, Key, Value};

fn key(id: u64) -> Key {
    Key { id, hash: id as i64 }
}

fn set_of(ids: &[u64]) -> HashTrieSet {
    HashTrieSet::from_keys(&ids.iter().map(|i| key(*i)).collect())
}

fn sorted_ids(s: &HashTrieSet) -> Vec<u64> {
    let mut ids: Vec<u64> = s.elements().iter().map(|k| k.id).collect();
    ids.sort();
    ids
}

#[test]
fn union_with_itself_is_itself() {
    let a = set_of(&[1, 2, 3]);
    assert!(a.union(&a).is_equal(&a));
}

#[test]
fn intersection_with_empty_is_empty() {
    let a = set_of(&[1, 2, 3]);
    assert_eq!(a.intersection(&HashTrieSet::new()).len(), 0);
    assert_eq!(HashTrieSet::new().intersection(&a).len(), 0);
}

#[test]
fn difference_with_itself_is_empty() {
    let a = set_of(&[1, 2, 3]);
    assert_eq!(a.difference(&a).len(), 0);
}

#[test]
fn symmetric_difference_with_itself_is_empty() {
    let a = set_of(&[1, 2, 3]);
    assert_eq!(a.symmetric_difference(&a).len(), 0);
}

#[test]
fn union_and_intersection_sizes_add_up() {
    let a = set_of(&[1, 2, 3, 4]);
    let b = set_of(&[3, 4, 5]);
    assert_eq!(a.union(&b).len() + a.intersection(&b).len(), a.len() + b.len());
}

#[test]
fn set_algebra_results() {
    let a = set_of(&[1, 2, 3, 4]);
    let b = set_of(&[3, 4, 5]);
    assert_eq!(sorted_ids(&a.union(&b)), vec![1, 2, 3, 4, 5]);
    assert_eq!(sorted_ids(&b.union(&a)), vec![1, 2, 3, 4, 5]);
    assert_eq!(sorted_ids(&a.intersection(&b)), vec![3, 4]);
    assert_eq!(sorted_ids(&b.intersection(&a)), vec![3, 4]);
    assert_eq!(sorted_ids(&a.difference(&b)), vec![1, 2]);
    assert_eq!(sorted_ids(&b.difference(&a)), vec![5]);
    assert_eq!(sorted_ids(&a.symmetric_difference(&b)), vec![1, 2, 5]);
    assert_eq!(sorted_ids(&b.symmetric_difference(&a)), vec![1, 2, 5]);
    assert_eq!(sorted_ids(&a), vec![1, 2, 3, 4]);
}

#[test]
fn comparisons() {
    let a = set_of(&[1, 2]);
    let b = set_of(&[1, 2, 3]);
    let c = set_of(&[2, 1]);
    assert!(a.is_equal(&c));
    assert!(!a.is_equal(&b));
    assert!(a.is_subset(&b));
    assert!(a.is_subset(&c));
    assert!(a.is_proper_subset(&b));
    assert!(!a.is_proper_subset(&c));
    assert!(b.is_superset(&a));
    assert!(b.is_proper_superset(&a));
    assert!(!c.is_proper_superset(&a));
    assert!(!b.is_subset(&a));
    assert!(!set_of(&[1, 4]).is_subset(&b));
}

#[test]
fn insert_remove_discard() {
    let a = set_of(&[1, 2]);
    let b = a.insert(key(3));
    assert_eq!(b.len(), 3);
    assert_eq!(a.len(), 2);
    assert_eq!(b.insert(key(3)).len(), 3);
    assert!(b.contains(&key(3)));
    assert_eq!(a.remove(&key(9)).err(), Some(Error::KeyNotFound(key(9))));
    assert_eq!(a.remove(&key(1)).unwrap().len(), 1);
    assert_eq!(a.discard(&key(9)).len(), 2);
    assert_eq!(a.discard(&key(1)).len(), 1);
}

#[test]
fn init_and_update() {
    assert_eq!(HashTrieSet::init(None).len(), 0);
    let a = HashTrieSet::init(Some(set_of(&[1])));
    let u = a.update(&vec![vec![key(2), key(3)], vec![key(3), key(4)]]);
    assert_eq!(sorted_ids(&u), vec![1, 2, 3, 4]);
    assert_eq!(a.len(), 1);
}

#[test]
fn hash_is_order_independent() {
    let a = set_of(&[7, 11, 13]);
    let b = set_of(&[13, 7, 11]);
    assert_eq!(a.hash(), b.hash());
    assert_eq!(a.hash(), -5680125519580799156);
}

#[test]
fn hash_of_empty_and_negative() {
    assert_eq!(HashTrieSet::new().hash(), 133146708735736);
    let s = HashTrieSet::from_keys(&vec![Key { id: 1, hash: -5 }]);
    assert_eq!(s.hash(), -3043317625038393684);
}

#[test]
fn iterator_takes_each_element_once() {
    let a = set_of(&[1, 2, 3]);
    let mut it = a.iter();
    let mut seen = vec![];
    while let Some(k) = it.next() {
        seen.push(k.id);
    }
    seen.sort();
    assert_eq!(seen, vec![1, 2, 3]);
    assert_eq!(a.len(), 3);
}

#[test]
fn key_extract() {
    let v = Value { id: 4, hash: Some(9) };
    assert_eq!(Key::extract(v), Ok(Key { id: 4, hash: 9 }));
    let u = Value { id: 4, hash: None };
    assert_eq!(Key::extract(u), Err(Error::Unhashable(u)));
    assert_eq!(Key { id: 4, hash: 9 }.to_value(), v);
}

#[test]
fn draining_the_set_iterator_counts_the_size() {
    let a = set_of(&[5, 1, 9, 1, 5, 7]);
    let mut it = a.iter();
    let mut ids: Vec<u64> = it.drain().iter().map(|k| k.id).collect();
    ids.sort();
    assert_eq!(ids, vec![1, 5, 7, 9]);
    assert_eq!(a.len(), 4);
    assert_eq!(it.next(), None);
}
