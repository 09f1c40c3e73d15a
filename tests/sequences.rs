use rpds_py::hashing::{hash_sequence, hash_shuffle_bits};
use rpds_py::{Error, List, Queue, Stack, Value};
use std::collections::hash_map::DefaultHasher;
use std::collections::VecDeque;
use std::hash::Hasher;

fn val(id: u64) -> Value {
    Value { id, hash: Some(id as i64 * 3 - 1) }
}

fn ids(values: &[Value]) -> Vec<u64> {
    values.iter().map(|v| v.id).collect()
}

fn default_hash(hashes: &[i64]) -> u64 {
    let mut h = DefaultHasher::new();
    for x in hashes {
        h.write_isize(*x as isize);
    }
    h.finish()
}

#[test]
fn shuffle_bits_values() {
    assert_eq!(hash_shuffle_bits(0), 327557089134353749);
    assert_eq!(hash_shuffle_bits(1), 327318219996883070);
    assert_eq!(hash_shuffle_bits(12345), 3264452959386040038);
}

#[test]
fn sequence_hash_matches_write_isize() {
    assert_eq!(hash_sequence(&vec![]), default_hash(&[]));
    assert_eq!(hash_sequence(&vec![1, -2, 3]), default_hash(&[1, -2, 3]));
    assert_ne!(hash_sequence(&vec![1, 2]), hash_sequence(&vec![2, 1]));
}

#[test]
fn list_round_trip() {
    let l = List::from_values(&vec![val(1), val(2), val(3)]);
    assert_eq!(ids(&l.values()), vec![1, 2, 3]);
    let mut it = l.iter();
    let mut seen = vec![];
    while let Some(v) = it.next() {
        seen.push(v.id);
    }
    assert_eq!(seen, vec![1, 2, 3]);
    assert_eq!(ids(&l.reverse().values()), vec![3, 2, 1]);
    let p = l.push_front(val(0));
    assert_eq!(p.first(), Ok(val(0)));
    assert!(p.rest().unwrap().is_equal(&l));
    assert!(p.drop_first().unwrap().is_equal(&l));
    assert_eq!(l.len(), 3);
    assert_eq!(p.len(), 4);
}

#[test]
fn empty_list_errors() {
    let l = List::new();
    assert_eq!(l.first(), Err(Error::Empty));
    assert!(l.drop_first().is_err());
    assert_eq!(l.rest().err(), Some(Error::Empty));
    assert_eq!(List::from_values(&vec![]).len(), 0);
}

#[test]
fn list_equality_and_hash() {
    let a = List::from_values(&vec![val(1), val(2)]);
    let b = List::new().push_front(val(2)).push_front(val(1));
    let c = List::from_values(&vec![val(2), val(1)]);
    assert!(a.is_equal(&b));
    assert!(!a.is_equal(&c));
    assert!(!a.is_equal(&List::from_values(&vec![val(1)])));
    assert_eq!(a.hash(), b.hash());
    assert_eq!(a.hash(), Ok(default_hash(&[2, 5])));
    assert_ne!(a.hash(), c.hash());
}

#[test]
fn list_hash_reports_first_unhashable() {
    let u1 = Value { id: 8, hash: None };
    let u2 = Value { id: 9, hash: None };
    let l = List::from_values(&vec![val(1), u1, u2]);
    assert_eq!(l.hash(), Err(Error::Unhashable(u1)));
}

#[test]
fn stack_order() {
    let s = Stack::from_values(&vec![val(1), val(2), val(3)]);
    assert_eq!(ids(&s.values()), vec![3, 2, 1]);
    assert_eq!(s.peek(), Ok(val(3)));
    let p = s.pop().unwrap();
    assert_eq!(p.peek(), Ok(val(2)));
    assert_eq!(s.len(), 3);
    let q = s.push(val(4));
    assert_eq!(q.peek(), Ok(val(4)));
    assert!(q.pop().unwrap().is_equal(&s));
    let mut it = s.iter();
    let mut seen = vec![];
    while let Some(v) = it.next() {
        seen.push(v.id);
    }
    assert_eq!(seen, vec![3, 2, 1]);
}

#[test]
fn empty_stack_errors() {
    let s = Stack::new();
    assert_eq!(s.peek(), Err(Error::Empty));
    assert!(s.pop().is_err());
}

#[test]
fn stack_equality_and_hash() {
    let a = Stack::from_values(&vec![val(1), val(2)]);
    let b = Stack::new().push(val(1)).push(val(2));
    assert!(a.is_equal(&b));
    assert!(!a.is_equal(&Stack::from_values(&vec![val(2), val(1)])));
    assert_eq!(a.hash(), Ok(default_hash(&[5, 2])));
    let u = Value { id: 3, hash: None };
    assert_eq!(a.push(u).hash(), Err(Error::Unhashable(u)));
}

#[test]
fn queue_first_in_first_out() {
    let q = Queue::new().enqueue(val(1)).enqueue(val(2)).enqueue(val(3));
    assert_eq!(q.peek(), Ok(val(1)));
    let q1 = q.dequeue().unwrap();
    assert_eq!(q1.peek(), Ok(val(2)));
    let q2 = q1.dequeue().unwrap();
    assert_eq!(q2.peek(), Ok(val(3)));
    let q3 = q2.dequeue().unwrap();
    assert!(q3.is_empty());
    assert_eq!(q3.peek(), Err(Error::Empty));
    assert!(q3.dequeue().is_err());
}

#[test]
fn old_queue_handle_keeps_its_front() {
    let old = Queue::from_values(&vec![val(1), val(2)]);
    let derived = old.enqueue(val(3)).enqueue(val(4));
    let _ = derived.dequeue().unwrap().dequeue().unwrap();
    assert_eq!(old.peek(), Ok(val(1)));
    assert_eq!(old.dequeue().unwrap().peek(), Ok(val(2)));
    assert_eq!(old.dequeue().unwrap().peek(), Ok(val(2)));
    assert_eq!(ids(&derived.values()), vec![1, 2, 3, 4]);
    assert_eq!(old.len(), 2);
}

#[test]
fn queue_equality_hash_and_iteration() {
    let a = Queue::from_values(&vec![val(1), val(2)]);
    let b = Queue::new().enqueue(val(1)).enqueue(val(2));
    assert!(a.is_equal(&b));
    assert!(!a.is_equal(&Queue::from_values(&vec![val(2), val(1)])));
    assert_eq!(a.hash(), Ok(default_hash(&[2, 5])));
    let mut it = a.iter();
    let mut seen = vec![];
    while let Some(v) = it.next() {
        seen.push(v.id);
    }
    assert_eq!(seen, vec![1, 2]);
    assert!(!a.is_empty());
    assert!(Queue::new().is_empty());
}

#[test]
fn queue_matches_a_model_under_handle_reuse() {
    let mut handles: Vec<(Queue, VecDeque<u64>)> = vec![(Queue::new(), VecDeque::new())];
    let mut seed: u64 = 12345;
    for step in 0..3000u64 {
        seed = seed.wrapping_mul(6364136223846793005).wrapping_add(1442695040888963407);
        let pick = ((seed >> 33) as usize) % handles.len();
        let (q, model) = (handles[pick].0.share(), handles[pick].1.clone());
        if (seed >> 13) % 3 == 0 {
            match q.dequeue() {
                Ok(next) => {
                    let mut m = model.clone();
                    let front = m.pop_front().unwrap();
                    assert_eq!(q.peek(), Ok(val(front)));
                    handles.push((next, m));
                }
                Err(e) => {
                    assert_eq!(e, Error::Empty);
                    assert!(model.is_empty());
                }
            }
        } else {
            let mut m = model.clone();
            m.push_back(step);
            handles.push((q.enqueue(val(step)), m));
        }
        if handles.len() > 64 {
            handles.remove(0);
        }
    }
    for (q, model) in &handles {
        assert_eq!(q.len(), model.len());
        assert_eq!(ids(&q.values()), model.iter().copied().collect::<Vec<u64>>());
    }
}
