use vstd::prelude::*;

use crate::key::{Key, Value};
use crate::map::HashTrieMap;
use crate::set::{key_set, lemma_key_set_push, HashTrieSet};

verus! {

/// The keys of a map, bound to the map as it was when the view was made.
pub struct KeysView {
    map: HashTrieMap,
}

impl View for KeysView {
    type V = Set<Key>;

    closed spec fn view(&self) -> Set<Key> {
        self.map@.dom()
    }
}

impl KeysView {
    pub(crate) fn of(map: HashTrieMap) -> (r: KeysView)
        ensures
            r@ == map@.dom(),
    {
        KeysView { map }
    }

    /// Whether the key is in the view.
    pub fn contains(&self, key: &Key) -> (r: bool)
        ensures
            r == self@.contains(*key),
    {
        self.map.contains_key(key)
    }

    /// The number of keys.
    pub fn len(&self) -> (r: usize)
        ensures
            r == self@.len(),
    {
        self.map.len()
    }

    /// An iterator over the keys.
    pub fn iter(&self) -> (r: KeysIterator)
        ensures
            r@.dom() == self@,
    {
        self.map.iter()
    }

    /// The view's keys, each once.
    fn key_list(&self) -> (r: Vec<Key>)
        ensures
            key_set(r@) == self@,
    {
        let entries = self.map.entries();
        let mut out: Vec<Key> = Vec::new();
        let mut i: usize = 0;
        while i < entries.len()
            invariant
                i <= entries@.len(),
                out@.len() == i,
                forall|j: int| 0 <= j < i ==> out@[j] == (#[trigger] entries@[j]).0,
            decreases entries@.len() - i,
        {
            out.push(entries[i].0);
            i = i + 1;
        }
        proof {
            assert forall|k: Key| #[trigger] out@.contains(k) <==> self@.contains(k) by {
                if self@.contains(k) {
                    let j = choose|j: int| 0 <= j < entries@.len() && entries@[j].0 == k;
                    assert(out@[j] == k);
                }
                if out@.contains(k) {
                    let j = choose|j: int| 0 <= j < out@.len() && out@[j] == k;
                    assert(self.map@.contains_pair(entries@[j].0, entries@[j].1));
                }
            }
            assert(key_set(out@) =~= self@);
        }
        out
    }

    /// Whether every key of the view is in the set.
    fn within(&self, other: &HashTrieSet) -> (r: bool)
        ensures
            r == self@.subset_of(other@),
    {
        let keys = self.key_list();
        let mut i: usize = 0;
        while i < keys.len()
            invariant
                i <= keys@.len(),
                key_set(keys@) == self@,
                forall|j: int| 0 <= j < i ==> other@.contains(#[trigger] keys@[j]),
            decreases keys@.len() - i,
        {
            if !other.contains(&keys[i]) {
                assert(keys@.contains(keys@[i as int]));
                assert(key_set(keys@).contains(keys@[i as int]));
                return false;
            }
            i = i + 1;
        }
        proof {
            assert forall|k: Key| self@.contains(k) implies other@.contains(k) by {
                assert(key_set(keys@).contains(k));
                let j = choose|j: int| 0 <= j < keys@.len() && keys@[j] == k;
            }
        }
        true
    }

    /// Whether the view and the set hold the same keys.
    pub fn is_equal(&self, other: &HashTrieSet) -> (r: bool)
        ensures
            r == (self@ == other@),
    {
        let sup = self.is_superset(other);
        let sub = self.within(other);
        proof {
            if sup && sub {
                assert(self@ =~= other@);
            }
        }
        sup && sub
    }

    /// Whether every key of the view is in the set.
    pub fn is_subset(&self, other: &HashTrieSet) -> (r: bool)
        ensures
            r == self@.subset_of(other@),
    {
        self.within(other)
    }

    /// Whether the view is a subset of the set and smaller than it.
    pub fn is_proper_subset(&self, other: &HashTrieSet) -> (r: bool)
        ensures
            r == (self@.subset_of(other@) && self@ != other@),
    {
        let sup = self.is_superset(other);
        let sub = self.within(other);
        proof {
            if sup && sub {
                assert(self@ =~= other@);
            }
        }
        sub && !sup
    }

    /// Whether every element of the set is a key of the view.
    pub fn is_superset(&self, other: &HashTrieSet) -> (r: bool)
        ensures
            r == other@.subset_of(self@),
    {
        let elements = other.elements();
        let mut i: usize = 0;
        while i < elements.len()
            invariant
                i <= elements@.len(),
                elements@.to_set() == other@,
                forall|j: int| 0 <= j < i ==> self@.contains(#[trigger] elements@[j]),
            decreases elements@.len() - i,
        {
            if !self.map.contains_key(&elements[i]) {
                assert(elements@.to_set().contains(elements@[i as int]));
                return false;
            }
            i = i + 1;
        }
        proof {
            assert forall|k: Key| other@.contains(k) implies self@.contains(k) by {
                assert(elements@.to_set().contains(k));
                let j = choose|j: int| 0 <= j < elements@.len() && elements@[j] == k;
            }
        }
        true
    }

    /// Whether the view is a superset of the set and larger than it.
    pub fn is_proper_superset(&self, other: &HashTrieSet) -> (r: bool)
        ensures
            r == (other@.subset_of(self@) && self@ != other@),
    {
        let sup = self.is_superset(other);
        let sub = self.within(other);
        proof {
            if sup && sub {
                assert(self@ =~= other@);
            }
        }
        sup && !sub
    }

    /// The keys of `other` that are in the view.
    pub fn intersection(&self, other: &Vec<Key>) -> (r: HashTrieSet)
        ensures
            r@ == key_set(other@).intersect(self@),
    {
        let mut found: Vec<Key> = Vec::new();
        let mut i: usize = 0;
        proof {
            assert(key_set(found@) =~= key_set(other@.subrange(0, 0)).intersect(self@));
        }
        while i < other.len()
            invariant
                i <= other@.len(),
                key_set(found@) == key_set(other@.subrange(0, i as int)).intersect(self@),
            decreases other@.len() - i,
        {
            let k = other[i];
            let ghost before = found@;
            proof {
                assert(other@.subrange(0, i + 1) =~= other@.subrange(0, i as int).push(k));
                lemma_key_set_push(other@.subrange(0, i as int), k);
            }
            if self.map.contains_key(&k) {
                found.push(k);
                proof {
                    lemma_key_set_push(before, k);
                }
            }
            proof {
                assert(key_set(found@) =~= key_set(other@.subrange(0, i + 1)).intersect(self@));
            }
            i = i + 1;
        }
        proof {
            assert(other@.subrange(0, other@.len() as int) =~= other@);
        }
        let r = HashTrieSet::from_keys(&found);
        proof {
            assert(r@ =~= key_set(other@).intersect(self@));
        }
        r
    }

    /// The keys of the view together with those of `other`.
    pub fn union(&self, other: &Vec<Key>) -> (r: HashTrieSet)
        ensures
            r@ == self@.union(key_set(other@)),
    {
        let keys = self.key_list();
        let own = HashTrieSet::from_keys(&keys);
        let r = own.update(&vec![other.clone()]);
        proof {
            assert(r@ =~= self@.union(key_set(other@)));
        }
        r
    }
}

/// The values of a map, bound to the map as it was when the view was made.
/// Its model is the map itself: a value appears once for each key bound to
/// it.
pub struct ValuesView {
    map: HashTrieMap,
}

impl View for ValuesView {
    type V = Map<Key, Value>;

    closed spec fn view(&self) -> Map<Key, Value> {
        self.map@
    }
}

impl ValuesView {
    pub(crate) fn of(map: HashTrieMap) -> (r: ValuesView)
        ensures
            r@ == map@,
    {
        ValuesView { map }
    }

    /// The number of values, one per key.
    pub fn len(&self) -> (r: usize)
        ensures
            r == self@.len(),
    {
        self.map.len()
    }

    /// An iterator over the values.
    pub fn iter(&self) -> (r: ValuesIterator)
        ensures
            r@ == self@,
    {
        ValuesIterator { remaining: self.map.share() }
    }
}

/// The entries of a map, bound to the map as it was when the view was made.
pub struct ItemsView {
    map: HashTrieMap,
}

impl View for ItemsView {
    type V = Map<Key, Value>;

    closed spec fn view(&self) -> Map<Key, Value> {
        self.map@
    }
}

impl ItemsView {
    pub(crate) fn of(map: HashTrieMap) -> (r: ItemsView)
        ensures
            r@ == map@,
    {
        ItemsView { map }
    }

    /// Whether the map binds the key to an equal value.
    pub fn contains(&self, key: &Key, value: &Value) -> (r: bool)
        ensures
            r == self@.contains_pair(*key, *value),
    {
        match self.map.get(key, None) {
            Some(v) => v == *value,
            None => false,
        }
    }

    /// The number of entries.
    pub fn len(&self) -> (r: usize)
        ensures
            r == self@.len(),
    {
        self.map.len()
    }

    /// Whether every entry of the view is one of the pairs.
    fn entries_within(&self, other: &Vec<(Key, Value)>) -> (r: bool)
        ensures
            r == entries_in(self@, other@),
    {
        let entries = self.map.entries();
        let mut i: usize = 0;
        while i < entries.len()
            invariant
                i <= entries@.len(),
                forall|j: int| 0 <= j < entries@.len() ==> self@.contains_pair(#[trigger] entries@[j].0, entries@[j].1),
                forall|k: Key| #[trigger] self@.contains_key(k) ==> exists|j: int| 0 <= j < entries@.len() && entries@[j].0 == k,
                forall|j: int| 0 <= j < i ==> other@.contains(#[trigger] entries@[j]),
            decreases entries@.len() - i,
        {
            if !contains_pair(other, &entries[i]) {
                assert(self@.contains_key(entries@[i as int].0));
                return false;
            }
            i = i + 1;
        }
        proof {
            assert forall|k: Key| #[trigger] self@.contains_key(k) implies other@.contains((k, self@[k])) by {
                let j = choose|j: int| 0 <= j < entries@.len() && entries@[j].0 == k;
                assert(other@.contains(entries@[j]));
                assert(entries@[j] == (k, self@[k]));
            }
        }
        true
    }

    /// Whether every one of the pairs is an entry of the view.
    fn pairs_within(&self, other: &Vec<(Key, Value)>) -> (r: bool)
        ensures
            r == pairs_in(other@, self@),
    {
        let mut i: usize = 0;
        while i < other.len()
            invariant
                i <= other@.len(),
                forall|j: int| 0 <= j < i ==> self@.contains_pair(#[trigger] other@[j].0, other@[j].1),
            decreases other@.len() - i,
        {
            let (k, v) = other[i];
            if !self.contains(&k, &v) {
                return false;
            }
            i = i + 1;
        }
        true
    }

    /// Whether the pairs, as many as the view's entries, hold each entry of
    /// the view.
    pub fn is_equal(&self, other: &Vec<(Key, Value)>) -> (r: bool)
        requires
            other@.no_duplicates(),
        ensures
            r == (other@.len() == self@.len() && entries_in(self@, other@)),
    {
        if other.len() != self.map.len() {
            return false;
        }
        self.entries_within(other)
    }

    /// Whether the pairs, at least as many as the view's entries, hold each
    /// entry of the view.
    pub fn is_subset(&self, other: &Vec<(Key, Value)>) -> (r: bool)
        requires
            other@.no_duplicates(),
        ensures
            r == (other@.len() >= self@.len() && entries_in(self@, other@)),
    {
        if other.len() < self.map.len() {
            return false;
        }
        self.entries_within(other)
    }

    /// Whether the pairs, more than the view's entries, hold each entry of
    /// the view.
    pub fn is_proper_subset(&self, other: &Vec<(Key, Value)>) -> (r: bool)
        requires
            other@.no_duplicates(),
        ensures
            r == (other@.len() > self@.len() && entries_in(self@, other@)),
    {
        if other.len() <= self.map.len() {
            return false;
        }
        self.entries_within(other)
    }

    /// Whether the pairs, at most as many as the view's entries, are all
    /// entries of the view.
    pub fn is_superset(&self, other: &Vec<(Key, Value)>) -> (r: bool)
        requires
            other@.no_duplicates(),
        ensures
            r == (other@.len() <= self@.len() && pairs_in(other@, self@)),
    {
        if other.len() > self.map.len() {
            return false;
        }
        self.pairs_within(other)
    }

    /// Whether the pairs, fewer than the view's entries, are all entries of
    /// the view.
    pub fn is_proper_superset(&self, other: &Vec<(Key, Value)>) -> (r: bool)
        requires
            other@.no_duplicates(),
        ensures
            r == (other@.len() < self@.len() && pairs_in(other@, self@)),
    {
        if other.len() >= self.map.len() {
            return false;
        }
        self.pairs_within(other)
    }

    /// An iterator over the entries.
    pub fn iter(&self) -> (r: ItemsIterator)
        ensures
            r@ == self@,
    {
        ItemsIterator { remaining: self.map.share() }
    }
}

/// A one-pass iterator over the keys of a map. It holds its own snapshot,
/// from which each step takes one entry out.
pub struct KeysIterator {
    remaining: HashTrieMap,
}

impl View for KeysIterator {
    type V = Map<Key, Value>;

    /// The entries not yet visited.
    closed spec fn view(&self) -> Map<Key, Value> {
        self.remaining@
    }
}

impl KeysIterator {
    pub(crate) fn of(map: HashTrieMap) -> (r: KeysIterator)
        ensures
            r@ == map@,
    {
        KeysIterator { remaining: map }
    }

    /// Takes one of the remaining entries out and yields its key; `None`
    /// once none remain.
    pub fn next(&mut self) -> (r: Option<Key>)
        ensures
            r.is_none() ==> old(self)@ == Map::<Key, Value>::empty() && final(self)@ == old(self)@,
            r matches Some(k) ==> old(self)@.contains_key(k) && final(self)@ == old(self)@.remove(k),
    {
        match self.remaining.first_entry() {
            None => None,
            Some((k, _)) => {
                self.remaining = self.remaining.discard(&k);
                Some(k)
            },
        }
    }

    /// Runs the iterator to its end and gathers the keys it yields: each
    /// key of the snapshot exactly once, as many as the map's size.
    pub fn drain(&mut self) -> (r: Vec<Key>)
        ensures
            r@.no_duplicates(),
            r@.to_set() == old(self)@.dom(),
            r@.len() == old(self)@.len(),
            final(self)@ == Map::<Key, Value>::empty(),
    {
        let ghost start = self@;
        // Asking for the size also establishes that the snapshot is finite.
        let _ = self.remaining.len();
        proof {
            assert(Seq::<Key>::empty().to_set() =~= start.dom().difference(self@.dom()));
        }
        let mut out: Vec<Key> = Vec::new();
        let mut done = false;
        while !done
            invariant
                start.dom().finite(),
                self@.dom().finite(),
                self@.dom().subset_of(start.dom()),
                out@.no_duplicates(),
                forall|i: int| 0 <= i < out@.len() ==> !self@.contains_key(#[trigger] out@[i]),
                out@.to_set() == start.dom().difference(self@.dom()),
                out@.len() + self@.len() == start.len(),
                done ==> self@ == Map::<Key, Value>::empty(),
            decreases self@.len() + if done { 0nat } else { 1nat },
        {
            let ghost before = self@;
            let ghost old_out = out@;
            match self.next() {
                None => {
                    done = true;
                },
                Some(k) => {
                    out.push(k);
                    proof {
                        assert(!old_out.contains(k)) by {
                            if old_out.contains(k) {
                                let j = choose|j: int| 0 <= j < old_out.len() && old_out[j] == k;
                                assert(!before.contains_key(old_out[j]));
                            }
                        }
                        assert(out@.to_set() =~= old_out.to_set().insert(k)) by {
                            assert forall|x: Key| out@.contains(x) <==> old_out.contains(x) || x == k by {
                                if out@.contains(x) && x != k {
                                    let j = choose|j: int| 0 <= j < out@.len() && out@[j] == x;
                                    assert(old_out[j] == x);
                                }
                                if old_out.contains(x) {
                                    let j = choose|j: int| 0 <= j < old_out.len() && old_out[j] == x;
                                    assert(out@[j] == x);
                                }
                                if x == k {
                                    assert(out@[out@.len() - 1] == x);
                                }
                            }
                        }
                        assert(start.dom().difference(self@.dom()) =~= start.dom().difference(before.dom()).insert(k));
                    }
                },
            }
        }
        proof {
            assert(start.dom().difference(self@.dom()) =~= start.dom());
        }
        out
    }
}

/// A one-pass iterator over the values of a map.
pub struct ValuesIterator {
    remaining: HashTrieMap,
}

impl View for ValuesIterator {
    type V = Map<Key, Value>;

    /// The entries not yet visited.
    closed spec fn view(&self) -> Map<Key, Value> {
        self.remaining@
    }
}

impl ValuesIterator {
    /// Takes one of the remaining entries out and yields its value; `None`
    /// once none remain.
    pub fn next(&mut self) -> (r: Option<Value>)
        ensures
            r.is_none() ==> old(self)@ == Map::<Key, Value>::empty() && final(self)@ == old(self)@,
            r matches Some(v) ==> exists|k: Key|
                old(self)@.contains_pair(k, v) && final(self)@ == old(self)@.remove(k),
    {
        match self.remaining.first_entry() {
            None => None,
            Some((k, v)) => {
                let ghost before = self@;
                self.remaining = self.remaining.discard(&k);
                assert(before.contains_pair(k, v) && self@ == before.remove(k));
                Some(v)
            },
        }
    }
}

/// A one-pass iterator over the entries of a map.
pub struct ItemsIterator {
    remaining: HashTrieMap,
}

impl View for ItemsIterator {
    type V = Map<Key, Value>;

    /// The entries not yet yielded.
    closed spec fn view(&self) -> Map<Key, Value> {
        self.remaining@
    }
}

impl ItemsIterator {
    /// Takes one of the remaining entries out and yields it; `None` once
    /// none remain.
    pub fn next(&mut self) -> (r: Option<(Key, Value)>)
        ensures
            r.is_none() ==> old(self)@ == Map::<Key, Value>::empty() && final(self)@ == old(self)@,
            r matches Some(e) ==> old(self)@.contains_pair(e.0, e.1) && final(self)@ == old(
                self,
            )@.remove(e.0),
    {
        match self.remaining.first_entry() {
            None => None,
            Some((k, v)) => {
                self.remaining = self.remaining.discard(&k);
                Some((k, v))
            },
        }
    }
}

/// Whether every entry of the map is one of the pairs.
pub open spec fn entries_in(m: Map<Key, Value>, pairs: Seq<(Key, Value)>) -> bool {
    forall|k: Key| #[trigger] m.contains_key(k) ==> pairs.contains((k, m[k]))
}

/// Whether every one of the pairs is an entry of the map.
pub open spec fn pairs_in(pairs: Seq<(Key, Value)>, m: Map<Key, Value>) -> bool {
    forall|i: int| 0 <= i < pairs.len() ==> m.contains_pair(#[trigger] pairs[i].0, pairs[i].1)
}

/// Whether the pair is one of the pairs.
fn contains_pair(pairs: &Vec<(Key, Value)>, pair: &(Key, Value)) -> (r: bool)
    ensures
        r == pairs@.contains(*pair),
{
    let mut i: usize = 0;
    while i < pairs.len()
        invariant
            i <= pairs@.len(),
            forall|j: int| 0 <= j < i ==> pairs@[j] != *pair,
        decreases pairs@.len() - i,
    {
        if pairs[i].0 == pair.0 && pairs[i].1 == pair.1 {
            assert(pairs@[i as int] == *pair);
            return true;
        }
        i = i + 1;
    }
    false
}

} // verus!
