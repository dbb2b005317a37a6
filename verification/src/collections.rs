//! A map and a set whose keys are compared by their models.
use crate::data::Data;
use vstd::prelude::*;

verus! {

/// No key occurs twice.
pub open spec fn distinct_keys<K, V>(entries: Seq<(K, V)>) -> bool {
    forall|i: int, j: int|
        0 <= i < j < entries.len() ==> (#[trigger] entries[i]).0 != (#[trigger] entries[j]).0
}

/// Whether some entry has this key.
pub open spec fn has_key<K, V>(entries: Seq<(K, V)>, key: K) -> bool {
    exists|i: int| 0 <= i < entries.len() && (#[trigger] entries[i]).0 == key
}

/// The value of an entry with this key.
pub open spec fn value_of<K, V>(entries: Seq<(K, V)>, key: K) -> V {
    entries[choose|i: int| 0 <= i < entries.len() && (#[trigger] entries[i]).0 == key].1
}

/// The map that a list of entries stands for.
pub open spec fn as_map<K, V>(entries: Seq<(K, V)>) -> Map<K, V> {
    Map::new(|key: K| has_key(entries, key), |key: K| value_of(entries, key))
}

pub proof fn lemma_as_map<K, V>(entries: Seq<(K, V)>)
    requires
        distinct_keys(entries),
    ensures
        forall|i: int|
            0 <= i < entries.len() ==> as_map(entries).contains_key((#[trigger] entries[i]).0)
                && as_map(entries)[entries[i].0] == entries[i].1,
        forall|key: K| #[trigger]
            as_map(entries).contains_key(key) ==> exists|i: int|
                0 <= i < entries.len() && #[trigger] entries[i] == (key, as_map(entries)[key]),
{
    assert forall|i: int| 0 <= i < entries.len() implies as_map(entries).contains_key(
        (#[trigger] entries[i]).0,
    ) && as_map(entries)[entries[i].0] == entries[i].1 by {
        let j = choose|j: int|
            0 <= j < entries.len() && (#[trigger] entries[j]).0 == entries[i].0;
        assert(i == j);
    }
    assert forall|key: K| #[trigger] as_map(entries).contains_key(key) implies exists|i: int|
        0 <= i < entries.len() && #[trigger] entries[i] == (key, as_map(entries)[key]) by {
        let i = choose|i: int| 0 <= i < entries.len() && (#[trigger] entries[i]).0 == key;
        assert(entries[i] == (key, as_map(entries)[key]));
    }
}

/// The map has as many keys as the list has entries.
pub proof fn lemma_dom_len<K, V>(entries: Seq<(K, V)>)
    requires
        distinct_keys(entries),
    ensures
        as_map(entries).dom().finite(),
        as_map(entries).dom().len() == entries.len(),
{
    let keys = entries.map_values(|entry: (K, V)| entry.0);
    assert(keys.no_duplicates()) by {
        assert forall|i: int, j: int|
            0 <= i < keys.len() && 0 <= j < keys.len() && i != j implies keys[i] != keys[j] by {
            assert(entries[i].0 != entries[j].0);
        }
    }
    keys.unique_seq_to_set();
    assert(keys.to_set() =~= as_map(entries).dom()) by {
        assert forall|key: K| keys.to_set().contains(key) <==> as_map(entries).dom().contains(
            key,
        ) by {
            if keys.to_set().contains(key) {
                let i = choose|i: int| 0 <= i < keys.len() && keys[i] == key;
                assert(entries[i].0 == key);
            }
            if as_map(entries).dom().contains(key) {
                let i = choose|i: int| 0 <= i < entries.len() && (#[trigger] entries[i]).0 == key;
                assert(keys[i] == key);
            }
        }
    }
}

/// The model of a list of entries.
pub open spec fn entries_view<K: DeepView, V: DeepView>(entries: Seq<(K, V)>) -> Seq<(K::V, V::V)> {
    Seq::new(entries.len(), |i: int| (entries[i].0.deep_view(), entries[i].1.deep_view()))
}

/// A map with keys that are compared by their models.
pub struct VecMap<K: Data, V: DeepView> {
    entries: Vec<(K, V)>,
}

impl<K: Data, V: DeepView> DeepView for VecMap<K, V> {
    type V = Map<K::V, V::V>;

    open spec fn deep_view(&self) -> Map<K::V, V::V> {
        as_map(self.listing())
    }
}

impl<K: Data, V: DeepView> VecMap<K, V> {
    /// The entries in the order in which the map lists them.
    pub closed spec fn listing(&self) -> Seq<(K::V, V::V)> {
        entries_view(self.entries@)
    }

    #[verifier::type_invariant]
    spec fn well_formed(self) -> bool {
        distinct_keys(entries_view(self.entries@))
    }

    /// The empty map.
    pub fn new() -> (map: Self)
        ensures
            map.deep_view() == Map::<K::V, V::V>::empty(),
    {
        let map = VecMap { entries: Vec::new() };
        proof {
            assert(map.deep_view() =~= Map::<K::V, V::V>::empty());
        }
        map
    }

    fn position(&self, key: &K) -> (result: Option<usize>)
        ensures
            match result {
                Some(i) => i < self.entries@.len() && self.entries@[i as int].0.deep_view()
                    == key.deep_view(),
                None => !self.deep_view().contains_key(key.deep_view()),
            },
    {
        let n: usize = self.entries.len();
        for i in 0..n
            invariant
                n == self.entries@.len(),
                forall|j: int| 0 <= j < i ==> (#[trigger] self.listing()[j]).0 != key.deep_view(),
        {
            if self.entries[i].0.equals(key) {
                return Some(i);
            }
        }
        None
    }

    /// The value under a key.
    pub fn get(&self, key: &K) -> (value: Option<&V>)
        ensures
            value.deep_view() == (if self.deep_view().contains_key(key.deep_view()) {
                Some(self.deep_view()[key.deep_view()])
            } else {
                None
            }),
    {
        proof {
            use_type_invariant(self);
            lemma_as_map(self.listing());
        }
        match self.position(key) {
            Some(i) => {
                proof {
                    assert(self.listing()[i as int].0 == key.deep_view());
                }
                Some(&self.entries[i].1)
            },
            None => None,
        }
    }

    /// Whether there is a value under a key.
    pub fn contains_key(&self, key: &K) -> (result: bool)
        ensures
            result == self.deep_view().contains_key(key.deep_view()),
    {
        self.get(key).is_some()
    }

    /// Takes out the value under a key.
    pub fn remove(&mut self, key: &K) -> (value: Option<V>)
        ensures
            value.deep_view() == (if old(self).deep_view().contains_key(key.deep_view()) {
                Some(old(self).deep_view()[key.deep_view()])
            } else {
                None
            }),
            final(self).deep_view() == old(self).deep_view().remove(key.deep_view()),
    {
        let ghost before = self.listing();
        let ghost k = key.deep_view();
        proof {
            use_type_invariant(&*self);
            lemma_as_map(before);
        }
        match self.position(key) {
            Some(i) => {
                let mut entries: Vec<(K, V)> = Vec::new();
                std::mem::swap(&mut entries, &mut self.entries);
                let (_, value) = entries.remove(i);
                let ghost after = entries_view(entries@);
                proof {
                    assert(after =~= before.remove(i as int));
                    assert(before[i as int] == (k, value.deep_view()));
                    assert(distinct_keys(after));
                }
                self.entries = entries;
                proof {
                    lemma_as_map(after);
                    assert(as_map(after) =~= as_map(before).remove(k)) by {
                        assert forall|key: K::V| as_map(after).contains_key(key) <==> as_map(
                            before,
                        ).remove(k).contains_key(key) by {
                            if as_map(before).remove(k).contains_key(key) {
                                let j = choose|j: int|
                                    0 <= j < before.len() && (#[trigger] before[j]).0 == key;
                                if j < i {
                                    assert(after[j].0 == key);
                                } else {
                                    assert(after[j - 1].0 == key);
                                }
                            }
                            if as_map(after).contains_key(key) {
                                let j = choose|j: int|
                                    0 <= j < after.len() && (#[trigger] after[j]).0 == key;
                                if j < i {
                                    assert(before[j].0 == key);
                                } else {
                                    assert(before[j + 1].0 == key);
                                }
                            }
                        }
                        assert forall|key: K::V| as_map(after).contains_key(
                            key,
                        ) implies #[trigger] as_map(after)[key] == as_map(before)[key] by {
                            let j = choose|j: int|
                                0 <= j < after.len() && (#[trigger] after[j]).0 == key;
                            if j < i {
                                assert(before[j] == after[j]);
                            } else {
                                assert(before[j + 1] == after[j]);
                            }
                        }
                    }
                }
                Some(value)
            },
            None => {
                proof {
                    assert(self.deep_view().remove(k) =~= self.deep_view());
                }
                None
            },
        }
    }

    /// Puts a value under a key, in place of the one that was there.
    pub fn insert(&mut self, key: K, value: V)
        ensures
            final(self).deep_view() == old(self).deep_view().insert(
                key.deep_view(),
                value.deep_view(),
            ),
    {
        let ghost k = key.deep_view();
        let ghost v = value.deep_view();
        let _ = self.remove(&key);
        let ghost before = self.listing();
        proof {
            use_type_invariant(&*self);
            assert(!as_map(before).contains_key(k));
            assert(forall|i: int| 0 <= i < before.len() ==> (#[trigger] before[i]).0 != k);
        }
        let mut entries: Vec<(K, V)> = Vec::new();
        std::mem::swap(&mut entries, &mut self.entries);
        entries.push((key, value));
        let ghost after = entries_view(entries@);
        proof {
            assert(after =~= before.push((k, v)));
            assert(distinct_keys(after));
        }
        self.entries = entries;
        proof {
            lemma_as_map(before);
            lemma_as_map(after);
            assert(as_map(after) =~= old(self).deep_view().insert(k, v)) by {
                assert(after[before.len() as int] == (k, v));
                assert forall|key: K::V| as_map(after).contains_key(key) <==> old(self).deep_view().insert(k, v).contains_key(key) by {
                    if as_map(before).contains_key(key) {
                        let j = choose|j: int|
                            0 <= j < before.len() && (#[trigger] before[j]).0 == key;
                        assert(after[j].0 == key);
                    }
                    if as_map(after).contains_key(key) && key != k {
                        let j = choose|j: int|
                            0 <= j < after.len() && (#[trigger] after[j]).0 == key;
                        assert(before[j].0 == key);
                    }
                }
                assert forall|key: K::V| as_map(after).contains_key(
                    key,
                ) implies #[trigger] as_map(after)[key] == old(self).deep_view().insert(
                    k,
                    v,
                )[key] by {
                    if key != k {
                        let j = choose|j: int|
                            0 <= j < after.len() && (#[trigger] after[j]).0 == key;
                        assert(before[j] == after[j]);
                    }
                }
            }
        }
    }

    /// How many entries the map has.
    pub fn len(&self) -> (n: usize)
        ensures
            n == self.listing().len(),
    {
        self.entries.len()
    }

    /// The `i`-th entry.
    pub fn entry(&self, i: usize) -> (entry: (&K, &V))
        requires
            i < self.listing().len(),
        ensures
            (entry.0.deep_view(), entry.1.deep_view()) == self.listing()[i as int],
    {
        let entry = &self.entries[i];
        (&entry.0, &entry.1)
    }

    /// The listing has each key of the map once.
    pub fn check_listing(&self)
        ensures
            distinct_keys(self.listing()),
    {
        proof {
            use_type_invariant(self);
        }
    }
}

/// A set whose members are compared by their models.
pub struct VecSet<K: Data> {
    items: Vec<K>,
}

impl<K: Data> DeepView for VecSet<K> {
    type V = Set<K::V>;

    open spec fn deep_view(&self) -> Set<K::V> {
        self.listing().to_set()
    }
}

impl<K: Data> VecSet<K> {
    /// The members in the order in which the set lists them.
    pub closed spec fn listing(&self) -> Seq<K::V> {
        self.items.deep_view()
    }

    #[verifier::type_invariant]
    spec fn well_formed(self) -> bool {
        self.items.deep_view().no_duplicates()
    }

    /// The empty set.
    pub fn new() -> (set: Self)
        ensures
            set.deep_view() == Set::<K::V>::empty(),
    {
        let set = VecSet { items: Vec::new() };
        proof {
            assert(set.deep_view() =~= Set::<K::V>::empty());
        }
        set
    }

    fn position(&self, key: &K) -> (result: Option<usize>)
        ensures
            match result {
                Some(i) => i < self.listing().len() && self.listing()[i as int] == key.deep_view(),
                None => !self.deep_view().contains(key.deep_view()),
            },
    {
        let n: usize = self.items.len();
        for i in 0..n
            invariant
                n == self.items@.len(),
                forall|j: int| 0 <= j < i ==> #[trigger] self.listing()[j] != key.deep_view(),
        {
            if self.items[i].equals(key) {
                return Some(i);
            }
        }
        None
    }

    /// Whether a value is in the set.
    pub fn contains(&self, key: &K) -> (result: bool)
        ensures
            result == self.deep_view().contains(key.deep_view()),
    {
        match self.position(key) {
            Some(i) => {
                proof {
                    assert(self.listing().contains(key.deep_view()));
                }
                true
            },
            None => false,
        }
    }

    /// Puts a value into the set; says whether it is new.
    pub fn insert(&mut self, key: K) -> (new: bool)
        ensures
            new == !old(self).deep_view().contains(key.deep_view()),
            final(self).deep_view() == old(self).deep_view().insert(key.deep_view()),
    {
        let ghost k = key.deep_view();
        if self.contains(&key) {
            proof {
                assert(self.deep_view() =~= self.deep_view().insert(k));
            }
            return false;
        }
        let ghost before = self.listing();
        proof {
            use_type_invariant(&*self);
        }
        let mut items: Vec<K> = Vec::new();
        std::mem::swap(&mut items, &mut self.items);
        items.push(key);
        proof {
            assert(items.deep_view() =~= before.push(k));
            assert forall|i: int, j: int|
                0 <= i < j < items.deep_view().len() implies items.deep_view()[i]
                != items.deep_view()[j] by {
                assert(before.contains(before[i]));
            }
        }
        self.items = items;
        proof {
            assert(self.deep_view() =~= old(self).deep_view().insert(k)) by {
                let after = self.listing();
                assert(after[before.len() as int] == k);
                assert forall|x: K::V| before.contains(x) implies after.contains(x) by {
                    let i = choose|i: int| 0 <= i < before.len() && before[i] == x;
                    assert(after[i] == x);
                }
            }
        }
        true
    }

    /// Takes a value out of the set; says whether it was there.
    pub fn remove(&mut self, key: &K) -> (found: bool)
        ensures
            found == old(self).deep_view().contains(key.deep_view()),
            final(self).deep_view() == old(self).deep_view().remove(key.deep_view()),
    {
        let ghost before = self.listing();
        let ghost k = key.deep_view();
        proof {
            use_type_invariant(&*self);
        }
        match self.position(key) {
            Some(i) => {
                let mut items: Vec<K> = Vec::new();
                std::mem::swap(&mut items, &mut self.items);
                let _ = items.remove(i);
                let ghost after = items.deep_view();
                proof {
                    assert(after =~= before.remove(i as int));
                    assert(after.no_duplicates());
                }
                self.items = items;
                proof {
                    assert(before.contains(k));
                    assert(after.to_set() =~= before.to_set().remove(k)) by {
                        assert forall|x: K::V| after.contains(x) <==> (before.contains(x) && x
                            != k) by {
                            if before.contains(x) && x != k {
                                let j = choose|j: int| 0 <= j < before.len() && before[j] == x;
                                if j < i {
                                    assert(after[j] == x);
                                } else {
                                    assert(after[j - 1] == x);
                                }
                            }
                            if after.contains(x) {
                                let j = choose|j: int| 0 <= j < after.len() && after[j] == x;
                                if j < i {
                                    assert(before[j] == x);
                                } else {
                                    assert(before[j + 1] == x);
                                }
                            }
                        }
                    }
                }
                true
            },
            None => {
                proof {
                    assert(self.deep_view().remove(k) =~= self.deep_view());
                }
                false
            },
        }
    }

    /// How many members the set has.
    pub fn len(&self) -> (n: usize)
        ensures
            n == self.listing().len(),
            n == self.deep_view().len(),
            self.deep_view().finite(),
    {
        proof {
            use_type_invariant(self);
            self.listing().unique_seq_to_set();
        }
        self.items.len()
    }

    /// The listing has each member once.
    pub fn check_listing(&self)
        ensures
            self.listing().no_duplicates(),
    {
        proof {
            use_type_invariant(self);
        }
    }

    /// The `i`-th member.
    pub fn item(&self, i: usize) -> (item: &K)
        requires
            i < self.listing().len(),
        ensures
            item.deep_view() == self.listing()[i as int],
            self.deep_view().contains(item.deep_view()),
    {
        proof {
            assert(self.listing().contains(self.listing()[i as int]));
        }
        &self.items[i]
    }
}

} // verus!
