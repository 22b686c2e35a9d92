//! A small map from texts to values, kept in the order in which the keys came.
use vstd::prelude::*;

verus! {

/// The place of a key among the keys, where it is one of them.
pub open spec fn position_of(keys: Seq<Seq<char>>, key: Seq<char>) -> int {
    choose|i: int| 0 <= i < keys.len() && keys[i] == key
}

/// The map that a list of distinct keys and a list of values of the same length stand for.
pub open spec fn entries_map<V>(keys: Seq<Seq<char>>, values: Seq<V>) -> Map<Seq<char>, V> {
    Map::new(|key: Seq<char>| keys.contains(key), |key: Seq<char>| values[position_of(keys, key)])
}

/// A map keyed by text. No key occurs twice, and a key keeps the place it first got.
#[derive(Debug)]
pub struct TextMap<V> {
    keys: Vec<String>,
    values: Vec<V>,
}

impl<V> View for TextMap<V> {
    type V = Map<Seq<char>, V>;

    open spec fn view(&self) -> Map<Seq<char>, V> {
        entries_map(self.keys(), self.values())
    }
}

impl<V> TextMap<V> {
    /// The keys, in the order in which they were first inserted.
    pub closed spec fn keys(&self) -> Seq<Seq<char>> {
        self.keys@.map_values(|key: String| key@)
    }

    /// The values, each at the place of its key.
    pub closed spec fn values(&self) -> Seq<V> {
        self.values@
    }

    /// Keys and values pair up, and no key occurs twice.
    pub closed spec fn wf(&self) -> bool {
        &&& self.keys@.len() == self.values@.len()
        &&& self.keys().no_duplicates()
    }

}

impl<V: Copy> TextMap<V> {
    pub fn new() -> (map: Self)
        ensures
            map.wf(),
            map@ == Map::<Seq<char>, V>::empty(),
            map.keys() == Seq::<Seq<char>>::empty(),
    {
        let map = TextMap { keys: Vec::new(), values: Vec::new() };
        assert(map.keys() =~= Seq::<Seq<char>>::empty());
        assert(map@ =~= Map::<Seq<char>, V>::empty());
        map
    }

    pub fn len(&self) -> (n: usize)
        requires
            self.wf(),
        ensures
            n == self.keys().len(),
            n == self.values().len(),
            n == self@.dom().len(),
            self@.dom().finite(),
    {
        proof {
            self.lemma_domain();
        }
        self.keys.len()
    }

    /// The domain of the map is the set of its keys, one element for each place.
    pub proof fn lemma_domain(&self)
        requires
            self.wf(),
        ensures
            self@.dom() == self.keys().to_set(),
            self@.dom().finite(),
            self@.dom().len() == self.keys().len(),
            self.keys().len() == self.values().len(),
            self.keys().no_duplicates(),
            forall|i: int| 0 <= i < self.keys().len() ==> self@[#[trigger] self.keys()[i]] == self.values()[i],
    {
        assert(self@.dom() =~= self.keys().to_set());
        self.keys().unique_seq_to_set();
        assert forall|i: int| 0 <= i < self.keys().len() implies self@[#[trigger] self.keys()[i]]
            == self.values()[i] by {
            assert(self.keys().contains(self.keys()[i]));
        }
    }

    /// Where a key stands among the keys, if it is one of them.
    fn find(&self, key: &String) -> (place: Option<usize>)
        ensures
            match place {
                Some(i) => i < self.keys().len() && self.keys()[i as int] == key@,
                None => !self.keys().contains(key@),
            },
    {
        let mut i: usize = 0;
        while i < self.keys.len()
            invariant
                i <= self.keys@.len(),
                forall|j: int| 0 <= j < i ==> self.keys()[j] != key@,
            decreases self.keys@.len() - i,
        {
            if self.keys[i] == *key {
                return Some(i);
            }
            i = i + 1;
        }
        None
    }

    /// The value stored under a key.
    pub fn get(&self, key: &String) -> (value: Option<V>)
        requires
            self.wf(),
        ensures
            value == if self@.dom().contains(key@) {
                Some(self@[key@])
            } else {
                None
            },
    {
        match self.find(key) {
            Some(i) => Some(self.values[i]),
            None => None,
        }
    }

    /// Stores a value under a key, in place of the value that the key had, if any.
    pub fn insert(&mut self, key: String, value: V)
        requires
            old(self).wf(),
        ensures
            final(self).wf(),
            final(self)@ == old(self)@.insert(key@, value),
            final(self).keys() == if old(self).keys().contains(key@) {
                old(self).keys()
            } else {
                old(self).keys().push(key@)
            },
    {
        let ghost before = *self;
        match self.find(&key) {
            Some(i) => {
                self.values.set(i, value);
                proof {
                    assert(self.keys() == before.keys());
                    assert(self@ =~= before@.insert(key@, value));
                }
            },
            None => {
                self.keys.push(key);
                self.values.push(value);
                proof {
                    let n = before.keys().len() as int;
                    assert(self.keys() =~= before.keys().push(key@));
                    assert(self.keys().no_duplicates());
                    assert(self.keys()[n] == key@);
                    assert forall|k: Seq<char>| #[trigger]
                        self@.dom().contains(k) == before@.insert(key@, value).dom().contains(
                            k,
                        ) by {
                        if self.keys().contains(k) {
                            let i = position_of(self.keys(), k);
                            if i < n {
                                assert(before.keys()[i] == k);
                            }
                        }
                        if before.keys().contains(k) {
                            let i = position_of(before.keys(), k);
                            assert(self.keys()[i] == k);
                        }
                    }
                    assert forall|k: Seq<char>| #[trigger]
                        self@.dom().contains(k) implies self@[k] == before@.insert(key@, value)[k] by {
                        let i = position_of(self.keys(), k);
                        if k == key@ {
                            assert(i == n);
                        } else {
                            assert(before.keys()[i] == k);
                            assert(position_of(before.keys(), k) == i);
                        }
                    }
                    assert(self@ =~= before@.insert(key@, value));
                }
            },
        }
    }

    /// The key at a place.
    pub fn key(&self, i: usize) -> (key: &String)
        requires
            i < self.keys().len(),
        ensures
            key@ == self.keys()[i as int],
    {
        &self.keys[i]
    }

    /// The value at a place.
    pub fn value(&self, i: usize) -> (value: V)
        requires
            i < self.values().len(),
        ensures
            value == self.values()[i as int],
    {
        self.values[i]
    }
}

} // verus!
