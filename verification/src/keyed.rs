//! A small map from strings to values, kept as a list of distinct keys.

use vstd::prelude::*;

verus! {

/// A map from strings to values, each key at most once, in insertion order.
pub struct StrMap<V> {
    entries: Vec<(String, V)>,
}

impl<V> StrMap<V> {
    /// No key occurs twice.
    #[verifier::type_invariant]
    pub closed spec fn distinct_keys(self) -> bool {
        forall|i: int, j: int|
            0 <= i < j < self.entries@.len() ==> #[trigger] self.entries@[i].0@
                != #[trigger] self.entries@[j].0@
    }

    closed spec fn has_key_at(self, k: Seq<char>, i: int) -> bool {
        0 <= i < self.entries@.len() && self.entries@[i].0@ == k
    }

    /// The contents, as a map from key to value.
    pub closed spec fn view(&self) -> Map<Seq<char>, V> {
        Map::new(
            |k: Seq<char>| exists|i: int| self.has_key_at(k, i),
            |k: Seq<char>| self.entries@[choose|i: int| self.has_key_at(k, i)].1,
        )
    }

    proof fn lemma_at(&self, i: int)
        requires
            self.distinct_keys(),
            0 <= i < self.entries@.len(),
        ensures
            self@.contains_key(self.entries@[i].0@),
            self@[self.entries@[i].0@] == self.entries@[i].1,
    {
        let k = self.entries@[i].0@;
        assert(self.has_key_at(k, i));
        let j = choose|j: int| self.has_key_at(k, j);
        if j != i {
            if j < i {
                assert(self.entries@[j].0@ != self.entries@[i].0@);
            } else {
                assert(self.entries@[i].0@ != self.entries@[j].0@);
            }
        }
    }

    /// The entries in insertion order, keys by their characters.
    pub closed spec fn pairs(&self) -> Seq<(Seq<char>, V)> {
        self.entries@.map_values(|e: (String, V)| (e.0@, e.1))
    }

    /// A key of the map is the key of some entry, and its value is that
    /// entry's value.
    pub proof fn lemma_view_entry(&self, k: Seq<char>)
        ensures
            self@.contains_key(k) <==> exists|i: int| 0 <= i < self.pairs().len() && (#[trigger] self.pairs()[i]).0 == k,
            self@.contains_key(k) ==> exists|i: int|
                0 <= i < self.pairs().len() && (#[trigger] self.pairs()[i]).0 == k && self@[k] == self.pairs()[i].1,
    {
        if exists|i: int| 0 <= i < self.pairs().len() && (#[trigger] self.pairs()[i]).0 == k {
            let i = choose|i: int| 0 <= i < self.pairs().len() && (#[trigger] self.pairs()[i]).0 == k;
            assert(self.has_key_at(k, i));
            let j = choose|j: int| self.has_key_at(k, j);
            assert(self.pairs()[j].0 == k);
        }
        if self@.contains_key(k) {
            let j = choose|j: int| self.has_key_at(k, j);
            assert(self.pairs()[j].0 == k);
        }
    }

    /// The number of entries.
    pub fn len(&self) -> (r: usize)
        ensures
            r == self.pairs().len(),
    {
        self.entries.len()
    }

    /// The entry at position `i`.
    pub fn entry(&self, i: usize) -> (r: (&String, &V))
        requires
            i < self.pairs().len(),
        ensures
            r.0@ == self.pairs()[i as int].0,
            *r.1 == self.pairs()[i as int].1,
    {
        (&self.entries[i].0, &self.entries[i].1)
    }

    /// The empty map.
    pub fn new() -> (r: StrMap<V>)
        ensures
            r@ == Map::<Seq<char>, V>::empty(),
    {
        let r = StrMap { entries: Vec::new() };
        assert(r@ =~= Map::<Seq<char>, V>::empty());
        r
    }

    fn index_of(&self, key: &str) -> (r: Option<usize>)
        ensures
            r matches Some(i) ==> i < self.entries@.len() && self.entries@[i as int].0@ == key@,
            r is None ==> forall|i: int|
                0 <= i < self.entries@.len() ==> #[trigger] self.entries@[i].0@ != key@,
    {
        let mut i: usize = 0;
        while i < self.entries.len()
            invariant
                i <= self.entries@.len(),
                forall|j: int| 0 <= j < i ==> #[trigger] self.entries@[j].0@ != key@,
            decreases self.entries@.len() - i,
        {
            if crate::text::str_eq(self.entries[i].0.as_str(), key) {
                return Some(i);
            }
            i = i + 1;
        }
        None
    }

    /// The value recorded for `key`, if any.
    pub fn get(&self, key: &str) -> (r: Option<&V>)
        ensures
            r matches Some(v) ==> self@.get(key@) == Some(*v),
            r is None ==> self@.get(key@) is None,
    {
        proof {
            use_type_invariant(self);
        }
        match self.index_of(key) {
            Some(i) => {
                proof {
                    self.lemma_at(i as int);
                }
                Some(&self.entries[i].1)
            },
            None => {
                assert(!self@.contains_key(key@));
                None
            },
        }
    }

    /// Whether a value is recorded for `key`.
    pub fn contains_key(&self, key: &str) -> (r: bool)
        ensures
            r == self@.contains_key(key@),
    {
        proof {
            use_type_invariant(self);
        }
        match self.index_of(key) {
            Some(i) => {
                proof {
                    self.lemma_at(i as int);
                }
                true
            },
            None => false,
        }
    }

    /// Records `value` for `key`, replacing an earlier value.
    pub fn insert(&mut self, key: String, value: V)
        ensures
            final(self)@ == old(self)@.insert(key@, value),
    {
        proof {
            use_type_invariant(&*self);
        }
        let ghost k = key@;
        let ghost before = *self;
        match self.index_of(key.as_str()) {
            Some(i) => {
                let mut entries: Vec<(String, V)> = Vec::new();
                std::mem::swap(&mut entries, &mut self.entries);
                let ghost old_entries = entries@;
                entries.remove(i);
                entries.insert(i, (key, value));
                assert(forall|j: int|
                    0 <= j < entries@.len() && j != i ==> entries@[j] == old_entries[j]);
                self.entries = entries;
                proof {
                    use_type_invariant(&*self);
                    assert forall|kk: Seq<char>| #![auto]
                        self@.contains_key(kk) == before@.insert(k, value).contains_key(kk) by {
                        if kk != k && before@.contains_key(kk) {
                            let j = choose|j: int| before.has_key_at(kk, j);
                            assert(self.has_key_at(kk, j));
                        }
                        if kk != k && self@.contains_key(kk) {
                            let j = choose|j: int| self.has_key_at(kk, j);
                            assert(before.has_key_at(kk, j));
                        }
                        if kk == k {
                            assert(self.has_key_at(kk, i as int));
                        }
                    }
                    assert forall|kk: Seq<char>| #[trigger]
                        self@.contains_key(kk) implies self@[kk] == before@.insert(k, value)[kk] by {
                        let j = choose|j: int| self.has_key_at(kk, j);
                        self.lemma_at(j);
                        if j != i {
                            before.lemma_at(j);
                        }
                    }
                    assert(self@ =~= before@.insert(k, value));
                }
            },
            None => {
                let mut entries: Vec<(String, V)> = Vec::new();
                std::mem::swap(&mut entries, &mut self.entries);
                entries.push((key, value));
                self.entries = entries;
                proof {
                    use_type_invariant(&*self);
                    let n = before.entries@.len() as int;
                    assert forall|kk: Seq<char>| #![auto]
                        self@.contains_key(kk) == before@.insert(k, value).contains_key(kk) by {
                        if kk != k && before@.contains_key(kk) {
                            let j = choose|j: int| before.has_key_at(kk, j);
                            assert(self.has_key_at(kk, j));
                        }
                        if kk != k && self@.contains_key(kk) {
                            let j = choose|j: int| self.has_key_at(kk, j);
                            assert(before.has_key_at(kk, j));
                        }
                        if kk == k {
                            assert(self.has_key_at(kk, n));
                        }
                    }
                    assert forall|kk: Seq<char>| #[trigger]
                        self@.contains_key(kk) implies self@[kk] == before@.insert(k, value)[kk] by {
                        let j = choose|j: int| self.has_key_at(kk, j);
                        self.lemma_at(j);
                        if j != n {
                            before.lemma_at(j);
                        }
                    }
                    assert(self@ =~= before@.insert(k, value));
                }
            },
        }
    }

    /// Forgets the value recorded for `key`, if any.
    pub fn remove(&mut self, key: &str)
        ensures
            final(self)@ == old(self)@.remove(key@),
    {
        proof {
            use_type_invariant(&*self);
        }
        let ghost before = *self;
        match self.index_of(key) {
            Some(i) => {
                let mut entries: Vec<(String, V)> = Vec::new();
                std::mem::swap(&mut entries, &mut self.entries);
                let ghost old_entries = entries@;
                entries.remove(i);
                assert(forall|j: int| 0 <= j < i ==> entries@[j] == old_entries[j]);
                assert(forall|j: int|
                    i <= j < entries@.len() ==> entries@[j] == old_entries[j + 1]);
                self.entries = entries;
                proof {
                    use_type_invariant(&*self);
                    assert forall|kk: Seq<char>| #![auto]
                        self@.contains_key(kk) == before@.remove(key@).contains_key(kk) by {
                        if kk != key@ && before@.contains_key(kk) {
                            let j = choose|j: int| before.has_key_at(kk, j);
                            if j < i {
                                assert(self.has_key_at(kk, j));
                            } else {
                                assert(self.has_key_at(kk, j - 1));
                            }
                        }
                        if self@.contains_key(kk) {
                            let j = choose|j: int| self.has_key_at(kk, j);
                            if j < i {
                                assert(before.has_key_at(kk, j));
                                assert(before.entries@[j].0@ != before.entries@[i as int].0@);
                            } else {
                                assert(before.has_key_at(kk, j + 1));
                                assert(before.entries@[i as int].0@ != before.entries@[j + 1].0@);
                            }
                        }
                    }
                    assert forall|kk: Seq<char>| #[trigger]
                        self@.contains_key(kk) implies self@[kk] == before@.remove(key@)[kk] by {
                        let j = choose|j: int| self.has_key_at(kk, j);
                        self.lemma_at(j);
                        if j < i {
                            before.lemma_at(j);
                        } else {
                            before.lemma_at(j + 1);
                        }
                    }
                    assert(self@ =~= before@.remove(key@));
                }
            },
            None => {
                assert(self@ =~= before@.remove(key@));
            },
        }
    }
}

} // verus!
