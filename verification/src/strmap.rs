//! Maps keyed by text, with a mathematical view.
use vstd::prelude::*;
use crate::text::str_eq;

verus! {

/// A map from strings to values, kept as a list of entries with distinct keys.
///
/// Its view is the `Map` from each key's characters to the value's model.
pub struct StrMap<V> {
    entries: Vec<(String, V)>,
}

impl<V> StrMap<V> {
    /// No two entries share a key.
    #[verifier::type_invariant]
    closed spec fn keys_distinct(self) -> bool {
        forall|i: int, j: int|
            0 <= i < j < self.entries@.len() ==> #[trigger] self.entries@[i].0@ != #[trigger] self.entries@[j].0@
    }

    /// Whether some entry has key `k`.
    closed spec fn has_key(&self, k: Seq<char>) -> bool {
        exists|i: int| 0 <= i < self.entries@.len() && #[trigger] self.entries@[i].0@ == k
    }

    /// The position of the entry with key `k`.
    closed spec fn slot(&self, k: Seq<char>) -> int {
        choose|i: int| 0 <= i < self.entries@.len() && #[trigger] self.entries@[i].0@ == k
    }
}

impl<V: DeepView> View for StrMap<V> {
    type V = Map<Seq<char>, V::V>;

    closed spec fn view(&self) -> Map<Seq<char>, V::V> {
        Map::new(|k: Seq<char>| self.has_key(k), |k: Seq<char>| self.entries@[self.slot(k)].1.deep_view())
    }
}

impl<V: DeepView> StrMap<V> {
    proof fn lemma_entry(&self, i: int)
        requires
            self.keys_distinct(),
            0 <= i < self.entries@.len(),
        ensures
            self@.contains_key(self.entries@[i].0@),
            self@[self.entries@[i].0@] == self.entries@[i].1.deep_view(),
    {
        let k = self.entries@[i].0@;
        assert(self.has_key(k));
        let j = self.slot(k);
        assert(j == i);
    }

    proof fn lemma_absent(&self, k: Seq<char>)
        requires
            forall|i: int| 0 <= i < self.entries@.len() ==> #[trigger] self.entries@[i].0@ != k,
        ensures
            !self@.contains_key(k),
    {
    }

    /// The empty map.
    pub fn new() -> (m: Self)
        ensures
            m@ == Map::<Seq<char>, V::V>::empty(),
    {
        let m = StrMap { entries: Vec::new() };
        proof {
            assert(m@ =~= Map::<Seq<char>, V::V>::empty());
        }
        m
    }

    /// The position of the entry with key `key`, if any.
    fn find(&self, key: &str) -> (r: Option<usize>)
        ensures
            match r {
                Some(i) => i < self.entries@.len() && self.entries@[i as int].0@ == key@,
                None => forall|i: int| 0 <= i < self.entries@.len() ==> #[trigger] self.entries@[i].0@ != key@,
            },
    {
        let mut i: usize = 0;
        while i < self.entries.len()
            invariant
                i <= self.entries@.len(),
                forall|j: int| 0 <= j < i ==> #[trigger] self.entries@[j].0@ != key@,
            decreases self.entries@.len() - i,
        {
            if str_eq(self.entries[i].0.as_str(), key) {
                return Some(i);
            }
            i += 1;
        }
        None
    }

    /// The value stored under `key`, if any.
    pub fn get(&self, key: &str) -> (r: Option<&V>)
        ensures
            match r {
                Some(v) => self@.contains_key(key@) && v.deep_view() == self@[key@],
                None => !self@.contains_key(key@),
            },
    {
        proof {
            use_type_invariant(self);
        }
        match self.find(key) {
            Some(i) => {
                proof {
                    self.lemma_entry(i as int);
                }
                Some(&self.entries[i].1)
            },
            None => {
                proof {
                    self.lemma_absent(key@);
                }
                None
            },
        }
    }

    /// The number of keys (the map has finitely many).
    pub fn len(&self) -> (n: usize)
        ensures
            self@.dom().finite(),
            n == self@.dom().len(),
    {
        proof {
            use_type_invariant(self);
            let keys = self.entries@.map_values(|e: (String, V)| e.0@);
            assert forall|i: int, j: int| 0 <= i < keys.len() && 0 <= j < keys.len() && i != j implies keys[i] != keys[j] by {
                if i < j {
                    assert(self.entries@[i].0@ != self.entries@[j].0@);
                } else {
                    assert(self.entries@[j].0@ != self.entries@[i].0@);
                }
            }
            assert(keys.no_duplicates());
            keys.unique_seq_to_set();
            assert forall|k: Seq<char>| #![auto] self@.dom().contains(k) == keys.to_set().contains(k) by {
                if self.has_key(k) {
                    let i = self.slot(k);
                    assert(keys[i] == k);
                }
                if keys.to_set().contains(k) {
                    assert(keys.contains(k));
                    let i = choose|i: int| 0 <= i < keys.len() && keys[i] == k;
                    assert(self.entries@[i].0@ == k);
                }
            }
            assert(self@.dom() =~= keys.to_set());
            vstd::seq_lib::seq_to_set_is_finite(keys);
        }
        self.entries.len()
    }

    /// Whether some value is stored under `key`.
    pub fn contains_key(&self, key: &str) -> (r: bool)
        ensures
            r == self@.contains_key(key@),
    {
        self.get(key).is_some()
    }

    /// Stores `value` under `key`, replacing any value already there.
    pub fn insert(&mut self, key: String, value: V)
        ensures
            final(self)@ == old(self)@.insert(key@, value.deep_view()),
    {
        proof {
            use_type_invariant(&*self);
        }
        let ghost k = key@;
        let ghost vv = value.deep_view();
        let ghost before = *self;
        match self.find(key.as_str()) {
            Some(i) => {
                let mut entries: Vec<(String, V)> = Vec::new();
                std::mem::swap(&mut entries, &mut self.entries);
                entries.set(i, (key, value));
                proof {
                    assert forall|a: int, b: int| 0 <= a < b < entries@.len() implies #[trigger] entries@[a].0@ != #[trigger] entries@[b].0@ by {
                        assert(before.entries@[a].0@ != before.entries@[b].0@);
                    }
                }
                self.entries = entries;
                proof {
                    use_type_invariant(&*self);
                    assert forall|x: Seq<char>| #![auto] self@.contains_key(x) == before@.insert(k, vv).contains_key(x) by {
                        if before.has_key(x) {
                            let j = before.slot(x);
                            assert(self.entries@[j].0@ == x);
                        }
                        if self.has_key(x) {
                            let j = self.slot(x);
                            assert(j == i || before.entries@[j].0@ == x);
                        }
                    }
                    assert forall|x: Seq<char>| #![auto] self@.contains_key(x) implies self@[x] == before@.insert(k, vv)[x] by {
                        let j = self.slot(x);
                        self.lemma_entry(j);
                        if x != k {
                            before.lemma_entry(j);
                        }
                    }
                    assert(self@ =~= before@.insert(k, vv));
                }
            },
            None => {
                let mut entries: Vec<(String, V)> = Vec::new();
                std::mem::swap(&mut entries, &mut self.entries);
                entries.push((key, value));
                self.entries = entries;
                proof {
                    use_type_invariant(&*self);
                    let n = before.entries@.len() as int;
                    assert(self.entries@[n].0@ == k);
                    assert forall|x: Seq<char>| #![auto] self@.contains_key(x) == before@.insert(k, vv).contains_key(x) by {
                        if before.has_key(x) {
                            let j = before.slot(x);
                            assert(self.entries@[j].0@ == x);
                        }
                        if self.has_key(x) {
                            let j = self.slot(x);
                            assert(j == n || before.entries@[j].0@ == x);
                        }
                    }
                    assert forall|x: Seq<char>| #![auto] self@.contains_key(x) implies self@[x] == before@.insert(k, vv)[x] by {
                        let j = self.slot(x);
                        self.lemma_entry(j);
                        if x != k {
                            before.lemma_entry(j);
                        }
                    }
                    assert(self@ =~= before@.insert(k, vv));
                }
            },
        }
    }

    /// Removes and returns the value stored under `key`, if any.
    pub fn remove(&mut self, key: &str) -> (r: Option<V>)
        ensures
            final(self)@ == old(self)@.remove(key@),
            match r {
                Some(v) => old(self)@.contains_key(key@) && v.deep_view() == old(self)@[key@],
                None => !old(self)@.contains_key(key@),
            },
    {
        proof {
            use_type_invariant(&*self);
        }
        let ghost k = key@;
        let ghost before = *self;
        match self.find(key) {
            Some(i) => {
                proof {
                    before.lemma_entry(i as int);
                }
                let mut entries: Vec<(String, V)> = Vec::new();
                std::mem::swap(&mut entries, &mut self.entries);
                let (_, v) = entries.remove(i);
                proof {
                    assert forall|a: int, b: int| 0 <= a < b < entries@.len() implies #[trigger] entries@[a].0@ != #[trigger] entries@[b].0@ by {
                        if b < i {
                            assert(before.entries@[a].0@ != before.entries@[b].0@);
                        } else if a < i {
                            assert(before.entries@[a].0@ != before.entries@[b + 1].0@);
                        } else {
                            assert(before.entries@[a + 1].0@ != before.entries@[b + 1].0@);
                        }
                    }
                }
                self.entries = entries;
                proof {
                    use_type_invariant(&*self);
                    assert forall|x: Seq<char>| #![auto] self@.contains_key(x) == before@.remove(k).contains_key(x) by {
                        if before.has_key(x) && x != k {
                            let j = before.slot(x);
                            if j < i {
                                assert(self.entries@[j].0@ == x);
                            } else {
                                assert(self.entries@[j - 1].0@ == x);
                            }
                        }
                        if self.has_key(x) {
                            let j = self.slot(x);
                            if j < i {
                                assert(before.entries@[j].0@ == x);
                            } else {
                                assert(before.entries@[j + 1].0@ == x);
                            }
                        }
                    }
                    assert forall|x: Seq<char>| #![auto] self@.contains_key(x) implies self@[x] == before@.remove(k)[x] by {
                        let j = self.slot(x);
                        self.lemma_entry(j);
                        if j < i {
                            before.lemma_entry(j);
                        } else {
                            before.lemma_entry(j + 1);
                        }
                    }
                    assert(self@ =~= before@.remove(k));
                }
                Some(v)
            },
            None => {
                proof {
                    before.lemma_absent(k);
                    assert(self@ =~= before@.remove(k));
                }
                None
            },
        }
    }

    /// The entries, in storage order: each key once, with its value.
    pub fn entries(&self) -> (r: &Vec<(String, V)>)
        ensures
            forall|i: int| 0 <= i < r@.len() ==> self@.contains_key(#[trigger] r@[i].0@)
                && self@[r@[i].0@] == r@[i].1.deep_view(),
            forall|i: int, j: int| 0 <= i < j < r@.len() ==> #[trigger] r@[i].0@ != #[trigger] r@[j].0@,
            forall|k: Seq<char>| #[trigger] self@.contains_key(k) ==> exists|i: int| 0 <= i < r@.len() && r@[i].0@ == k,
    {
        proof {
            use_type_invariant(self);
            assert forall|i: int| 0 <= i < self.entries@.len() implies self@.contains_key(#[trigger] self.entries@[i].0@)
                && self@[self.entries@[i].0@] == self.entries@[i].1.deep_view() by {
                self.lemma_entry(i);
            }
        }
        &self.entries
    }
}

impl Clone for StrMap<String> {
    /// A copy with the same entries.
    fn clone(&self) -> (r: Self)
        ensures
            r@ == self@,
    {
        proof {
            use_type_invariant(self);
        }
        let mut entries: Vec<(String, String)> = Vec::new();
        let mut i: usize = 0;
        while i < self.entries.len()
            invariant
                i <= self.entries@.len(),
                entries@ == self.entries@.take(i as int),
            decreases self.entries@.len() - i,
        {
            let k = self.entries[i].0.clone();
            let v = self.entries[i].1.clone();
            entries.push((k, v));
            i += 1;
            proof {
                assert(entries@ =~= self.entries@.take(i as int));
            }
        }
        proof {
            assert(entries@ =~= self.entries@);
        }
        let r = StrMap { entries };
        proof {
            assert(r@ =~= self@);
        }
        r
    }
}

} // verus!
