use vstd::prelude::*;

verus! {

/// A small map from text keys to values.
///
/// The entries are kept in a list whose keys are pairwise distinct; its
/// view is the finite map from each key's characters to its value.
#[derive(Clone)]
pub struct StrMap<V> {
    entries: Vec<(String, V)>,
}

impl<V> View for StrMap<V> {
    type V = Map<Seq<char>, V>;

    closed spec fn view(&self) -> Map<Seq<char>, V> {
        Map::new(
            |k: Seq<char>| self.key_seq().contains(k),
            |k: Seq<char>| self.value_seq()[self.key_seq().index_of(k)],
        )
    }
}

impl<V> StrMap<V> {
    /// The keys in the order in which the entries are stored.
    pub closed spec fn key_seq(&self) -> Seq<Seq<char>> {
        Seq::new(self.entries@.len(), |i: int| self.entries@[i].0@)
    }

    /// The values in the order in which the entries are stored.
    pub closed spec fn value_seq(&self) -> Seq<V> {
        Seq::new(self.entries@.len(), |i: int| self.entries@[i].1)
    }

    /// No key is stored twice.
    pub closed spec fn wf(&self) -> bool {
        self.key_seq().no_duplicates()
    }

    /// The stored entries, in order, describe the map exactly.
    pub proof fn lemma_entries(&self)
        requires
            self.wf(),
        ensures
            self.key_seq().len() == self.value_seq().len(),
            self.key_seq().no_duplicates(),
            self@.dom() == self.key_seq().to_set(),
            self@.dom().finite(),
            self@.dom().len() == self.key_seq().len(),
            forall|i: int|
                0 <= i < self.key_seq().len() ==> #[trigger] self@[self.key_seq()[i]]
                    == self.value_seq()[i],
            forall|i: int|
                0 <= i < self.key_seq().len() ==> self@.contains_key(#[trigger] self.key_seq()[i]),
    {
        let ks = self.key_seq();
        assert(self@.dom() =~= ks.to_set());
        ks.unique_seq_to_set();
        assert forall|i: int| 0 <= i < ks.len() implies #[trigger] self@[ks[i]]
            == self.value_seq()[i] by {
            assert(ks.contains(ks[i]));
            let j = ks.index_of(ks[i]);
            assert(0 <= j < ks.len() && ks[j] == ks[i]);
        }
    }

    pub fn new() -> (m: Self)
        ensures
            m.wf(),
            m@ == Map::<Seq<char>, V>::empty(),
            m.key_seq() == Seq::<Seq<char>>::empty(),
    {
        let m = StrMap { entries: Vec::new() };
        assert(m.key_seq() =~= Seq::<Seq<char>>::empty());
        assert(m@ =~= Map::<Seq<char>, V>::empty());
        m
    }

    /// Number of entries.
    pub fn len(&self) -> (n: usize)
        requires
            self.wf(),
        ensures
            n == self@.dom().len(),
            n == self.key_seq().len(),
    {
        proof {
            self.lemma_entries();
        }
        self.entries.len()
    }

    /// Position of the entry with key `k`, if there is one.
    pub fn position(&self, k: &str) -> (r: Option<usize>)
        requires
            self.wf(),
        ensures
            match r {
                Some(i) => i < self.key_seq().len() && self.key_seq()[i as int] == k@,
                None => !self@.contains_key(k@),
            },
    {
        let key = k.to_owned();
        let n = self.entries.len();
        let mut i: usize = 0;
        while i < n
            invariant
                n == self.entries@.len(),
                key@ == k@,
                i <= n,
                forall|j: int| 0 <= j < i ==> self.key_seq()[j] != k@,
            decreases n - i,
        {
            if self.entries[i].0 == key {
                return Some(i);
            }
            i = i + 1;
        }
        proof {
            if self.key_seq().contains(k@) {
                let j = choose|j: int| 0 <= j < self.key_seq().len() && self.key_seq()[j] == k@;
                assert(self.key_seq()[j] != k@);
            }
        }
        None
    }

    pub fn contains_key(&self, k: &str) -> (b: bool)
        requires
            self.wf(),
        ensures
            b == self@.contains_key(k@),
    {
        proof {
            self.lemma_entries();
        }
        match self.position(k) {
            Some(i) => true,
            None => false,
        }
    }

    pub fn get(&self, k: &str) -> (r: Option<&V>)
        requires
            self.wf(),
        ensures
            match r {
                Some(v) => self@.contains_key(k@) && *v == self@[k@],
                None => !self@.contains_key(k@),
            },
    {
        proof {
            self.lemma_entries();
        }
        match self.position(k) {
            Some(i) => Some(&self.entries[i].1),
            None => None,
        }
    }

    /// The key of the entry at position `i`.
    pub fn key_at(&self, i: usize) -> (k: &String)
        requires
            i < self.key_seq().len(),
        ensures
            k@ == self.key_seq()[i as int],
    {
        &self.entries[i].0
    }

    /// The value of the entry at position `i`.
    pub fn value_at(&self, i: usize) -> (v: &V)
        requires
            i < self.key_seq().len(),
        ensures
            *v == self.value_seq()[i as int],
    {
        &self.entries[i].1
    }

    /// Inserts `v` under `k`, replacing the value stored there before.
    pub fn insert(&mut self, k: String, v: V)
        requires
            old(self).wf(),
        ensures
            final(self).wf(),
            final(self)@ == old(self)@.insert(k@, v),
    {
        proof {
            self.lemma_entries();
        }
        let ghost old_map = self@;
        match self.position(k.as_str()) {
            Some(i) => {
                let ghost ks = self.key_seq();
                self.entries.set(i, (k, v));
                assert(self.key_seq() =~= ks);
                proof {
                    self.lemma_entries();
                    assert forall|key: Seq<char>| #[trigger]
                        self@.contains_key(key) == old_map.insert(k@, v).contains_key(key) by {}
                    assert forall|key: Seq<char>| self@.contains_key(key) implies #[trigger] self@[key]
                        == old_map.insert(k@, v)[key] by {
                        let j = ks.index_of(key);
                        assert(ks.contains(key));
                        assert(self@[ks[j]] == self.value_seq()[j]);
                        if j != i {
                            assert(old_map[ks[j]] == old(self).value_seq()[j]);
                        }
                    }
                    assert(self@ =~= old_map.insert(k@, v));
                }
            },
            None => {
                let ghost ks = self.key_seq();
                self.entries.push((k, v));
                assert(self.key_seq() =~= ks.push(k@));
                proof {
                    self.lemma_entries();
                    let ks2 = self.key_seq();
                    assert forall|key: Seq<char>| #[trigger]
                        self@.contains_key(key) == old_map.insert(k@, v).contains_key(key) by {
                        if key == k@ {
                            assert(ks2[ks.len() as int] == k@);
                        }
                        if key != k@ && ks2.contains(key) {
                            let j = ks2.index_of(key);
                            assert(ks[j] == key);
                        }
                        if ks.contains(key) {
                            let j = ks.index_of(key);
                            assert(ks2[j] == key);
                        }
                    }
                    assert forall|key: Seq<char>| self@.contains_key(key) implies #[trigger] self@[key]
                        == old_map.insert(k@, v)[key] by {
                        let j = ks2.index_of(key);
                        assert(ks2.contains(key));
                        assert(self@[ks2[j]] == self.value_seq()[j]);
                        if j != ks.len() {
                            assert(old_map[ks[j]] == old(self).value_seq()[j]);
                        }
                    }
                    assert(self@ =~= old_map.insert(k@, v));
                }
            },
        }
    }

    /// Removes the entry for `k`, returning its value if there was one.
    pub fn remove(&mut self, k: &str) -> (r: Option<V>)
        requires
            old(self).wf(),
        ensures
            final(self).wf(),
            final(self)@ == old(self)@.remove(k@),
            match r {
                Some(v) => old(self)@.contains_key(k@) && v == old(self)@[k@],
                None => !old(self)@.contains_key(k@),
            },
    {
        proof {
            self.lemma_entries();
        }
        let ghost old_map = self@;
        match self.position(k) {
            Some(i) => {
                let ghost ks = self.key_seq();
                let ghost vs = self.value_seq();
                let (_, v) = self.entries.remove(i);
                assert(self.key_seq() =~= ks.remove(i as int));
                assert(self.value_seq() =~= vs.remove(i as int));
                proof {
                    self.lemma_entries();
                    let ks2 = self.key_seq();
                    assert forall|key: Seq<char>| #[trigger]
                        self@.contains_key(key) == old_map.remove(k@).contains_key(key) by {
                        if ks2.contains(key) {
                            let j = ks2.index_of(key);
                            if j < i {
                                assert(ks[j] == key);
                            } else {
                                assert(ks[j + 1] == key);
                            }
                        }
                        if key != k@ && ks.contains(key) {
                            let j = ks.index_of(key);
                            if j < i {
                                assert(ks2[j] == key);
                            } else {
                                assert(ks2[j - 1] == key);
                            }
                        }
                    }
                    assert forall|key: Seq<char>| self@.contains_key(key) implies #[trigger] self@[key]
                        == old_map.remove(k@)[key] by {
                        let j = ks2.index_of(key);
                        assert(ks2.contains(key));
                        assert(self@[ks2[j]] == self.value_seq()[j]);
                        if j < i {
                            assert(old_map[ks[j]] == vs[j]);
                        } else {
                            assert(old_map[ks[j + 1]] == vs[j + 1]);
                        }
                    }
                    assert(self@ =~= old_map.remove(k@));
                }
                Some(v)
            },
            None => {
                assert(self@ =~= old_map.remove(k@));
                None
            },
        }
    }

    /// The keys, each once, in storage order.
    pub fn keys(&self) -> (ks: Vec<String>)
        requires
            self.wf(),
        ensures
            ks@.len() == self.key_seq().len(),
            forall|i: int| 0 <= i < ks@.len() ==> #[trigger] ks@[i]@ == self.key_seq()[i],
    {
        let n = self.entries.len();
        let mut ks: Vec<String> = Vec::new();
        for i in 0..n
            invariant
                n == self.entries@.len(),
                ks@.len() == i,
                forall|j: int| 0 <= j < i ==> #[trigger] ks@[j]@ == self.key_seq()[j],
        {
            ks.push(self.entries[i].0.clone());
        }
        ks
    }
}

} // verus!
