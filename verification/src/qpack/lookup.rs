//! Lookup of table entries by name, and by name and value.
use vstd::prelude::*;
use crate::buf::{same_bytes, to_vec};
use super::field::HeaderField;

verus! {

/// Insertion numbers by name.
///
/// No two entries have the same key.
#[derive(Debug)]
pub struct NameMap {
    entries: Vec<(Vec<u8>, usize)>,
}

impl View for NameMap {
    type V = Map<Seq<u8>, usize>;

    closed spec fn view(&self) -> Map<Seq<u8>, usize> {
        Map::new(
            |key: Seq<u8>| exists|i: int| self.has_at(key, i),
            |key: Seq<u8>| self.entries@[choose|i: int| self.has_at(key, i)].1,
        )
    }
}

impl NameMap {
    closed spec fn has_at(&self, key: Seq<u8>, i: int) -> bool {
        0 <= i < self.entries@.len() && self.entries@[i].0@ == key
    }

    pub closed spec fn wf(&self) -> bool {
        forall|i: int, j: int|
            0 <= i < j < self.entries@.len() ==> (#[trigger] self.entries@[i]).0@ != (#[trigger] self.entries@[j]).0@
    }

    proof fn lemma_entry(&self, i: int)
        requires
            self.wf(),
            0 <= i < self.entries@.len(),
        ensures
            self@.contains_key(self.entries@[i].0@),
            self@[self.entries@[i].0@] == self.entries@[i].1,
    {
        let key = self.entries@[i].0@;
        assert(self.has_at(key, i));
        let j = choose|j: int| self.has_at(key, j);
        assert(self.has_at(key, j));
        assert(i == j);
    }

    pub fn new() -> (map: Self)
        ensures
            map.wf(),
            map@ == Map::<Seq<u8>, usize>::empty(),
    {
        let map = NameMap { entries: Vec::new() };
        assert(map@ =~= Map::<Seq<u8>, usize>::empty());
        map
    }

    /// The number of keys.
    pub fn len(&self) -> (n: usize)
        requires
            self.wf(),
        ensures
            n == self@.len(),
            self@.dom().finite(),
    {
        proof {
            let keys = Seq::new(self.entries@.len(), |i: int| self.entries@[i].0@);
            assert(keys.no_duplicates());
            keys.unique_seq_to_set();
            assert(keys.to_set() =~= self@.dom()) by {
                assert forall|key: Seq<u8>| keys.to_set().contains(key) implies self@.dom().contains(key) by {
                    let i = choose|i: int| 0 <= i < keys.len() && keys[i] == key;
                    self.lemma_entry(i);
                }
                assert forall|key: Seq<u8>| self@.dom().contains(key) implies keys.to_set().contains(key) by {
                    let i = choose|i: int| self.has_at(key, i);
                    assert(keys[i] == key);
                }
            }
        }
        self.entries.len()
    }

    pub fn is_empty(&self) -> (empty: bool)
        requires
            self.wf(),
        ensures
            empty == (self@ == Map::<Seq<u8>, usize>::empty()),
    {
        proof {
            if self.entries@.len() == 0 {
                assert(self@ =~= Map::<Seq<u8>, usize>::empty());
            } else {
                self.lemma_entry(0);
            }
        }
        self.entries.len() == 0
    }

    fn position(&self, name: &[u8]) -> (found: Option<usize>)
        ensures
            match found {
                Some(i) => self.has_at(name@, i as int),
                None => !self@.contains_key(name@),
            },
    {
        let mut i: usize = 0;
        while i < self.entries.len()
            invariant
                i <= self.entries@.len(),
                forall|j: int| 0 <= j < i ==> !#[trigger] self.has_at(name@, j),
            decreases self.entries@.len() - i,
        {
            if same_bytes(self.entries[i].0.as_slice(), name) {
                return Some(i);
            }
            i = i + 1;
        }
        None
    }

    pub fn get(&self, name: &[u8]) -> (value: Option<usize>)
        requires
            self.wf(),
        ensures
            value == if self@.contains_key(name@) {
                Some(self@[name@])
            } else {
                None::<usize>
            },
    {
        match self.position(name) {
            Some(i) => {
                proof {
                    self.lemma_entry(i as int);
                }
                Some(self.entries[i].1)
            },
            None => None,
        }
    }

    /// Maps a key to `value`, whatever it was mapped to.
    pub fn insert(&mut self, name: &[u8], value: usize)
        requires
            old(self).wf(),
        ensures
            final(self).wf(),
            final(self)@ == old(self)@.insert(name@, value),
    {
        let ghost before = *self;
        let ghost key = name@;
        match self.position(name) {
            Some(i) => {
                self.entries.set(i, (to_vec(name), value));
            },
            None => {
                proof {
                    assert forall|j: int| 0 <= j < self.entries@.len() implies (#[trigger] self.entries@[j]).0@
                        != key by {
                        self.lemma_entry(j);
                    }
                }
                self.entries.push((to_vec(name), value));
            },
        }
        proof {
            assert(self.wf());
            assert forall|k: Seq<u8>| self@.contains_key(k) == before@.insert(key, value).contains_key(k) by {
                if self@.contains_key(k) {
                    let i = choose|i: int| self.has_at(k, i);
                    assert(self.has_at(k, i));
                    if k != key {
                        assert(before.has_at(k, i));
                    }
                }
                if before@.insert(key, value).contains_key(k) {
                    if k == key {
                        if before@.contains_key(key) {
                            let j = choose|j: int| before.has_at(key, j);
                            assert(before.has_at(key, j));
                            assert(self.has_at(key, j));
                        } else {
                            assert(self.has_at(key, self.entries@.len() - 1));
                        }
                    } else {
                        let j = choose|j: int| before.has_at(k, j);
                        assert(before.has_at(k, j));
                        assert(self.has_at(k, j));
                    }
                }
            }
            assert forall|k: Seq<u8>| #[trigger] self@.contains_key(k) implies self@[k] == before@.insert(key, value)[k] by {
                let i = choose|i: int| self.has_at(k, i);
                assert(self.has_at(k, i));
                self.lemma_entry(i);
                if k != key {
                    assert(before.has_at(k, i));
                    before.lemma_entry(i);
                }
            }
            assert(self@ =~= before@.insert(key, value));
        }
    }

    /// Forgets a key.
    pub fn remove(&mut self, name: &[u8])
        requires
            old(self).wf(),
        ensures
            final(self).wf(),
            final(self)@ == old(self)@.remove(name@),
    {
        let ghost before = *self;
        let ghost key = name@;
        match self.position(name) {
            Some(p) => {
                let ghost n = self.entries@.len() - 1;
                self.entries.swap_remove(p);
                proof {
                    assert forall|i: int| 0 <= i < self.entries@.len() implies #[trigger] self.entries@[i]
                        == before.entries@[if i == p { n } else { i }] by {}
                    assert(self.wf());
                    assert forall|k: Seq<u8>| self@.contains_key(k) == before@.remove(key).contains_key(k) by {
                        if self@.contains_key(k) {
                            let i = choose|i: int| self.has_at(k, i);
                            assert(self.has_at(k, i));
                            assert(before.has_at(k, if i == p { n } else { i }));
                            assert(before.has_at(key, p as int));
                        }
                        if before@.remove(key).contains_key(k) {
                            let j = choose|j: int| before.has_at(k, j);
                            assert(before.has_at(k, j));
                            assert(j != p);
                            assert(self.has_at(k, if j == n { p as int } else { j }));
                        }
                    }
                    assert forall|k: Seq<u8>| #[trigger] self@.contains_key(k) implies self@[k] == before@.remove(key)[k] by {
                        let i = choose|i: int| self.has_at(k, i);
                        assert(self.has_at(k, i));
                        self.lemma_entry(i);
                        before.lemma_entry(if i == p { n } else { i });
                    }
                    assert(self@ =~= before@.remove(key));
                }
            },
            None => {
                assert(self@ =~= before@.remove(key));
            },
        }
    }
}

/// Insertion numbers by name and value.
///
/// No two entries have the same key.
#[derive(Debug)]
pub struct FieldMap {
    entries: Vec<(HeaderField, usize)>,
}

impl View for FieldMap {
    type V = Map<(Seq<u8>, Seq<u8>), usize>;

    closed spec fn view(&self) -> Map<(Seq<u8>, Seq<u8>), usize> {
        Map::new(
            |key: (Seq<u8>, Seq<u8>)| exists|i: int| self.has_at(key, i),
            |key: (Seq<u8>, Seq<u8>)| self.entries@[choose|i: int| self.has_at(key, i)].1,
        )
    }
}

impl FieldMap {
    closed spec fn has_at(&self, key: (Seq<u8>, Seq<u8>), i: int) -> bool {
        0 <= i < self.entries@.len() && (self.entries@[i].0@.name, self.entries@[i].0@.value) == key
    }

    pub closed spec fn wf(&self) -> bool {
        forall|i: int, j: int|
            0 <= i < j < self.entries@.len() ==> ((#[trigger] self.entries@[i]).0@.name, self.entries@[i].0@.value) != ((#[trigger] self.entries@[j]).0@.name, self.entries@[j].0@.value)
    }

    proof fn lemma_entry(&self, i: int)
        requires
            self.wf(),
            0 <= i < self.entries@.len(),
        ensures
            self@.contains_key((self.entries@[i].0@.name, self.entries@[i].0@.value)),
            self@[(self.entries@[i].0@.name, self.entries@[i].0@.value)] == self.entries@[i].1,
    {
        let key = (self.entries@[i].0@.name, self.entries@[i].0@.value);
        assert(self.has_at(key, i));
        let j = choose|j: int| self.has_at(key, j);
        assert(self.has_at(key, j));
        assert(i == j);
    }

    pub fn new() -> (map: Self)
        ensures
            map.wf(),
            map@ == Map::<(Seq<u8>, Seq<u8>), usize>::empty(),
    {
        let map = FieldMap { entries: Vec::new() };
        assert(map@ =~= Map::<(Seq<u8>, Seq<u8>), usize>::empty());
        map
    }

    /// The number of keys.
    pub fn len(&self) -> (n: usize)
        requires
            self.wf(),
        ensures
            n == self@.len(),
            self@.dom().finite(),
    {
        proof {
            let keys = Seq::new(self.entries@.len(), |i: int| (self.entries@[i].0@.name, self.entries@[i].0@.value));
            assert(keys.no_duplicates());
            keys.unique_seq_to_set();
            assert(keys.to_set() =~= self@.dom()) by {
                assert forall|key: (Seq<u8>, Seq<u8>)| keys.to_set().contains(key) implies self@.dom().contains(key) by {
                    let i = choose|i: int| 0 <= i < keys.len() && keys[i] == key;
                    self.lemma_entry(i);
                }
                assert forall|key: (Seq<u8>, Seq<u8>)| self@.dom().contains(key) implies keys.to_set().contains(key) by {
                    let i = choose|i: int| self.has_at(key, i);
                    assert(keys[i] == key);
                }
            }
        }
        self.entries.len()
    }

    pub fn is_empty(&self) -> (empty: bool)
        requires
            self.wf(),
        ensures
            empty == (self@ == Map::<(Seq<u8>, Seq<u8>), usize>::empty()),
    {
        proof {
            if self.entries@.len() == 0 {
                assert(self@ =~= Map::<(Seq<u8>, Seq<u8>), usize>::empty());
            } else {
                self.lemma_entry(0);
            }
        }
        self.entries.len() == 0
    }

    fn position(&self, field: &HeaderField) -> (found: Option<usize>)
        ensures
            match found {
                Some(i) => self.has_at((field@.name, field@.value), i as int),
                None => !self@.contains_key((field@.name, field@.value)),
            },
    {
        let mut i: usize = 0;
        while i < self.entries.len()
            invariant
                i <= self.entries@.len(),
                forall|j: int| 0 <= j < i ==> !#[trigger] self.has_at((field@.name, field@.value), j),
            decreases self.entries@.len() - i,
        {
            if self.entries[i].0.same_line(field) {
                return Some(i);
            }
            i = i + 1;
        }
        None
    }

    pub fn get(&self, field: &HeaderField) -> (value: Option<usize>)
        requires
            self.wf(),
        ensures
            value == if self@.contains_key((field@.name, field@.value)) {
                Some(self@[(field@.name, field@.value)])
            } else {
                None::<usize>
            },
    {
        match self.position(field) {
            Some(i) => {
                proof {
                    self.lemma_entry(i as int);
                }
                Some(self.entries[i].1)
            },
            None => None,
        }
    }

    /// Maps a key to `value`, whatever it was mapped to.
    pub fn insert(&mut self, field: &HeaderField, value: usize)
        requires
            old(self).wf(),
        ensures
            final(self).wf(),
            final(self)@ == old(self)@.insert((field@.name, field@.value), value),
    {
        let ghost before = *self;
        let ghost key = (field@.name, field@.value);
        match self.position(field) {
            Some(i) => {
                self.entries.set(i, (field.clone(), value));
            },
            None => {
                proof {
                    assert forall|j: int| 0 <= j < self.entries@.len() implies ((#[trigger] self.entries@[j]).0@.name, self.entries@[j].0@.value)
                        != key by {
                        self.lemma_entry(j);
                    }
                }
                self.entries.push((field.clone(), value));
            },
        }
        proof {
            assert(self.wf());
            assert forall|k: (Seq<u8>, Seq<u8>)| self@.contains_key(k) == before@.insert(key, value).contains_key(k) by {
                if self@.contains_key(k) {
                    let i = choose|i: int| self.has_at(k, i);
                    assert(self.has_at(k, i));
                    if k != key {
                        assert(before.has_at(k, i));
                    }
                }
                if before@.insert(key, value).contains_key(k) {
                    if k == key {
                        if before@.contains_key(key) {
                            let j = choose|j: int| before.has_at(key, j);
                            assert(before.has_at(key, j));
                            assert(self.has_at(key, j));
                        } else {
                            assert(self.has_at(key, self.entries@.len() - 1));
                        }
                    } else {
                        let j = choose|j: int| before.has_at(k, j);
                        assert(before.has_at(k, j));
                        assert(self.has_at(k, j));
                    }
                }
            }
            assert forall|k: (Seq<u8>, Seq<u8>)| #[trigger] self@.contains_key(k) implies self@[k] == before@.insert(key, value)[k] by {
                let i = choose|i: int| self.has_at(k, i);
                assert(self.has_at(k, i));
                self.lemma_entry(i);
                if k != key {
                    assert(before.has_at(k, i));
                    before.lemma_entry(i);
                }
            }
            assert(self@ =~= before@.insert(key, value));
        }
    }

    /// Forgets a key.
    pub fn remove(&mut self, field: &HeaderField)
        requires
            old(self).wf(),
        ensures
            final(self).wf(),
            final(self)@ == old(self)@.remove((field@.name, field@.value)),
    {
        let ghost before = *self;
        let ghost key = (field@.name, field@.value);
        match self.position(field) {
            Some(p) => {
                let ghost n = self.entries@.len() - 1;
                self.entries.swap_remove(p);
                proof {
                    assert forall|i: int| 0 <= i < self.entries@.len() implies #[trigger] self.entries@[i]
                        == before.entries@[if i == p { n } else { i }] by {}
                    assert(self.wf());
                    assert forall|k: (Seq<u8>, Seq<u8>)| self@.contains_key(k) == before@.remove(key).contains_key(k) by {
                        if self@.contains_key(k) {
                            let i = choose|i: int| self.has_at(k, i);
                            assert(self.has_at(k, i));
                            assert(before.has_at(k, if i == p { n } else { i }));
                            assert(before.has_at(key, p as int));
                        }
                        if before@.remove(key).contains_key(k) {
                            let j = choose|j: int| before.has_at(k, j);
                            assert(before.has_at(k, j));
                            assert(j != p);
                            assert(self.has_at(k, if j == n { p as int } else { j }));
                        }
                    }
                    assert forall|k: (Seq<u8>, Seq<u8>)| #[trigger] self@.contains_key(k) implies self@[k] == before@.remove(key)[k] by {
                        let i = choose|i: int| self.has_at(k, i);
                        assert(self.has_at(k, i));
                        self.lemma_entry(i);
                        before.lemma_entry(if i == p { n } else { i });
                    }
                    assert(self@ =~= before@.remove(key));
                }
            },
            None => {
                assert(self@ =~= before@.remove(key));
            },
        }
    }
}

} // verus!
