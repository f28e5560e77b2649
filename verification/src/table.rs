//! A small association table for keys that are not plain integers.

use vstd::prelude::*;

verus! {

/// What a `Table` needs of a key: an identity, and a test for it.
pub trait Key: Sized {
    type Id;

    spec fn id(&self) -> Self::Id;

    fn same(&self, other: &Self) -> (b: bool)
        ensures
            b == (self.id() == other.id()),
    ;
}

impl Key for (i32, u32) {
    type Id = (i32, u32);

    open spec fn id(&self) -> (i32, u32) {
        *self
    }

    fn same(&self, other: &Self) -> (b: bool) {
        self.0 == other.0 && self.1 == other.1
    }
}

impl Key for String {
    type Id = Seq<char>;

    open spec fn id(&self) -> Seq<char> {
        self@
    }

    fn same(&self, other: &Self) -> (b: bool) {
        *self == *other
    }
}

impl Key for (String, String) {
    type Id = (Seq<char>, Seq<char>);

    open spec fn id(&self) -> (Seq<char>, Seq<char>) {
        (self.0@, self.1@)
    }

    fn same(&self, other: &Self) -> (b: bool) {
        self.0 == other.0 && self.1 == other.1
    }
}

/// A map from keys to values, kept as a list without two entries of one key.
pub struct Table<K: Key, V> {
    pub entries: Vec<(K, V)>,
}

/// The position of the entry of `id`, if there is one.
pub open spec fn position<K: Key, V>(entries: Seq<(K, V)>, id: K::Id) -> Option<int> {
    if exists|i: int| 0 <= i < entries.len() && (#[trigger] entries[i]).0.id() == id {
        Some(choose|i: int| 0 <= i < entries.len() && (#[trigger] entries[i]).0.id() == id)
    } else {
        None
    }
}

impl<K: Key, V> View for Table<K, V> {
    type V = Map<K::Id, V>;

    open spec fn view(&self) -> Map<K::Id, V> {
        Map::new(
            |id: K::Id| position(self.entries@, id) is Some,
            |id: K::Id| self.entries@[position(self.entries@, id)->0].1,
        )
    }
}

impl<K: Key, V> Table<K, V> {
    pub open spec fn wf(&self) -> bool {
        forall|i: int, j: int|
            0 <= i < j < self.entries@.len() ==> (#[trigger] self.entries@[i]).0.id() != (
            #[trigger] self.entries@[j]).0.id()
    }

    /// An entry of the list is an entry of the map.
    pub proof fn lemma_at(&self, i: int)
        requires
            self.wf(),
            0 <= i < self.entries@.len(),
        ensures
            self@.contains_key(self.entries@[i].0.id()),
            self@[self.entries@[i].0.id()] == self.entries@[i].1,
    {
        let id = self.entries@[i].0.id();
        let p = choose|p: int|
            0 <= p < self.entries@.len() && (#[trigger] self.entries@[p]).0.id() == id;
        assert(self.entries@[i].0.id() == id);
        assert(p == i) by {
            if p < i {
                assert(self.entries@[p].0.id() != self.entries@[i].0.id());
            } else if i < p {
                assert(self.entries@[i].0.id() != self.entries@[p].0.id());
            }
        }
    }

    pub fn new() -> (table: Self)
        ensures
            table.wf(),
            table@ == Map::<K::Id, V>::empty(),
    {
        let table: Table<K, V> = Table { entries: Vec::new() };
        assert(table@ =~= Map::<K::Id, V>::empty());
        table
    }

    fn find(&self, key: &K) -> (r: Option<usize>)
        requires
            self.wf(),
        ensures
            match r {
                Some(i) => i < self.entries@.len() && self.entries@[i as int].0.id() == key.id()
                    && self@.contains_key(key.id()) && self@[key.id()]
                    == self.entries@[i as int].1,
                None => !self@.contains_key(key.id()) && forall|i: int|
                    0 <= i < self.entries@.len() ==> (#[trigger] self.entries@[i]).0.id()
                        != key.id(),
            },
    {
        let mut i: usize = 0;
        while i < self.entries.len()
            invariant
                self.wf(),
                i <= self.entries@.len(),
                forall|j: int|
                    0 <= j < i ==> (#[trigger] self.entries@[j]).0.id() != key.id(),
            decreases self.entries@.len() - i,
        {
            if self.entries[i].0.same(key) {
                proof {
                    self.lemma_at(i as int);
                }
                return Some(i);
            }
            i = i + 1;
        }
        None
    }

    pub fn contains_key(&self, key: &K) -> (b: bool)
        requires
            self.wf(),
        ensures
            b == self@.contains_key(key.id()),
    {
        self.find(key).is_some()
    }

    pub fn get(&self, key: &K) -> (r: Option<&V>)
        requires
            self.wf(),
        ensures
            match r {
                Some(v) => self@.contains_key(key.id()) && *v == self@[key.id()],
                None => !self@.contains_key(key.id()),
            },
    {
        match self.find(key) {
            Some(i) => Some(&self.entries[i].1),
            None => None,
        }
    }

    /// Bind `key` to `value`, in place of what it was bound to.
    pub fn insert(&mut self, key: K, value: V)
        requires
            old(self).wf(),
        ensures
            final(self).wf(),
            final(self)@ == old(self)@.insert(key.id(), value),
    {
        let ghost id = key.id();
        match self.find(&key) {
            Some(i) => {
                self.entries.set(i, (key, value));
                proof {
                    assert forall|k: K::Id|
                        #![trigger self@.dom().contains(k)]
                        #![trigger self@[k]]
                        self@.contains_key(k) == old(self)@.contains_key(k) && (
                    k != id && self@.contains_key(k) ==> self@[k] == old(self)@[k]) by {
                        self.lemma_lookup(k);
                        old(self).lemma_lookup(k);
                        if let Some(p) = position(old(self).entries@, k) {
                            assert(self.entries@[p].0.id() == k);
                            self.lemma_at(p);
                        }
                        if let Some(p) = position(self.entries@, k) {
                            assert(old(self).entries@[p].0.id() == k);
                            old(self).lemma_at(p);
                        }
                    }
                    self.lemma_at(i as int);
                    assert(self@ =~= old(self)@.insert(id, value));
                }
            },
            None => {
                self.entries.push((key, value));
                proof {
                    let n = old(self).entries@.len() as int;
                    assert(self.entries@[n].0.id() == id);
                    self.lemma_at(n);
                    assert forall|k: K::Id|
                        #![trigger self@.dom().contains(k)]
                        #![trigger self@[k]]
                        k != id implies self@.contains_key(k) == old(
                        self,
                    )@.contains_key(k) && (self@.contains_key(k) ==> self@[k] == old(
                        self,
                    )@[k]) by {
                        self.lemma_lookup(k);
                        old(self).lemma_lookup(k);
                        if let Some(p) = position(old(self).entries@, k) {
                            assert(self.entries@[p].0.id() == k);
                            self.lemma_at(p);
                        }
                        if let Some(p) = position(self.entries@, k) {
                            assert(p != n);
                            assert(old(self).entries@[p].0.id() == k);
                            old(self).lemma_at(p);
                        }
                    }
                    assert(self@ =~= old(self)@.insert(id, value));
                }
            },
        }
    }

    proof fn lemma_lookup(&self, k: K::Id)
        requires
            self.wf(),
        ensures
            position(self.entries@, k) matches Some(p) ==> 0 <= p < self.entries@.len()
                && self.entries@[p].0.id() == k && self@[k] == self.entries@[p].1,
            self@.contains_key(k) == (position(self.entries@, k) is Some),
    {
    }

    /// Drop the binding of `key`, and say what it was.
    pub fn remove(&mut self, key: &K) -> (r: Option<V>)
        requires
            old(self).wf(),
        ensures
            final(self).wf(),
            final(self)@ == old(self)@.remove(key.id()),
            match r {
                Some(v) => old(self)@.contains_key(key.id()) && v == old(self)@[key.id()],
                None => !old(self)@.contains_key(key.id()),
            },
    {
        match self.find(key) {
            Some(i) => {
                let (_, v) = self.entries.remove(i);
                proof {
                    let id = key.id();
                    assert forall|j: int| 0 <= j < self.entries@.len() implies (
                    #[trigger] self.entries@[j]) == old(self).entries@[if j < i {
                        j
                    } else {
                        j + 1
                    }] by {}
                    assert forall|k: K::Id|
                        #![trigger self@.dom().contains(k)]
                        #![trigger self@[k]]
                        self@.contains_key(k) == (k != id && old(
                        self,
                    )@.contains_key(k)) && (self@.contains_key(k) ==> self@[k] == old(
                        self,
                    )@[k]) by {
                        self.lemma_lookup(k);
                        old(self).lemma_lookup(k);
                        if let Some(p) = position(old(self).entries@, k) {
                            if k != id {
                                let q = if p < i {
                                    p
                                } else {
                                    p - 1
                                };
                                assert(p != i);
                                assert(self.entries@[q].0.id() == k);
                                self.lemma_at(q);
                            }
                        }
                        if let Some(p) = position(self.entries@, k) {
                            let q = if p < i {
                                p
                            } else {
                                p + 1
                            };
                            assert(old(self).entries@[q].0.id() == k);
                            old(self).lemma_at(q);
                        }
                    }
                    assert(self@ =~= old(self)@.remove(id));
                }
                Some(v)
            },
            None => {
                assert(self@ =~= old(self)@.remove(key.id()));
                None
            },
        }
    }
}

} // verus!
