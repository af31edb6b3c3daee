//! A small ordered table from integer keys to values, kept in ascending key
//! order with no key twice.

use vstd::prelude::*;

verus! {

pub struct Table<V> {
    keys: Vec<u64>,
    vals: Vec<V>,
}

impl<V> Table<V> {
    /// The keys in the order in which the table holds them.
    pub closed spec fn keys(&self) -> Seq<u64> {
        self.keys@
    }

    /// The values, each at the position of its key.
    pub closed spec fn values(&self) -> Seq<V> {
        self.vals@
    }

    /// Keys and values go in pairs, and the keys ascend strictly.
    pub open spec fn wf(&self) -> bool {
        &&& self.keys().len() == self.values().len()
        &&& forall|i: int, j: int|
            0 <= i < j < self.keys().len() ==> self.keys()[i] < self.keys()[j]
    }

    /// The position of `key` among the keys, where it is one.
    pub open spec fn index_of(&self, key: u64) -> Option<int> {
        if exists|i: int| 0 <= i < self.keys().len() && self.keys()[i] == key {
            Some(choose|i: int| 0 <= i < self.keys().len() && self.keys()[i] == key)
        } else {
            None
        }
    }

    /// The table as a map.
    pub open spec fn view(&self) -> Map<u64, V> {
        Map::new(
            |k: u64| self.index_of(k) is Some,
            |k: u64| self.values()[self.index_of(k)->0],
        )
    }

    pub proof fn lemma_index(&self, i: int)
        requires
            self.wf(),
            0 <= i < self.keys().len(),
        ensures
            self.index_of(self.keys()[i]) == Some(i),
            self@.contains_key(self.keys()[i]),
            self@[self.keys()[i]] == self.values()[i],
    {
        let k = self.keys()[i];
        let j = choose|j: int| 0 <= j < self.keys().len() && self.keys()[j] == k;
        if j < i {
            assert(self.keys()[j] < self.keys()[i]);
        } else if i < j {
            assert(self.keys()[i] < self.keys()[j]);
        }
    }

    pub proof fn lemma_absent(&self, key: u64)
        requires
            forall|i: int| 0 <= i < self.keys().len() ==> self.keys()[i] != key,
        ensures
            self.index_of(key) is None,
            !self@.contains_key(key),
    {
    }

    pub fn new() -> (t: Self)
        ensures
            t.wf(),
            t@ == Map::<u64, V>::empty(),
            t.keys().len() == 0,
    {
        let t = Table { keys: Vec::new(), vals: Vec::new() };
        assert(t@ =~= Map::<u64, V>::empty());
        t
    }

    pub fn len(&self) -> (n: usize)
        requires
            self.wf(),
        ensures
            n == self.keys().len(),
    {
        self.keys.len()
    }

    /// The position at which `key` stands, or at which it would be put.
    pub fn position(&self, key: u64) -> (r: (usize, bool))
        requires
            self.wf(),
        ensures
            r.0 <= self.keys().len(),
            forall|i: int| 0 <= i < r.0 ==> self.keys()[i] < key,
            forall|i: int| r.0 <= i < self.keys().len() ==> self.keys()[i] >= key,
            r.1 == (r.0 < self.keys().len() && self.keys()[r.0 as int] == key),
            r.1 == self@.contains_key(key),
            r.1 ==> self.index_of(key) == Some(r.0 as int),
    {
        let mut i: usize = 0;
        while i < self.keys.len() && self.keys[i] < key
            invariant
                i <= self.keys.len(),
                forall|j: int| 0 <= j < i ==> self.keys()[j] < key,
            decreases self.keys.len() - i,
        {
            i += 1;
        }
        let found = i < self.keys.len() && self.keys[i] == key;
        proof {
            if found {
                self.lemma_index(i as int);
            } else {
                assert forall|j: int| 0 <= j < self.keys().len() implies self.keys()[j]
                    != key by {
                    if j >= i {
                        if j > i {
                            assert(self.keys()[i as int] < self.keys()[j]);
                        }
                    }
                }
                self.lemma_absent(key);
            }
            assert forall|j: int| i <= j < self.keys().len() implies self.keys()[j] >= key by {
                if j > i {
                    assert(self.keys()[i as int] < self.keys()[j]);
                }
            }
        }
        (i, found)
    }

    /// The value under `key`, where there is one.
    pub fn get(&self, key: u64) -> (r: Option<&V>)
        requires
            self.wf(),
        ensures
            match r {
                Some(v) => self@.contains_key(key) && *v == self@[key],
                None => !self@.contains_key(key),
            },
    {
        let (i, found) = self.position(key);
        if found {
            Some(&self.vals[i])
        } else {
            None
        }
    }

    /// The value at position `i`.
    pub fn value_at(&self, i: usize) -> (v: &V)
        requires
            self.wf(),
            i < self.keys().len(),
        ensures
            *v == self.values()[i as int],
            self@.contains_key(self.keys()[i as int]),
            *v == self@[self.keys()[i as int]],
    {
        proof {
            self.lemma_index(i as int);
        }
        &self.vals[i]
    }

    /// Puts `val` under `key`, in place of the value that was there if there
    /// was one.
    pub fn put(&mut self, key: u64, val: V)
        requires
            old(self).wf(),
        ensures
            final(self).wf(),
            final(self)@ == old(self)@.insert(key, val),
            old(self)@.contains_key(key) ==> final(self).keys() == old(self).keys(),
            final(self).keys().len() == old(self).keys().len() + (if old(self)@.contains_key(
                key,
            ) {
                0int
            } else {
                1int
            }),
    {
        let (i, found) = self.position(key);
        let ghost before = *self;
        if found {
            self.vals.set(i, val);
            proof {
                assert(self.wf());
                assert forall|k: u64| #[trigger] self.index_of(k) == before.index_of(k) by {}
                assert(self@ =~= before@.insert(key, val)) by {
                    before.lemma_index(i as int);
                    self.lemma_index(i as int);
                }
            }
        } else {
            self.keys.insert(i, key);
            self.vals.insert(i, val);
            proof {
                assert(self.wf()) by {
                    assert forall|a: int, b: int| 0 <= a < b < self.keys().len() implies self.keys()[a]
                        < self.keys()[b] by {
                        let oa = if a < i { a } else { a - 1 };
                        let ob = if b < i { b } else { b - 1 };
                        if a != i && b != i {
                            assert(before.keys()[oa] < before.keys()[ob]);
                        }
                    }
                }
                assert forall|k: u64| self@.contains_key(k) == before@.insert(
                    key,
                    val,
                ).contains_key(k) by {
                    if k == key {
                        self.lemma_index(i as int);
                    } else if before@.contains_key(k) {
                        let j = before.index_of(k)->0;
                        let nj = if j < i { j } else { j + 1 };
                        assert(self.keys()[nj] == k);
                    } else if self@.contains_key(k) {
                        let j = self.index_of(k)->0;
                        let oj = if j < i { j } else { j - 1 };
                        assert(before.keys()[oj] == k);
                    }
                }
                assert forall|k: u64| self@.contains_key(k) implies self@[k] == before@.insert(
                    key,
                    val,
                )[k] by {
                    if k == key {
                        self.lemma_index(i as int);
                    } else {
                        let j = before.index_of(k)->0;
                        let nj = if j < i { j } else { j + 1 };
                        assert(self.keys()[nj] == k);
                        self.lemma_index(nj);
                        before.lemma_index(j);
                    }
                }
                assert(self@ =~= before@.insert(key, val));
            }
        }
    }
}

} // verus!
