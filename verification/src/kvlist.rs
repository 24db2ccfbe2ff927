//! An association list from string keys to values: the shared backbone of the
//! flag store and of the client registry. Its mathematical view is a map from
//! key characters to values; `wf` says the keys are pairwise distinct.

use vstd::prelude::*;

verus! {

use crate::extensions::str_eq;

/// A list of key / value entries with pairwise-distinct keys, viewed as a
/// `Map` from the key's characters to the value.
pub struct KeyedVec<V> {
    entries: Vec<(String, V)>,
}

impl<V> KeyedVec<V> {
    pub closed spec fn entries_seq(&self) -> Seq<(String, V)> {
        self.entries@
    }

    /// Keys are pairwise distinct.
    pub open spec fn wf(&self) -> bool {
        forall|i: int, j: int|
            0 <= i < j < self.entries_seq().len() ==> self.entries_seq()[i].0@
                != self.entries_seq()[j].0@
    }

    /// The keys, in insertion order.
    pub open spec fn spec_keys(&self) -> Seq<Seq<char>> {
        Seq::new(self.entries_seq().len(), |i: int| self.entries_seq()[i].0@)
    }

    pub open spec fn spec_contains(&self, k: Seq<char>) -> bool {
        exists|i: int|
            0 <= i < self.entries_seq().len() && self.entries_seq()[i].0@ == k
    }

    pub open spec fn spec_index_of(&self, k: Seq<char>) -> int {
        choose|i: int|
            0 <= i < self.entries_seq().len() && self.entries_seq()[i].0@ == k
    }

    /// With distinct keys, the position of a key is the only one that holds
    /// it, and the view agrees with the entry there.
    pub proof fn lemma_entry_at(&self, i: int)
        requires
            self.wf(),
            0 <= i < self.entries_seq().len(),
        ensures
            self.spec_index_of(self.entries_seq()[i].0@) == i,
            self@.contains_key(self.entries_seq()[i].0@),
            self@[self.entries_seq()[i].0@] == self.entries_seq()[i].1,
    {
        let k = self.entries_seq()[i].0@;
        assert(self.spec_contains(k));
        let j = self.spec_index_of(k);
        assert(0 <= j < self.entries_seq().len() && self.entries_seq()[j].0@ == k);
        if i != j {
            assert(false);
        }
    }

    /// A key is in the view exactly when some entry holds it.
    pub proof fn lemma_contains(&self, k: Seq<char>)
        ensures
            self@.contains_key(k) == self.spec_contains(k),
    {
    }

    pub fn new() -> (r: Self)
        ensures
            r.wf(),
            r@ == Map::<Seq<char>, V>::empty(),
            r.entries_seq().len() == 0,
    {
        let r = KeyedVec { entries: Vec::new() };
        proof {
            assert(r@ =~= Map::<Seq<char>, V>::empty());
        }
        r
    }

    fn find(&self, key: &str) -> (r: Option<usize>)
        ensures
            match r {
                Some(i) => i < self.entries_seq().len() && self.entries_seq()[i as int].0@
                    == key@,
                None => !self.spec_contains(key@),
            },
    {
        let mut i: usize = 0;
        while i < self.entries.len()
            invariant
                i <= self.entries_seq().len(),
                forall|j: int| 0 <= j < i ==> self.entries_seq()[j].0@ != key@,
            decreases self.entries_seq().len() - i,
        {
            if str_eq(self.entries[i].0.as_str(), key) {
                return Some(i);
            }
            i += 1;
        }
        None
    }

    /// The position of a key, if any entry holds it.
    pub fn index_of(&self, key: &str) -> (r: Option<usize>)
        ensures
            match r {
                Some(i) => i < self.entries_seq().len() && self.entries_seq()[i as int].0@
                    == key@,
                None => !self.spec_contains(key@),
            },
    {
        self.find(key)
    }

    /// A borrow of the value bound to a key.
    pub fn get(&self, key: &str) -> (r: Option<&V>)
        requires
            self.wf(),
        ensures
            match r {
                Some(v) => self@.contains_key(key@) && *v == self@[key@],
                None => !self@.contains_key(key@),
            },
    {
        proof {
            self.lemma_contains(key@);
        }
        match self.find(key) {
            Some(i) => {
                proof {
                    self.lemma_entry_at(i as int);
                }
                Some(&self.entries[i].1)
            },
            None => None,
        }
    }

    /// Whether the key is present.
    pub fn has(&self, key: &str) -> (r: bool)
        ensures
            r == self@.contains_key(key@),
    {
        proof {
            self.lemma_contains(key@);
        }
        match self.find(key) {
            Some(_) => true,
            None => false,
        }
    }

    pub fn len(&self) -> (r: usize)
        ensures
            r == self.entries_seq().len(),
    {
        self.entries.len()
    }

    pub fn key_at(&self, i: usize) -> (r: &String)
        requires
            i < self.entries_seq().len(),
        ensures
            r@ == self.spec_keys()[i as int],
    {
        &self.entries[i].0
    }

    pub fn value_at(&self, i: usize) -> (r: &V)
        requires
            i < self.entries_seq().len(),
        ensures
            *r == self.entries_seq()[i as int].1,
    {
        &self.entries[i].1
    }

    /// A mutable borrow of the value at a position; the keys, and with them
    /// well-formedness, are untouched.
    pub fn value_at_mut(&mut self, i: usize) -> (r: &mut V)
        requires
            i < old(self).entries_seq().len(),
        ensures
            *r == old(self).entries_seq()[i as int].1,
            final(self).entries_seq() == old(self).entries_seq().update(
                i as int,
                (old(self).entries_seq()[i as int].0, *final(r)),
            ),
    {
        let pair = vstd::std_specs::vec::vec_index_mut(&mut self.entries, i);
        &mut pair.1
    }

    /// Insert only if the key is absent; report whether insertion happened.
    /// A present key leaves the list untouched.
    pub fn insert_new(&mut self, key: String, value: V) -> (r: bool)
        requires
            old(self).wf(),
        ensures
            final(self).wf(),
            r == !old(self)@.contains_key(key@),
            r ==> final(self)@ == old(self)@.insert(key@, value) && final(self).spec_keys()
                == old(self).spec_keys().push(key@),
            !r ==> *final(self) == *old(self),
    {
        proof {
            self.lemma_contains(key@);
        }
        match self.find(key.as_str()) {
            Some(_) => false,
            None => {
                let ghost prev = *self;
                self.entries.push((key, value));
                proof {
                    self.lemma_after_add(prev, self.entries_seq().len() - 1);
                    assert(self.spec_keys() =~= prev.spec_keys().push(
                        self.entries_seq().last().0@,
                    ));
                }
                true
            },
        }
    }

    /// Insert or overwrite.
    pub fn put(&mut self, key: String, value: V)
        requires
            old(self).wf(),
        ensures
            final(self).wf(),
            final(self)@ == old(self)@.insert(key@, value),
            old(self)@.contains_key(key@) ==> final(self).spec_keys() == old(self).spec_keys(),
            !old(self)@.contains_key(key@) ==> final(self).spec_keys()
                == old(self).spec_keys().push(key@),
    {
        proof {
            self.lemma_contains(key@);
        }
        match self.find(key.as_str()) {
            Some(i) => {
                let ghost prev = *self;
                let slot = vstd::std_specs::vec::vec_index_mut(&mut self.entries, i);
                *slot = (key, value);
                proof {
                    assert(self.spec_keys() =~= prev.spec_keys());
                    self.lemma_after_add(prev, i as int);
                }
            },
            None => {
                let ghost prev = *self;
                self.entries.push((key, value));
                proof {
                    self.lemma_after_add(prev, self.entries_seq().len() - 1);
                    assert(self.spec_keys() =~= prev.spec_keys().push(
                        self.entries_seq().last().0@,
                    ));
                }
            },
        }
    }

    /// After writing the entry at `i`, whose key either was already at `i` or
    /// is new to the list, the view gains exactly that binding.
    pub proof fn lemma_after_add(&self, prev: Self, i: int)
        requires
            prev.wf(),
            0 <= i < self.entries_seq().len(),
            i < prev.entries_seq().len() ==> self.entries_seq() == prev.entries_seq().update(
                i,
                self.entries_seq()[i],
            ) && self.entries_seq()[i].0@ == prev.entries_seq()[i].0@,
            i >= prev.entries_seq().len() ==> i == prev.entries_seq().len()
                && self.entries_seq() == prev.entries_seq().push(self.entries_seq()[i])
                && !prev.spec_contains(self.entries_seq()[i].0@),
        ensures
            self.wf(),
            self@ == prev@.insert(self.entries_seq()[i].0@, self.entries_seq()[i].1),
    {
        let k = self.entries_seq()[i].0@;
        let v = self.entries_seq()[i].1;
        assert forall|a: int, b: int|
            0 <= a < b < self.entries_seq().len() implies self.entries_seq()[a].0@
            != self.entries_seq()[b].0@ by {
            if a != i && b != i {
                assert(self.entries_seq()[a] == prev.entries_seq()[a]);
                assert(self.entries_seq()[b] == prev.entries_seq()[b]);
            } else if b == i && i == prev.entries_seq().len() {
                assert(self.entries_seq()[a] == prev.entries_seq()[a]);
                assert(prev.spec_contains(prev.entries_seq()[a].0@));
            } else if a == i || b == i {
                let o: int = if a == i {
                    b
                } else {
                    a
                };
                assert(self.entries_seq()[o] == prev.entries_seq()[o]);
            }
        }
        assert(self.wf());
        assert forall|k2: Seq<char>| #[trigger]
            self@.contains_key(k2) implies prev@.insert(k, v).contains_key(k2) by {
            let w = self.spec_index_of(k2);
            if w != i {
                assert(prev.entries_seq()[w].0@ == k2);
            }
        }
        assert forall|k2: Seq<char>| #[trigger]
            prev@.insert(k, v).contains_key(k2) implies self@.contains_key(k2) by {
            if k2 == k {
                assert(self.entries_seq()[i].0@ == k2);
            } else {
                let w = prev.spec_index_of(k2);
                assert(prev.entries_seq()[w].0@ == k2);
                assert(self.entries_seq()[w].0@ == k2);
            }
        }
        assert forall|k2: Seq<char>| #[trigger]
            self@.contains_key(k2) implies self@[k2] == prev@.insert(k, v)[k2] by {
            if k2 == k {
                self.lemma_entry_at(i);
            } else {
                let w = prev.spec_index_of(k2);
                assert(prev.entries_seq()[w].0@ == k2);
                prev.lemma_entry_at(w);
                assert(self.entries_seq()[w].0@ == k2);
                self.lemma_entry_at(w);
            }
        }
        assert(self@ =~= prev@.insert(k, v));
    }

    /// Remove a key and hand back its value; an absent key is reported as
    /// `None` and leaves the list untouched.
    pub fn remove(&mut self, key: &str) -> (r: Option<V>)
        requires
            old(self).wf(),
        ensures
            final(self).wf(),
            match r {
                Some(v) => old(self)@.contains_key(key@) && v == old(self)@[key@]
                    && final(self)@ == old(self)@.remove(key@),
                None => !old(self)@.contains_key(key@) && *final(self) == *old(self),
            },
    {
        proof {
            self.lemma_contains(key@);
        }
        match self.find(key) {
            Some(i) => {
                let ghost prev = *self;
                let pair = self.entries.remove(i);
                proof {
                    prev.lemma_entry_at(i as int);
                    self.lemma_after_remove(prev, i as int, key@);
                }
                Some(pair.1)
            },
            None => None,
        }
    }

    /// After taking out the entry at `i`, the view loses exactly its key.
    proof fn lemma_after_remove(&self, prev: Self, i: int, k: Seq<char>)
        requires
            prev.wf(),
            0 <= i < prev.entries_seq().len(),
            prev.entries_seq()[i].0@ == k,
            self.entries_seq() == prev.entries_seq().remove(i),
        ensures
            self.wf(),
            self@ == prev@.remove(k),
    {
        assert forall|a: int, b: int|
            0 <= a < b < self.entries_seq().len() implies self.entries_seq()[a].0@
            != self.entries_seq()[b].0@ by {
            let pa: int = if a < i {
                a
            } else {
                a + 1
            };
            let pb: int = if b < i {
                b
            } else {
                b + 1
            };
            assert(self.entries_seq()[a] == prev.entries_seq()[pa]);
            assert(self.entries_seq()[b] == prev.entries_seq()[pb]);
        }
        assert(self.wf());
        assert forall|k2: Seq<char>| #[trigger]
            self@.contains_key(k2) implies prev@.remove(k).contains_key(k2) by {
            let w = self.spec_index_of(k2);
            let pw: int = if w < i {
                w
            } else {
                w + 1
            };
            assert(prev.entries_seq()[pw].0@ == k2);
            assert(k2 != k);
        }
        assert forall|k2: Seq<char>| #[trigger]
            prev@.remove(k).contains_key(k2) implies self@.contains_key(k2) by {
            let w = prev.spec_index_of(k2);
            assert(prev.entries_seq()[w].0@ == k2);
            assert(w != i);
            let sw: int = if w < i {
                w
            } else {
                w - 1
            };
            assert(self.entries_seq()[sw].0@ == k2);
        }
        assert forall|k2: Seq<char>| #[trigger]
            self@.contains_key(k2) implies self@[k2] == prev@.remove(k)[k2] by {
            let w = self.spec_index_of(k2);
            assert(self.entries_seq()[w].0@ == k2);
            self.lemma_entry_at(w);
            let pw: int = if w < i {
                w
            } else {
                w + 1
            };
            assert(prev.entries_seq()[pw].0@ == k2);
            prev.lemma_entry_at(pw);
            assert(self.entries_seq()[w].1 == prev.entries_seq()[pw].1);
        }
        assert(self@ =~= prev@.remove(k));
    }
}

impl<V> View for KeyedVec<V> {
    type V = Map<Seq<char>, V>;

    open spec fn view(&self) -> Map<Seq<char>, V> {
        Map::new(
            |k: Seq<char>| self.spec_contains(k),
            |k: Seq<char>| self.entries_seq()[self.spec_index_of(k)].1,
        )
    }
}

} // verus!
