//! A free-form store of string keys to string values, used both on its own
//! and as the per-client flag metadata.

use vstd::prelude::*;

verus! {

use crate::kvlist::KeyedVec;

/// A string-keyed store of string values, viewed as a map from key
/// characters to value characters.
pub struct Lagerung {
    kv: KeyedVec<String>,
}

impl View for Lagerung {
    type V = Map<Seq<char>, Seq<char>>;

    closed spec fn view(&self) -> Map<Seq<char>, Seq<char>> {
        Map::new(|k: Seq<char>| self.kv@.contains_key(k), |k: Seq<char>| self.kv@[k]@)
    }
}

impl Lagerung {
    pub closed spec fn wf(&self) -> bool {
        self.kv.wf()
    }

    pub fn new() -> (r: Self)
        ensures
            r.wf(),
            r@ == Map::<Seq<char>, Seq<char>>::empty(),
    {
        let r = Lagerung { kv: KeyedVec::new() };
        proof {
            assert(r@ =~= Map::<Seq<char>, Seq<char>>::empty());
        }
        r
    }

    /// Whether a key is present.
    pub fn has(&mut self, key: &str) -> (r: bool)
        ensures
            *final(self) == *old(self),
            r == old(self)@.contains_key(key@),
    {
        self.kv.has(key)
    }

    /// A borrow of the value bound to a key.
    pub fn get(&self, key: &str) -> (r: Option<&String>)
        requires
            self.wf(),
        ensures
            match r {
                Some(v) => self@.contains_key(key@) && v@ == self@[key@],
                None => !self@.contains_key(key@),
            },
    {
        self.kv.get(key)
    }

    /// Bind a key to a value, replacing any earlier binding.
    pub fn add(&mut self, key: &str, value: &str)
        requires
            old(self).wf(),
        ensures
            final(self).wf(),
            final(self)@ == old(self)@.insert(key@, value@),
    {
        let ghost prev = *self;
        self.kv.put(key.to_owned(), value.to_owned());
        proof {
            assert(self@ =~= prev@.insert(key@, value@));
        }
    }

    /// Drop a key; an absent key is left as a no-op.
    pub fn remove(&mut self, key: &str)
        requires
            old(self).wf(),
        ensures
            final(self).wf(),
            final(self)@ == old(self)@.remove(key@),
    {
        let ghost prev = *self;
        let _ = self.kv.remove(key);
        proof {
            assert(self@ =~= prev@.remove(key@));
        }
    }
}

} // verus!
