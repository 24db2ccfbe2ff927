//! The client registry: a client couples a connection with free-form flag
//! metadata, and the registry maps each peer address to its client. An
//! address, once registered, keeps its first client until it is removed.

use vstd::prelude::*;

verus! {

use crate::connection::Connection;
use crate::kvlist::KeyedVec;
use crate::lagerung::Lagerung;

/// One registered peer: its connection and its free-form flags.
pub struct Client<T> {
    pub conn: Connection<T>,
    pub flags: Lagerung,
}

impl<T> Client<T> {
    pub open spec fn wf(&self) -> bool {
        self.flags.wf()
    }

    /// Wrap a connection with empty flags.
    pub fn new(conn: Connection<T>) -> (r: Self)
        ensures
            r.conn == conn,
            r.flags@ == Map::<Seq<char>, Seq<char>>::empty(),
            r.wf(),
    {
        Client { conn, flags: Lagerung::new() }
    }

    /// Whether a flag is set.
    pub fn has_flag(&mut self, flag: &str) -> (r: bool)
        ensures
            *final(self) == *old(self),
            r == old(self).flags@.contains_key(flag@),
    {
        self.flags.has(flag)
    }

    /// Set a flag, replacing any earlier value.
    pub fn add_flag(&mut self, flag: &str, value: &str)
        requires
            old(self).wf(),
        ensures
            final(self).wf(),
            final(self).conn == old(self).conn,
            final(self).flags@ == old(self).flags@.insert(flag@, value@),
    {
        self.flags.add(flag, value)
    }

    /// Clear a flag; report whether it was set.
    pub fn remove_flag(&mut self, flag: &str) -> (r: bool)
        requires
            old(self).wf(),
        ensures
            final(self).wf(),
            final(self).conn == old(self).conn,
            r == old(self).flags@.contains_key(flag@),
            final(self).flags@ == old(self).flags@.remove(flag@),
    {
        let r = self.flags.has(flag);
        self.flags.remove(flag);
        r
    }
}

/// The shared map from peer address to client. Well-formedness says the
/// addresses are pairwise distinct and every registered client is itself
/// well-formed — a reader of the registry never sees a half-made entry.
pub struct Registry<T> {
    pub clients: KeyedVec<Client<T>>,
}

impl<T> View for Registry<T> {
    type V = Map<Seq<char>, Client<T>>;

    open spec fn view(&self) -> Map<Seq<char>, Client<T>> {
        self.clients@
    }
}

impl<T> Registry<T> {
    pub open spec fn wf(&self) -> bool {
        self.clients.wf() && forall|k: Seq<char>| #[trigger]
            self.clients@.contains_key(k) ==> self.clients@[k].wf()
    }

    /// The registered addresses, in insertion order.
    pub open spec fn spec_addresses(&self) -> Seq<Seq<char>> {
        self.clients.spec_keys()
    }

    pub open spec fn spec_len(&self) -> nat {
        self.clients.entries_seq().len()
    }

    pub open spec fn spec_client_at(&self, i: int) -> Client<T> {
        self.clients.entries_seq()[i].1
    }

    pub fn new() -> (r: Self)
        ensures
            r.wf(),
            r@ == Map::<Seq<char>, Client<T>>::empty(),
            r.spec_len() == 0,
    {
        Registry { clients: KeyedVec::new() }
    }

    pub fn len(&self) -> (r: usize)
        ensures
            r == self.spec_len(),
    {
        self.clients.len()
    }

    /// Register a client only if its address is free; report whether
    /// registration happened. A taken address leaves its first client's data
    /// untouched.
    pub fn insert(&mut self, address: String, client: Client<T>) -> (r: bool)
        requires
            old(self).wf(),
            client.wf(),
        ensures
            final(self).wf(),
            r == !old(self)@.contains_key(address@),
            r ==> final(self)@ == old(self)@.insert(address@, client)
                && final(self).spec_addresses() == old(self).spec_addresses().push(address@),
            !r ==> *final(self) == *old(self),
    {
        let ghost prev = *self;
        let r = self.clients.insert_new(address, client);
        proof {
            if r {
                assert forall|k: Seq<char>| #[trigger]
                    self.clients@.contains_key(k) implies self.clients@[k].wf() by {
                    if k != address@ {
                        assert(prev.clients@.contains_key(k));
                    }
                }
            }
        }
        r
    }

    /// Look an address up; absence is a normal outcome.
    pub fn get(&self, address: &str) -> (r: Option<&Client<T>>)
        requires
            self.wf(),
        ensures
            match r {
                Some(c) => self@.contains_key(address@) && *c == self@[address@],
                None => !self@.contains_key(address@),
            },
    {
        self.clients.get(address)
    }

    /// Remove an address and hand back what was registered under it; an
    /// absent address is reported as `None`, distinct from any removal.
    pub fn remove(&mut self, address: &str) -> (r: Option<Client<T>>)
        requires
            old(self).wf(),
        ensures
            final(self).wf(),
            match r {
                Some(c) => old(self)@.contains_key(address@) && c == old(self)@[address@]
                    && final(self)@ == old(self)@.remove(address@),
                None => !old(self)@.contains_key(address@) && *final(self) == *old(self),
            },
    {
        let ghost prev = *self;
        let r = self.clients.remove(address);
        proof {
            if r is Some {
                assert forall|k: Seq<char>| #[trigger]
                    self.clients@.contains_key(k) implies self.clients@[k].wf() by {
                    assert(prev.clients@.contains_key(k));
                    assert(self.clients@[k] == prev.clients@[k]);
                }
            }
        }
        r
    }

    /// A snapshot of the registered addresses, in order, for iteration that
    /// holds no borrow of the registry itself.
    pub fn broadcast_targets(&self) -> (r: Vec<String>)
        ensures
            r@.len() == self.spec_addresses().len(),
            forall|i: int| 0 <= i < r@.len() ==> r@[i]@ == self.spec_addresses()[i],
    {
        let mut out: Vec<String> = Vec::new();
        let n = self.clients.len();
        let mut i: usize = 0;
        while i < n
            invariant
                n == self.spec_len(),
                i <= n,
                out@.len() == i,
                forall|j: int| 0 <= j < i ==> out@[j]@ == self.spec_addresses()[j],
            decreases n - i,
        {
            out.push(self.clients.key_at(i).clone());
            i += 1;
        }
        out
    }

    /// The snapshot is exact: an address is registered exactly when the
    /// snapshot holds it, and everything registered is a fully-formed client.
    pub proof fn lemma_snapshot_exact(&self)
        requires
            self.wf(),
        ensures
            forall|k: Seq<char>| #[trigger] self@.contains_key(k) <==> self.spec_addresses().contains(k),
            forall|k: Seq<char>| #[trigger] self@.contains_key(k) ==> self@[k].wf(),
    {
        assert forall|k: Seq<char>| #[trigger]
            self@.contains_key(k) implies self.spec_addresses().contains(k) by {
            self.clients.lemma_contains(k);
            let i = self.clients.spec_index_of(k);
            assert(self.spec_addresses()[i] == k);
        }
        assert forall|k: Seq<char>|
            self.spec_addresses().contains(k) implies #[trigger] self@.contains_key(k) by {
            let i = choose|i: int|
                0 <= i < self.spec_addresses().len() && self.spec_addresses()[i] == k;
            assert(self.clients.entries_seq()[i].0@ == k);
            self.clients.lemma_contains(k);
        }
    }
}

} // verus!
