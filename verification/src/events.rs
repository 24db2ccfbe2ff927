//! The event dispatch table: a closed set of four event names, each bound to
//! at most one callback. The first registration for a name wins; later ones
//! are ignored.

use vstd::prelude::*;

verus! {

/// The closed set of event names.
#[derive(Clone, Copy, PartialEq, Eq, Structural, Debug)]
pub enum EventName {
    /// A standalone client finished connecting.
    OnConnect,
    /// A server-side connection finished registering.
    OnClientConnect,
    /// A server-side connection saw a close or a failure.
    OnClientDisconnect,
    /// A decoded (or undecodable) envelope arrived.
    OnMessage,
}

/// The typed dispatch table: one optional callback per event name.
pub struct Events<C> {
    pub on_connect: Option<C>,
    pub on_client_connect: Option<C>,
    pub on_client_disconnect: Option<C>,
    pub on_message: Option<C>,
}

impl<C> Events<C> {
    pub open spec fn spec_slot(&self, name: EventName) -> Option<C> {
        match name {
            EventName::OnConnect => self.on_connect,
            EventName::OnClientConnect => self.on_client_connect,
            EventName::OnClientDisconnect => self.on_client_disconnect,
            EventName::OnMessage => self.on_message,
        }
    }

    /// A table with nothing bound.
    pub fn new() -> (r: Self)
        ensures
            forall|n: EventName| r.spec_slot(n) is None,
    {
        Events { on_connect: None, on_client_connect: None, on_client_disconnect: None, on_message: None }
    }

    /// Bind a callback to a name; report whether the binding took. A name
    /// already bound keeps its first callback, untouched.
    pub fn register(&mut self, name: EventName, callback: C) -> (r: bool)
        ensures
            r == (old(self).spec_slot(name) is None),
            r ==> final(self).spec_slot(name) == Some(callback),
            r ==> forall|n: EventName| n != name ==> final(self).spec_slot(n)
                == old(self).spec_slot(n),
            !r ==> *final(self) == *old(self),
    {
        match name {
            EventName::OnConnect => {
                if self.on_connect.is_none() {
                    self.on_connect = Some(callback);
                    true
                } else {
                    false
                }
            },
            EventName::OnClientConnect => {
                if self.on_client_connect.is_none() {
                    self.on_client_connect = Some(callback);
                    true
                } else {
                    false
                }
            },
            EventName::OnClientDisconnect => {
                if self.on_client_disconnect.is_none() {
                    self.on_client_disconnect = Some(callback);
                    true
                } else {
                    false
                }
            },
            EventName::OnMessage => {
                if self.on_message.is_none() {
                    self.on_message = Some(callback);
                    true
                } else {
                    false
                }
            },
        }
    }

    /// A borrow of the callback bound to a name.
    pub fn slot(&self, name: EventName) -> (r: &Option<C>)
        ensures
            *r == self.spec_slot(name),
    {
        match name {
            EventName::OnConnect => &self.on_connect,
            EventName::OnClientConnect => &self.on_client_connect,
            EventName::OnClientDisconnect => &self.on_client_disconnect,
            EventName::OnMessage => &self.on_message,
        }
    }
}

} // verus!
