//! The server core: the registry owner, broadcast and unicast sends, the
//! handler interfaces that application code implements, and the verified
//! per-connection driver that walks the session lifecycle.

use vstd::prelude::*;

verus! {

use vstd::slice::slice_to_vec;
use crate::codec::BakaMessage;
use crate::codec::DecodeError;
use crate::codec::Envelope;
use crate::codec::decode;
use crate::codec::lifecycle_note;
use crate::connection::Connection;
use crate::io::Error;
use crate::io::Read;
use crate::io::SendStream;
use crate::registry::Client;
use crate::registry::Registry;
use crate::session::SessionAction;
use crate::session::SessionState;
use crate::session::session_step;

/// The server: its own address, and the registry of connected peers.
pub struct Server<T> {
    pub address: String,
    pub clients: Registry<T>,
}

/// Why a unicast send failed.
#[derive(Debug)]
pub enum SendError {
    /// The address is not registered.
    UnknownClient,
    /// The transport refused the bytes.
    Io(Error),
}

impl<T> Server<T> {
    pub open spec fn wf(&self) -> bool {
        self.clients.wf()
    }

    /// A server for an address, with no clients yet. Binding the listening
    /// socket itself is the embedding application's step.
    pub fn new(address: String) -> (r: Self)
        ensures
            r.address == address,
            r.clients@ == Map::<Seq<char>, Client<T>>::empty(),
            r.wf(),
    {
        Server { address, clients: Registry::new() }
    }
}

impl<T: SendStream> Server<T> {
    /// Send one envelope, authored by the server, to every registered
    /// client, in registration order. Every client is attempted: a refusal
    /// by one transport never stops delivery to the rest, and each client's
    /// own outcome is reported beside its address.
    pub fn broadcast(&mut self, data: &Vec<u8>) -> (r: Vec<(String, Result<(), Error>)>)
        requires
            old(self).wf(),
        ensures
            final(self).wf(),
            final(self).address == old(self).address,
            final(self).clients.spec_addresses() == old(self).clients.spec_addresses(),
            r@.len() == old(self).clients.spec_len(),
            forall|i: int|
                0 <= i < r@.len() ==> r@[i].0@ == old(self).clients.spec_addresses()[i],
            forall|k: Seq<char>| #[trigger] old(self).clients@.contains_key(k)
                ==> final(self).clients@.contains_key(k) && final(self).clients@[k].flags
                == old(self).clients@[k].flags && final(self).clients@[k].conn.address
                == old(self).clients@[k].conn.address && final(self).clients@[k].conn.open
                == old(self).clients@[k].conn.open,
    {
        let payload = BakaMessage {
            author: self.address.clone(),
            content: slice_to_vec(data.as_slice()),
        }.build();
        let mut results: Vec<(String, Result<(), Error>)> = Vec::new();
        let n = self.clients.len();
        let mut i: usize = 0;
        while i < n
            invariant
                self.wf(),
                n == self.clients.spec_len(),
                self.clients.spec_addresses() == old(self).clients.spec_addresses(),
                self.address == old(self).address,
                i <= n,
                results@.len() == i,
                forall|j: int|
                    0 <= j < i ==> results@[j].0@ == old(self).clients.spec_addresses()[j],
                forall|k: Seq<char>| #[trigger] old(self).clients@.contains_key(k)
                    ==> self.clients@.contains_key(k) && self.clients@[k].flags
                    == old(self).clients@[k].flags && self.clients@[k].conn.address
                    == old(self).clients@[k].conn.address && self.clients@[k].conn.open
                    == old(self).clients@[k].conn.open,
            decreases n - i,
        {
            let address = self.clients.clients.key_at(i).clone();
            let ghost prev = *self;
            let client = self.clients.clients.value_at_mut(i);
            let res = client.conn.send(&payload);
            proof {
                prev.clients.clients.lemma_entry_at(i as int);
                self.clients.clients.lemma_after_add(prev.clients.clients, i as int);
                assert(self.clients.clients.spec_keys() =~= prev.clients.clients.spec_keys());
                let k = self.clients.clients.entries_seq()[i as int].0@;
                assert forall|k2: Seq<char>| #[trigger]
                    self.clients.clients@.contains_key(k2) implies self.clients.clients@[k2].wf() by {
                    if k2 != k {
                        assert(prev.clients.clients@.contains_key(k2));
                    }
                }
                assert(self.clients@[k].flags == prev.clients@[k].flags);
                assert(self.clients@[k].conn.address == prev.clients@[k].conn.address);
                assert(self.clients@[k].conn.open == prev.clients@[k].conn.open);
                assert forall|k2: Seq<char>| #[trigger]
                    prev.clients@.contains_key(k2) implies self.clients@.contains_key(k2)
                    && self.clients@[k2].flags == prev.clients@[k2].flags
                    && self.clients@[k2].conn.address == prev.clients@[k2].conn.address
                    && self.clients@[k2].conn.open == prev.clients@[k2].conn.open by {
                    if k2 != k {
                        assert(self.clients@[k2] == prev.clients@[k2]);
                    }
                }
            }
            results.push((address, res));
            i += 1;
        }
        results
    }

    /// Unicast to one registered address; an unregistered address is
    /// reported as `UnknownClient`, and only that case.
    pub fn send(&mut self, name: &str, data: &Vec<u8>) -> (r: Result<(), SendError>)
        requires
            old(self).wf(),
        ensures
            final(self).wf(),
            final(self).address == old(self).address,
            final(self).clients.spec_addresses() == old(self).clients.spec_addresses(),
            (r matches Err(SendError::UnknownClient)) <==> !old(self).clients@.contains_key(
                name@,
            ),
            forall|k: Seq<char>| #[trigger] old(self).clients@.contains_key(k)
                ==> final(self).clients@.contains_key(k) && final(self).clients@[k].flags
                == old(self).clients@[k].flags && final(self).clients@[k].conn.address
                == old(self).clients@[k].conn.address && final(self).clients@[k].conn.open
                == old(self).clients@[k].conn.open,
    {
        proof {
            self.clients.clients.lemma_contains(name@);
        }
        match self.clients.clients.index_of(name) {
            Some(i) => {
                let payload = BakaMessage {
                    author: self.address.clone(),
                    content: slice_to_vec(data.as_slice()),
                }.build();
                let ghost prev = *self;
                let client = self.clients.clients.value_at_mut(i);
                let res = client.conn.send(&payload);
                proof {
                    prev.clients.clients.lemma_entry_at(i as int);
                    self.clients.clients.lemma_after_add(prev.clients.clients, i as int);
                    assert(self.clients.clients.spec_keys()
                        =~= prev.clients.clients.spec_keys());
                    let k = self.clients.clients.entries_seq()[i as int].0@;
                    assert forall|k2: Seq<char>| #[trigger]
                        self.clients.clients@.contains_key(k2) implies self.clients.clients@[k2].wf() by {
                        if k2 != k {
                            assert(prev.clients.clients@.contains_key(k2));
                        }
                    }
                    assert(self.clients@[k].flags == prev.clients@[k].flags);
                    assert(self.clients@[k].conn.address == prev.clients@[k].conn.address);
                    assert(self.clients@[k].conn.open == prev.clients@[k].conn.open);
                    assert forall|k2: Seq<char>| #[trigger]
                        prev.clients@.contains_key(k2) implies self.clients@.contains_key(k2)
                        && self.clients@[k2].flags == prev.clients@[k2].flags
                        && self.clients@[k2].conn.address == prev.clients@[k2].conn.address
                        && self.clients@[k2].conn.open == prev.clients@[k2].conn.open by {
                        if k2 != k {
                            assert(self.clients@[k2] == prev.clients@[k2]);
                        }
                    }
                }
                match res {
                    Ok(_) => Ok(()),
                    Err(e) => Err(SendError::Io(e)),
                }
            },
            None => Err(SendError::UnknownClient),
        }
    }
}

/// What application code supplies to a server: one method per server-side
/// event. The driver hands each method the server, the peer's address, and
/// the decoded envelope (or the decode failure, which is reported rather
/// than dropped). Implementations must leave the server well-formed, which
/// every public server and registry operation does.
pub trait ServerHandler<T> {
    fn on_client_connect(
        &mut self,
        server: &mut Server<T>,
        address: &String,
        message: Result<Envelope, DecodeError>,
    )
        requires
            old(server).wf(),
        ensures
            final(server).wf(),
    ;

    fn on_client_disconnect(
        &mut self,
        server: &mut Server<T>,
        address: &String,
        message: Result<Envelope, DecodeError>,
    )
        requires
            old(server).wf(),
        ensures
            final(server).wf(),
    ;

    fn on_message(
        &mut self,
        server: &mut Server<T>,
        address: &String,
        message: Result<Envelope, DecodeError>,
    )
        requires
            old(server).wf(),
        ensures
            final(server).wf(),
    ;
}

/// What application code supplies to a standalone client session: one
/// method per client-side event.
pub trait ClientHandler<T> {
    fn on_connect(&mut self, conn: &mut Connection<T>, message: Result<Envelope, DecodeError>);

    fn on_disconnect(
        &mut self,
        conn: &mut Connection<T>,
        message: Result<Envelope, DecodeError>,
    );

    fn on_message(&mut self, conn: &mut Connection<T>, message: Result<Envelope, DecodeError>);
}

/// The events a driver fired, in order.
#[derive(Clone, Copy, PartialEq, Eq, Structural, Debug)]
pub enum FiredEvent {
    /// The connect event.
    Connected,
    /// One message event.
    Delivered,
    /// The disconnect event.
    Disconnected,
}

/// Drive one server-side connection from registration to removal: register
/// the client (a taken address keeps its first entry), fire the connect
/// event, deliver each read as a message event, and on close or failure fire
/// the disconnect event exactly once, then delete the registry entry. At
/// most `read_budget` envelopes are delivered; a caller wanting an unbounded
/// session passes `usize::MAX`, and an exhausted budget winds the session
/// down exactly as an orderly peer close does. The returned trace lists the
/// events in order: one connect, then messages only, then one final
/// disconnect.
pub fn handle_connection<R: Read, T, H: ServerHandler<T>>(
    server: &mut Server<T>,
    conn: &mut Connection<R>,
    client: Client<T>,
    handler: &mut H,
    read_budget: usize,
) -> (trace: Vec<FiredEvent>)
    requires
        old(server).wf(),
        client.wf(),
    ensures
        final(server).wf(),
        !final(server).clients@.contains_key(old(conn).address@),
        trace@.len() >= 2,
        trace@[0] == FiredEvent::Connected,
        trace@[trace@.len() - 1] == FiredEvent::Disconnected,
        forall|i: int| 0 < i < trace@.len() - 1 ==> trace@[i] == FiredEvent::Delivered,
{
    let address = conn.address().clone();
    let _registered = server.clients.insert(address.clone(), client);
    let mut trace: Vec<FiredEvent> = Vec::new();
    handler.on_client_connect(server, &address, Ok(lifecycle_note(&address, "connected")));
    trace.push(FiredEvent::Connected);
    let mut state = SessionState::Active;
    let mut reads: usize = 0;
    while reads < read_budget
        invariant_except_break
            state == SessionState::Active,
        invariant
            server.wf(),
            conn.address@ == old(conn).address@,
            reads <= read_budget,
            trace@.len() >= 1,
            trace@[0] == FiredEvent::Connected,
            forall|i: int| 0 < i < trace@.len() ==> trace@[i] == FiredEvent::Delivered,
        ensures
            server.wf(),
            conn.address@ == old(conn).address@,
            trace@.len() >= 1,
            trace@[0] == FiredEvent::Connected,
            forall|i: int| 0 < i < trace@.len() ==> trace@[i] == FiredEvent::Delivered,
        decreases read_budget - reads,
    {
        reads += 1;
        let outcome = conn.receive();
        let step = session_step(state, outcome);
        state = step.0;
        match step.1 {
            SessionAction::FireMessage(buf) => {
                let message = decode(&buf);
                handler.on_message(server, &address, message);
                trace.push(FiredEvent::Delivered);
            },
            SessionAction::FireDisconnect => {
                break;
            },
            SessionAction::RemoveEntry => {
                proof {
                    assert(false);
                }
                break;
            },
            SessionAction::Idle => {
                proof {
                    assert(false);
                }
                break;
            },
        }
    }
    handler.on_client_disconnect(server, &address, Ok(lifecycle_note(&address, "disconnected")));
    trace.push(FiredEvent::Disconnected);
    let _removed = server.clients.remove(address.as_str());
    trace
}

/// Drive one standalone client session: fire the connect event, deliver
/// each read as a message event, and on close or failure fire the
/// disconnect event exactly once and stop. At most `read_budget` envelopes
/// are delivered; a caller wanting an unbounded session passes `usize::MAX`,
/// and an exhausted budget winds the session down exactly as an orderly peer
/// close does. The returned trace lists the events in order: one connect,
/// then messages only, then one final disconnect.
pub fn run_client_session<T: Read, H: ClientHandler<T>>(
    conn: &mut Connection<T>,
    handler: &mut H,
    read_budget: usize,
) -> (trace: Vec<FiredEvent>)
    ensures
        trace@.len() >= 2,
        trace@[0] == FiredEvent::Connected,
        trace@[trace@.len() - 1] == FiredEvent::Disconnected,
        forall|i: int| 0 < i < trace@.len() - 1 ==> trace@[i] == FiredEvent::Delivered,
{
    let address = conn.address().clone();
    let mut trace: Vec<FiredEvent> = Vec::new();
    handler.on_connect(conn, Ok(lifecycle_note(&address, "connected")));
    trace.push(FiredEvent::Connected);
    let mut state = SessionState::Active;
    let mut reads: usize = 0;
    while reads < read_budget
        invariant_except_break
            state == SessionState::Active,
        invariant
            reads <= read_budget,
            trace@.len() >= 1,
            trace@[0] == FiredEvent::Connected,
            forall|i: int| 0 < i < trace@.len() ==> trace@[i] == FiredEvent::Delivered,
        ensures
            trace@.len() >= 1,
            trace@[0] == FiredEvent::Connected,
            forall|i: int| 0 < i < trace@.len() ==> trace@[i] == FiredEvent::Delivered,
        decreases read_budget - reads,
    {
        reads += 1;
        let outcome = conn.receive();
        let step = session_step(state, outcome);
        state = step.0;
        match step.1 {
            SessionAction::FireMessage(buf) => {
                let message = decode(&buf);
                handler.on_message(conn, message);
                trace.push(FiredEvent::Delivered);
            },
            SessionAction::FireDisconnect => {
                break;
            },
            SessionAction::RemoveEntry => {
                proof {
                    assert(false);
                }
                break;
            },
            SessionAction::Idle => {
                proof {
                    assert(false);
                }
                break;
            },
        }
    }
    handler.on_disconnect(conn, Ok(lifecycle_note(&address, "disconnected")));
    trace.push(FiredEvent::Disconnected);
    trace
}

} // verus!
