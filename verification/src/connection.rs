//! One connection: a transport plus the stable peer address captured at
//! construction, and an open flag whose closing is idempotent.

use vstd::prelude::*;

verus! {

use crate::io::Error;
use crate::io::Read;
use crate::io::ReadOutcome;
use crate::io::SendStream;
use crate::io::classify_read;

/// A live connection. The address is fixed for the connection's lifetime;
/// only `close` clears the open flag, and closing twice is a no-op.
pub struct Connection<T> {
    pub transport: T,
    pub address: String,
    pub open: bool,
}

impl<T> Connection<T> {
    pub fn new(transport: T, address: String) -> (r: Self)
        ensures
            r.transport == transport,
            r.address == address,
            r.open,
    {
        Connection { transport, address, open: true }
    }

    /// The stable address captured at construction.
    pub fn address(&self) -> (r: &String)
        ensures
            r == &self.address,
    {
        &self.address
    }

    /// Mark the connection closed; idempotent.
    pub fn close(&mut self)
        ensures
            final(self).transport == old(self).transport,
            final(self).address == old(self).address,
            !final(self).open,
    {
        self.open = false;
    }
}

impl<T: Read> Connection<T> {
    /// Block for the next read and classify it; the transport alone decides
    /// the outcome, and the connection's identity is untouched.
    pub fn receive(&mut self) -> (o: ReadOutcome)
        ensures
            final(self).address == old(self).address,
            final(self).open == old(self).open,
    {
        classify_read(self.transport.read_stream())
    }
}

impl<T: SendStream> Connection<T> {
    /// Hand a full buffer to the transport; the transport alone decides
    /// success, and the connection's identity is untouched.
    pub fn send(&mut self, data: &Vec<u8>) -> (r: Result<(), Error>)
        ensures
            final(self).address == old(self).address,
            final(self).open == old(self).open,
    {
        self.transport.send_bytes(data)
    }
}

} // verus!
