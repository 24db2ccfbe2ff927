//! The transport interface: the error type carried by transport failures, the
//! read and send traits that a transport implements, and the classification
//! of a raw read into data, orderly peer close, or failure.

use vstd::prelude::*;

verus! {

/// A transport failure, carrying a human-readable description.
#[derive(Debug, Clone, PartialEq, Eq)]
pub struct Error {
    pub message: String,
}

impl Error {
    pub fn new(message: String) -> (r: Self)
        ensures
            r.message == message,
    {
        Error { message }
    }

    /// The description of the failure.
    pub fn text(&self) -> (r: &String)
        ensures
            r == &self.message,
    {
        &self.message
    }
}

/// A source of incoming bytes. Implementors block until data, peer close, or
/// failure; a successful read of zero bytes means the peer closed in an
/// orderly fashion.
pub trait Read {
    fn read_stream(&mut self) -> Result<(Vec<u8>, usize), Error>;
}

/// A sink of outgoing bytes. Implementors either accept the whole buffer or
/// report a failure; a partial write is a failure, never a silent truncation.
pub trait SendStream {
    fn send_bytes(&mut self, data: &Vec<u8>) -> Result<(), Error>;
}

/// What one completed read means to the session.
pub enum ReadOutcome {
    /// At least one byte arrived.
    Data(Vec<u8>),
    /// The peer shut down in an orderly fashion.
    Closed,
    /// The transport failed.
    Failed(Error),
}

/// Classify a raw read result: an empty success is an orderly peer close,
/// distinct from a failure; a non-empty success carries the bytes through
/// unchanged.
pub fn classify_read(r: Result<(Vec<u8>, usize), Error>) -> (o: ReadOutcome)
    ensures
        match r {
            Ok(p) => if p.0@.len() == 0 {
                o is Closed
            } else {
                o == ReadOutcome::Data(p.0)
            },
            Err(e) => o == ReadOutcome::Failed(e),
        },
{
    match r {
        Ok((buf, _len)) => {
            if buf.len() == 0 {
                ReadOutcome::Closed
            } else {
                ReadOutcome::Data(buf)
            }
        },
        Err(e) => ReadOutcome::Failed(e),
    }
}

} // verus!
