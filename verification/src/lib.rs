//! A minimal framed-messaging layer: a byte-level envelope codec, a command
//! parser, a client registry with string-keyed metadata, and the session state
//! machine that dispatches connect / message / disconnect events for a
//! framed-messaging server and its standalone clients.

pub mod codec;
pub mod command;
pub mod connection;
pub mod events;
pub mod extensions;
pub mod io;
pub mod kvlist;
pub mod lagerung;
pub mod registry;
pub mod server;
pub mod session;
