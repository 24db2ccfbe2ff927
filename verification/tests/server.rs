use baka::codec::{decode, DecodeError, Envelope};
use baka::connection::Connection;
use baka::events::{EventName, Events};
use baka::io::{Error, Read, SendStream};
use baka::registry::Client;
use baka::server::{
    handle_connection, run_client_session, ClientHandler, FiredEvent, SendError, Server,
    ServerHandler,
};

/// A transport that records what it was asked to send, or refuses outright.
struct FakeSink {
    sent: Vec<Vec<u8>>,
    fail: bool,
}

impl SendStream for FakeSink {
    fn send_bytes(&mut self, data: &Vec<u8>) -> Result<(), Error> {
        if self.fail {
            Err(Error::new("write refused".to_string()))
        } else {
            self.sent.push(data.clone());
            Ok(())
        }
    }
}

/// A transport that replays a fixed script of reads, then reports the peer
/// as closed forever.
struct FakeSource {
    script: Vec<Result<(Vec<u8>, usize), Error>>,
}

impl Read for FakeSource {
    fn read_stream(&mut self) -> Result<(Vec<u8>, usize), Error> {
        if self.script.is_empty() {
            Ok((Vec::new(), 0))
        } else {
            self.script.remove(0)
        }
    }
}

fn sink_client(address: &str, fail: bool) -> Client<FakeSink> {
    Client::new(Connection::new(
        FakeSink { sent: Vec::new(), fail },
        address.to_string(),
    ))
}

#[test]
fn broadcast_reaches_every_client_despite_one_failure() {
    let mut server: Server<FakeSink> = Server::new("server:9".to_string());
    server.clients.insert("a:1".to_string(), sink_client("a:1", false));
    server.clients.insert("b:2".to_string(), sink_client("b:2", true));
    server.clients.insert("c:3".to_string(), sink_client("c:3", false));

    let results = server.broadcast(&b"all hands".to_vec());

    assert_eq!(results.len(), 3);
    assert_eq!(results[0].0, "a:1".to_string());
    assert_eq!(results[1].0, "b:2".to_string());
    assert_eq!(results[2].0, "c:3".to_string());
    assert!(results[0].1.is_ok());
    assert!(results[1].1.is_err());
    assert!(results[2].1.is_ok());

    for address in ["a:1", "c:3"] {
        let delivered = &server.clients.get(address).unwrap().conn.transport.sent;
        assert_eq!(delivered.len(), 1);
        let env = decode(&delivered[0]).unwrap();
        assert_eq!(env.author, b"server:9".to_vec());
        assert_eq!(env.content, b"all hands".to_vec());
    }
    assert!(server.clients.get("b:2").unwrap().conn.transport.sent.is_empty());
}

#[test]
fn unicast_to_unknown_address_is_distinct() {
    let mut server: Server<FakeSink> = Server::new("server:9".to_string());
    server.clients.insert("a:1".to_string(), sink_client("a:1", false));

    assert!(server.send("a:1", &b"hi".to_vec()).is_ok());
    match server.send("nobody:0", &b"hi".to_vec()) {
        Err(SendError::UnknownClient) => {}
        other => panic!("expected UnknownClient, got {:?}", other),
    }
}

#[test]
fn unicast_transport_failure_is_an_io_error() {
    let mut server: Server<FakeSink> = Server::new("server:9".to_string());
    server.clients.insert("a:1".to_string(), sink_client("a:1", true));
    match server.send("a:1", &b"hi".to_vec()) {
        Err(SendError::Io(e)) => assert_eq!(e.text(), &"write refused".to_string()),
        other => panic!("expected Io, got {:?}", other),
    }
}

#[test]
fn closing_a_connection_is_idempotent() {
    let mut conn = Connection::new(FakeSink { sent: Vec::new(), fail: false }, "x:1".to_string());
    assert!(conn.open);
    conn.close();
    assert!(!conn.open);
    conn.close();
    assert!(!conn.open);
    assert_eq!(conn.address(), &"x:1".to_string());
}

/// A handler that counts what it was shown.
struct Counter {
    connects: usize,
    disconnects: usize,
    messages: Vec<Result<Envelope, DecodeError>>,
}

impl Counter {
    fn new() -> Self {
        Counter { connects: 0, disconnects: 0, messages: Vec::new() }
    }
}

impl ServerHandler<FakeSink> for Counter {
    fn on_client_connect(
        &mut self,
        _server: &mut Server<FakeSink>,
        _address: &String,
        _message: Result<Envelope, DecodeError>,
    ) {
        self.connects += 1;
    }

    fn on_client_disconnect(
        &mut self,
        _server: &mut Server<FakeSink>,
        _address: &String,
        _message: Result<Envelope, DecodeError>,
    ) {
        self.disconnects += 1;
    }

    fn on_message(
        &mut self,
        _server: &mut Server<FakeSink>,
        _address: &String,
        message: Result<Envelope, DecodeError>,
    ) {
        self.messages.push(message);
    }
}

#[test]
fn empty_read_disconnects_exactly_once_and_removes_the_entry() {
    let mut server: Server<FakeSink> = Server::new("server:9".to_string());
    let envelope = baka::codec::encode(&b"peer".to_vec(), &b"one".to_vec());
    // one envelope, then an orderly close, then (never reached) more data
    let mut conn = Connection::new(
        FakeSource {
            script: vec![
                Ok((envelope.clone(), envelope.len())),
                Ok((Vec::new(), 0)),
                Ok((b"late".to_vec(), 4)),
            ],
        },
        "peer:7".to_string(),
    );
    let mut handler = Counter::new();

    let trace = handle_connection(
        &mut server,
        &mut conn,
        sink_client("peer:7", false),
        &mut handler,
        usize::MAX,
    );

    assert_eq!(
        trace,
        vec![FiredEvent::Connected, FiredEvent::Delivered, FiredEvent::Disconnected]
    );
    assert_eq!(handler.connects, 1);
    assert_eq!(handler.disconnects, 1);
    assert_eq!(handler.messages.len(), 1);
    let env = handler.messages[0].as_ref().unwrap();
    assert_eq!(env.author, b"peer".to_vec());
    assert_eq!(env.content, b"one".to_vec());
    assert!(server.clients.get("peer:7").is_none());
}

#[test]
fn read_error_also_disconnects_once() {
    let mut server: Server<FakeSink> = Server::new("server:9".to_string());
    let mut conn = Connection::new(
        FakeSource { script: vec![Err(Error::new("reset".to_string()))] },
        "peer:8".to_string(),
    );
    let mut handler = Counter::new();
    let trace = handle_connection(
        &mut server,
        &mut conn,
        sink_client("peer:8", false),
        &mut handler,
        usize::MAX,
    );
    assert_eq!(trace, vec![FiredEvent::Connected, FiredEvent::Disconnected]);
    assert_eq!(handler.disconnects, 1);
    assert!(server.clients.get("peer:8").is_none());
}

#[test]
fn undecodable_bytes_are_reported_not_dropped() {
    let mut server: Server<FakeSink> = Server::new("server:9".to_string());
    let mut conn = Connection::new(
        FakeSource { script: vec![Ok((b"garbage".to_vec(), 7))] },
        "peer:6".to_string(),
    );
    let mut handler = Counter::new();
    handle_connection(
        &mut server,
        &mut conn,
        sink_client("peer:6", false),
        &mut handler,
        usize::MAX,
    );
    assert_eq!(handler.messages.len(), 1);
    assert!(handler.messages[0].is_err());
}

struct ClientCounter {
    connects: usize,
    disconnects: usize,
    messages: usize,
}

impl ClientHandler<FakeSource> for ClientCounter {
    fn on_connect(
        &mut self,
        _conn: &mut Connection<FakeSource>,
        _message: Result<Envelope, DecodeError>,
    ) {
        self.connects += 1;
    }

    fn on_disconnect(
        &mut self,
        _conn: &mut Connection<FakeSource>,
        _message: Result<Envelope, DecodeError>,
    ) {
        self.disconnects += 1;
    }

    fn on_message(
        &mut self,
        _conn: &mut Connection<FakeSource>,
        _message: Result<Envelope, DecodeError>,
    ) {
        self.messages += 1;
    }
}

#[test]
fn standalone_session_mirrors_the_server_side() {
    let one = baka::codec::encode(&b"s".to_vec(), &b"m1".to_vec());
    let two = baka::codec::encode(&b"s".to_vec(), &b"m2".to_vec());
    let mut conn = Connection::new(
        FakeSource {
            script: vec![
                Ok((one.clone(), one.len())),
                Ok((two.clone(), two.len())),
                Ok((Vec::new(), 0)),
            ],
        },
        "client:1".to_string(),
    );
    let mut handler = ClientCounter { connects: 0, disconnects: 0, messages: 0 };
    let trace = run_client_session(&mut conn, &mut handler, usize::MAX);
    assert_eq!(
        trace,
        vec![
            FiredEvent::Connected,
            FiredEvent::Delivered,
            FiredEvent::Delivered,
            FiredEvent::Disconnected,
        ]
    );
    assert_eq!(handler.connects, 1);
    assert_eq!(handler.messages, 2);
    assert_eq!(handler.disconnects, 1);
}

#[test]
fn event_registration_first_wins() {
    let mut events: Events<i32> = Events::new();
    assert!(events.register(EventName::OnMessage, 1));
    assert!(!events.register(EventName::OnMessage, 2));
    assert_eq!(events.slot(EventName::OnMessage), &Some(1));
    assert_eq!(events.slot(EventName::OnConnect), &None);
    assert!(events.register(EventName::OnClientConnect, 3));
    assert!(events.register(EventName::OnClientDisconnect, 4));
    assert!(events.register(EventName::OnConnect, 5));
    assert_eq!(events.slot(EventName::OnMessage), &Some(1));
}
