use baka::connection::Connection;
use baka::lagerung::Lagerung;
use baka::registry::{Client, Registry};

// The registry is generic over the transport; these tests need none.
#[derive(PartialEq, Debug)]
struct NoTransport;

fn client(address: &str) -> Client<NoTransport> {
    Client::new(Connection::new(NoTransport, address.to_string()))
}

#[test]
fn insert_reports_whether_it_happened() {
    let mut reg: Registry<NoTransport> = Registry::new();
    assert!(reg.insert("1.1.1.1:1".to_string(), client("1.1.1.1:1")));
    assert!(!reg.insert("1.1.1.1:1".to_string(), client("1.1.1.1:1")));
    assert_eq!(reg.len(), 1);
}

#[test]
fn second_insert_keeps_first_client_data() {
    let mut reg: Registry<NoTransport> = Registry::new();
    let mut first = client("2.2.2.2:2");
    first.add_flag("name", "alice");
    assert!(reg.insert("2.2.2.2:2".to_string(), first));

    let mut second = client("2.2.2.2:2");
    second.add_flag("name", "mallory");
    second.add_flag("sneaky", "yes");
    assert!(!reg.insert("2.2.2.2:2".to_string(), second));

    let kept = reg.get("2.2.2.2:2").unwrap();
    assert_eq!(kept.flags.get("name"), Some(&"alice".to_string()));
    assert_eq!(kept.flags.get("sneaky"), None);
}

#[test]
fn removal_reports_what_was_removed() {
    let mut reg: Registry<NoTransport> = Registry::new();
    assert!(reg.remove("absent:0").is_none());
    reg.insert("3.3.3.3:3".to_string(), client("3.3.3.3:3"));
    let removed = reg.remove("3.3.3.3:3");
    assert!(removed.is_some());
    assert_eq!(removed.unwrap().conn.address, "3.3.3.3:3".to_string());
    // removing again is "not found", not another removal
    assert!(reg.remove("3.3.3.3:3").is_none());
}

#[test]
fn broadcast_targets_snapshots_every_entry_in_order() {
    let mut reg: Registry<NoTransport> = Registry::new();
    reg.insert("a:1".to_string(), client("a:1"));
    reg.insert("b:2".to_string(), client("b:2"));
    reg.insert("c:3".to_string(), client("c:3"));
    let snapshot = reg.broadcast_targets();
    assert_eq!(snapshot, vec!["a:1".to_string(), "b:2".to_string(), "c:3".to_string()]);
}

#[test]
fn client_flags() {
    let mut c = client("4.4.4.4:4");
    assert!(!c.has_flag("auth"));
    c.add_flag("auth", "yes");
    assert!(c.has_flag("auth"));
    assert!(c.remove_flag("auth"));
    assert!(!c.has_flag("auth"));
    assert!(!c.remove_flag("auth"));
}

#[test]
fn lagerung_store() {
    let mut store = Lagerung::new();
    assert!(!store.has("k"));
    store.add("k", "v1");
    assert!(store.has("k"));
    store.add("k", "v2");
    assert!(store.has("k"));
    store.remove("k");
    assert!(!store.has("k"));
    store.remove("k");
    assert!(!store.has("k"));
}
