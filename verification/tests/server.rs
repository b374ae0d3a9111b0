use chat::message::{ChatLibError, Message};
use chat::server::{after_read, Event, EventKind, PeerAddr, Registry, SendJob, StoredData};

fn peer(n: u32) -> PeerAddr {
    PeerAddr::V4 { ip: 0x7F00_0001, port: 4000 + n as u16 }
}

fn connected(names: &[(u32, &str)]) -> Registry<String> {
    let mut registry = Registry::new();
    for (n, handle) in names {
        let jobs = registry.dispatch(StoredData {
            address: peer(*n),
            stream: handle.to_string(),
            event: Event::Connected,
        });
        assert!(jobs.is_empty());
    }
    registry
}

#[test]
fn new_registry_is_empty() {
    let registry: Registry<u8> = Registry::new();
    assert_eq!(registry.len(), 0);
    assert!(!registry.contains(peer(1)));
    assert_eq!(registry.get(peer(1)), None);
}

#[test]
fn broadcast_goes_to_the_others_once_each() {
    let mut registry = connected(&[(1, "a"), (2, "b"), (3, "c")]);
    let jobs = registry.dispatch(StoredData {
        address: peer(1),
        stream: "a".to_string(),
        event: Event::Message(Message::Text("hello".to_string())),
    });
    assert_eq!(
        jobs,
        vec![
            SendJob {
                recipient: peer(2),
                stream: "b".to_string(),
                message: Message::Text("hello".to_string())
            },
            SendJob {
                recipient: peer(3),
                stream: "c".to_string(),
                message: Message::Text("hello".to_string())
            },
        ]
    );
    assert_eq!(jobs.iter().filter(|job| job.recipient == peer(1)).count(), 0);
    assert_eq!(jobs.iter().filter(|job| job.recipient == peer(2)).count(), 1);
    assert_eq!(jobs.iter().filter(|job| job.recipient == peer(3)).count(), 1);
    assert_eq!(registry.len(), 3);
}

#[test]
fn broadcast_from_a_stranger_goes_to_all() {
    let registry = connected(&[(1, "a"), (2, "b")]);
    let jobs = registry.broadcast(peer(9), &Message::Image(vec![1]));
    let recipients: Vec<PeerAddr> = jobs.iter().map(|job| job.recipient).collect();
    assert_eq!(recipients, vec![peer(1), peer(2)]);
}

#[test]
fn lone_client_hears_nothing_of_itself() {
    let mut registry = connected(&[(1, "a")]);
    let jobs = registry.dispatch(StoredData {
        address: peer(1),
        stream: "a".to_string(),
        event: Event::Message(Message::Text("echo?".to_string())),
    });
    assert!(jobs.is_empty());
}

#[test]
fn failed_read_ends_the_connection() {
    assert_eq!(after_read(Err(ChatLibError::ReadError)), (Event::Disconnected, true));
    assert_eq!(after_read(Err(ChatLibError::ComposeError)), (Event::Disconnected, true));
    assert_eq!(after_read(Err(ChatLibError::SendError)), (Event::Disconnected, true));
}

#[test]
fn read_message_is_passed_on() {
    assert_eq!(
        after_read(Ok(Message::Text("x".to_string()))),
        (Event::Message(Message::Text("x".to_string())), false)
    );
}

#[test]
fn disconnected_client_is_forgotten() {
    let mut registry = connected(&[(1, "a"), (2, "b"), (3, "c")]);
    let (event, done) = after_read(Err(ChatLibError::ReadError));
    assert!(done);
    let jobs = registry.dispatch(StoredData { address: peer(2), stream: "b".to_string(), event });
    assert!(jobs.is_empty());
    assert!(!registry.contains(peer(2)));
    assert_eq!(registry.len(), 2);
    let later = registry.dispatch(StoredData {
        address: peer(1),
        stream: "a".to_string(),
        event: Event::Message(Message::Text("anyone?".to_string())),
    });
    let recipients: Vec<PeerAddr> = later.iter().map(|job| job.recipient).collect();
    assert_eq!(recipients, vec![peer(3)]);
}

#[test]
fn disconnecting_twice_changes_nothing_more() {
    let mut registry = connected(&[(1, "a"), (2, "b")]);
    assert_eq!(registry.remove(peer(1)), Some("a".to_string()));
    assert_eq!(registry.remove(peer(1)), None);
    let jobs = registry.dispatch(StoredData {
        address: peer(1),
        stream: "a".to_string(),
        event: Event::Disconnected,
    });
    assert!(jobs.is_empty());
    assert_eq!(registry.len(), 1);
    assert!(registry.contains(peer(2)));
}

#[test]
fn reconnecting_replaces_the_stream() {
    let mut registry = connected(&[(1, "old"), (2, "b")]);
    assert_eq!(registry.insert(peer(1), "new".to_string()), Some("old".to_string()));
    assert_eq!(registry.len(), 2);
    assert_eq!(registry.get(peer(1)), Some(&"new".to_string()));
    let jobs = registry.broadcast(peer(2), &Message::Text("t".to_string()));
    assert_eq!(jobs.len(), 1);
    assert_eq!(jobs[0].stream, "new");
}

#[test]
fn client_error_is_told_to_the_client_alone() {
    let mut registry = connected(&[(1, "a"), (2, "b")]);
    let jobs = registry.dispatch(StoredData {
        address: peer(1),
        stream: "a2".to_string(),
        event: Event::ClientError("Cannot compose the message".to_string()),
    });
    assert_eq!(
        jobs,
        vec![SendJob {
            recipient: peer(1),
            stream: "a2".to_string(),
            message: Message::Text(
                "You caused an error on server Cannot compose the message".to_string()
            ),
        }]
    );
    assert_eq!(registry.len(), 2);
}

#[test]
fn addresses_differ_by_every_part() {
    let a = PeerAddr::V4 { ip: 1, port: 2 };
    let b = PeerAddr::V4 { ip: 1, port: 3 };
    let c = PeerAddr::V6 { ip: 1, port: 2, flowinfo: 0, scope_id: 0 };
    let d = PeerAddr::V6 { ip: 1, port: 2, flowinfo: 0, scope_id: 1 };
    let mut registry = Registry::new();
    for (i, address) in [a, b, c, d].iter().enumerate() {
        assert_eq!(registry.insert(*address, i), None);
    }
    assert_eq!(registry.len(), 4);
    assert_eq!(registry.get(c), Some(&2));
}

#[test]
fn events_have_their_kinds() {
    assert_eq!(Event::Connected.kind(), EventKind::Connected);
    assert_eq!(Event::Disconnected.kind(), EventKind::Disconnected);
    assert_eq!(Event::Message(Message::Image(vec![])).kind(), EventKind::Message);
    assert_eq!(Event::ClientError(String::new()).kind(), EventKind::ClientError);
}
