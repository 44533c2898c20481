use futures::channel::mpsc::unbounded;
use wormhole::StreamMessage;
use wormhole::codec::StreamId;
use wormhole::registry::Registry;

#[test]
fn new_registry_is_empty() {
    let reg = Registry::new();
    assert_eq!(reg.len(), 0);
    assert!(reg.lookup(StreamId { raw: 7 }).is_none());
}

#[test]
fn insert_then_lookup_returns_the_registered_sender() {
    let mut reg = Registry::new();
    let (tx, mut rx) = unbounded::<StreamMessage>();
    assert!(reg.insert_if_absent(StreamId { raw: 7 }, tx));
    assert_eq!(reg.len(), 1);

    let live = reg.lookup(StreamId { raw: 7 }).expect("entry must be live");
    live.unbounded_send(StreamMessage::Data(vec![1, 2, 3])).expect("receiver is alive");
    match rx.try_next().unwrap().unwrap() {
        StreamMessage::Data(d) => assert_eq!(d, vec![1, 2, 3]),
        StreamMessage::Close => panic!("expected data"),
    }
}

#[test]
fn second_insert_for_same_id_is_refused() {
    let mut reg = Registry::new();
    let (tx1, mut rx1) = unbounded::<StreamMessage>();
    let (tx2, _rx2) = unbounded::<StreamMessage>();
    assert!(reg.insert_if_absent(StreamId { raw: 9 }, tx1));
    assert!(!reg.insert_if_absent(StreamId { raw: 9 }, tx2));
    assert_eq!(reg.len(), 1);

    let live = reg.lookup(StreamId { raw: 9 }).unwrap();
    live.unbounded_send(StreamMessage::Close).unwrap();
    assert!(matches!(rx1.try_next().unwrap().unwrap(), StreamMessage::Close));
}

#[test]
fn remove_drops_only_the_named_entry() {
    let mut reg = Registry::new();
    let (tx1, _rx1) = unbounded::<StreamMessage>();
    let (tx2, _rx2) = unbounded::<StreamMessage>();
    assert!(reg.insert_if_absent(StreamId { raw: 1 }, tx1));
    assert!(reg.insert_if_absent(StreamId { raw: 2 }, tx2));
    assert_eq!(reg.len(), 2);

    assert!(reg.remove(StreamId { raw: 1 }));
    assert!(reg.lookup(StreamId { raw: 1 }).is_none());
    assert!(reg.lookup(StreamId { raw: 2 }).is_some());
    assert_eq!(reg.len(), 1);

    assert!(!reg.remove(StreamId { raw: 1 }));
    assert_eq!(reg.len(), 1);
}

#[test]
fn removed_id_may_not_linger() {
    let mut reg = Registry::new();
    let (tx, _rx) = unbounded::<StreamMessage>();
    assert!(reg.insert_if_absent(StreamId { raw: 5 }, tx));
    assert!(reg.remove(StreamId { raw: 5 }));
    assert!(reg.lookup(StreamId { raw: 5 }).is_none());
    assert_eq!(reg.len(), 0);
}
