use futures::channel::mpsc::unbounded;
use wormhole::StreamMessage;
use wormhole::codec::ControlPacket;
use wormhole::codec::StreamId;
use wormhole::dispatch::AttachOutcome;
use wormhole::dispatch::Dispatch;
use wormhole::dispatch::ProtocolError;
use wormhole::dispatch::attach_stream;
use wormhole::dispatch::finish_end;
use wormhole::dispatch::keepalive_packet;
use wormhole::dispatch::process_control_flow_message;
use wormhole::registry::Registry;

#[test]
fn clean_data_flow() {
    let mut reg = Registry::new();
    let payload = "GET / HTTP/1.1\r\nHost: abc\r\n\r\n".as_bytes().to_vec();
    let bytes = ControlPacket::Data(StreamId { raw: 7 }, payload.clone()).serialize();

    let step = process_control_flow_message(&reg, &bytes).unwrap();
    let (id, first_payload) = match step {
        Dispatch::EstablishNeeded(id, p) => (id, p),
        _ => panic!("first data for an unseen stream must ask to establish"),
    };
    assert_eq!(id, StreamId { raw: 7 });
    assert_eq!(first_payload, payload);

    let (tx, mut rx) = unbounded::<StreamMessage>();
    let outcome = attach_stream(&mut reg, id, first_payload, Some(tx));
    assert!(matches!(outcome, AttachOutcome::Forwarded(i) if i == StreamId { raw: 7 }));
    match rx.try_next().unwrap().unwrap() {
        StreamMessage::Data(d) => assert_eq!(d, payload),
        StreamMessage::Close => panic!("expected the payload, unmodified"),
    }
    assert!(reg.lookup(StreamId { raw: 7 }).is_some());
}

#[test]
fn second_data_packet_forwards_without_second_establish() {
    let mut reg = Registry::new();
    let bytes1 = ControlPacket::Data(StreamId { raw: 7 }, vec![1]).serialize();
    let bytes2 = ControlPacket::Data(StreamId { raw: 7 }, vec![2]).serialize();

    let step = process_control_flow_message(&reg, &bytes1).unwrap();
    let (id, p) = match step {
        Dispatch::EstablishNeeded(id, p) => (id, p),
        _ => panic!("expected establishment"),
    };
    let (tx, mut rx) = unbounded::<StreamMessage>();
    attach_stream(&mut reg, id, p, Some(tx));

    let step2 = process_control_flow_message(&reg, &bytes2).unwrap();
    assert!(matches!(step2, Dispatch::DataForwarded(i) if i == StreamId { raw: 7 }));
    match rx.try_next().unwrap().unwrap() {
        StreamMessage::Data(d) => assert_eq!(d, vec![1]),
        StreamMessage::Close => panic!("expected data"),
    }
    match rx.try_next().unwrap().unwrap() {
        StreamMessage::Data(d) => assert_eq!(d, vec![2]),
        StreamMessage::Close => panic!("expected data"),
    }
}

#[test]
fn refused_stream() {
    let mut reg = Registry::new();
    let bytes = ControlPacket::Data(StreamId { raw: 7 }, vec![1, 2]).serialize();
    let step = process_control_flow_message(&reg, &bytes).unwrap();
    let (id, p) = match step {
        Dispatch::EstablishNeeded(id, p) => (id, p),
        _ => panic!("expected establishment"),
    };

    let outcome = attach_stream(&mut reg, id, p, None);
    match outcome {
        AttachOutcome::Rejected(packet) => {
            assert_eq!(packet, ControlPacket::Refused(StreamId { raw: 7 }));
        },
        _ => panic!("failed establishment owes the relay a refusal"),
    }
    assert!(reg.lookup(StreamId { raw: 7 }).is_none());
    assert_eq!(reg.len(), 0);
}

#[test]
fn end_grace_keeps_the_stream_until_finish() {
    let mut reg = Registry::new();
    let (tx, mut rx) = unbounded::<StreamMessage>();
    assert!(reg.insert_if_absent(StreamId { raw: 4 }, tx));

    let end_bytes = ControlPacket::End(StreamId { raw: 4 }).serialize();
    let step = process_control_flow_message(&reg, &end_bytes).unwrap();
    assert!(matches!(step, Dispatch::EndScheduled(i) if i == StreamId { raw: 4 }));

    let data_bytes = ControlPacket::Data(StreamId { raw: 4 }, vec![9]).serialize();
    let step = process_control_flow_message(&reg, &data_bytes).unwrap();
    assert!(matches!(step, Dispatch::DataForwarded(i) if i == StreamId { raw: 4 }));
    match rx.try_next().unwrap().unwrap() {
        StreamMessage::Data(d) => assert_eq!(d, vec![9]),
        StreamMessage::Close => panic!("expected in-flight data to still forward"),
    }

    assert!(finish_end(&mut reg, StreamId { raw: 4 }));
    assert!(matches!(rx.try_next().unwrap().unwrap(), StreamMessage::Close));
    assert!(reg.lookup(StreamId { raw: 4 }).is_none());

    let step = process_control_flow_message(&reg, &data_bytes).unwrap();
    assert!(matches!(step, Dispatch::EstablishNeeded(i, _) if i == StreamId { raw: 4 }));
}

#[test]
fn end_for_unknown_stream_is_ignored() {
    let reg = Registry::new();
    let end_bytes = ControlPacket::End(StreamId { raw: 9 }).serialize();
    let step = process_control_flow_message(&reg, &end_bytes).unwrap();
    assert!(matches!(step, Dispatch::EndIgnored(i) if i == StreamId { raw: 9 }));
    assert_eq!(reg.len(), 0);
}

#[test]
fn ping_obligates_exactly_one_reschedule() {
    let reg = Registry::new();
    let ping_bytes = ControlPacket::Ping.serialize();
    let step = process_control_flow_message(&reg, &ping_bytes).unwrap();
    assert!(matches!(step, Dispatch::PingReceived));

    let init_bytes = ControlPacket::Init(StreamId { raw: 1 }).serialize();
    let step = process_control_flow_message(&reg, &init_bytes).unwrap();
    assert!(matches!(step, Dispatch::InitSeen(i) if i == StreamId { raw: 1 }));

    assert_eq!(keepalive_packet(), ControlPacket::Ping);
}

#[test]
fn init_creates_no_entry() {
    let reg = Registry::new();
    let init_bytes = ControlPacket::Init(StreamId { raw: 6 }).serialize();
    process_control_flow_message(&reg, &init_bytes).unwrap();
    assert!(reg.lookup(StreamId { raw: 6 }).is_none());
}

#[test]
fn inbound_refused_is_a_protocol_violation() {
    let reg = Registry::new();
    let bytes = ControlPacket::Refused(StreamId { raw: 7 }).serialize();
    let r = process_control_flow_message(&reg, &bytes);
    assert!(matches!(r, Err(ProtocolError::UnexpectedRefused)));
}

#[test]
fn malformed_inbound_is_fatal() {
    let reg = Registry::new();
    let r = process_control_flow_message(&reg, &vec![2, 0]);
    assert!(matches!(r, Err(ProtocolError::Malformed(_))));
    let r = process_control_flow_message(&reg, &vec![77]);
    assert!(matches!(r, Err(ProtocolError::Malformed(_))));
}

#[test]
fn dropped_receiver_is_not_fatal() {
    let mut reg = Registry::new();
    let (tx, rx) = unbounded::<StreamMessage>();
    drop(rx);
    assert!(reg.insert_if_absent(StreamId { raw: 3 }, tx));
    let bytes = ControlPacket::Data(StreamId { raw: 3 }, vec![1]).serialize();
    let step = process_control_flow_message(&reg, &bytes).unwrap();
    assert!(matches!(step, Dispatch::DataDropped(i) if i == StreamId { raw: 3 }));
}
