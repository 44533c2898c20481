use wormhole::conn::ConnEvent;
use wormhole::conn::ConnState;
use wormhole::conn::conn_step;

#[test]
fn successful_attempt_reaches_active() {
    let s = ConnState::Connecting;
    let s = conn_step(s, ConnEvent::TransportConnected);
    assert_eq!(s, ConnState::Handshaking);
    let s = conn_step(s, ConnEvent::HandshakeAccepted);
    assert_eq!(s, ConnState::Active);
}

#[test]
fn connect_failure_terminates() {
    assert_eq!(
        conn_step(ConnState::Connecting, ConnEvent::ConnectFailed),
        ConnState::Terminated
    );
}

#[test]
fn handshake_failure_terminates() {
    assert_eq!(
        conn_step(ConnState::Handshaking, ConnEvent::HandshakeFailed),
        ConnState::Terminated
    );
}

#[test]
fn every_active_failure_terminates() {
    for e in [
        ConnEvent::OutboundQueueClosed,
        ConnEvent::WriteFailed,
        ConnEvent::TransportFailed,
        ConnEvent::ProtocolViolation,
    ] {
        assert_eq!(conn_step(ConnState::Active, e), ConnState::Terminated);
    }
}

#[test]
fn terminated_is_final() {
    for e in [
        ConnEvent::TransportConnected,
        ConnEvent::ConnectFailed,
        ConnEvent::HandshakeAccepted,
        ConnEvent::HandshakeFailed,
        ConnEvent::OutboundQueueClosed,
        ConnEvent::WriteFailed,
        ConnEvent::TransportFailed,
        ConnEvent::ProtocolViolation,
    ] {
        assert_eq!(conn_step(ConnState::Terminated, e), ConnState::Terminated);
    }
}

#[test]
fn inapplicable_events_leave_the_state() {
    assert_eq!(
        conn_step(ConnState::Connecting, ConnEvent::WriteFailed),
        ConnState::Connecting
    );
    assert_eq!(
        conn_step(ConnState::Active, ConnEvent::TransportConnected),
        ConnState::Active
    );
}
