//! The per-attempt connection life cycle. One attempt walks
//! `Connecting → Handshaking → Active → Terminated`; nothing inside an
//! attempt retries, and reaching `Terminated` hands control back to the
//! outer restart loop, which begins a fresh attempt from scratch.

use vstd::prelude::*;

verus! {

/// Where one connection attempt stands.
#[derive(Clone, Copy, PartialEq, Eq, Structural, Debug)]
pub enum ConnState {
    Connecting,
    Handshaking,
    Active,
    Terminated,
}

/// What just happened to the attempt.
#[derive(Clone, Copy, PartialEq, Eq, Structural, Debug)]
pub enum ConnEvent {
    /// The transport connect succeeded.
    TransportConnected,
    /// The transport connect failed.
    ConnectFailed,
    /// The relay's hello accepted this client.
    HandshakeAccepted,
    /// The hello was rejected, malformed, missing, or its transport broke.
    HandshakeFailed,
    /// The outbound queue closed under the writer.
    OutboundQueueClosed,
    /// A write to the transport failed.
    WriteFailed,
    /// A transport read failed or the read stream ended.
    TransportFailed,
    /// An inbound message broke the control protocol.
    ProtocolViolation,
}

/// The transition table of one attempt: an event either advances the state
/// as listed or terminates the attempt; an event that cannot occur in a
/// state leaves it unchanged, and `Terminated` is final.
pub open spec fn conn_step_spec(s: ConnState, e: ConnEvent) -> ConnState {
    match (s, e) {
        (ConnState::Connecting, ConnEvent::TransportConnected) => ConnState::Handshaking,
        (ConnState::Connecting, ConnEvent::ConnectFailed) => ConnState::Terminated,
        (ConnState::Handshaking, ConnEvent::HandshakeAccepted) => ConnState::Active,
        (ConnState::Handshaking, ConnEvent::HandshakeFailed) => ConnState::Terminated,
        (ConnState::Active, ConnEvent::OutboundQueueClosed) => ConnState::Terminated,
        (ConnState::Active, ConnEvent::WriteFailed) => ConnState::Terminated,
        (ConnState::Active, ConnEvent::TransportFailed) => ConnState::Terminated,
        (ConnState::Active, ConnEvent::ProtocolViolation) => ConnState::Terminated,
        (_, _) => s,
    }
}

/// Advances one connection attempt by one observed event.
pub fn conn_step(s: ConnState, e: ConnEvent) -> (r: ConnState)
    ensures
        r == conn_step_spec(s, e),
{
    match (s, e) {
        (ConnState::Connecting, ConnEvent::TransportConnected) => ConnState::Handshaking,
        (ConnState::Connecting, ConnEvent::ConnectFailed) => ConnState::Terminated,
        (ConnState::Handshaking, ConnEvent::HandshakeAccepted) => ConnState::Active,
        (ConnState::Handshaking, ConnEvent::HandshakeFailed) => ConnState::Terminated,
        (ConnState::Active, ConnEvent::OutboundQueueClosed) => ConnState::Terminated,
        (ConnState::Active, ConnEvent::WriteFailed) => ConnState::Terminated,
        (ConnState::Active, ConnEvent::TransportFailed) => ConnState::Terminated,
        (ConnState::Active, ConnEvent::ProtocolViolation) => ConnState::Terminated,
        (_, _) => s,
    }
}

/// Termination is final: no event revives a terminated attempt — only the
/// restart loop's fresh attempt does.
pub proof fn lemma_terminated_is_final(e: ConnEvent)
    ensures
        conn_step_spec(ConnState::Terminated, e) == ConnState::Terminated,
{
}

} // verus!
