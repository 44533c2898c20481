//! The per-stream channel: what the dispatcher pushes toward the local
//! service, and the trusted boundary to the channel type of the `futures`
//! crate that carries it.

use vstd::prelude::*;
use futures::channel::mpsc::UnboundedSender;

verus! {

/// One message for a per-stream task: payload bytes for the local service,
/// or the order to close the local connection.
#[derive(Clone, Debug)]
pub enum StreamMessage {
    Data(Vec<u8>),
    Close,
}

#[verifier::external_type_specification]
#[verifier::external_body]
#[verifier::reject_recursive_types(T)]
pub struct ExUnboundedSender<T>(UnboundedSender<T>);

/// Relies on futures' `UnboundedSender::unbounded_send`: hands the message to
/// the channel and reports whether the receiving half was still there to take
/// it. Delivery can fail on any call (the receiver may already be gone), so
/// nothing is promised of the outcome; every caller states what holds either
/// way.
#[verifier::external_body]
pub(crate) fn send_stream_message(tx: &UnboundedSender<StreamMessage>, m: StreamMessage) -> bool {
    tx.unbounded_send(m).is_ok()
}

} // verus!
