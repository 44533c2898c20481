//! Inbound dispatch: what the connection manager does with each decoded
//! control packet, and the lazy per-stream bookkeeping around it.
//!
//! The dispatcher itself performs no waiting. Where a step needs outside
//! work — establishing a local connection for a fresh stream,
//! sleeping out the keepalive interval or the end-of-stream grace period —
//! the returned [`Dispatch`] value says exactly what remains to be done, and
//! the caller hands the outcome back through [`attach_stream`] or
//! [`finish_end`].

use vstd::prelude::*;
use futures::channel::mpsc::UnboundedSender;
use crate::codec::ControlPacket;
use crate::codec::DecodeError;
use crate::codec::PacketView;
use crate::codec::StreamId;
use crate::codec::spec_deserialize;
use crate::registry::Registry;
use crate::stream::StreamMessage;
use crate::stream::send_stream_message;

verus! {

/// Seconds between a received ping and the ping sent back in reply.
pub const PING_INTERVAL_SECS: u64 = 30;

/// Seconds a stream's entry outlives the `End` packet that closes it, so
/// that data already in flight still reaches the local service.
pub const END_GRACE_SECS: u64 = 5;

/// What remains to be done after one inbound packet was dispatched.
#[derive(Debug)]
pub enum Dispatch {
    /// The relay announced a stream; nothing is created until data arrives.
    InitSeen(StreamId),
    /// A ping arrived: schedule exactly one ping after [`PING_INTERVAL_SECS`].
    PingReceived,
    /// An `End` arrived for a live stream: wait out [`END_GRACE_SECS`], then
    /// call [`finish_end`].
    EndScheduled(StreamId),
    /// An `End` arrived for a stream with no live entry: noted, nothing to
    /// close and nothing scheduled.
    EndIgnored(StreamId),
    /// Data went to the stream's live channel.
    DataForwarded(StreamId),
    /// The stream's receiving half was already gone; dropped, not fatal.
    DataDropped(StreamId),
    /// Data arrived for a stream with no entry: ask the local forwarder for
    /// a channel, then call [`attach_stream`] with the outcome.
    EstablishNeeded(StreamId, Vec<u8>),
}

/// Why an inbound message kills the connection attempt.
#[derive(Debug)]
pub enum ProtocolError {
    /// The bytes were no control packet; the control format is exact, so no
    /// partial recovery is attempted.
    Malformed(DecodeError),
    /// A `Refused` reached the client, which never awaits one.
    UnexpectedRefused,
}

/// Model of one dispatch step over the live key set.
pub enum StepView {
    Malformed(DecodeError),
    UnexpectedRefused,
    InitSeen(StreamId),
    PingReceived,
    EndScheduled(StreamId),
    EndIgnored(StreamId),
    Forward(StreamId, Seq<u8>),
    Establish(StreamId, Seq<u8>),
}

/// What dispatching `bytes` against live streams `keys` must do.
pub open spec fn dispatch_spec(keys: Set<StreamId>, bytes: Seq<u8>) -> StepView {
    match spec_deserialize(bytes) {
        Err(e) => StepView::Malformed(e),
        Ok(pv) => match pv {
            PacketView::Refused(_) => StepView::UnexpectedRefused,
            PacketView::Init(id) => StepView::InitSeen(id),
            PacketView::Ping => StepView::PingReceived,
            PacketView::End(id) => if keys.contains(id) {
                StepView::EndScheduled(id)
            } else {
                StepView::EndIgnored(id)
            },
            PacketView::Data(id, d) => if keys.contains(id) {
                StepView::Forward(id, d)
            } else {
                StepView::Establish(id, d)
            },
        },
    }
}

/// Decodes one inbound message and dispatches it by variant: `Init` is noted
/// only, `Ping` obligates one rescheduled ping, `End` starts the grace
/// period when the stream is live and is noted otherwise, `Data` goes to
/// the live channel or asks for one, `Refused` and
/// undecodable bytes kill the attempt. The registry is never changed here.
pub fn process_control_flow_message(registry: &Registry, payload: &Vec<u8>) -> (r: Result<
    Dispatch,
    ProtocolError,
>)
    requires
        registry.wf(),
    ensures
        ({
            let step = dispatch_spec(registry.key_set(), payload@);
            &&& (step matches StepView::Malformed(e) ==> (r matches Err(pe) && pe matches
                ProtocolError::Malformed(e2) && e2 == e))
            &&& (step is UnexpectedRefused ==> (r matches Err(pe) && pe is UnexpectedRefused))
            &&& (step matches StepView::InitSeen(id) ==> (r matches Ok(d) && d matches
                Dispatch::InitSeen(id2) && id2 == id))
            &&& (step is PingReceived ==> (r matches Ok(d) && d is PingReceived))
            &&& (step matches StepView::EndScheduled(id) ==> (r matches Ok(d) && d matches
                Dispatch::EndScheduled(id2) && id2 == id))
            &&& (step matches StepView::EndIgnored(id) ==> (r matches Ok(d) && d matches
                Dispatch::EndIgnored(id2) && id2 == id))
            &&& (step matches StepView::Forward(id, data) ==> (r matches Ok(d) && ((d matches
                Dispatch::DataForwarded(id2) && id2 == id) || (d matches Dispatch::DataDropped(id3)
                && id3 == id))))
            &&& (step matches StepView::Establish(id, data) ==> (r matches Ok(d) && d matches
                Dispatch::EstablishNeeded(id2, p) && id2 == id && p@ == data))
        }),
{
    let packet = match ControlPacket::deserialize(payload) {
        Ok(p) => p,
        Err(e) => {
            return Err(ProtocolError::Malformed(e));
        },
    };
    match packet {
        ControlPacket::Refused(_) => Err(ProtocolError::UnexpectedRefused),
        ControlPacket::Init(id) => Ok(Dispatch::InitSeen(id)),
        ControlPacket::Ping => Ok(Dispatch::PingReceived),
        ControlPacket::End(id) => {
            if registry.lookup(id).is_some() {
                Ok(Dispatch::EndScheduled(id))
            } else {
                Ok(Dispatch::EndIgnored(id))
            }
        },
        ControlPacket::Data(id, data) => {
            match registry.lookup(id) {
                Some(tx) => {
                    if send_stream_message(tx, StreamMessage::Data(data)) {
                        Ok(Dispatch::DataForwarded(id))
                    } else {
                        Ok(Dispatch::DataDropped(id))
                    }
                },
                None => Ok(Dispatch::EstablishNeeded(id, data)),
            }
        },
    }
}

/// What came of handing establishment's outcome back to the dispatcher.
#[derive(Debug)]
pub enum AttachOutcome {
    /// The channel was registered (or already was) and the payload went to it.
    Forwarded(StreamId),
    /// The channel was registered but its receiving half was already gone.
    Dropped(StreamId),
    /// Establishment had failed: queue this `Refused` packet outbound; no
    /// entry was created.
    Rejected(ControlPacket),
}

/// Completes a [`Dispatch::EstablishNeeded`]: if the local forwarder opened a
/// channel, the channel is registered — never displacing an entry that
/// appeared meanwhile — and the payload is forwarded to the stream's live
/// channel; if establishment failed, no entry is created and the caller gets
/// the exact `Refused(id)` packet owed to the relay.
pub fn attach_stream(
    registry: &mut Registry,
    id: StreamId,
    payload: Vec<u8>,
    channel: Option<UnboundedSender<StreamMessage>>,
) -> (r: AttachOutcome)
    requires
        old(registry).wf(),
    ensures
        final(registry).wf(),
        channel is None ==> (*final(registry) == *old(registry) && (r matches
            AttachOutcome::Rejected(p) && p@ == PacketView::Refused(id))),
        channel matches Some(tx) ==> {
            &&& final(registry).key_set() == old(registry).key_set().insert(id)
            &&& (!old(registry).key_set().contains(id) ==> final(registry).sender_for(id) == tx)
            &&& (old(registry).key_set().contains(id) ==> final(registry).sender_for(id) == old(
                registry,
            ).sender_for(id))
            &&& (forall|o: StreamId|
                o != id && old(registry).key_set().contains(o) ==> final(registry).sender_for(o)
                    == old(registry).sender_for(o))
            &&& ((r matches AttachOutcome::Forwarded(id2) && id2 == id) || (r matches
                AttachOutcome::Dropped(id3) && id3 == id))
        },
{
    match channel {
        None => AttachOutcome::Rejected(ControlPacket::Refused(id)),
        Some(tx) => {
            let created = registry.insert_if_absent(id, tx);
            proof {
                if !created {
                    assert(registry.key_set() =~= old(registry).key_set().insert(id));
                }
            }
            let delivered = match registry.lookup(id) {
                Some(live) => send_stream_message(live, StreamMessage::Data(payload)),
                None => false,
            };
            if delivered {
                AttachOutcome::Forwarded(id)
            } else {
                AttachOutcome::Dropped(id)
            }
        },
    }
}

/// Ends the grace period of an `End(id)`: sends `Close` to the stream's
/// channel if it is still live — a gone receiver is logged and swallowed —
/// and drops the entry. Returns whether an entry was dropped.
pub fn finish_end(registry: &mut Registry, id: StreamId) -> (r: bool)
    requires
        old(registry).wf(),
    ensures
        final(registry).wf(),
        r == old(registry).key_set().contains(id),
        final(registry).key_set() == old(registry).key_set().remove(id),
        forall|o: StreamId|
            o != id && old(registry).key_set().contains(o) ==> final(registry).key_set().contains(
                o,
            ) && final(registry).sender_for(o) == old(registry).sender_for(o),
{
    let _delivered = match registry.lookup(id) {
        Some(tx) => send_stream_message(tx, StreamMessage::Close),
        None => false,
    };
    registry.remove(id)
}

/// The packet the keepalive scheduler enqueues: exactly one `Ping`, first
/// immediately upon connection establishment, then once per received ping
/// after [`PING_INTERVAL_SECS`].
pub fn keepalive_packet() -> (p: ControlPacket)
    ensures
        p@ == PacketView::Ping,
{
    ControlPacket::Ping
}

/// Lazy creation is idempotent: of two data packets arriving back to back
/// for a previously unseen stream, the first asks for exactly one
/// establishment, and once the channel is attached the second forwards
/// without asking again.
pub proof fn lemma_lazy_creation_idempotent(
    keys: Set<StreamId>,
    id: StreamId,
    b1: Seq<u8>,
    b2: Seq<u8>,
    d1: Seq<u8>,
    d2: Seq<u8>,
)
    requires
        !keys.contains(id),
        spec_deserialize(b1) == Ok::<PacketView, DecodeError>(PacketView::Data(id, d1)),
        spec_deserialize(b2) == Ok::<PacketView, DecodeError>(PacketView::Data(id, d2)),
    ensures
        dispatch_spec(keys, b1) == StepView::Establish(id, d1),
        dispatch_spec(keys.insert(id), b2) == StepView::Forward(id, d2),
{
}

/// End-of-stream grace: dispatching `End(id)` leaves the entry live, so data
/// for `id` inside the grace window still forwards; once the grace removal
/// has run the entry is gone, and data for `id` asks to establish afresh.
pub proof fn lemma_end_grace(
    keys: Set<StreamId>,
    id: StreamId,
    b_end: Seq<u8>,
    b_data: Seq<u8>,
    d: Seq<u8>,
)
    requires
        keys.contains(id),
        spec_deserialize(b_end) == Ok::<PacketView, DecodeError>(PacketView::End(id)),
        spec_deserialize(b_data) == Ok::<PacketView, DecodeError>(PacketView::Data(id, d)),
    ensures
        dispatch_spec(keys, b_end) == StepView::EndScheduled(id),
        dispatch_spec(keys, b_data) == StepView::Forward(id, d),
        dispatch_spec(keys.remove(id), b_data) == StepView::Establish(id, d),
        dispatch_spec(keys.remove(id), b_end) == StepView::EndIgnored(id),
{
}

/// Keepalive liveness: a dispatch step obligates a rescheduled ping exactly
/// when the inbound packet was a ping — one ping out per ping in, whatever
/// the live streams are; the one immediate ping at connection establishment
/// is [`keepalive_packet`]'s own contract.
pub proof fn lemma_keepalive_reschedule(keys: Set<StreamId>, bytes: Seq<u8>)
    ensures
        dispatch_spec(keys, bytes) is PingReceived <==> spec_deserialize(bytes) == Ok::<
            PacketView,
            DecodeError,
        >(PacketView::Ping),
{
    match spec_deserialize(bytes) {
        Ok(pv) => {
            match pv {
                PacketView::Ping => {
                },
                _ => {
                },
            }
        },
        Err(_) => {
        },
    }
}

} // verus!
