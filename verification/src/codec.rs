//! Binary codec for the control-plane packets exchanged with the relay.
//!
//! Wire format: one tag byte, then the variant's fields. `Init`, `Refused`
//! and `End` carry the fixed-width stream id (eight bytes, big endian).
//! `Data` carries the stream id, an eight-byte big-endian payload length,
//! then the payload bytes themselves. `Ping` is the tag byte alone.

use vstd::prelude::*;

verus! {

/// Globally unique identifier of one logical tunneled stream, as eight raw
/// bytes held in a single machine word. Equality is equality of those bytes.
#[derive(Clone, Copy, PartialEq, Eq, Structural, Hash, Debug)]
pub struct StreamId {
    pub raw: u64,
}

/// One control-plane packet. Exactly one variant is active per packet and
/// the encoding round-trips byte-exactly.
#[derive(Clone, Debug, PartialEq, Eq)]
pub enum ControlPacket {
    Init(StreamId),
    Data(StreamId, Vec<u8>),
    Refused(StreamId),
    End(StreamId),
    Ping,
}

/// Mathematical model of a packet: the payload is a byte sequence.
pub enum PacketView {
    Init(StreamId),
    Data(StreamId, Seq<u8>),
    Refused(StreamId),
    End(StreamId),
    Ping,
}

impl View for ControlPacket {
    type V = PacketView;

    open spec fn view(&self) -> PacketView {
        match self {
            ControlPacket::Init(id) => PacketView::Init(*id),
            ControlPacket::Data(id, d) => PacketView::Data(*id, d@),
            ControlPacket::Refused(id) => PacketView::Refused(*id),
            ControlPacket::End(id) => PacketView::End(*id),
            ControlPacket::Ping => PacketView::Ping,
        }
    }
}

impl PacketView {
    /// A packet the client can actually hold: the payload length fits in the
    /// eight-byte length field.
    pub open spec fn wf(self) -> bool {
        match self {
            PacketView::Data(_, d) => d.len() <= u64::MAX,
            _ => true,
        }
    }
}

/// Why a byte string was rejected by `deserialize`.
#[derive(Clone, Copy, PartialEq, Eq, Structural, Debug)]
pub enum DecodeError {
    /// The input held no bytes at all.
    Empty,
    /// The tag byte names no packet variant.
    UnknownTag,
    /// The input ended before the variant's fields did.
    Truncated,
    /// Bytes remained after a complete packet.
    Trailing,
}

pub const TAG_INIT: u8 = 1;
pub const TAG_DATA: u8 = 2;
pub const TAG_REFUSED: u8 = 3;
pub const TAG_END: u8 = 4;
pub const TAG_PING: u8 = 5;

/// The eight big-endian bytes of a word.
pub open spec fn be_bytes(x: u64) -> Seq<u8> {
    seq![
        ((x >> 56) & 0xff) as u8,
        ((x >> 48) & 0xff) as u8,
        ((x >> 40) & 0xff) as u8,
        ((x >> 32) & 0xff) as u8,
        ((x >> 24) & 0xff) as u8,
        ((x >> 16) & 0xff) as u8,
        ((x >> 8) & 0xff) as u8,
        (x & 0xff) as u8,
    ]
}

/// The word read from eight big-endian bytes.
pub open spec fn be_val(s: Seq<u8>) -> u64
    recommends
        s.len() == 8,
{
    (((s[0] as u64) << 56) | ((s[1] as u64) << 48) | ((s[2] as u64) << 40) | ((s[3] as u64) << 32)
        | ((s[4] as u64) << 24) | ((s[5] as u64) << 16) | ((s[6] as u64) << 8) | (s[7] as u64)) as u64
}

pub proof fn lemma_be_round_trip(x: u64)
    ensures
        be_val(be_bytes(x)) == x,
{
    let b0 = ((x >> 56) & 0xff) as u8;
    let b1 = ((x >> 48) & 0xff) as u8;
    let b2 = ((x >> 40) & 0xff) as u8;
    let b3 = ((x >> 32) & 0xff) as u8;
    let b4 = ((x >> 24) & 0xff) as u8;
    let b5 = ((x >> 16) & 0xff) as u8;
    let b6 = ((x >> 8) & 0xff) as u8;
    let b7 = (x & 0xff) as u8;
    assert((((b0 as u64) << 56) | ((b1 as u64) << 48) | ((b2 as u64) << 40) | ((b3 as u64) << 32)
        | ((b4 as u64) << 24) | ((b5 as u64) << 16) | ((b6 as u64) << 8) | (b7 as u64)) as u64 == x)
        by (bit_vector)
        requires
            b0 == ((x >> 56) & 0xff) as u8,
            b1 == ((x >> 48) & 0xff) as u8,
            b2 == ((x >> 40) & 0xff) as u8,
            b3 == ((x >> 32) & 0xff) as u8,
            b4 == ((x >> 24) & 0xff) as u8,
            b5 == ((x >> 16) & 0xff) as u8,
            b6 == ((x >> 8) & 0xff) as u8,
            b7 == (x & 0xff) as u8,
    ;
}

/// The exact byte string a packet serializes to.
pub open spec fn spec_serialize(p: PacketView) -> Seq<u8> {
    match p {
        PacketView::Init(id) => seq![TAG_INIT] + be_bytes(id.raw),
        PacketView::Data(id, d) => seq![TAG_DATA] + be_bytes(id.raw) + be_bytes(d.len() as u64) + d,
        PacketView::Refused(id) => seq![TAG_REFUSED] + be_bytes(id.raw),
        PacketView::End(id) => seq![TAG_END] + be_bytes(id.raw),
        PacketView::Ping => seq![TAG_PING],
    }
}

/// Total decoding function: every byte string is either exactly one packet
/// or exactly one decode error.
pub open spec fn spec_deserialize(s: Seq<u8>) -> Result<PacketView, DecodeError> {
    if s.len() == 0 {
        Err(DecodeError::Empty)
    } else if s[0] == TAG_PING {
        if s.len() == 1 {
            Ok(PacketView::Ping)
        } else {
            Err(DecodeError::Trailing)
        }
    } else if s[0] == TAG_INIT || s[0] == TAG_REFUSED || s[0] == TAG_END {
        if s.len() < 9 {
            Err(DecodeError::Truncated)
        } else if s.len() > 9 {
            Err(DecodeError::Trailing)
        } else {
            let id = StreamId { raw: be_val(s.subrange(1, 9)) };
            if s[0] == TAG_INIT {
                Ok(PacketView::Init(id))
            } else if s[0] == TAG_REFUSED {
                Ok(PacketView::Refused(id))
            } else {
                Ok(PacketView::End(id))
            }
        }
    } else if s[0] == TAG_DATA {
        if s.len() < 17 {
            Err(DecodeError::Truncated)
        } else {
            let n = be_val(s.subrange(9, 17));
            if s.len() - 17 < n {
                Err(DecodeError::Truncated)
            } else if s.len() - 17 > n {
                Err(DecodeError::Trailing)
            } else {
                Ok(PacketView::Data(StreamId { raw: be_val(s.subrange(1, 9)) }, s.skip(17)))
            }
        }
    } else {
        Err(DecodeError::UnknownTag)
    }
}

fn push_be(v: &mut Vec<u8>, x: u64)
    ensures
        final(v)@ == old(v)@ + be_bytes(x),
{
    proof {
        lemma_byte_masks(x);
    }
    v.push(((x >> 56) & 0xff) as u8);
    v.push(((x >> 48) & 0xff) as u8);
    v.push(((x >> 40) & 0xff) as u8);
    v.push(((x >> 32) & 0xff) as u8);
    v.push(((x >> 24) & 0xff) as u8);
    v.push(((x >> 16) & 0xff) as u8);
    v.push(((x >> 8) & 0xff) as u8);
    v.push((x & 0xff) as u8);
    assert(v@ =~= old(v)@ + be_bytes(x));
}

proof fn lemma_byte_masks(x: u64)
    ensures
        (x >> 56) & 0xff <= 0xff,
        (x >> 48) & 0xff <= 0xff,
        (x >> 40) & 0xff <= 0xff,
        (x >> 32) & 0xff <= 0xff,
        (x >> 24) & 0xff <= 0xff,
        (x >> 16) & 0xff <= 0xff,
        (x >> 8) & 0xff <= 0xff,
        x & 0xff <= 0xff,
{
    assert((x >> 56) & 0xff <= 0xff && (x >> 48) & 0xff <= 0xff && (x >> 40) & 0xff <= 0xff && (x
        >> 32) & 0xff <= 0xff && (x >> 24) & 0xff <= 0xff && (x >> 16) & 0xff <= 0xff && (x >> 8)
        & 0xff <= 0xff && x & 0xff <= 0xff) by (bit_vector);
}

impl ControlPacket {
    /// Deterministic encoding of one packet to its wire bytes.
    pub fn serialize(&self) -> (r: Vec<u8>)
        ensures
            r@ == spec_serialize(self@),
    {
        let mut v: Vec<u8> = Vec::new();
        match self {
            ControlPacket::Init(id) => {
                v.push(TAG_INIT);
                push_be(&mut v, id.raw);
            },
            ControlPacket::Data(id, d) => {
                v.push(TAG_DATA);
                push_be(&mut v, id.raw);
                push_be(&mut v, d.len() as u64);
                let mut i: usize = 0;
                while i < d.len()
                    invariant
                        i <= d.len(),
                        v@ == seq![TAG_DATA] + be_bytes(id.raw) + be_bytes(d.len() as u64)
                            + d@.take(i as int),
                    decreases d.len() - i,
                {
                    v.push(d[i]);
                    i = i + 1;
                    assert(d@.take(i as int) =~= d@.take(i - 1) + seq![d@[i - 1]]);
                    assert(v@ =~= seq![TAG_DATA] + be_bytes(id.raw) + be_bytes(d.len() as u64)
                        + d@.take(i as int));
                }
                assert(d@.take(d.len() as int) =~= d@);
            },
            ControlPacket::Refused(id) => {
                v.push(TAG_REFUSED);
                push_be(&mut v, id.raw);
            },
            ControlPacket::End(id) => {
                v.push(TAG_END);
                push_be(&mut v, id.raw);
            },
            ControlPacket::Ping => {
                v.push(TAG_PING);
            },
        }
        assert(v@ =~= spec_serialize(self@));
        v
    }

    /// Decodes one packet from its wire bytes, rejecting empty, truncated,
    /// oversized and unknown-tag input instead of panicking.
    pub fn deserialize(data: &Vec<u8>) -> (r: Result<ControlPacket, DecodeError>)
        ensures
            (r matches Ok(p) ==> spec_deserialize(data@) == Ok::<PacketView, DecodeError>(p@)),
            (r matches Err(e) ==> spec_deserialize(data@) == Err::<PacketView, DecodeError>(e)),
    {
        if data.len() == 0 {
            return Err(DecodeError::Empty);
        }
        let tag = data[0];
        if tag == TAG_PING {
            if data.len() == 1 {
                Ok(ControlPacket::Ping)
            } else {
                Err(DecodeError::Trailing)
            }
        } else if tag == TAG_INIT || tag == TAG_REFUSED || tag == TAG_END {
            if data.len() < 9 {
                Err(DecodeError::Truncated)
            } else if data.len() > 9 {
                Err(DecodeError::Trailing)
            } else {
                let id = StreamId { raw: read_be(data, 1) };
                if tag == TAG_INIT {
                    Ok(ControlPacket::Init(id))
                } else if tag == TAG_REFUSED {
                    Ok(ControlPacket::Refused(id))
                } else {
                    Ok(ControlPacket::End(id))
                }
            }
        } else if tag == TAG_DATA {
            if data.len() < 17 {
                Err(DecodeError::Truncated)
            } else {
                let n = read_be(data, 9);
                let body: u64 = (data.len() - 17) as u64;
                if body < n {
                    Err(DecodeError::Truncated)
                } else if body > n {
                    Err(DecodeError::Trailing)
                } else {
                    let id = StreamId { raw: read_be(data, 1) };
                    let mut payload: Vec<u8> = Vec::new();
                    let mut i: usize = 17;
                    while i < data.len()
                        invariant
                            17 <= i <= data.len(),
                            payload@ == data@.subrange(17, i as int),
                        decreases data.len() - i,
                    {
                        payload.push(data[i]);
                        i = i + 1;
                        assert(data@.subrange(17, i as int) =~= data@.subrange(17, i - 1)
                            + seq![data@[i - 1]]);
                    }
                    assert(payload@ =~= data@.skip(17));
                    Ok(ControlPacket::Data(id, payload))
                }
            }
        } else {
            Err(DecodeError::UnknownTag)
        }
    }
}

/// Reads the big-endian word at `off`.
fn read_be(v: &Vec<u8>, off: usize) -> (r: u64)
    requires
        off + 8 <= v@.len(),
    ensures
        r == be_val(v@.subrange(off as int, off + 8)),
{
    let n = v.len();
    let r: u64 = ((v[off] as u64) << 56) | ((v[off + 1] as u64) << 48) | ((v[off + 2] as u64) << 40)
        | ((v[off + 3] as u64) << 32) | ((v[off + 4] as u64) << 24) | ((v[off + 5] as u64) << 16)
        | ((v[off + 6] as u64) << 8) | (v[off + 7] as u64);
    proof {
        let s = v@.subrange(off as int, off + 8);
        assert(s[0] == v@[off as int]);
        assert(s[1] == v@[off + 1]);
        assert(s[2] == v@[off + 2]);
        assert(s[3] == v@[off + 3]);
        assert(s[4] == v@[off + 4]);
        assert(s[5] == v@[off + 5]);
        assert(s[6] == v@[off + 6]);
        assert(s[7] == v@[off + 7]);
    }
    r
}

/// Decoding inverts encoding: every well-formed packet comes back from its
/// own wire bytes, byte-exactly.
pub proof fn lemma_round_trip(p: PacketView)
    requires
        p.wf(),
    ensures
        spec_deserialize(spec_serialize(p)) == Ok::<PacketView, DecodeError>(p),
{
    let s = spec_serialize(p);
    match p {
        PacketView::Init(id) => {
            assert(s.subrange(1, 9) =~= be_bytes(id.raw));
            lemma_be_round_trip(id.raw);
        },
        PacketView::Refused(id) => {
            assert(s.subrange(1, 9) =~= be_bytes(id.raw));
            lemma_be_round_trip(id.raw);
        },
        PacketView::End(id) => {
            assert(s.subrange(1, 9) =~= be_bytes(id.raw));
            lemma_be_round_trip(id.raw);
        },
        PacketView::Ping => {
        },
        PacketView::Data(id, d) => {
            assert(s.len() == 17 + d.len());
            assert(s.subrange(1, 9) =~= be_bytes(id.raw));
            assert(s.subrange(9, 17) =~= be_bytes(d.len() as u64));
            lemma_be_round_trip(id.raw);
            lemma_be_round_trip(d.len() as u64);
            assert(s.skip(17) =~= d);
        },
    }
}

/// Every strict prefix of a valid encoding is rejected with a decode error.
pub proof fn lemma_truncated_prefix_rejected(p: PacketView, n: int)
    requires
        p.wf(),
        0 <= n < spec_serialize(p).len(),
    ensures
        spec_deserialize(spec_serialize(p).take(n)) matches Err(_),
{
    let s = spec_serialize(p);
    let t = s.take(n);
    if n == 0 {
        assert(spec_deserialize(t) == Err::<PacketView, DecodeError>(DecodeError::Empty));
    } else {
        assert(t[0] == s[0]);
        match p {
            PacketView::Init(_) | PacketView::Refused(_) | PacketView::End(_) => {
                assert(t.len() < 9);
            },
            PacketView::Ping => {
            },
            PacketView::Data(id, d) => {
                if n < 17 {
                    assert(t.len() < 17);
                } else {
                    assert(t.subrange(9, 17) =~= be_bytes(d.len() as u64));
                    lemma_be_round_trip(d.len() as u64);
                    assert(t.len() - 17 < d.len());
                }
            },
        }
    }
}

/// A leading byte that names no variant is rejected, whatever follows it.
pub proof fn lemma_unknown_tag_rejected(s: Seq<u8>)
    requires
        s.len() > 0,
        s[0] != TAG_INIT,
        s[0] != TAG_DATA,
        s[0] != TAG_REFUSED,
        s[0] != TAG_END,
        s[0] != TAG_PING,
    ensures
        spec_deserialize(s) == Err::<PacketView, DecodeError>(DecodeError::UnknownTag),
{
}

} // verus!
