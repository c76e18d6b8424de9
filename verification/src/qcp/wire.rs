//! The QCP packet: an 18-byte header followed by the payload.
//!
//! Header layout: magic `QCP1` (4), flags (1), stream (1), message id (4),
//! fragment index (2), fragment total (2), payload length (4); integers are
//! big-endian.

use super::buf::{
    be16, be32, buf_extend, buf_put_u16, buf_put_u32, buf_put_u8, buf_with_capacity, bytes_contents,
    bytes_copy, bytes_mut_contents, bytes_slice,
};
use bytes::{Bytes, BytesMut};
use vstd::prelude::*;

verus! {

pub const HEADER_LEN: usize = 18;

pub const MAX_PACKET: usize = 1400;

/// The largest payload one packet carries.
pub const MAX_PAYLOAD: usize = 1382;

/// The most fragments one message may be split into.
pub const MAX_FRAGMENT_COUNT: usize = 8192;

pub const FLAG_SYN: u8 = 0x01;

pub const FLAG_ACK: u8 = 0x02;

pub const FLAG_DATA: u8 = 0x04;

pub const FLAG_FIN: u8 = 0x08;

pub const FLAG_PING: u8 = 0x10;

pub const FLAG_PONG: u8 = 0x20;

/// Delivery class of a message.
#[derive(Debug, Clone, Copy, PartialEq, Eq, Structural)]
pub enum Stream {
    /// Latest wins: an older message is dropped, nothing is retransmitted.
    Realtime,
    /// Retransmitted until acknowledged.
    Critical,
    /// Reliable delivery.
    Batch,
}

impl Stream {
    /// The stream's number on the wire.
    pub open spec fn spec_code(self) -> u8 {
        match self {
            Stream::Realtime => 1,
            Stream::Critical => 2,
            Stream::Batch => 3,
        }
    }

    /// The stream a wire number names; any unknown number is `Batch`.
    pub open spec fn spec_from_code(v: u8) -> Stream {
        if v == 1 {
            Stream::Realtime
        } else if v == 2 {
            Stream::Critical
        } else {
            Stream::Batch
        }
    }

    pub fn code(self) -> (r: u8)
        ensures
            r == self.spec_code(),
    {
        match self {
            Stream::Realtime => 1,
            Stream::Critical => 2,
            Stream::Batch => 3,
        }
    }

    pub fn from_u8(v: u8) -> (r: Stream)
        ensures
            r == Stream::spec_from_code(v),
    {
        if v == 1 {
            Stream::Realtime
        } else if v == 2 {
            Stream::Critical
        } else {
            Stream::Batch
        }
    }
}

/// One packet, header fields and payload.
pub struct Packet {
    pub flags: u8,
    pub stream: Stream,
    pub msg_id: u32,
    pub frag_index: u16,
    pub frag_total: u16,
    pub payload: Bytes,
}

/// A packet as plain values.
pub struct PacketView {
    pub flags: u8,
    pub stream: Stream,
    pub msg_id: u32,
    pub frag_index: u16,
    pub frag_total: u16,
    pub payload: Seq<u8>,
}

impl View for Packet {
    type V = PacketView;

    open spec fn view(&self) -> PacketView {
        PacketView {
            flags: self.flags,
            stream: self.stream,
            msg_id: self.msg_id,
            frag_index: self.frag_index,
            frag_total: self.frag_total,
            payload: bytes_contents(self.payload),
        }
    }
}

pub open spec fn magic() -> Seq<u8> {
    seq![0x51u8, 0x43u8, 0x50u8, 0x31u8]
}

/// The bytes that carry `p` on the wire.
pub open spec fn packet_bytes(p: PacketView) -> Seq<u8> {
    magic() + seq![p.flags, p.stream.spec_code()] + be32(p.msg_id) + be16(p.frag_index) + be16(
        p.frag_total,
    ) + be32(p.payload.len() as u32) + p.payload
}

pub open spec fn be16_value(b: Seq<u8>) -> u16 {
    (((b[0] as u16) << 8u16) | (b[1] as u16)) as u16
}

pub open spec fn be32_value(b: Seq<u8>) -> u32 {
    (((b[0] as u32) << 24u32) | ((b[1] as u32) << 16u32) | ((b[2] as u32) << 8u32) | (
    b[3] as u32)) as u32
}

/// Whether the fragment fields of a data packet are acceptable.
pub open spec fn fragment_fields_ok(flags: u8, frag_index: u16, frag_total: u16) -> bool {
    (flags & FLAG_DATA) != 0 ==> (frag_total != 0 && frag_index < frag_total && frag_total
        <= MAX_FRAGMENT_COUNT)
}

/// The packet that `b` carries, if `b` is a well-formed packet.
pub open spec fn decode_spec(b: Seq<u8>) -> Option<PacketView> {
    if b.len() < HEADER_LEN || b.take(4) != magic() {
        None
    } else {
        let flags = b[4];
        let len = be32_value(b.subrange(14, 18));
        let fi = be16_value(b.subrange(10, 12));
        let ft = be16_value(b.subrange(12, 14));
        if len > MAX_PAYLOAD || b.len() != HEADER_LEN + len {
            None
        } else if !fragment_fields_ok(flags, fi, ft) {
            None
        } else {
            Some(
                PacketView {
                    flags,
                    stream: Stream::spec_from_code(b[5]),
                    msg_id: be32_value(b.subrange(6, 10)),
                    frag_index: fi,
                    frag_total: ft,
                    payload: b.skip(HEADER_LEN as int),
                },
            )
        }
    }
}

/// Whether `p` may be put on the wire: its payload fits one packet and its
/// fragment fields are acceptable.
pub open spec fn packet_ok(p: PacketView) -> bool {
    &&& p.payload.len() <= MAX_PAYLOAD
    &&& fragment_fields_ok(p.flags, p.frag_index, p.frag_total)
}

/// Writes a packet.
pub fn encode(p: &Packet) -> (b: BytesMut)
    requires
        p@.payload.len() <= MAX_PAYLOAD,
    ensures
        bytes_mut_contents(b) == packet_bytes(p@),
{
    let payload = bytes_slice(&p.payload);
    let mut b = buf_with_capacity(HEADER_LEN + payload.len());
    buf_extend(&mut b, &[0x51u8, 0x43u8, 0x50u8, 0x31u8]);
    buf_put_u8(&mut b, p.flags);
    buf_put_u8(&mut b, p.stream.code());
    buf_put_u32(&mut b, p.msg_id);
    buf_put_u16(&mut b, p.frag_index);
    buf_put_u16(&mut b, p.frag_total);
    buf_put_u32(&mut b, payload.len() as u32);
    buf_extend(&mut b, payload);
    proof {
        assert(bytes_mut_contents(b) =~= packet_bytes(p@));
    }
    b
}

/// Reads a packet, `None` unless `buf` is a well-formed packet.
pub fn decode(buf: &[u8]) -> (r: Option<Packet>)
    ensures
        match r {
            Some(p) => decode_spec(buf@) == Some(p@),
            None => decode_spec(buf@) is None,
        },
{
    if buf.len() < HEADER_LEN || buf[0] != 0x51 || buf[1] != 0x43 || buf[2] != 0x50 || buf[3]
        != 0x31 {
        proof {
            if buf@.len() >= HEADER_LEN {
                assert(buf@.take(4)[0] == buf@[0]);
                assert(buf@.take(4)[1] == buf@[1]);
                assert(buf@.take(4)[2] == buf@[2]);
                assert(buf@.take(4)[3] == buf@[3]);
            }
        }
        return None;
    }
    proof {
        assert(buf@.take(4) =~= magic());
    }
    let flags = buf[4];
    let stream = Stream::from_u8(buf[5]);
    let msg_id: u32 = ((buf[6] as u32) << 24u32) | ((buf[7] as u32) << 16u32) | ((buf[8] as u32)
        << 8u32) | (buf[9] as u32);
    let frag_index: u16 = ((buf[10] as u16) << 8u16) | (buf[11] as u16);
    let frag_total: u16 = ((buf[12] as u16) << 8u16) | (buf[13] as u16);
    let len: u32 = ((buf[14] as u32) << 24u32) | ((buf[15] as u32) << 16u32) | ((buf[16] as u32)
        << 8u32) | (buf[17] as u32);
    proof {
        assert(msg_id == be32_value(buf@.subrange(6, 10)));
        assert(frag_index == be16_value(buf@.subrange(10, 12)));
        assert(frag_total == be16_value(buf@.subrange(12, 14)));
        assert(len == be32_value(buf@.subrange(14, 18)));
    }
    if len as usize > MAX_PAYLOAD || buf.len() != HEADER_LEN + len as usize {
        return None;
    }
    if flags & FLAG_DATA != 0 && (frag_total == 0 || frag_index >= frag_total || frag_total as usize
        > MAX_FRAGMENT_COUNT) {
        return None;
    }
    let (_, rest) = buf.split_at(HEADER_LEN);
    let payload = bytes_copy(rest);
    proof {
        assert(rest@ =~= buf@.skip(HEADER_LEN as int));
    }
    Some(Packet { flags, stream, msg_id, frag_index, frag_total, payload })
}

proof fn lemma_be16_roundtrip(n: u16)
    ensures
        be16_value(be16(n)) == n,
{
    let a = (n >> 8u16) as u8;
    let b = (n & 0xffu16) as u8;
    assert((((a as u16) << 8u16) | (b as u16)) as u16 == n) by (bit_vector)
        requires
            a == (n >> 8u16) as u8,
            b == (n & 0xffu16) as u8,
    ;
}

proof fn lemma_be32_roundtrip(n: u32)
    ensures
        be32_value(be32(n)) == n,
{
    let a = (n >> 24u32) as u8;
    let b = ((n >> 16u32) & 0xffu32) as u8;
    let c = ((n >> 8u32) & 0xffu32) as u8;
    let d = (n & 0xffu32) as u8;
    assert((((a as u32) << 24u32) | ((b as u32) << 16u32) | ((c as u32) << 8u32) | (d as u32)) as u32
        == n) by (bit_vector)
        requires
            a == (n >> 24u32) as u8,
            b == ((n >> 16u32) & 0xffu32) as u8,
            c == ((n >> 8u32) & 0xffu32) as u8,
            d == (n & 0xffu32) as u8,
    ;
}

/// Reading back the bytes of an acceptable packet gives the packet.
pub proof fn lemma_decode_encode(p: PacketView)
    requires
        packet_ok(p),
    ensures
        decode_spec(packet_bytes(p)) == Some(p),
{
    let b = packet_bytes(p);
    lemma_be16_roundtrip(p.frag_index);
    lemma_be16_roundtrip(p.frag_total);
    lemma_be32_roundtrip(p.msg_id);
    lemma_be32_roundtrip(p.payload.len() as u32);
    assert(b.take(4) =~= magic());
    assert(b.subrange(6, 10) =~= be32(p.msg_id));
    assert(b.subrange(10, 12) =~= be16(p.frag_index));
    assert(b.subrange(12, 14) =~= be16(p.frag_total));
    assert(b.subrange(14, 18) =~= be32(p.payload.len() as u32));
    assert(b.skip(HEADER_LEN as int) =~= p.payload);
    let code = p.stream.spec_code();
    assert(Stream::spec_from_code(code) == p.stream);
}

} // verus!
