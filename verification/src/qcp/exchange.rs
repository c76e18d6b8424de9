//! One direction of a QCP link, end to end: a sending end and a receiving
//! end joined by a network that may lose, repeat, delay and reorder any
//! packet, and the delivery guarantees that the link's operations give
//! together over every run of it.
//!
//! Each step is what the contracts of `CoreState`'s operations state: a
//! send is `send_step` with the packets of `fragments` (`begin_send`, after
//! `send_gate` for a reliable message), a retransmission is
//! `retransmit_step` with the packets of `resend_packets`
//! (`note_retransmit`), and a packet's arrival at either end is
//! `packet_step` (`handle_packet`).  The network is every packet an end
//! has put on it: any of them may arrive, any number of times, in any
//! order, or never.

use super::link::{
    batch_waits, chunk, filled, fragment_count_spec, fragment_fits, fragment_packets, packet_step,
    retransmit_step, send_step, AssemblerView, CoreView, MAX_MESSAGE, assembler_with, joined,
    lemma_filled_update, lemma_filled_none, lemma_filled_bound, MAX_ASSEMBLERS, DELIVERED_CAP,
};
use super::laws::{lemma_count_fits, lemma_data_flags, lemma_fragments_rejoin};
use super::wire::{PacketView, Stream, FLAG_DATA};
use vstd::prelude::*;

verus! {

/// What happens on the link, one event at a time (each with its time).
pub enum LinkEvent {
    /// The sending end sends a message on a stream.
    Send(Seq<u8>, Stream, u64),
    /// The sending end sends an in-flight message again.
    Resend(u32, u64),
    /// A packet that the sending end put on the network reaches the
    /// receiving end.
    Arrive(PacketView, u64),
    /// A packet that the receiving end put on the network reaches the
    /// sending end.
    Return(PacketView, u64),
}

/// Both ends of the link and what has passed between them.
pub struct Exchange {
    pub sender: CoreView,
    pub receiver: CoreView,
    /// Every packet the sending end has put on the network.
    pub outbound: Set<PacketView>,
    /// Every packet the receiving end has put on the network.
    pub inbound: Set<PacketView>,
    /// The messages sent, in order: id, data, stream.
    pub sent: Seq<(u32, Seq<u8>, Stream)>,
    /// The messages handed to the receiving end's reader, in order: id,
    /// data, stream.
    pub read: Seq<(u32, Seq<u8>, Stream)>,
}

/// A connection as it starts: nothing in flight, collected or delivered.
pub open spec fn fresh(v: CoreView) -> bool {
    &&& v.wf()
    &&& v.in_flight.dom().is_empty()
    &&& v.assemblers.dom().is_empty()
    &&& v.delivered.is_empty()
    &&& v.last_batch == 0
    &&& !v.closed
}

/// The link before any event.
pub open spec fn opening(sender: CoreView, receiver: CoreView) -> Exchange {
    Exchange {
        sender,
        receiver,
        outbound: Set::empty(),
        inbound: Set::empty(),
        sent: Seq::empty(),
        read: Seq::empty(),
    }
}

/// Whether a message with id `id` was sent.
pub open spec fn is_sent(sent: Seq<(u32, Seq<u8>, Stream)>, id: u32) -> bool {
    exists|k: int| 0 <= k < sent.len() && (#[trigger] sent[k]).0 == id
}

/// Whether message `id` was handed to the reader.
pub open spec fn was_read(read: Seq<(u32, Seq<u8>, Stream)>, id: u32) -> bool {
    exists|y: int| 0 <= y < read.len() && (#[trigger] read[y]).0 == id
}

/// The id of the last `Batch` message in `sent` (0: none).
pub open spec fn last_batch_id(sent: Seq<(u32, Seq<u8>, Stream)>) -> u32
    decreases sent.len(),
{
    if sent.len() == 0 {
        0
    } else if sent.last().2 == Stream::Batch {
        sent.last().0
    } else {
        last_batch_id(sent.drop_last())
    }
}

/// The link after event `e`, or `None` when `e` cannot happen.  A message
/// is sent as the application sends it: on an open, live connection, a
/// reliable one only when the window has room and no earlier `Batch`
/// message is unacknowledged; its id is not one already used in the run
/// (ids wrap only after 2^32 - 1 messages).  A packet reaches an end only
/// if the other end put it on the network, and a fragment is handed to the
/// receiving end only if it fits what that end collects for its message.
pub open spec fn exchange_step(x: Exchange, e: LinkEvent) -> Option<Exchange> {
    match e {
        LinkEvent::Send(data, stream, now) => {
            let id = x.sender.next_msg_id;
            if x.sender.closed || x.sender.dead || !(0 < data.len() <= MAX_MESSAGE) || is_sent(x.sent, id)
                || (stream != Stream::Realtime && !(x.sender.in_flight.len() < x.sender.cwnd
                && !batch_waits(x.sender, stream))) {
                None
            } else {
                Some(
                    Exchange {
                        sender: send_step(x.sender, data, stream, now),
                        outbound: x.outbound + fragment_packets(data, stream, id).to_set(),
                        sent: x.sent.push((id, data, stream)),
                        ..x
                    },
                )
            }
        },
        LinkEvent::Resend(id, now) => {
            if x.sender.in_flight.contains_key(id) {
                let f = x.sender.in_flight[id];
                Some(
                    Exchange {
                        sender: retransmit_step(x.sender, id, now),
                        outbound: x.outbound + fragment_packets(f.data, f.stream, id).to_set(),
                        ..x
                    },
                )
            } else {
                None
            }
        },
        LinkEvent::Arrive(p, now) => {
            if x.outbound.contains(p) && fragment_fits(x.receiver, p) {
                let (r, o) = packet_step(x.receiver, p, now);
                Some(
                    Exchange {
                        receiver: r,
                        inbound: match o.reply {
                            Some(q) => x.inbound.insert(q),
                            None => x.inbound,
                        },
                        read: match o.deliver {
                            Some((d, s)) => x.read.push((p.msg_id, d, s)),
                            None => x.read,
                        },
                        ..x
                    },
                )
            } else {
                None
            }
        },
        LinkEvent::Return(p, now) => {
            if x.inbound.contains(p) {
                Some(Exchange { sender: packet_step(x.sender, p, now).0, ..x })
            } else {
                None
            }
        },
    }
}

/// The link after events `es` in order, or `None` when one of them cannot
/// happen.
pub open spec fn run(x: Exchange, es: Seq<LinkEvent>) -> Option<Exchange>
    decreases es.len(),
{
    if es.len() == 0 {
        Some(x)
    } else {
        match run(x, es.drop_last()) {
            Some(y) => exchange_step(y, es.last()),
            None => None,
        }
    }
}

/// Whether packet `p` is a fragment of a message in `sent`.
pub open spec fn carried(sent: Seq<(u32, Seq<u8>, Stream)>, p: PacketView) -> bool {
    exists|k: int, i: int|
        0 <= k < sent.len() && 0 <= i < fragment_count_spec(sent[k].1.len())
            && p == #[trigger] fragment_packets(sent[k].1, sent[k].2, sent[k].0)[i]
}

/// `Batch` messages are read in the order they were sent.
pub open spec fn batch_order(x: Exchange) -> bool {
    forall|a: int, b: int, y: int|
        0 <= a < b < x.sent.len() && x.sent[a].2 == Stream::Batch && x.sent[b].2 == Stream::Batch
            && 0 <= y < x.read.len() && (#[trigger] x.read[y]).0 == (#[trigger] x.sent[b]).0
            ==> exists|z: int| 0 <= z < y && (#[trigger] x.read[z]).0 == (#[trigger] x.sent[a]).0
}

/// The ids and lengths of the messages sent: ids are not 0 and not
/// repeated, and the next id is not 0; the receiving end stays open.
#[verifier::opaque]
pub open spec fn ids_ok(x: Exchange) -> bool {
    &&& !x.receiver.closed
    &&& x.sender.next_msg_id != 0
    &&& forall|k: int| 0 <= k < x.sent.len() ==> (#[trigger] x.sent[k]).0 != 0 && 0 < x.sent[k].1.len() <= MAX_MESSAGE
    &&& forall|a: int, b: int| 0 <= a < b < x.sent.len() ==> (#[trigger] x.sent[a]).0 != (#[trigger] x.sent[b]).0
}

/// Every packet on the way to the receiving end is a fragment of a sent
/// message.
#[verifier::opaque]
pub open spec fn outbound_ok(x: Exchange) -> bool {
    forall|p: PacketView| #[trigger] x.outbound.contains(p) ==> carried(x.sent, p)
}

/// Every message in flight is a reliable message that was sent, with its
/// data and stream.
#[verifier::opaque]
pub open spec fn in_flight_ok(x: Exchange) -> bool {
    forall|id: u32| #[trigger] x.sender.in_flight.contains_key(id) ==> exists|k: int|
        0 <= k < x.sent.len() && (#[trigger] x.sent[k]).0 == id && x.sent[k].2 != Stream::Realtime
            && x.sender.in_flight[id].data == x.sent[k].1 && x.sender.in_flight[id].stream == x.sent[k].2
}

/// Every message read was sent; every id the receiving end counts as
/// delivered, and every packet it put on the network, belongs to a message
/// read.
#[verifier::opaque]
pub open spec fn read_ok(x: Exchange) -> bool {
    &&& forall|y: int| 0 <= y < x.read.len() ==> is_sent(x.sent, (#[trigger] x.read[y]).0)
    &&& forall|id: u32| #[trigger] x.receiver.delivered.contains(id) ==> was_read(x.read, id)
    &&& forall|q: PacketView| #[trigger] x.inbound.contains(q) ==> was_read(x.read, q.msg_id)
}

/// Every reliable message sent is in flight or read, and the sending end
/// remembers the last `Batch` message.
#[verifier::opaque]
pub open spec fn reliable_ok(x: Exchange) -> bool {
    &&& forall|k: int|
        0 <= k < x.sent.len() && (#[trigger] x.sent[k]).2 != Stream::Realtime ==> x.sender.in_flight.contains_key(
            x.sent[k].0,
        ) || was_read(x.read, x.sent[k].0)
    &&& x.sender.last_batch == last_batch_id(x.sent)
}

/// Each `Batch` message followed by another was read.
#[verifier::opaque]
pub open spec fn batches_read(x: Exchange) -> bool {
    forall|a: int, b: int|
        0 <= a < b < x.sent.len() && (#[trigger] x.sent[a]).2 == Stream::Batch && (#[trigger] x.sent[b]).2
            == Stream::Batch ==> was_read(x.read, x.sent[a].0)
}

/// What holds of the link after every run.
pub open spec fn coherent(x: Exchange) -> bool {
    &&& ids_ok(x)
    &&& outbound_ok(x)
    &&& in_flight_ok(x)
    &&& read_ok(x)
    &&& reliable_ok(x)
    &&& batches_read(x)
    &&& batch_order(x)
}

/// Every `Batch` message of `sent` is the last one, or comes before it.
proof fn lemma_last_batch(sent: Seq<(u32, Seq<u8>, Stream)>)
    ensures
        forall|a: int|
            0 <= a < sent.len() && (#[trigger] sent[a]).2 == Stream::Batch ==> (sent[a].0 == last_batch_id(sent)
                || exists|l: int| a < l < sent.len() && (#[trigger] sent[l]).2 == Stream::Batch && sent[l].0 == last_batch_id(sent)),
    decreases sent.len(),
{
    if sent.len() > 0 {
        let s0 = sent.drop_last();
        lemma_last_batch(s0);
        let n = sent.len() - 1;
        assert forall|a: int|
            0 <= a < sent.len() && (#[trigger] sent[a]).2 == Stream::Batch implies (sent[a].0 == last_batch_id(sent)
                || exists|l: int| a < l < sent.len() && (#[trigger] sent[l]).2 == Stream::Batch && sent[l].0 == last_batch_id(sent)) by {
            if a < n {
                assert(sent[a] == s0[a]);
                if sent.last().2 == Stream::Batch {
                    assert(sent[n].2 == Stream::Batch && sent[n].0 == last_batch_id(sent));
                } else {
                    if s0[a].0 != last_batch_id(s0) {
                        let l = choose|l: int| a < l < s0.len() && (#[trigger] s0[l]).2 == Stream::Batch && s0[l].0 == last_batch_id(s0);
                        assert(sent[l] == s0[l]);
                    }
                }
            }
        }
    }
}

proof fn lemma_opening_coherent(sender: CoreView, receiver: CoreView)
    requires
        fresh(sender),
        fresh(receiver),
    ensures
        coherent(opening(sender, receiver)),
{
    let x = opening(sender, receiver);
    reveal(ids_ok);
    reveal(outbound_ok);
    reveal(in_flight_ok);
    reveal(read_ok);
    reveal(reliable_ok);
    reveal(batches_read);
    assert forall|id: u32| #[trigger] x.sender.in_flight.contains_key(id) implies false by {
        assert(sender.in_flight.dom().contains(id));
    }
}

/// The link after sending `data` on `stream` at `now`.
spec fn after_send(x: Exchange, data: Seq<u8>, stream: Stream, now: u64) -> Exchange {
    exchange_step(x, LinkEvent::Send(data, stream, now))->0
}

proof fn lemma_send_shape(x: Exchange, data: Seq<u8>, stream: Stream, now: u64)
    requires
        exchange_step(x, LinkEvent::Send(data, stream, now)) is Some,
    ensures
        ({
            let x2 = after_send(x, data, stream, now);
            &&& x2.sent == x.sent.push((x.sender.next_msg_id, data, stream))
            &&& x2.read == x.read && x2.receiver == x.receiver && x2.inbound == x.inbound
            &&& x2.sender == send_step(x.sender, data, stream, now)
            &&& x2.outbound == x.outbound + fragment_packets(data, stream, x.sender.next_msg_id).to_set()
            &&& !is_sent(x.sent, x.sender.next_msg_id)
            &&& 0 < data.len() <= MAX_MESSAGE
            &&& stream != Stream::Realtime ==> !batch_waits(x.sender, stream)
        }),
{
}

proof fn lemma_send_ids(x: Exchange, data: Seq<u8>, stream: Stream, now: u64)
    requires
        coherent(x),
        exchange_step(x, LinkEvent::Send(data, stream, now)) is Some,
    ensures
        ids_ok(after_send(x, data, stream, now)),
{
    reveal(ids_ok);
    lemma_send_shape(x, data, stream, now);
    let x2 = after_send(x, data, stream, now);
    let n = x.sent.len() as int;
    assert forall|k: int| 0 <= k < x2.sent.len() implies (#[trigger] x2.sent[k]).0 != 0 && 0 < x2.sent[k].1.len() <= MAX_MESSAGE by {
        if k < n {
            assert(x2.sent[k] == x.sent[k]);
        }
    }
    assert forall|a: int, b: int| 0 <= a < b < x2.sent.len() implies (#[trigger] x2.sent[a]).0 != (#[trigger] x2.sent[b]).0 by {
        assert(x2.sent[a] == x.sent[a]);
        if b == n {
            if x.sent[a].0 == x.sender.next_msg_id {
                assert(is_sent(x.sent, x.sender.next_msg_id));
            }
        } else {
            assert(x2.sent[b] == x.sent[b]);
        }
    }
}

proof fn lemma_send_outbound(x: Exchange, data: Seq<u8>, stream: Stream, now: u64)
    requires
        coherent(x),
        exchange_step(x, LinkEvent::Send(data, stream, now)) is Some,
    ensures
        outbound_ok(after_send(x, data, stream, now)),
{
    reveal(outbound_ok);
    lemma_send_shape(x, data, stream, now);
    let x2 = after_send(x, data, stream, now);
    let id = x.sender.next_msg_id;
    let n = x.sent.len() as int;
    let frs = fragment_packets(data, stream, id);
    assert(x2.sent[n] == (id, data, stream));
    assert forall|p: PacketView| #[trigger] x2.outbound.contains(p) implies carried(x2.sent, p) by {
        if x.outbound.contains(p) {
            let (k, i) = choose|k: int, i: int|
                0 <= k < x.sent.len() && 0 <= i < fragment_count_spec(x.sent[k].1.len())
                    && p == #[trigger] fragment_packets(x.sent[k].1, x.sent[k].2, x.sent[k].0)[i];
            assert(x2.sent[k] == x.sent[k]);
            assert(p == fragment_packets(x2.sent[k].1, x2.sent[k].2, x2.sent[k].0)[i]);
        } else {
            assert(frs.to_set().contains(p));
            let i = choose|i: int| 0 <= i < frs.len() && frs[i] == p;
            assert(p == fragment_packets(x2.sent[n].1, x2.sent[n].2, x2.sent[n].0)[i]);
        }
    }
}

proof fn lemma_send_in_flight(x: Exchange, data: Seq<u8>, stream: Stream, now: u64)
    requires
        coherent(x),
        exchange_step(x, LinkEvent::Send(data, stream, now)) is Some,
    ensures
        in_flight_ok(after_send(x, data, stream, now)),
{
    reveal(in_flight_ok);
    lemma_send_shape(x, data, stream, now);
    let x2 = after_send(x, data, stream, now);
    let id = x.sender.next_msg_id;
    let n = x.sent.len() as int;
    assert(x2.sent[n] == (id, data, stream));
    assert forall|fid: u32| #[trigger] x2.sender.in_flight.contains_key(fid) implies exists|k: int|
        0 <= k < x2.sent.len() && (#[trigger] x2.sent[k]).0 == fid && x2.sent[k].2 != Stream::Realtime
            && x2.sender.in_flight[fid].data == x2.sent[k].1 && x2.sender.in_flight[fid].stream == x2.sent[k].2 by {
        if fid == id && stream != Stream::Realtime {
            assert(x2.sent[n].0 == fid);
        } else {
            let k = choose|k: int|
                0 <= k < x.sent.len() && (#[trigger] x.sent[k]).0 == fid && x.sent[k].2 != Stream::Realtime
                    && x.sender.in_flight[fid].data == x.sent[k].1 && x.sender.in_flight[fid].stream == x.sent[k].2;
            assert(x2.sent[k] == x.sent[k]);
        }
    }
}

proof fn lemma_send_read(x: Exchange, data: Seq<u8>, stream: Stream, now: u64)
    requires
        coherent(x),
        exchange_step(x, LinkEvent::Send(data, stream, now)) is Some,
    ensures
        read_ok(after_send(x, data, stream, now)),
{
    reveal(read_ok);
    lemma_send_shape(x, data, stream, now);
    let x2 = after_send(x, data, stream, now);
    assert forall|y: int| 0 <= y < x2.read.len() implies is_sent(x2.sent, (#[trigger] x2.read[y]).0) by {
        let k = choose|k: int| 0 <= k < x.sent.len() && (#[trigger] x.sent[k]).0 == x.read[y].0;
        assert(x2.sent[k] == x.sent[k]);
    }
}

proof fn lemma_send_reliable(x: Exchange, data: Seq<u8>, stream: Stream, now: u64)
    requires
        coherent(x),
        exchange_step(x, LinkEvent::Send(data, stream, now)) is Some,
    ensures
        reliable_ok(after_send(x, data, stream, now)),
{
    reveal(reliable_ok);
    lemma_send_shape(x, data, stream, now);
    let x2 = after_send(x, data, stream, now);
    let n = x.sent.len() as int;
    assert(x2.sent[n] == (x.sender.next_msg_id, data, stream));
    assert forall|k: int|
        0 <= k < x2.sent.len() && (#[trigger] x2.sent[k]).2 != Stream::Realtime implies x2.sender.in_flight.contains_key(
            x2.sent[k].0,
        ) || was_read(x2.read, x2.sent[k].0) by {
        if k < n {
            assert(x2.sent[k] == x.sent[k]);
        }
    }
    assert(x2.sent.drop_last() == x.sent);
}

#[verifier::rlimit(60)]
proof fn lemma_send_batches(x: Exchange, data: Seq<u8>, stream: Stream, now: u64)
    requires
        coherent(x),
        exchange_step(x, LinkEvent::Send(data, stream, now)) is Some,
    ensures
        batches_read(after_send(x, data, stream, now)),
{
    lemma_send_shape(x, data, stream, now);
    let x2 = after_send(x, data, stream, now);
    let n = x.sent.len() as int;
    let last = last_batch_id(x.sent);
    assert(x.sender.last_batch == last && forall|k: int|
        0 <= k < x.sent.len() && (#[trigger] x.sent[k]).2 != Stream::Realtime ==> x.sender.in_flight.contains_key(
            x.sent[k].0,
        ) || was_read(x.read, x.sent[k].0)) by {
        reveal(reliable_ok);
    }
    assert(forall|k: int| 0 <= k < x.sent.len() ==> (#[trigger] x.sent[k]).0 != 0) by {
        reveal(ids_ok);
    }
    assert(forall|a: int, b: int|
        0 <= a < b < x.sent.len() && (#[trigger] x.sent[a]).2 == Stream::Batch && (#[trigger] x.sent[b]).2
            == Stream::Batch ==> was_read(x.read, x.sent[a].0)) by {
        reveal(batches_read);
    }
    lemma_last_batch(x.sent);
    assert forall|a: int, b: int|
        0 <= a < b < x2.sent.len() && (#[trigger] x2.sent[a]).2 == Stream::Batch && (#[trigger] x2.sent[b]).2
            == Stream::Batch implies was_read(x2.read, x2.sent[a].0) by {
        assert(x2.sent[a] == x.sent[a]);
        if b == n {
            assert(stream == Stream::Batch);
            if x.sent[a].0 != last {
                let l = choose|l: int| a < l < x.sent.len() && (#[trigger] x.sent[l]).2 == Stream::Batch && x.sent[l].0 == last;
                assert(was_read(x.read, x.sent[a].0));
            } else {
                assert(x.sent[a].0 != 0);
                assert(!x.sender.in_flight.contains_key(x.sent[a].0));
                assert(was_read(x.read, x.sent[a].0));
            }
        } else {
            assert(x2.sent[b] == x.sent[b]);
        }
    }
    reveal(batches_read);
}

proof fn lemma_send_order(x: Exchange, data: Seq<u8>, stream: Stream, now: u64)
    requires
        coherent(x),
        exchange_step(x, LinkEvent::Send(data, stream, now)) is Some,
    ensures
        batch_order(after_send(x, data, stream, now)),
{
    reveal(read_ok);
    lemma_send_shape(x, data, stream, now);
    let x2 = after_send(x, data, stream, now);
    let n = x.sent.len() as int;
    assert forall|a: int, b: int, y: int|
        0 <= a < b < x2.sent.len() && x2.sent[a].2 == Stream::Batch && x2.sent[b].2 == Stream::Batch
            && 0 <= y < x2.read.len() && (#[trigger] x2.read[y]).0 == (#[trigger] x2.sent[b]).0
            implies exists|z: int| 0 <= z < y && (#[trigger] x2.read[z]).0 == (#[trigger] x2.sent[a]).0 by {
        assert(x2.sent[a] == x.sent[a]);
        if b == n {
            assert(is_sent(x.sent, x.read[y].0));
            assert(false);
        } else {
            assert(x2.sent[b] == x.sent[b]);
        }
    }
}

proof fn lemma_send_keeps(x: Exchange, data: Seq<u8>, stream: Stream, now: u64)
    requires
        coherent(x),
        exchange_step(x, LinkEvent::Send(data, stream, now)) is Some,
    ensures
        coherent(after_send(x, data, stream, now)),
{
    lemma_send_ids(x, data, stream, now);
    lemma_send_outbound(x, data, stream, now);
    lemma_send_in_flight(x, data, stream, now);
    lemma_send_read(x, data, stream, now);
    lemma_send_reliable(x, data, stream, now);
    lemma_send_batches(x, data, stream, now);
    lemma_send_order(x, data, stream, now);
}

proof fn lemma_resend_keeps(x: Exchange, id: u32, now: u64)
    requires
        coherent(x),
        exchange_step(x, LinkEvent::Resend(id, now)) is Some,
    ensures
        coherent(exchange_step(x, LinkEvent::Resend(id, now))->0),
{
    reveal(ids_ok);
    reveal(outbound_ok);
    reveal(in_flight_ok);
    reveal(read_ok);
    reveal(reliable_ok);
    reveal(batches_read);
    let x2 = exchange_step(x, LinkEvent::Resend(id, now))->0;
    let f = x.sender.in_flight[id];
    let frs = fragment_packets(f.data, f.stream, id);
    let k0 = choose|k: int|
        0 <= k < x.sent.len() && (#[trigger] x.sent[k]).0 == id && x.sent[k].2 != Stream::Realtime
            && x.sender.in_flight[id].data == x.sent[k].1 && x.sender.in_flight[id].stream == x.sent[k].2;
    assert forall|p: PacketView| #[trigger] x2.outbound.contains(p) implies carried(x2.sent, p) by {
        if !x.outbound.contains(p) {
            assert(frs.to_set().contains(p));
            let i = choose|i: int| 0 <= i < frs.len() && frs[i] == p;
            assert(p == fragment_packets(x2.sent[k0].1, x2.sent[k0].2, x2.sent[k0].0)[i]);
        }
    }
    assert forall|fid: u32| #[trigger] x2.sender.in_flight.contains_key(fid) implies exists|k: int|
        0 <= k < x2.sent.len() && (#[trigger] x2.sent[k]).0 == fid && x2.sent[k].2 != Stream::Realtime
            && x2.sender.in_flight[fid].data == x2.sent[k].1 && x2.sender.in_flight[fid].stream == x2.sent[k].2 by {
        assert(x.sender.in_flight.contains_key(fid));
    }
    assert forall|k: int|
        0 <= k < x2.sent.len() && (#[trigger] x2.sent[k]).2 != Stream::Realtime implies x2.sender.in_flight.contains_key(
            x2.sent[k].0,
        ) || was_read(x2.read, x2.sent[k].0) by {}
}

/// What a data packet does to an open receiving end.
proof fn lemma_data_packet(v: CoreView, p: PacketView, now: u64)
    requires
        !v.closed,
        p.flags == FLAG_DATA,
    ensures
        ({
            let (r, o) = packet_step(v, p, now);
            &&& !r.closed
            &&& o.reply matches Some(q) ==> q.msg_id == p.msg_id && (o.deliver is Some || v.delivered.contains(p.msg_id))
            &&& forall|id: u32| #[trigger] r.delivered.contains(id) ==> v.delivered.contains(id) || (id == p.msg_id && o.deliver is Some)
            &&& o.deliver matches Some((d, s)) ==> s == p.stream
        }),
{
    lemma_data_flags();
}

/// The link after packet `p` reaches the receiving end at `now`.
spec fn after_arrive(x: Exchange, p: PacketView, now: u64) -> Exchange {
    exchange_step(x, LinkEvent::Arrive(p, now))->0
}

proof fn lemma_arrive_shape(x: Exchange, p: PacketView, now: u64)
    requires
        coherent(x),
        exchange_step(x, LinkEvent::Arrive(p, now)) is Some,
    ensures
        ({
            let x2 = after_arrive(x, p, now);
            let (r, o) = packet_step(x.receiver, p, now);
            &&& x2.sent == x.sent && x2.sender == x.sender && x2.outbound == x.outbound
            &&& x2.receiver == r
            &&& x2.inbound == match o.reply {
                Some(q) => x.inbound.insert(q),
                None => x.inbound,
            }
            &&& x2.read == match o.deliver {
                Some((d, s)) => x.read.push((p.msg_id, d, s)),
                None => x.read,
            }
            &&& is_sent(x.sent, p.msg_id)
            &&& p.flags == FLAG_DATA
            &&& !x.receiver.closed
            &&& x.read.len() <= x2.read.len() <= x.read.len() + 1
            &&& forall|y: int| 0 <= y < x.read.len() ==> #[trigger] x2.read[y] == x.read[y]
        }),
{
    reveal(outbound_ok);
    reveal(ids_ok);
    let (k, i) = choose|k: int, i: int|
        0 <= k < x.sent.len() && 0 <= i < fragment_count_spec(x.sent[k].1.len())
            && p == #[trigger] fragment_packets(x.sent[k].1, x.sent[k].2, x.sent[k].0)[i];
    assert(x.sent[k].0 == p.msg_id);
}

proof fn lemma_arrive_keeps(x: Exchange, p: PacketView, now: u64)
    requires
        coherent(x),
        exchange_step(x, LinkEvent::Arrive(p, now)) is Some,
    ensures
        coherent(after_arrive(x, p, now)),
{
    lemma_arrive_shape(x, p, now);
    let x2 = after_arrive(x, p, now);
    let (r, o) = packet_step(x.receiver, p, now);
    lemma_data_packet(x.receiver, p, now);
    let n = x.read.len() as int;
    assert forall|id: u32| was_read(x.read, id) implies was_read(x2.read, id) by {
        let y = choose|y: int| 0 <= y < x.read.len() && (#[trigger] x.read[y]).0 == id;
        assert(x2.read[y] == x.read[y]);
    }
    if o.deliver is Some {
        assert(x2.read[n].0 == p.msg_id);
        assert(was_read(x2.read, p.msg_id));
    }
    assert(ids_ok(x2)) by {
        reveal(ids_ok);
    }
    assert(outbound_ok(x2)) by {
        reveal(outbound_ok);
    }
    assert(in_flight_ok(x2)) by {
        reveal(in_flight_ok);
    }
    assert(read_ok(x2)) by {
        reveal(read_ok);
        assert forall|y: int| 0 <= y < x2.read.len() implies is_sent(x2.sent, (#[trigger] x2.read[y]).0) by {
            if y < n {
                assert(x2.read[y] == x.read[y]);
            }
        }
        assert forall|id: u32| #[trigger] x2.receiver.delivered.contains(id) implies was_read(x2.read, id) by {
            if x.receiver.delivered.contains(id) {
                assert(was_read(x.read, id));
            }
        }
        assert forall|q: PacketView| #[trigger] x2.inbound.contains(q) implies was_read(x2.read, q.msg_id) by {
            if x.inbound.contains(q) {
                assert(was_read(x.read, q.msg_id));
            } else {
                if o.deliver is None {
                    assert(x.receiver.delivered.contains(p.msg_id));
                    assert(was_read(x.read, p.msg_id));
                }
            }
        }
    }
    assert(reliable_ok(x2)) by {
        reveal(reliable_ok);
        assert forall|k: int|
            0 <= k < x2.sent.len() && (#[trigger] x2.sent[k]).2 != Stream::Realtime implies x2.sender.in_flight.contains_key(
                x2.sent[k].0,
            ) || was_read(x2.read, x2.sent[k].0) by {
            if !x.sender.in_flight.contains_key(x.sent[k].0) {
                assert(was_read(x.read, x.sent[k].0));
            }
        }
    }
    assert(batches_read(x2)) by {
        reveal(batches_read);
        assert forall|a: int, b: int|
            0 <= a < b < x2.sent.len() && (#[trigger] x2.sent[a]).2 == Stream::Batch && (#[trigger] x2.sent[b]).2
                == Stream::Batch implies was_read(x2.read, x2.sent[a].0) by {
            assert(was_read(x.read, x.sent[a].0));
        }
    }
    assert(batch_order(x2)) by {
        assert forall|a: int, b: int, y: int|
            0 <= a < b < x2.sent.len() && x2.sent[a].2 == Stream::Batch && x2.sent[b].2 == Stream::Batch
                && 0 <= y < x2.read.len() && (#[trigger] x2.read[y]).0 == (#[trigger] x2.sent[b]).0
                implies exists|z: int| 0 <= z < y && (#[trigger] x2.read[z]).0 == (#[trigger] x2.sent[a]).0 by {
            if y < n {
                assert(x2.read[y] == x.read[y]);
                let z = choose|z: int| 0 <= z < y && (#[trigger] x.read[z]).0 == x.sent[a].0;
                assert(x2.read[z] == x.read[z]);
            } else {
                assert(was_read(x.read, x.sent[a].0)) by {
                    reveal(batches_read);
                }
                let z = choose|z: int| 0 <= z < x.read.len() && (#[trigger] x.read[z]).0 == x.sent[a].0;
                assert(x2.read[z] == x.read[z]);
            }
        }
    }
}

/// What any packet does to the sending end's record of messages in flight:
/// at most the packet's own message leaves it, and the rest stays as it
/// was.
proof fn lemma_packet_keeps_in_flight(v: CoreView, q: PacketView, now: u64)
    ensures
        ({
            let r = packet_step(v, q, now).0;
            &&& r.last_batch == v.last_batch
            &&& r.next_msg_id == v.next_msg_id
            &&& forall|id: u32| #[trigger] r.in_flight.contains_key(id) ==> v.in_flight.contains_key(id)
                && r.in_flight[id] == v.in_flight[id]
            &&& forall|id: u32| id != q.msg_id && #[trigger] v.in_flight.contains_key(id) ==> r.in_flight.contains_key(id)
        }),
{
}

proof fn lemma_return_keeps(x: Exchange, q: PacketView, now: u64)
    requires
        coherent(x),
        exchange_step(x, LinkEvent::Return(q, now)) is Some,
    ensures
        coherent(exchange_step(x, LinkEvent::Return(q, now))->0),
{
    let x2 = exchange_step(x, LinkEvent::Return(q, now))->0;
    lemma_packet_keeps_in_flight(x.sender, q, now);
    assert(was_read(x.read, q.msg_id)) by {
        reveal(read_ok);
    }
    assert(ids_ok(x2)) by {
        reveal(ids_ok);
    }
    assert(outbound_ok(x2)) by {
        reveal(outbound_ok);
    }
    assert(read_ok(x2)) by {
        reveal(read_ok);
    }
    assert(batches_read(x2)) by {
        reveal(batches_read);
    }
    assert(in_flight_ok(x2)) by {
        reveal(in_flight_ok);
        assert forall|fid: u32| #[trigger] x2.sender.in_flight.contains_key(fid) implies exists|k: int|
            0 <= k < x2.sent.len() && (#[trigger] x2.sent[k]).0 == fid && x2.sent[k].2 != Stream::Realtime
                && x2.sender.in_flight[fid].data == x2.sent[k].1 && x2.sender.in_flight[fid].stream == x2.sent[k].2 by {
            assert(x.sender.in_flight.contains_key(fid));
        }
    }
    assert(reliable_ok(x2)) by {
        reveal(reliable_ok);
        assert forall|k: int|
            0 <= k < x2.sent.len() && (#[trigger] x2.sent[k]).2 != Stream::Realtime implies x2.sender.in_flight.contains_key(
                x2.sent[k].0,
            ) || was_read(x2.read, x2.sent[k].0) by {
            if x.sent[k].0 != q.msg_id && x.sender.in_flight.contains_key(x.sent[k].0) {
                assert(x2.sender.in_flight.contains_key(x.sent[k].0));
            }
        }
    }
}

proof fn lemma_step_keeps(x: Exchange, e: LinkEvent)
    requires
        coherent(x),
        exchange_step(x, e) is Some,
    ensures
        coherent(exchange_step(x, e)->0),
{
    match e {
        LinkEvent::Send(data, stream, now) => lemma_send_keeps(x, data, stream, now),
        LinkEvent::Resend(id, now) => lemma_resend_keeps(x, id, now),
        LinkEvent::Arrive(p, now) => lemma_arrive_keeps(x, p, now),
        LinkEvent::Return(q, now) => lemma_return_keeps(x, q, now),
    }
}

/// Whether message `m` was handed to the reader before position `y`.
pub open spec fn read_before(read: Seq<(u32, Seq<u8>, Stream)>, y: int, m: (u32, Seq<u8>, Stream)) -> bool {
    exists|z: int| 0 <= z < y && read[z] == m
}

/// `Batch` messages reach the reader in the order they were sent.  Over any
/// run of a link from two fresh ends, whatever the network loses, repeats,
/// delays or reorders: when a `Batch` message is handed to the reader, every
/// `Batch` message sent before it was handed over, whole, before it.
pub proof fn lemma_batch_messages_read_in_order(sender: CoreView, receiver: CoreView, es: Seq<LinkEvent>)
    requires
        fresh(sender),
        fresh(receiver),
        run(opening(sender, receiver), es) is Some,
    ensures
        ({
            let x = run(opening(sender, receiver), es)->0;
            forall|a: int, b: int, y: int|
                0 <= a < b < x.sent.len() && x.sent[a].2 == Stream::Batch && x.sent[b].2 == Stream::Batch && 0 <= y
                    < x.read.len() && #[trigger] x.read[y] == #[trigger] x.sent[b] ==> read_before(x.read, y, #[trigger] x.sent[a])
        }),
{
    lemma_run_sound(sender, receiver, es);
    let x = run(opening(sender, receiver), es)->0;
    reveal(read_whole);
    reveal(ids_ok);
    assert forall|a: int, b: int, y: int|
        0 <= a < b < x.sent.len() && x.sent[a].2 == Stream::Batch && x.sent[b].2 == Stream::Batch && 0 <= y
            < x.read.len() && #[trigger] x.read[y] == #[trigger] x.sent[b] implies read_before(x.read, y, #[trigger] x.sent[a]) by {
        assert(x.read[y].0 == x.sent[b].0);
        let z = choose|z: int| 0 <= z < y && (#[trigger] x.read[z]).0 == x.sent[a].0;
        assert(is_sent_message(x.sent, x.read[z]));
        let k = choose|k: int| 0 <= k < x.sent.len() && x.sent[k] == x.read[z];
        if k < a {
            assert(x.sent[k].0 != x.sent[a].0);
        } else if k > a {
            assert(x.sent[a].0 != x.sent[k].0);
        }
        assert(x.read[z] == x.sent[a]);
    }
}

/// Whether assembler `a` holds part of message `data`: one slot per
/// fragment, each empty or holding that fragment, and its count right.
pub open spec fn holds_part_of(a: AssemblerView, data: Seq<u8>) -> bool {
    &&& a.frags.len() == fragment_count_spec(data.len())
    &&& a.got == filled(a.frags)
    &&& forall|j: int| 0 <= j < a.frags.len() ==> (#[trigger] a.frags[j] is None || a.frags[j] == Some(chunk(data, j)))
}

proof fn lemma_filled_full(s: Seq<Option<Seq<u8>>>)
    ensures
        filled(s) == s.len() <==> forall|j: int| 0 <= j < s.len() ==> (#[trigger] s[j]) is Some,
    decreases s.len(),
{
    if s.len() > 0 {
        lemma_filled_full(s.drop_last());
        lemma_filled_bound(s.drop_last());
        if filled(s) == s.len() {
            assert forall|j: int| 0 <= j < s.len() implies (#[trigger] s[j]) is Some by {
                if j < s.len() - 1 {
                    assert(s[j] == s.drop_last()[j]);
                }
            }
        }
        if forall|j: int| 0 <= j < s.len() ==> (#[trigger] s[j]) is Some {
            assert forall|j: int| 0 <= j < s.drop_last().len() implies (#[trigger] s.drop_last()[j]) is Some by {
                assert(s.drop_last()[j] == s[j]);
            }
            assert(s[s.len() - 1] is Some);
        }
    }
}

/// A full assembler of `data`'s fragments joins back to `data`.
proof fn lemma_full_assembler_joins(a: AssemblerView, data: Seq<u8>, stream: Stream, id: u32)
    requires
        holds_part_of(a, data),
        a.got == a.frags.len(),
    ensures
        joined(a.frags) == data,
{
    lemma_filled_full(a.frags);
    let ps = fragment_packets(data, stream, id);
    assert(a.frags =~= ps.map_values(|p: PacketView| Some(p.payload))) by {
        assert forall|j: int| 0 <= j < a.frags.len() implies a.frags[j] == ps.map_values(|p: PacketView| Some(p.payload))[j] by {
            assert(a.frags[j] is Some);
        }
    }
    lemma_fragments_rejoin(data, stream, id);
}

/// What the `i`-th fragment of message `id` (`data` on `stream`) does to an
/// open receiving end whose assembler for the message, if any, holds part
/// of it.
#[verifier::rlimit(60)]
proof fn lemma_fragment_effect(v: CoreView, p: PacketView, now: u64, data: Seq<u8>, stream: Stream, id: u32, i: int)
    requires
        !v.closed,
        0 < data.len() <= MAX_MESSAGE,
        0 <= i < fragment_count_spec(data.len()),
        p == fragment_packets(data, stream, id)[i],
        v.assemblers.contains_key(id) ==> holds_part_of(v.assemblers[id], data),
    ensures
        ({
            let (r, o) = packet_step(v, p, now);
            &&& forall|j: u32| j != id ==> (#[trigger] r.assemblers.contains_key(j) == v.assemblers.contains_key(j))
                && (v.assemblers.contains_key(j) ==> r.assemblers[j] == v.assemblers[j])
            &&& r.assemblers.contains_key(id) ==> holds_part_of(r.assemblers[id], data) && (r.assemblers[id].got
                < r.assemblers[id].frags.len() || (stream != Stream::Realtime && v.delivered.contains(id))
                || (v.assemblers.contains_key(id) && r.assemblers[id] == v.assemblers[id]))
            &&& o.deliver matches Some((dd, s)) ==> dd == data && s == stream
            &&& stream != Stream::Realtime && (v.assemblers.contains_key(id) || v.assemblers.len() < MAX_ASSEMBLERS)
                ==> o.deliver is Some || (r.assemblers.contains_key(id) && r.assemblers[id].frags[i] is Some)
            &&& forall|j: int| 0 <= j < fragment_count_spec(data.len()) && v.assemblers.contains_key(id)
                && (#[trigger] v.assemblers[id].frags[j]) is Some ==> o.deliver is Some || (r.assemblers.contains_key(id)
                && r.assemblers[id].frags[j] is Some)
            &&& o.deliver is Some && stream != Stream::Realtime ==> !v.delivered.contains(id) && r.delivered == (
                if v.delivered.insert(id).len() > DELIVERED_CAP {
                    Set::empty()
                } else {
                    v.delivered.insert(id)
                })
            &&& (o.deliver is None || stream == Stream::Realtime) ==> r.delivered == v.delivered
        }),
{
    lemma_data_flags();
    let n = fragment_count_spec(data.len());
    lemma_count_fits(data.len());
    assert(p.flags == FLAG_DATA && p.msg_id == id && p.stream == stream);
    assert(p.frag_index as int == i && p.frag_total as nat == n && p.payload == chunk(data, i));
    let v1 = CoreView { last_activity_ms: now, ..v };
    let c0 = if v1.assemblers.contains_key(id) {
        v1.assemblers[id]
    } else {
        AssemblerView { frags: Seq::new(p.frag_total as nat, |j: int| None), got: 0 }
    };
    if !v1.assemblers.contains_key(id) {
        lemma_filled_none(n);
    }
    assert(holds_part_of(c0, data));
    let c = assembler_with(v1, p);
    if c0.frags[i] is None {
        lemma_filled_update(c0.frags, i, chunk(data, i));
        assert forall|j: int| 0 <= j < c.frags.len() implies (#[trigger] c.frags[j] is None || c.frags[j] == Some(chunk(data, j))) by {
            if j != i {
                assert(c.frags[j] == c0.frags[j]);
            }
        }
    }
    assert(holds_part_of(c, data));
    assert(c.frags[i] is Some);
    assert forall|j: int| 0 <= j < n && #[trigger] c0.frags[j] is Some implies c.frags[j] is Some by {
        if c0.frags[i] is None && j != i {
            assert(c.frags[j] == c0.frags[j]);
        }
    }
    lemma_filled_bound(c.frags);
    if c.got == p.frag_total as nat {
        lemma_full_assembler_joins(c, data, stream, id);
    }
}

/// Whether a reliable message with id `id` was handed to the reader.
pub open spec fn reliable_read(read: Seq<(u32, Seq<u8>, Stream)>, id: u32) -> bool {
    exists|y: int| 0 <= y < read.len() && (#[trigger] read[y]).0 == id && read[y].2 != Stream::Realtime
}

/// Whether `m` (id, data, stream) is one of the messages `sent`.
pub open spec fn is_sent_message(sent: Seq<(u32, Seq<u8>, Stream)>, m: (u32, Seq<u8>, Stream)) -> bool {
    exists|k: int| 0 <= k < sent.len() && sent[k] == m
}

/// Every message read is a message sent, whole.
#[verifier::opaque]
pub open spec fn read_whole(x: Exchange) -> bool {
    forall|y: int| 0 <= y < x.read.len() ==> is_sent_message(x.sent, #[trigger] x.read[y])
}

/// Every message the receiving end collects holds part of a sent message,
/// and is complete only if the message was read.
#[verifier::opaque]
pub open spec fn assembly_ok(x: Exchange) -> bool {
    forall|id: u32| #[trigger] x.receiver.assemblers.contains_key(id) ==> exists|k: int|
        0 <= k < x.sent.len() && (#[trigger] x.sent[k]).0 == id && holds_part_of(x.receiver.assemblers[id], x.sent[k].1)
            && (x.receiver.assemblers[id].got < x.receiver.assemblers[id].frags.len() || was_read(x.read, id))
}

/// Until more messages are read than the receiving end remembers, the ids
/// it counts as delivered are those of the reliable messages read, and no
/// reliable message is read twice.
#[verifier::opaque]
pub open spec fn once_ok(x: Exchange) -> bool {
    &&& x.receiver.delivered.finite()
    &&& x.read.len() <= DELIVERED_CAP ==> {
        &&& forall|id: u32| #[trigger] x.receiver.delivered.contains(id) <==> reliable_read(x.read, id)
        &&& forall|y: int, z: int|
            0 <= y < z < x.read.len() && (#[trigger] x.read[y]).2 != Stream::Realtime ==> (#[trigger] x.read[z]).0
                != x.read[y].0
    }
}

/// What holds of what the reader gets after every run.
pub open spec fn sound(x: Exchange) -> bool {
    &&& read_whole(x)
    &&& assembly_ok(x)
    &&& once_ok(x)
}

proof fn lemma_opening_sound(sender: CoreView, receiver: CoreView)
    requires
        fresh(sender),
        fresh(receiver),
    ensures
        sound(opening(sender, receiver)),
{
    let x = opening(sender, receiver);
    reveal(read_whole);
    reveal(assembly_ok);
    reveal(once_ok);
    assert forall|id: u32| #[trigger] x.receiver.assemblers.contains_key(id) implies false by {
        assert(receiver.assemblers.dom().contains(id));
    }
}

/// Whether `b` starts with `a`.
pub open spec fn extends_seq<T>(a: Seq<T>, b: Seq<T>) -> bool {
    a.len() <= b.len() && forall|j: int| 0 <= j < a.len() ==> #[trigger] b[j] == a[j]
}

proof fn lemma_step_extends(x: Exchange, e: LinkEvent)
    requires
        exchange_step(x, e) is Some,
    ensures
        extends_seq(x.sent, exchange_step(x, e)->0.sent),
        extends_seq(x.read, exchange_step(x, e)->0.read),
{
}

proof fn lemma_other_step_sound(x: Exchange, e: LinkEvent)
    requires
        coherent(x),
        sound(x),
        exchange_step(x, e) is Some,
        !(e is Arrive),
    ensures
        sound(exchange_step(x, e)->0),
{
    let x2 = exchange_step(x, e)->0;
    lemma_step_extends(x, e);
    assert(x2.receiver == x.receiver && x2.read == x.read);
    assert(read_whole(x2)) by {
        reveal(read_whole);
        assert forall|y: int| 0 <= y < x2.read.len() implies is_sent_message(x2.sent, #[trigger] x2.read[y]) by {
            assert(is_sent_message(x.sent, x.read[y]));
            let k = choose|k: int| 0 <= k < x.sent.len() && x.sent[k] == x.read[y];
            assert(x2.sent[k] == x.sent[k]);
        }
    }
    assert(assembly_ok(x2)) by {
        reveal(assembly_ok);
        assert forall|id: u32| #[trigger] x2.receiver.assemblers.contains_key(id) implies exists|k: int|
            0 <= k < x2.sent.len() && (#[trigger] x2.sent[k]).0 == id && holds_part_of(x2.receiver.assemblers[id], x2.sent[k].1)
                && (x2.receiver.assemblers[id].got < x2.receiver.assemblers[id].frags.len() || was_read(x2.read, id)) by {
            let k = choose|k: int|
                0 <= k < x.sent.len() && (#[trigger] x.sent[k]).0 == id && holds_part_of(x.receiver.assemblers[id], x.sent[k].1)
                    && (x.receiver.assemblers[id].got < x.receiver.assemblers[id].frags.len() || was_read(x.read, id));
            assert(x2.sent[k] == x.sent[k]);
        }
    }
    assert(once_ok(x2)) by {
        reveal(once_ok);
    }
}

/// The message of id `id` in `sent`, if any, is `data` on `stream`.
pub open spec fn sent_as(sent: Seq<(u32, Seq<u8>, Stream)>, id: u32, data: Seq<u8>, stream: Stream) -> bool {
    forall|k: int| 0 <= k < sent.len() && (#[trigger] sent[k]).0 == id ==> sent[k].1 == data && sent[k].2 == stream
}

/// A packet that arrives is the fragment of its message that it claims.
proof fn lemma_arriving_fragment(x: Exchange, p: PacketView, now: u64) -> (r: (int, int))
    requires
        coherent(x),
        exchange_step(x, LinkEvent::Arrive(p, now)) is Some,
    ensures
        0 <= r.0 < x.sent.len(),
        0 <= r.1 < fragment_count_spec(x.sent[r.0].1.len()),
        x.sent[r.0].0 == p.msg_id,
        p == fragment_packets(x.sent[r.0].1, x.sent[r.0].2, x.sent[r.0].0)[r.1],
        0 < x.sent[r.0].1.len() <= MAX_MESSAGE,
        !x.receiver.closed,
        sent_as(x.sent, p.msg_id, x.sent[r.0].1, x.sent[r.0].2),
{
    reveal(outbound_ok);
    reveal(ids_ok);
    let (k, i) = choose|k: int, i: int|
        0 <= k < x.sent.len() && 0 <= i < fragment_count_spec(x.sent[k].1.len())
            && p == #[trigger] fragment_packets(x.sent[k].1, x.sent[k].2, x.sent[k].0)[i];
    assert(x.sent[k].0 == p.msg_id);
    assert forall|k2: int| 0 <= k2 < x.sent.len() && (#[trigger] x.sent[k2]).0 == p.msg_id implies x.sent[k2].1 == x.sent[k].1 && x.sent[k2].2 == x.sent[k].2 by {
        if k2 != k {
            if k2 < k {
                assert(x.sent[k2].0 != x.sent[k].0);
            } else {
                assert(x.sent[k].0 != x.sent[k2].0);
            }
        }
    }
    (k, i)
}

/// The assembler of a message, if any, holds part of it.
proof fn lemma_assembler_of(x: Exchange, id: u32, data: Seq<u8>, stream: Stream)
    requires
        sound(x),
        sent_as(x.sent, id, data, stream),
    ensures
        x.receiver.assemblers.contains_key(id) ==> holds_part_of(x.receiver.assemblers[id], data)
            && (x.receiver.assemblers[id].got < x.receiver.assemblers[id].frags.len() || was_read(x.read, id)),
{
    reveal(assembly_ok);
    if x.receiver.assemblers.contains_key(id) {
        let k = choose|k: int|
            0 <= k < x.sent.len() && (#[trigger] x.sent[k]).0 == id && holds_part_of(x.receiver.assemblers[id], x.sent[k].1)
                && (x.receiver.assemblers[id].got < x.receiver.assemblers[id].frags.len() || was_read(x.read, id));
    }
}

#[verifier::rlimit(60)]
proof fn lemma_arrive_sound(x: Exchange, p: PacketView, now: u64)
    requires
        coherent(x),
        sound(x),
        exchange_step(x, LinkEvent::Arrive(p, now)) is Some,
    ensures
        sound(exchange_step(x, LinkEvent::Arrive(p, now))->0),
{
    let x2 = exchange_step(x, LinkEvent::Arrive(p, now))->0;
    lemma_step_extends(x, LinkEvent::Arrive(p, now));
    lemma_arrive_shape(x, p, now);
    let (k, i) = lemma_arriving_fragment(x, p, now);
    let id = p.msg_id;
    let data = x.sent[k].1;
    let stream = x.sent[k].2;
    lemma_assembler_of(x, id, data, stream);
    lemma_fragment_effect(x.receiver, p, now, data, stream, id, i);
    let (r, o) = packet_step(x.receiver, p, now);
    let n = x.read.len() as int;
    assert forall|j: u32| was_read(x.read, j) implies was_read(x2.read, j) by {
        let y = choose|y: int| 0 <= y < x.read.len() && (#[trigger] x.read[y]).0 == j;
        assert(x2.read[y] == x.read[y]);
    }
    if o.deliver is Some {
        assert(x2.read[n] == x.sent[k]);
        assert(was_read(x2.read, id));
    }
    assert(read_whole(x2)) by {
        reveal(read_whole);
        assert forall|y: int| 0 <= y < x2.read.len() implies is_sent_message(x2.sent, #[trigger] x2.read[y]) by {
            if y < n {
                assert(x2.read[y] == x.read[y]);
                assert(is_sent_message(x.sent, x.read[y]));
            } else {
                assert(x2.read[y] == x2.sent[k]);
            }
        }
    }
    assert(assembly_ok(x2)) by {
        reveal(assembly_ok);
        assert forall|j: u32| #[trigger] x2.receiver.assemblers.contains_key(j) implies exists|k2: int|
            0 <= k2 < x2.sent.len() && (#[trigger] x2.sent[k2]).0 == j && holds_part_of(x2.receiver.assemblers[j], x2.sent[k2].1)
                && (x2.receiver.assemblers[j].got < x2.receiver.assemblers[j].frags.len() || was_read(x2.read, j)) by {
            if j == id {
                assert(x2.sent[k].0 == j);
                if !(x2.receiver.assemblers[j].got < x2.receiver.assemblers[j].frags.len()) {
                    if stream != Stream::Realtime && x.receiver.delivered.contains(id) {
                        assert(was_read(x.read, id)) by {
                            reveal(read_ok);
                        }
                    }
                }
            } else {
                assert(x.receiver.assemblers.contains_key(j));
                let k2 = choose|k2: int|
                    0 <= k2 < x.sent.len() && (#[trigger] x.sent[k2]).0 == j && holds_part_of(x.receiver.assemblers[j], x.sent[k2].1)
                        && (x.receiver.assemblers[j].got < x.receiver.assemblers[j].frags.len() || was_read(x.read, j));
                assert(x2.sent[k2] == x.sent[k2]);
            }
        }
    }
    assert(once_ok(x2)) by {
        reveal(once_ok);
        reveal(read_whole);
        if x2.read.len() <= DELIVERED_CAP {
            if o.deliver is Some {
                assert(x2.read[n] == x.sent[k]);
                if stream != Stream::Realtime {
                    // The new id was not read before, and the record of
                    // delivered ids does not overflow.
                    let ids = x.read.map_values(|e: (u32, Seq<u8>, Stream)| e.0);
                    assert(x.receiver.delivered.subset_of(ids.to_set())) by {
                        assert forall|j: u32| #[trigger] x.receiver.delivered.contains(j) implies ids.to_set().contains(j) by {
                            let y = choose|y: int| 0 <= y < x.read.len() && (#[trigger] x.read[y]).0 == j && x.read[y].2 != Stream::Realtime;
                            assert(ids[y] == j);
                        }
                    }
                    ids.lemma_cardinality_of_set();
                    vstd::set_lib::lemma_len_subset(x.receiver.delivered, ids.to_set());
                    assert(!reliable_read(x.read, id));
                }
                assert forall|j: u32| #[trigger] x2.receiver.delivered.contains(j) <==> reliable_read(x2.read, j) by {
                    if reliable_read(x2.read, j) {
                        let y = choose|y: int| 0 <= y < x2.read.len() && (#[trigger] x2.read[y]).0 == j && x2.read[y].2 != Stream::Realtime;
                        if y < n {
                            assert(x2.read[y] == x.read[y]);
                        }
                    }
                    if reliable_read(x.read, j) {
                        let y = choose|y: int| 0 <= y < x.read.len() && (#[trigger] x.read[y]).0 == j && x.read[y].2 != Stream::Realtime;
                        assert(x2.read[y] == x.read[y]);
                    }
                }
                assert forall|y: int, z: int|
                    0 <= y < z < x2.read.len() && (#[trigger] x2.read[y]).2 != Stream::Realtime implies (#[trigger] x2.read[z]).0
                        != x2.read[y].0 by {
                    assert(x2.read[y] == x.read[y]);
                    if z == n && x.read[y].0 == id {
                        assert(is_sent_message(x.sent, x.read[y]));
                        let k3 = choose|k3: int| 0 <= k3 < x.sent.len() && x.sent[k3] == x.read[y];
                        assert(x.sent[k3].0 == id);
                        assert(reliable_read(x.read, id));
                    } else if z < n {
                        assert(x2.read[z] == x.read[z]);
                    }
                }
            }
        }
    }
}

proof fn lemma_step_sound(x: Exchange, e: LinkEvent)
    requires
        coherent(x),
        sound(x),
        exchange_step(x, e) is Some,
    ensures
        sound(exchange_step(x, e)->0),
{
    match e {
        LinkEvent::Arrive(p, now) => lemma_arrive_sound(x, p, now),
        _ => lemma_other_step_sound(x, e),
    }
}

proof fn lemma_run_sound(sender: CoreView, receiver: CoreView, es: Seq<LinkEvent>)
    requires
        fresh(sender),
        fresh(receiver),
        run(opening(sender, receiver), es) is Some,
    ensures
        coherent(run(opening(sender, receiver), es)->0),
        sound(run(opening(sender, receiver), es)->0),
    decreases es.len(),
{
    if es.len() == 0 {
        lemma_opening_coherent(sender, receiver);
        lemma_opening_sound(sender, receiver);
    } else {
        lemma_run_sound(sender, receiver, es.drop_last());
        let y = run(opening(sender, receiver), es.drop_last())->0;
        lemma_step_keeps(y, es.last());
        lemma_step_sound(y, es.last());
    }
}

/// A run's prefixes: each is a run, and what it sent and read begins what
/// the whole run sent and read.
proof fn lemma_run_prefix(x0: Exchange, es: Seq<LinkEvent>, t: int)
    requires
        run(x0, es) is Some,
        0 <= t <= es.len(),
    ensures
        run(x0, es.take(t)) is Some,
        extends_seq(run(x0, es.take(t))->0.sent, run(x0, es)->0.sent),
        extends_seq(run(x0, es.take(t))->0.read, run(x0, es)->0.read),
        t < es.len() ==> run(x0, es.take(t + 1)) == exchange_step(run(x0, es.take(t))->0, es[t]),
    decreases es.len(),
{
    if t == es.len() {
        assert(es.take(t) =~= es);
    } else {
        let es0 = es.drop_last();
        lemma_run_prefix(x0, es0, t);
        assert(es0.take(t) =~= es.take(t));
        let y0 = run(x0, es0)->0;
        lemma_step_extends(y0, es.last());
        let a = run(x0, es.take(t))->0;
        let c = run(x0, es)->0;
        assert forall|j: int| 0 <= j < a.sent.len() implies #[trigger] c.sent[j] == a.sent[j] by {
            assert(c.sent[j] == y0.sent[j]);
        }
        assert forall|j: int| 0 <= j < a.read.len() implies #[trigger] c.read[j] == a.read[j] by {
            assert(c.read[j] == y0.read[j]);
        }
        let u = es.take(t + 1);
        assert(u.drop_last() =~= es.take(t));
        assert(u.last() == es[t]);
    }
}

/// Whether the receiving end can hold a fragment of message `id`: it
/// collects the message already, or has room for another.
pub open spec fn can_hold(x: Exchange, id: u32) -> bool {
    x.receiver.assemblers.contains_key(id) || x.receiver.assemblers.len() < MAX_ASSEMBLERS
}

/// Whether event `t` of `es` is the arrival of packet `p`.
pub open spec fn arrives_at(es: Seq<LinkEvent>, t: int, p: PacketView) -> bool {
    match es[t] {
        LinkEvent::Arrive(q, _) => q == p,
        _ => false,
    }
}

/// Whether packet `p` reaches the receiving end, in the run of `es` from
/// `x0`, at a moment the receiving end can hold it.
pub open spec fn arrives_held(x0: Exchange, es: Seq<LinkEvent>, p: PacketView) -> bool {
    exists|t: int| 0 <= t < es.len() && #[trigger] arrives_at(es, t, p) && can_hold(run(x0, es.take(t))->0, p.msg_id)
}

/// Whether fragment `i` of message `id` is held by the receiving end, or
/// the message was read.
pub open spec fn stored(x: Exchange, id: u32, i: int) -> bool {
    ||| (x.receiver.assemblers.contains_key(id) && 0 <= i < x.receiver.assemblers[id].frags.len()
        && x.receiver.assemblers[id].frags[i] is Some)
    ||| was_read(x.read, id)
}

proof fn lemma_stored_kept(x: Exchange, e: LinkEvent, id: u32, data: Seq<u8>, stream: Stream, i: int)
    requires
        coherent(x),
        sound(x),
        exchange_step(x, e) is Some,
        sent_as(x.sent, id, data, stream),
        stored(x, id, i),
    ensures
        stored(exchange_step(x, e)->0, id, i),
{
    let x2 = exchange_step(x, e)->0;
    lemma_step_extends(x, e);
    assert forall|j: u32| was_read(x.read, j) implies was_read(x2.read, j) by {
        let y = choose|y: int| 0 <= y < x.read.len() && (#[trigger] x.read[y]).0 == j;
        assert(x2.read[y] == x.read[y]);
    }
    match e {
        LinkEvent::Arrive(p, now) => {
            let (k, i2) = lemma_arriving_fragment(x, p, now);
            lemma_arrive_shape(x, p, now);
            if p.msg_id == id {
                lemma_assembler_of(x, id, data, stream);
                lemma_fragment_effect(x.receiver, p, now, data, stream, id, i2);
                let (r, o) = packet_step(x.receiver, p, now);
                if o.deliver is Some {
                    assert(x2.read[x.read.len() as int].0 == id);
                    assert(was_read(x2.read, id));
                }
            } else {
                lemma_assembler_of(x, p.msg_id, x.sent[k].1, x.sent[k].2);
                lemma_fragment_effect(x.receiver, p, now, x.sent[k].1, x.sent[k].2, p.msg_id, i2);
            }
        },
        _ => {},
    }
}

proof fn lemma_arrival_stores(x: Exchange, now: u64, id: u32, data: Seq<u8>, stream: Stream, i: int)
    requires
        coherent(x),
        sound(x),
        exchange_step(x, LinkEvent::Arrive(fragment_packets(data, stream, id)[i], now)) is Some,
        sent_as(x.sent, id, data, stream),
        stream != Stream::Realtime,
        0 <= i < fragment_count_spec(data.len()),
        can_hold(x, id),
    ensures
        stored(exchange_step(x, LinkEvent::Arrive(fragment_packets(data, stream, id)[i], now))->0, id, i),
{
    let p = fragment_packets(data, stream, id)[i];
    let x2 = exchange_step(x, LinkEvent::Arrive(p, now))->0;
    let (k, i2) = lemma_arriving_fragment(x, p, now);
    lemma_arrive_shape(x, p, now);
    assert(x.sent[k].0 == id);
    lemma_assembler_of(x, id, data, stream);
    lemma_fragment_effect(x.receiver, p, now, data, stream, id, i);
    let (r, o) = packet_step(x.receiver, p, now);
    if o.deliver is Some {
        assert(x2.read[x.read.len() as int].0 == id);
    } else {
        assert(holds_part_of(r.assemblers[id], data));
    }
}

proof fn lemma_stored_by(
    sender: CoreView,
    receiver: CoreView,
    es: Seq<LinkEvent>,
    t: int,
    id: u32,
    data: Seq<u8>,
    stream: Stream,
    i: int,
)
    requires
        fresh(sender),
        fresh(receiver),
        run(opening(sender, receiver), es) is Some,
        0 <= t <= es.len(),
        sent_as(run(opening(sender, receiver), es)->0.sent, id, data, stream),
        stream != Stream::Realtime,
        0 <= i < fragment_count_spec(data.len()),
        exists|t2: int|
            0 <= t2 < t && #[trigger] arrives_at(es, t2, fragment_packets(data, stream, id)[i]) && can_hold(
                run(opening(sender, receiver), es.take(t2))->0,
                id,
            ),
    ensures
        stored(run(opening(sender, receiver), es.take(t))->0, id, i),
    decreases t,
{
    let x0 = opening(sender, receiver);
    let p = fragment_packets(data, stream, id)[i];
    let t2 = choose|t2: int| 0 <= t2 < t && #[trigger] arrives_at(es, t2, p) && can_hold(run(x0, es.take(t2))->0, id);
    lemma_run_prefix(x0, es, t - 1);
    lemma_run_prefix(x0, es, t);
    let y = run(x0, es.take(t - 1))->0;
    lemma_run_sound(sender, receiver, es.take(t - 1));
    let c = run(x0, es)->0;
    assert forall|k: int| 0 <= k < y.sent.len() && (#[trigger] y.sent[k]).0 == id implies y.sent[k].1 == data && y.sent[k].2 == stream by {
        assert(c.sent[k] == y.sent[k]);
    }
    if t2 == t - 1 {
        match es[t - 1] {
            LinkEvent::Arrive(q, now) => {
                lemma_arrival_stores(y, now, id, data, stream, i);
            },
            _ => {},
        }
    } else {
        lemma_stored_by(sender, receiver, es, t - 1, id, data, stream, i);
        lemma_stored_kept(y, es[t - 1], id, data, stream, i);
    }
}

/// Every message handed to the reader is a message that was sent, whole:
/// its id, its data and its stream.
pub proof fn lemma_read_messages_are_sent_whole(sender: CoreView, receiver: CoreView, es: Seq<LinkEvent>)
    requires
        fresh(sender),
        fresh(receiver),
        run(opening(sender, receiver), es) is Some,
    ensures
        ({
            let x = run(opening(sender, receiver), es)->0;
            forall|y: int| 0 <= y < x.read.len() ==> is_sent_message(x.sent, #[trigger] x.read[y])
        }),
{
    lemma_run_sound(sender, receiver, es);
    reveal(read_whole);
}

/// A reliable message is read at most once: until more messages have been
/// read than the receiving end remembers (`DELIVERED_CAP`), no reliable
/// message is handed to the reader twice, whatever the network repeats.
pub proof fn lemma_reliable_messages_read_at_most_once(sender: CoreView, receiver: CoreView, es: Seq<LinkEvent>)
    requires
        fresh(sender),
        fresh(receiver),
        run(opening(sender, receiver), es) is Some,
    ensures
        ({
            let x = run(opening(sender, receiver), es)->0;
            x.read.len() <= DELIVERED_CAP ==> forall|y: int, z: int|
                0 <= y < z < x.read.len() && (#[trigger] x.read[y]).2 != Stream::Realtime ==> (#[trigger] x.read[z]).0
                    != x.read[y].0
        }),
{
    lemma_run_sound(sender, receiver, es);
    reveal(once_ok);
}

/// A reliable (`Critical` or `Batch`) message is read exactly once when the
/// network delivers it: if each of its fragments reaches the receiving end
/// at least once, at a moment that end can hold it (it already collects the
/// message, or has room for another), the message is handed to the reader,
/// whole; and until more messages have been read than the receiving end
/// remembers (`DELIVERED_CAP`), it is handed over only once.
pub proof fn lemma_reliable_message_read_exactly_once(sender: CoreView, receiver: CoreView, es: Seq<LinkEvent>, k: int)
    requires
        fresh(sender),
        fresh(receiver),
        run(opening(sender, receiver), es) is Some,
        0 <= k < run(opening(sender, receiver), es)->0.sent.len(),
        run(opening(sender, receiver), es)->0.sent[k].2 != Stream::Realtime,
        ({
            let m = run(opening(sender, receiver), es)->0.sent[k];
            forall|i: int| 0 <= i < fragment_count_spec(m.1.len()) ==> arrives_held(
                opening(sender, receiver),
                es,
                #[trigger] fragment_packets(m.1, m.2, m.0)[i],
            )
        }),
    ensures
        ({
            let x = run(opening(sender, receiver), es)->0;
            &&& exists|y: int| 0 <= y < x.read.len() && #[trigger] x.read[y] == x.sent[k]
            &&& x.read.len() <= DELIVERED_CAP ==> forall|y: int, z: int|
                0 <= y < z < x.read.len() && (#[trigger] x.read[y]).0 == x.sent[k].0 ==> (#[trigger] x.read[z]).0
                    != x.sent[k].0
        }),
{
    let x0 = opening(sender, receiver);
    let x = run(x0, es)->0;
    lemma_run_sound(sender, receiver, es);
    let (id, data, stream) = x.sent[k];
    assert(sent_as(x.sent, id, data, stream) && 0 < data.len() <= MAX_MESSAGE) by {
        reveal(ids_ok);
        assert forall|k2: int| 0 <= k2 < x.sent.len() && (#[trigger] x.sent[k2]).0 == id implies x.sent[k2].1 == data && x.sent[k2].2 == stream by {
            if k2 < k {
                assert(x.sent[k2].0 != x.sent[k].0);
            } else if k2 > k {
                assert(x.sent[k].0 != x.sent[k2].0);
            }
        }
    }
    let n = fragment_count_spec(data.len());
    assert(es.take(es.len() as int) =~= es);
    assert forall|i: int| 0 <= i < n implies stored(x, id, i) by {
        let p = fragment_packets(data, stream, id)[i];
        assert(arrives_held(x0, es, p));
        assert(p.msg_id == id);
        lemma_stored_by(sender, receiver, es, es.len() as int, id, data, stream, i);
    }
    if !was_read(x.read, id) {
        lemma_assembler_of(x, id, data, stream);
        assert(stored(x, id, 0));
        let a = x.receiver.assemblers[id];
        assert forall|j: int| 0 <= j < a.frags.len() implies (#[trigger] a.frags[j]) is Some by {
            assert(stored(x, id, j));
        }
        lemma_filled_full(a.frags);
    }
    let y = choose|y: int| 0 <= y < x.read.len() && (#[trigger] x.read[y]).0 == id;
    reveal(read_whole);
    assert(is_sent_message(x.sent, x.read[y]));
    let k2 = choose|k2: int| 0 <= k2 < x.sent.len() && x.sent[k2] == x.read[y];
    assert(x.read[y] == x.sent[k]);
    reveal(once_ok);
    if x.read.len() <= DELIVERED_CAP {
        assert forall|y1: int, z: int|
            0 <= y1 < z < x.read.len() && (#[trigger] x.read[y1]).0 == x.sent[k].0 implies (#[trigger] x.read[z]).0
                != x.sent[k].0 by {
            assert(is_sent_message(x.sent, x.read[y1]));
            let k3 = choose|k3: int| 0 <= k3 < x.sent.len() && x.sent[k3] == x.read[y1];
            assert(x.sent[k3].0 == id);
            assert(x.read[y1].2 == stream);
        }
    }
}

} // verus!
