//! Properties of a QCP link that hold across its operations.

use super::link::{
    chunk, control_packet, fragment_count_spec, fragment_packets, joined, next_id, no_outcome,
    packet_step, realtime_newer, retransmit_step, CoreView, MIN_CWND, batch_waits, send_step,
    AssemblerView, OutcomeView, MAX_ASSEMBLERS, MAX_MESSAGE, assembler_with, fits_assembler,
    exhausted, resendable, MAX_RETRANSMIT,
};
use super::wire::{
    PacketView, Stream, FLAG_ACK, FLAG_DATA, FLAG_FIN, FLAG_PING, FLAG_PONG, FLAG_SYN, MAX_PAYLOAD,
};
use vstd::prelude::*;

verus! {

/// A closed link ignores every inbound packet: its state stays as it is and
/// nothing is delivered, answered or woken.
pub proof fn lemma_closed_link_ignores_packets(v: CoreView, p: PacketView, now: u64)
    requires
        v.closed,
    ensures
        packet_step(v, p, now) == (v, no_outcome()),
{
}

/// A reliable message whose id was already delivered is never delivered
/// again, whatever packet arrives for it.
pub proof fn lemma_reliable_message_delivered_at_most_once(v: CoreView, p: PacketView, now: u64)
    requires
        v.delivered.contains(p.msg_id),
        p.stream != Stream::Realtime,
    ensures
        packet_step(v, p, now).1.deliver is None,
{
}

/// When a reliable message is delivered, its id is recorded as delivered,
/// unless the record had grown past its cap and was cleared.
pub proof fn lemma_delivery_is_recorded(v: CoreView, p: PacketView, now: u64)
    requires
        v.wf(),
        p.stream != Stream::Realtime,
        packet_step(v, p, now).1.deliver is Some,
    ensures
        packet_step(v, p, now).0.delivered.contains(p.msg_id) || packet_step(
            v,
            p,
            now,
        ).0.delivered.is_empty(),
{
}

/// Realtime messages: latest wins.  A realtime message is delivered only if
/// it is newer than the last one delivered, and then it becomes the last one.
pub proof fn lemma_realtime_latest_wins(v: CoreView, p: PacketView, now: u64)
    requires
        p.stream == Stream::Realtime,
        packet_step(v, p, now).1.deliver is Some,
    ensures
        realtime_newer(p.msg_id, v.last_realtime),
        packet_step(v, p, now).0.last_realtime == p.msg_id,
{
}

/// An acknowledgement releases its message: it is no longer in flight, the
/// retransmission count of a message that was in flight is dropped, and
/// waiting senders are woken.
pub proof fn lemma_ack_releases_message(v: CoreView, p: PacketView, now: u64)
    requires
        !v.closed,
        p.flags == FLAG_ACK,
    ensures
        !packet_step(v, p, now).0.in_flight.contains_key(p.msg_id),
        v.in_flight.contains_key(p.msg_id) ==> !packet_step(v, p, now).0.retrans.contains_key(
            p.msg_id,
        ),
        packet_step(v, p, now).1.wake_window,
{
    let f = p.flags;
    assert(f & 0x01u8 == 0 && f & 0x08u8 == 0 && f & 0x10u8 == 0 && f & 0x20u8 == 0 && f & 0x02u8
        != 0) by (bit_vector)
        requires
            f == 0x02u8,
    ;
}

/// A retransmission is treated as a loss: the window collapses to its
/// minimum and the threshold keeps at least that minimum.
pub proof fn lemma_loss_collapses_window(v: CoreView, id: u32, now: u64)
    ensures
        retransmit_step(v, id, now).cwnd == MIN_CWND,
        retransmit_step(v, id, now).ssthresh >= MIN_CWND,
        retransmit_step(v, id, now).ca_ack == 0,
{
}

/// Message id 0 is never handed out.
pub proof fn lemma_message_ids_skip_zero(id: u32)
    ensures
        next_id(id) != 0,
{
}

/// The payloads of a message's fragments, joined in order, give the message
/// back.
pub proof fn lemma_fragments_rejoin(data: Seq<u8>, stream: Stream, id: u32)
    ensures
        joined(fragment_packets(data, stream, id).map_values(|p: PacketView| Some(p.payload)))
            == data,
{
    let n = fragment_count_spec(data.len());
    let f = |i: int| Some(chunk(data, i));
    assert(fragment_packets(data, stream, id).map_values(|p: PacketView| Some(p.payload))
        =~= Seq::new(n, f));
    lemma_prefix_joined(data, n);
    let m = MAX_PAYLOAD as int;
    let len = data.len() as int;
    assert(n * m >= len) by (nonlinear_arith)
        requires
            n == (len + m - 1) / m,
            m == 1382,
            len >= 0,
    ;
    assert(data.subrange(0, len) =~= data);
}

proof fn lemma_prefix_joined(data: Seq<u8>, k: nat)
    requires
        k <= fragment_count_spec(data.len()),
    ensures
        joined(Seq::new(k, |i: int| Some(chunk(data, i)))) == data.subrange(
            0,
            if k * MAX_PAYLOAD <= data.len() {
                k * MAX_PAYLOAD
            } else {
                data.len() as int
            },
        ),
    decreases k,
{
    let f = |i: int| Some(chunk(data, i));
    let m = MAX_PAYLOAD as int;
    let len = data.len() as int;
    if k == 0 {
        assert(Seq::new(0, f) =~= Seq::empty());
        assert(data.subrange(0, 0) =~= Seq::empty());
    } else {
        let k1 = (k - 1) as nat;
        lemma_prefix_joined(data, k1);
        assert(Seq::new(k, f).drop_last() =~= Seq::new(k1, f));
        let n = fragment_count_spec(data.len());
        assert(k1 * m < len && k * m == k1 * m + m) by (nonlinear_arith)
            requires
                k1 + 1 <= n,
                n == (len + m - 1) / m,
                m == 1382,
                len >= 0,
                k == k1 + 1,
        ;
        let end = if k * m <= len {
            k * m
        } else {
            len
        };
        assert(chunk(data, k1 as int) == data.subrange(k1 * m, end));
        assert(data.subrange(0, k1 * m) + data.subrange(k1 * m, end) =~= data.subrange(0, end));
    }
}

/// `Batch` messages go out one at a time: a `Batch` send that `send_gate`
/// allows finds the previous `Batch` message no longer in flight (it was
/// acknowledged), and the new message becomes the one the next waits for.
pub proof fn lemma_batch_waits_for_previous(v: CoreView, data: Seq<u8>, now: u64)
    requires
        !batch_waits(v, Stream::Batch),
    ensures
        v.last_batch == 0 || !v.in_flight.contains_key(v.last_batch),
        send_step(v, data, Stream::Batch, now).last_batch == v.next_msg_id,
        send_step(v, data, Stream::Batch, now).in_flight.contains_key(v.next_msg_id),
{
}

/// A receiver acknowledges a reliable message only when it delivers it, or
/// when it delivered it before; together with the one-at-a-time sending of
/// `Batch` messages, these are delivered in the order they are sent (see
/// `exchange::lemma_batch_messages_read_in_order`).
pub proof fn lemma_ack_only_after_delivery(v: CoreView, p: PacketView, now: u64)
    requires
        p.stream != Stream::Realtime,
        packet_step(v, p, now).1.reply matches Some(r) && r.flags == FLAG_ACK,
    ensures
        packet_step(v, p, now).1.deliver is Some || v.delivered.contains(p.msg_id),
{
}

/// Feeds packets `ps` in order to a link at `now`: the state after them and
/// the outcome of each.
pub open spec fn feed(v: CoreView, ps: Seq<PacketView>, now: u64) -> (CoreView, Seq<OutcomeView>)
    decreases ps.len(),
{
    if ps.len() == 0 {
        (v, Seq::empty())
    } else {
        let (w, outs) = feed(v, ps.drop_last(), now);
        let (x, o) = packet_step(w, ps.last(), now);
        (x, outs.push(o))
    }
}

/// The first `k` of the `n` fragments of `data`, collected.
pub open spec fn collected(data: Seq<u8>, k: int, n: nat) -> Seq<Option<Seq<u8>>> {
    Seq::new(n, |i: int| if i < k { Some(chunk(data, i)) } else { None })
}

/// What the receiver of a message may be in before its first fragment: open,
/// collecting nothing for the message, with room for another message, and
/// (realtime) the message newer than the last one or (reliable) not yet
/// delivered.
pub open spec fn ready_for(v: CoreView, stream: Stream, id: u32) -> bool {
    &&& !v.closed
    &&& !v.assemblers.contains_key(id)
    &&& v.assemblers.len() < MAX_ASSEMBLERS
    &&& stream == Stream::Realtime ==> realtime_newer(id, v.last_realtime)
    &&& stream != Stream::Realtime ==> !v.delivered.contains(id)
}

pub(crate) proof fn lemma_data_flags()
    ensures
        FLAG_DATA & FLAG_SYN == 0,
        FLAG_DATA & FLAG_FIN == 0,
        FLAG_DATA & FLAG_PING == 0,
        FLAG_DATA & FLAG_PONG == 0,
        FLAG_DATA & FLAG_ACK == 0,
        FLAG_DATA & FLAG_DATA != 0,
{
    assert(0x04u8 & 0x01u8 == 0 && 0x04u8 & 0x08u8 == 0 && 0x04u8 & 0x10u8 == 0 && 0x04u8 & 0x20u8 == 0
        && 0x04u8 & 0x02u8 == 0 && 0x04u8 & 0x04u8 != 0) by (bit_vector);
}

pub(crate) proof fn lemma_count_fits(len: nat)
    requires
        0 < len <= MAX_MESSAGE,
    ensures
        1 <= fragment_count_spec(len) <= 8192,
{
    let m = MAX_PAYLOAD as int;
    assert(1 <= (len + m - 1) / m <= 8192) by (nonlinear_arith)
        requires
            0 < len <= 11_321_344,
            m == 1382,
    ;
}

/// One fragment of the message, the `k`-th, arriving while the first `k`
/// are collected.
proof fn lemma_fragment_arrives(w: CoreView, data: Seq<u8>, stream: Stream, id: u32, now: u64, k: int, v: CoreView)
    requires
        0 < data.len() <= MAX_MESSAGE,
        0 <= k < fragment_count_spec(data.len()),
        !w.closed,
        k == 0 ==> ready_for(w, stream, id),
        k > 0 ==> w.assemblers.contains_key(id) && w.assemblers[id] == (AssemblerView {
            frags: collected(data, k, fragment_count_spec(data.len())),
            got: k as nat,
        }),
        stream == Stream::Realtime ==> realtime_newer(id, w.last_realtime),
        stream != Stream::Realtime ==> !w.delivered.contains(id),
    ensures
        ({
            let n = fragment_count_spec(data.len());
            let (x, o) = packet_step(w, fragment_packets(data, stream, id)[k], now);
            &&& k + 1 < n ==> {
                &&& o.deliver is None
                &&& !x.closed
                &&& x.assemblers.contains_key(id)
                &&& x.assemblers[id] == (AssemblerView { frags: collected(data, k + 1, n), got: (k + 1) as nat })
                &&& x.last_realtime == w.last_realtime
                &&& x.delivered == w.delivered
            }
            &&& k + 1 == n ==> o.deliver == Some((joined(collected(data, n as int, n)), stream))
        }),
{
    let n = fragment_count_spec(data.len());
    lemma_count_fits(data.len());
    lemma_data_flags();
    let p = fragment_packets(data, stream, id)[k];
    assert(p.frag_total as nat == n);
    assert(p.frag_index as int == k);
    let w1 = CoreView { last_activity_ms: now, ..w };
    let c0 = if w1.assemblers.contains_key(id) {
        w1.assemblers[id]
    } else {
        AssemblerView { frags: Seq::new(p.frag_total as nat, |i: int| None), got: 0 }
    };
    if k == 0 {
        assert(c0.frags =~= collected(data, 0, n));
    }
    assert(c0.frags == collected(data, k, n));
    assert(c0.frags[k] is None);
    assert(fits_assembler(w1, p));
    let c = assembler_with(w1, p);
    assert(c.frags =~= collected(data, k + 1, n));
    assert(c.got == (k + 1) as nat);
}

/// A message is received whole: when the fragments of a message arrive in
/// order at a receiver ready for it, nothing is delivered until the last one,
/// and then the message itself, on its stream.
pub proof fn lemma_message_arrives_whole(v: CoreView, data: Seq<u8>, stream: Stream, id: u32, now: u64)
    requires
        0 < data.len() <= MAX_MESSAGE,
        ready_for(v, stream, id),
    ensures
        ({
            let ps = fragment_packets(data, stream, id);
            let outs = feed(v, ps, now).1;
            &&& outs.len() == ps.len()
            &&& forall|i: int| 0 <= i < outs.len() - 1 ==> (#[trigger] outs[i]).deliver is None
            &&& outs.last().deliver == Some((data, stream))
        }),
{
    let ps = fragment_packets(data, stream, id);
    let n = fragment_count_spec(data.len());
    lemma_count_fits(data.len());
    if n > 1 {
        lemma_feed_prefix(v, data, stream, id, now, (n - 1) as nat);
    }
    let (w, outs0) = feed(v, ps.take(n - 1), now);
    if n == 1 {
        assert(ps.take(0) =~= Seq::<PacketView>::empty());
    }
    lemma_fragment_arrives(w, data, stream, id, now, n - 1, v);
    assert(ps.drop_last() =~= ps.take(n - 1));
    lemma_fragments_rejoin(data, stream, id);
    assert(collected(data, n as int, n) =~= ps.map_values(|p: PacketView| Some(p.payload)));
}

proof fn lemma_feed_prefix(v: CoreView, data: Seq<u8>, stream: Stream, id: u32, now: u64, k: nat)
    requires
        0 < data.len() <= MAX_MESSAGE,
        ready_for(v, stream, id),
        1 <= k < fragment_count_spec(data.len()),
    ensures
        ({
            let n = fragment_count_spec(data.len());
            let (w, outs) = feed(v, fragment_packets(data, stream, id).take(k as int), now);
            &&& outs.len() == k
            &&& forall|i: int| 0 <= i < k ==> (#[trigger] outs[i]).deliver is None
            &&& !w.closed
            &&& w.assemblers.contains_key(id)
            &&& w.assemblers[id] == (AssemblerView { frags: collected(data, k as int, n), got: k })
            &&& w.last_realtime == v.last_realtime
            &&& w.delivered == v.delivered
        }),
    decreases k,
{
    let ps = fragment_packets(data, stream, id);
    let pre = ps.take(k as int);
    assert(pre.drop_last() =~= ps.take(k - 1));
    assert(pre.last() == ps[k - 1]);
    if k == 1 {
        assert(ps.take(0) =~= Seq::<PacketView>::empty());
        lemma_fragment_arrives(v, data, stream, id, now, 0, v);
    } else {
        lemma_feed_prefix(v, data, stream, id, now, (k - 1) as nat);
        let (w, outs) = feed(v, ps.take(k - 1), now);
        lemma_fragment_arrives(w, data, stream, id, now, k - 1, v);
    }
}

/// No due message is left hanging: a message in flight that has waited a
/// full retransmission timeout is sent again while it has been
/// retransmitted fewer than `MAX_RETRANSMIT` times, and once it has been
/// retransmitted that often it makes the link give up.  A message that has
/// not waited that long is neither.
pub proof fn lemma_due_message_is_resent_or_given_up(v: CoreView, id: u32, now: u64)
    requires
        v.in_flight.contains_key(id),
    ensures
        ({
            let sent = v.in_flight[id].sent_at_ms;
            let age = if now >= sent {
                now - sent
            } else {
                0
            };
            let used_up = v.retrans.contains_key(id) && v.retrans[id] >= MAX_RETRANSMIT;
            &&& age >= v.rto_ms && used_up ==> exhausted(v, id, now) && !resendable(v, id, now)
            &&& age >= v.rto_ms && !used_up ==> resendable(v, id, now) && !exhausted(v, id, now)
            &&& age < v.rto_ms ==> !resendable(v, id, now) && !exhausted(v, id, now)
        }),
{
}

} // verus!
