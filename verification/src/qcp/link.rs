//! The per-connection state of a QCP link and its reaction to an inbound
//! packet: handshake, close, keep-alive, acknowledgement with congestion
//! control, latest-wins delivery of realtime messages, and reassembly with
//! at-most-once delivery of reliable messages.

use super::buf::{bytes_contents, bytes_empty, bytes_slice};
use super::buf::bytes_copy;
use super::error::QcpError;
use super::wire::{
    Packet, PacketView, Stream, FLAG_ACK, FLAG_DATA, FLAG_FIN, FLAG_PING, FLAG_PONG, FLAG_SYN,
    MAX_FRAGMENT_COUNT, MAX_PAYLOAD,
};
use std::collections::HashMap;
use vstd::prelude::*;
use vstd::std_specs::iter::IteratorSpec;

verus! {

broadcast use vstd::std_specs::hash::group_hash_axioms;

pub const MIN_CWND: usize = 2;

pub const INITIAL_CWND: usize = 32;

pub const MAX_CWND: usize = 4096;

pub const INITIAL_SS_THRESH: usize = 256;

pub const MIN_RTO_MS: u64 = 50;

pub const MAX_RTO_MS: u64 = 2000;

pub const KEEPALIVE_INTERVAL_MS: u64 = 1000;

pub const DEAD_TIMEOUT_MS: u64 = 8000;

/// A message is given up after this many retransmissions.
pub const MAX_RETRANSMIT: u32 = 15;

/// At most this many messages are reassembled at once.
pub const MAX_ASSEMBLERS: usize = 256;

/// The set of delivered message ids is cleared once it grows past this size.
pub const DELIVERED_CAP: usize = 65536;

/// A reliable message that has been sent and not yet acknowledged.
pub struct InFlight {
    pub data: Vec<u8>,
    pub stream: Stream,
    pub frags: u16,
    pub sent_at_ms: u64,
    /// Set once the message has been sent again; such an acknowledgement
    /// gives no round-trip sample.
    pub retransmitted: bool,
}

pub struct InFlightView {
    pub data: Seq<u8>,
    pub stream: Stream,
    pub frags: u16,
    pub sent_at_ms: u64,
    pub retransmitted: bool,
}

impl View for InFlight {
    type V = InFlightView;

    open spec fn view(&self) -> InFlightView {
        InFlightView {
            data: self.data@,
            stream: self.stream,
            frags: self.frags,
            sent_at_ms: self.sent_at_ms,
            retransmitted: self.retransmitted,
        }
    }
}

/// The fragments of one reliable message received so far, by index.
pub struct Assembler {
    pub frags: Vec<Option<Vec<u8>>>,
    pub got: u16,
}

pub struct AssemblerView {
    pub frags: Seq<Option<Seq<u8>>>,
    pub got: nat,
}

pub open spec fn opt_view(o: Option<Vec<u8>>) -> Option<Seq<u8>> {
    match o {
        Some(v) => Some(v@),
        None => None,
    }
}

impl View for Assembler {
    type V = AssemblerView;

    open spec fn view(&self) -> AssemblerView {
        AssemblerView { frags: self.frags@.map_values(|o: Option<Vec<u8>>| opt_view(o)), got: self.got as nat }
    }
}

/// How many fragments are present.
pub open spec fn filled(s: Seq<Option<Seq<u8>>>) -> nat
    decreases s.len(),
{
    if s.len() == 0 {
        0
    } else {
        filled(s.drop_last()) + if s.last() is Some {
            1nat
        } else {
            0nat
        }
    }
}

/// The present fragments, concatenated in index order.
pub open spec fn joined(s: Seq<Option<Seq<u8>>>) -> Seq<u8>
    decreases s.len(),
{
    if s.len() == 0 {
        Seq::empty()
    } else {
        joined(s.drop_last()) + match s.last() {
            Some(v) => v,
            None => Seq::empty(),
        }
    }
}

impl AssemblerView {
    pub open spec fn wf(self) -> bool {
        &&& 1 <= self.frags.len() <= MAX_FRAGMENT_COUNT
        &&& self.got == filled(self.frags)
    }
}

/// The state of one QCP connection.
pub struct CoreState {
    pub in_flight: HashMap<u32, InFlight>,
    pub assemblers: HashMap<u32, Assembler>,
    /// Ids of reliable messages already delivered (re-acknowledged, never
    /// delivered again).
    pub delivered: HashMap<u32, ()>,
    pub next_msg_id: u32,
    pub last_realtime: u32,
    /// The id of the last `Batch` message sent (0: none yet); the next one
    /// waits until it is acknowledged.
    pub last_batch: u32,
    /// Congestion window in messages; also the cap on messages in flight.
    pub cwnd: usize,
    pub ssthresh: usize,
    /// Acknowledgements counted toward the current additive-increase round.
    pub ca_ack: usize,
    pub rto_ms: u64,
    pub retrans: HashMap<u32, u32>,
    pub fin_received: bool,
    pub dead: bool,
    pub dead_reason: Option<String>,
    pub last_activity_ms: u64,
    pub handshaked: bool,
    pub closed: bool,
}

pub struct CoreView {
    pub in_flight: Map<u32, InFlightView>,
    pub assemblers: Map<u32, AssemblerView>,
    pub delivered: Set<u32>,
    pub next_msg_id: u32,
    pub last_realtime: u32,
    pub last_batch: u32,
    pub cwnd: usize,
    pub ssthresh: usize,
    pub ca_ack: usize,
    pub rto_ms: u64,
    pub retrans: Map<u32, u32>,
    pub fin_received: bool,
    pub dead: bool,
    pub dead_reason: Option<Seq<char>>,
    pub last_activity_ms: u64,
    pub handshaked: bool,
    pub closed: bool,
}

impl View for CoreState {
    type V = CoreView;

    open spec fn view(&self) -> CoreView {
        CoreView {
            in_flight: self.in_flight@.map_values(|f: InFlight| f@),
            assemblers: self.assemblers@.map_values(|a: Assembler| a@),
            delivered: self.delivered@.dom(),
            next_msg_id: self.next_msg_id,
            last_realtime: self.last_realtime,
            last_batch: self.last_batch,
            cwnd: self.cwnd,
            ssthresh: self.ssthresh,
            ca_ack: self.ca_ack,
            rto_ms: self.rto_ms,
            retrans: self.retrans@,
            fin_received: self.fin_received,
            dead: self.dead,
            dead_reason: match self.dead_reason {
                Some(s) => Some(s@),
                None => None,
            },
            last_activity_ms: self.last_activity_ms,
            handshaked: self.handshaked,
            closed: self.closed,
        }
    }
}

impl CoreView {
    /// What every state of a connection satisfies.
    pub open spec fn wf(self) -> bool {
        &&& 1 <= self.cwnd <= MAX_CWND
        &&& 1 <= self.ssthresh <= MAX_CWND
        &&& self.ca_ack < self.cwnd
        &&& self.next_msg_id != 0
        &&& self.delivered.finite()
        &&& self.assemblers.dom().finite()
        &&& forall|id: u32| #[trigger] self.assemblers.contains_key(id) ==> self.assemblers[id].wf()
        &&& forall|id: u32| #[trigger] self.retrans.contains_key(id) ==> self.retrans[id] <= MAX_RETRANSMIT
        &&& forall|id: u32| #[trigger] self.in_flight.contains_key(id) ==> 0 < self.in_flight[id].data.len() <= MAX_MESSAGE
    }
}

/// What the application does after an inbound packet.
pub struct PacketOutcome {
    /// A message to hand to the reader, with its stream.
    pub deliver: Option<(Vec<u8>, Stream)>,
    /// A control packet to send back (PONG or ACK).
    pub reply: Option<Packet>,
    /// A round-trip sample, in milliseconds, for the retransmission timer.
    pub rtt_sample_ms: Option<u64>,
    /// Wake senders waiting for window space.
    pub wake_window: bool,
    /// Wake a dialer waiting for the handshake.
    pub wake_handshake: bool,
    /// Wake a closer waiting for the peer's FIN.
    pub wake_fin: bool,
    /// Wake readers: the connection is closed.
    pub wake_closed: bool,
}

pub struct OutcomeView {
    pub deliver: Option<(Seq<u8>, Stream)>,
    pub reply: Option<PacketView>,
    pub rtt_sample_ms: Option<u64>,
    pub wake_window: bool,
    pub wake_handshake: bool,
    pub wake_fin: bool,
    pub wake_closed: bool,
}

impl View for PacketOutcome {
    type V = OutcomeView;

    open spec fn view(&self) -> OutcomeView {
        OutcomeView {
            deliver: match self.deliver {
                Some((d, s)) => Some((d@, s)),
                None => None,
            },
            reply: match self.reply {
                Some(p) => Some(p@),
                None => None,
            },
            rtt_sample_ms: self.rtt_sample_ms,
            wake_window: self.wake_window,
            wake_handshake: self.wake_handshake,
            wake_fin: self.wake_fin,
            wake_closed: self.wake_closed,
        }
    }
}

pub open spec fn no_outcome() -> OutcomeView {
    OutcomeView {
        deliver: None,
        reply: None,
        rtt_sample_ms: None,
        wake_window: false,
        wake_handshake: false,
        wake_fin: false,
        wake_closed: false,
    }
}

/// A header-only control packet.
pub open spec fn control_packet(flags: u8, stream: Stream, msg_id: u32) -> PacketView {
    PacketView {
        flags,
        stream,
        msg_id,
        frag_index: 0,
        frag_total: 0,
        payload: Seq::empty(),
    }
}

/// Congestion window and round counter after an acknowledgement: slow start
/// (one more per ACK) below the threshold, one more per window of ACKs above.
pub open spec fn cwnd_on_ack(cwnd: usize, ssthresh: usize, ca_ack: usize) -> (usize, usize) {
    if cwnd < ssthresh {
        (if cwnd + 1 <= MAX_CWND { (cwnd + 1) as usize } else { MAX_CWND }, ca_ack)
    } else if ca_ack + 1 >= cwnd {
        (if cwnd + 1 <= MAX_CWND { (cwnd + 1) as usize } else { MAX_CWND }, 0)
    } else {
        (cwnd, (ca_ack + 1) as usize)
    }
}

/// Whether a realtime message with id `id` is newer than the last one
/// delivered (serial-number comparison), or nothing was delivered yet.
pub open spec fn realtime_newer(id: u32, last: u32) -> bool {
    id.wrapping_sub(last) < 0x8000_0000u32 || last == 0
}

pub open spec fn sat_sub(a: u64, b: u64) -> u64 {
    if a >= b {
        (a - b) as u64
    } else {
        0
    }
}

/// The effect of an acknowledgement for `id`.
pub open spec fn ack_step(v: CoreView, id: u32, now: u64) -> (CoreView, OutcomeView) {
    if v.in_flight.contains_key(id) {
        let inf = v.in_flight[id];
        let (c, a) = cwnd_on_ack(v.cwnd, v.ssthresh, v.ca_ack);
        (
            CoreView {
                in_flight: v.in_flight.remove(id),
                retrans: v.retrans.remove(id),
                cwnd: c,
                ca_ack: a,
                ..v
            },
            OutcomeView {
                rtt_sample_ms: if !inf.retransmitted {
                    Some(sat_sub(now, inf.sent_at_ms))
                } else {
                    None
                },
                wake_window: true,
                ..no_outcome()
            },
        )
    } else {
        (v, OutcomeView { wake_window: true, ..no_outcome() })
    }
}

/// The assembler for a fragment's message after storing the fragment.
pub open spec fn assembler_with(v: CoreView, p: PacketView) -> AssemblerView {
    let collector0 = if v.assemblers.contains_key(p.msg_id) {
        v.assemblers[p.msg_id]
    } else {
        AssemblerView { frags: Seq::new(p.frag_total as nat, |i: int| None), got: 0 }
    };
    if collector0.frags[p.frag_index as int] is None {
        AssemblerView {
            frags: collector0.frags.update(p.frag_index as int, Some(p.payload)),
            got: collector0.got + 1,
        }
    } else {
        collector0
    }
}

/// The effect of a fragment of a reliable message.
pub open spec fn fragment_step(v: CoreView, p: PacketView) -> (CoreView, OutcomeView) {
    let id = p.msg_id;
    if !v.assemblers.contains_key(id) && v.assemblers.len() >= MAX_ASSEMBLERS {
        (v, no_outcome())
    } else {
        let collector = assembler_with(v, p);
        if collector.got == p.frag_total as nat {
            let ack = control_packet(FLAG_ACK, p.stream, id);
            if v.delivered.contains(id) {
                (
                    CoreView { assemblers: v.assemblers.insert(id, collector), ..v },
                    OutcomeView { reply: Some(ack), ..no_outcome() },
                )
            } else {
                let d = v.delivered.insert(id);
                (
                    CoreView {
                        assemblers: v.assemblers.remove(id),
                        delivered: if d.len() > DELIVERED_CAP {
                            Set::empty()
                        } else {
                            d
                        },
                        ..v
                    },
                    OutcomeView {
                        deliver: Some((joined(collector.frags), p.stream)),
                        reply: Some(ack),
                        ..no_outcome()
                    },
                )
            }
        } else {
            (CoreView { assemblers: v.assemblers.insert(id, collector), ..v }, no_outcome())
        }
    }
}

/// Whether fragment `p` falls inside the assembler its message already has
/// (or its message has none).
pub open spec fn fits_assembler(v: CoreView, p: PacketView) -> bool {
    v.assemblers.contains_key(p.msg_id) ==> p.frag_index < v.assemblers[p.msg_id].frags.len()
}

/// The effect of a fragment of a realtime message: fragments of a message
/// that is not newer than the last one delivered are dropped; the others
/// are collected, and the message is delivered once it is whole (it then
/// becomes the last one).  A fragment that does not fit its message's
/// assembler is dropped.
pub open spec fn realtime_step(v: CoreView, p: PacketView) -> (CoreView, OutcomeView) {
    let id = p.msg_id;
    if !realtime_newer(id, v.last_realtime) {
        (v, no_outcome())
    } else if !v.assemblers.contains_key(id) && v.assemblers.len() >= MAX_ASSEMBLERS {
        (v, no_outcome())
    } else if !fits_assembler(v, p) {
        (v, no_outcome())
    } else {
        let collector = assembler_with(v, p);
        if collector.got == p.frag_total as nat {
            (
                CoreView { assemblers: v.assemblers.remove(id), last_realtime: id, ..v },
                OutcomeView { deliver: Some((joined(collector.frags), p.stream)), ..no_outcome() },
            )
        } else {
            (CoreView { assemblers: v.assemblers.insert(id, collector), ..v }, no_outcome())
        }
    }
}

/// The state and outcome after an inbound packet `p` at time `now`.
pub open spec fn packet_step(v: CoreView, p: PacketView, now: u64) -> (CoreView, OutcomeView) {
    if v.closed {
        (v, no_outcome())
    } else {
        let v1 = CoreView { last_activity_ms: now, ..v };
        if p.flags & FLAG_SYN != 0 {
            (CoreView { handshaked: true, ..v1 }, OutcomeView { wake_handshake: true, ..no_outcome() })
        } else if p.flags & FLAG_FIN != 0 {
            (
                CoreView { fin_received: true, closed: true, ..v1 },
                OutcomeView {
                    wake_window: true,
                    wake_fin: true,
                    wake_closed: true,
                    ..no_outcome()
                },
            )
        } else if p.flags & FLAG_PING != 0 {
            (
                v1,
                OutcomeView {
                    reply: Some(control_packet(FLAG_PONG, p.stream, p.msg_id)),
                    ..no_outcome()
                },
            )
        } else if p.flags & FLAG_PONG != 0 {
            (v1, no_outcome())
        } else if p.flags & FLAG_ACK != 0 {
            ack_step(v1, p.msg_id, now)
        } else if p.flags & FLAG_DATA == 0 {
            (v1, no_outcome())
        } else {
            match p.stream {
                Stream::Realtime => realtime_step(v1, p),
                _ => fragment_step(v1, p),
            }
        }
    }
}

/// Whether a fragment of a reliable message fits the assembler already
/// collecting its message (a fragment index beyond it is not accepted).
pub open spec fn fragment_fits(v: CoreView, p: PacketView) -> bool {
    (p.flags & (FLAG_SYN | FLAG_FIN | FLAG_PING | FLAG_PONG | FLAG_ACK)) == 0 && (p.flags & FLAG_DATA)
        != 0 && p.stream != Stream::Realtime && v.assemblers.contains_key(p.msg_id) ==> p.frag_index
        < v.assemblers[p.msg_id].frags.len()
}


pub proof fn lemma_filled_update(s: Seq<Option<Seq<u8>>>, i: int, x: Seq<u8>)
    requires
        0 <= i < s.len(),
        s[i] is None,
    ensures
        filled(s.update(i, Some(x))) == filled(s) + 1,
    decreases s.len(),
{
    let t = s.update(i, Some(x));
    if i == s.len() - 1 {
        assert(t.drop_last() == s.drop_last());
    } else {
        assert(t.drop_last() == s.drop_last().update(i, Some(x)));
        lemma_filled_update(s.drop_last(), i, x);
    }
}

pub proof fn lemma_filled_bound(s: Seq<Option<Seq<u8>>>)
    ensures
        filled(s) <= s.len(),
    decreases s.len(),
{
    if s.len() > 0 {
        lemma_filled_bound(s.drop_last());
    }
}

pub proof fn lemma_filled_none(n: nat)
    ensures
        filled(Seq::new(n, |i: int| None::<Seq<u8>>)) == 0,
    decreases n,
{
    if n > 0 {
        assert(Seq::new(n, |i: int| None::<Seq<u8>>).drop_last() == Seq::new(
            (n - 1) as nat,
            |i: int| None::<Seq<u8>>,
        ));
        lemma_filled_none((n - 1) as nat);
    }
}

/// Concatenates the present fragments in index order.
fn join_fragments(frags: &Vec<Option<Vec<u8>>>) -> (msg: Vec<u8>)
    ensures
        msg@ == joined(frags@.map_values(|o: Option<Vec<u8>>| opt_view(o))),
{
    let ghost fv = frags@.map_values(|o: Option<Vec<u8>>| opt_view(o));
    let mut msg: Vec<u8> = Vec::new();
    let mut i: usize = 0;
    while i < frags.len()
        invariant
            0 <= i <= frags@.len(),
            fv == frags@.map_values(|o: Option<Vec<u8>>| opt_view(o)),
            msg@ == joined(fv.take(i as int)),
        decreases frags@.len() - i,
    {
        assert(fv.take(i + 1).drop_last() == fv.take(i as int));
        match &frags[i] {
            Some(b) => {
                crate::text::extend_bytes(&mut msg, b.as_slice());
            },
            None => {},
        }
        i = i + 1;
    }
    assert(fv.take(frags@.len() as int) == fv);
    msg
}

fn control(flags: u8, stream: Stream, msg_id: u32) -> (p: Packet)
    ensures
        p@ == control_packet(flags, stream, msg_id),
{
    Packet { flags, stream, msg_id, frag_index: 0, frag_total: 0, payload: bytes_empty() }
}

fn none_outcome() -> (o: PacketOutcome)
    ensures
        o@ == no_outcome(),
{
    PacketOutcome {
        deliver: None,
        reply: None,
        rtt_sample_ms: None,
        wake_window: false,
        wake_handshake: false,
        wake_fin: false,
        wake_closed: false,
    }
}

impl CoreState {
    /// A fresh connection.  `window` is the starting congestion window (0 for
    /// the default), `rto_ms` the starting retransmission timeout.
    pub fn new(window: usize, rto_ms: u64, now_ms: u64) -> (s: CoreState)
        ensures
            s@.wf(),
            s@.in_flight.is_empty(),
            s@.assemblers.is_empty(),
            s@.delivered.is_empty(),
            s@.retrans.is_empty(),
            s@.next_msg_id == 1,
            s@.last_realtime == 0,
            s@.last_batch == 0,
            s@.cwnd == (if window == 0 {
                INITIAL_CWND
            } else if window < MAX_CWND {
                window
            } else {
                MAX_CWND
            }),
            s@.ssthresh == (if window == 0 {
                INITIAL_SS_THRESH
            } else if window <= MAX_CWND / 2 {
                (window * 2) as usize
            } else {
                MAX_CWND
            }),
            s@.ca_ack == 0,
            s@.rto_ms == rto_ms,
            !s@.fin_received && !s@.dead && s@.dead_reason is None,
            s@.last_activity_ms == now_ms,
            !s@.handshaked && !s@.closed,
    {
        let cwnd = if window == 0 {
            INITIAL_CWND
        } else if window < MAX_CWND {
            window
        } else {
            MAX_CWND
        };
        let ssthresh = if window == 0 {
            INITIAL_SS_THRESH
        } else if window <= MAX_CWND / 2 {
            window * 2
        } else {
            MAX_CWND
        };
        let s = CoreState {
            in_flight: HashMap::new(),
            assemblers: HashMap::new(),
            delivered: HashMap::new(),
            next_msg_id: 1,
            last_realtime: 0,
            last_batch: 0,
            cwnd,
            ssthresh,
            ca_ack: 0,
            rto_ms,
            retrans: HashMap::new(),
            fin_received: false,
            dead: false,
            dead_reason: None,
            last_activity_ms: now_ms,
            handshaked: false,
            closed: false,
        };
        proof {
            assert(s@.in_flight =~= Map::empty());
            assert(s@.assemblers =~= Map::empty());
        }
        s
    }

    /// Whether `p` may be handed to [`CoreState::handle_packet`]: a fragment
    /// must fall inside the assembler its message already has.
    pub fn fragment_fits(&self, p: &Packet) -> (b: bool)
        ensures
            b == fragment_fits(self@, p@),
    {
        if (p.flags & (FLAG_SYN | FLAG_FIN | FLAG_PING | FLAG_PONG | FLAG_ACK)) == 0 && (p.flags
            & FLAG_DATA) != 0 && p.stream != Stream::Realtime {
            match self.assemblers.get(&p.msg_id) {
                Some(a) => (p.frag_index as usize) < a.frags.len(),
                None => true,
            }
        } else {
            true
        }
    }

    fn on_ack(&mut self, id: u32, now: u64) -> (out: PacketOutcome)
        requires
            old(self)@.wf(),
        ensures
            (final(self)@, out@) == ack_step(old(self)@, id, now),
            final(self)@.wf(),
    {
        match self.in_flight.remove(&id) {
            Some(inf) => {
                self.retrans.remove(&id);
                let sample = if !inf.retransmitted {
                    Some(if now >= inf.sent_at_ms {
                        now - inf.sent_at_ms
                    } else {
                        0
                    })
                } else {
                    None
                };
                if self.cwnd < self.ssthresh {
                    if self.cwnd + 1 <= MAX_CWND {
                        self.cwnd = self.cwnd + 1;
                    } else {
                        self.cwnd = MAX_CWND;
                    }
                } else {
                    if self.ca_ack + 1 >= self.cwnd {
                        self.ca_ack = 0;
                        if self.cwnd + 1 <= MAX_CWND {
                            self.cwnd = self.cwnd + 1;
                        } else {
                            self.cwnd = MAX_CWND;
                        }
                    } else {
                        self.ca_ack = self.ca_ack + 1;
                    }
                }
                proof {
                    assert(self@.in_flight =~= old(self)@.in_flight.remove(id));
                    assert(old(self)@.in_flight[id] == inf@);
                }
                PacketOutcome {
                    deliver: None,
                    reply: None,
                    rtt_sample_ms: sample,
                    wake_window: true,
                    wake_handshake: false,
                    wake_fin: false,
                    wake_closed: false,
                }
            },
            None => {
                proof {
                    assert(self.in_flight@ =~= old(self).in_flight@);
                    assert(self@ == old(self)@);
                }
                PacketOutcome {
                deliver: None,
                reply: None,
                rtt_sample_ms: None,
                wake_window: true,
                wake_handshake: false,
                wake_fin: false,
                wake_closed: false,
            }},
        }
    }

    /// Takes the assembler of `p`'s message out (a fresh one when it has
    /// none) and stores `p`'s fragment in it.
    fn collect_fragment(&mut self, p: &Packet) -> (c: Assembler)
        requires
            old(self)@.wf(),
            crate::qcp::wire::fragment_fields_ok(p.flags, p.frag_index, p.frag_total),
            (p.flags & FLAG_DATA) != 0,
            fits_assembler(old(self)@, p@),
        ensures
            c@ == assembler_with(old(self)@, p@),
            c@.wf(),
            final(self)@ == (CoreView { assemblers: old(self)@.assemblers.remove(p.msg_id), ..old(self)@ }),
    {
        let id = p.msg_id;
        let ghost v = self@;
        let total = p.frag_total as usize;
        let mut collector = match self.assemblers.remove(&id) {
            Some(a) => {
                proof {
                    assert(v.assemblers[id] == a@);
                }
                a
            },
            None => {
                let mut frags: Vec<Option<Vec<u8>>> = Vec::new();
                while frags.len() < total
                    invariant
                        frags@.len() <= total,
                        forall|i: int| 0 <= i < frags@.len() ==> (#[trigger] frags@[i]) is None,
                    decreases total - frags@.len(),
                {
                    frags.push(None);
                }
                proof {
                    assert(frags@.map_values(|o: Option<Vec<u8>>| opt_view(o)) =~= Seq::new(
                        p.frag_total as nat,
                        |i: int| None,
                    ));
                    lemma_filled_none(p.frag_total as nat);
                }
                Assembler { frags, got: 0 }
            },
        };
        let ghost c0 = collector@;
        proof {
            lemma_filled_bound(c0.frags);
        }
        let idx = p.frag_index as usize;
        if collector.frags[idx].is_none() {
            let mut piece: Vec<u8> = Vec::new();
            crate::text::extend_bytes(&mut piece, bytes_slice(&p.payload));
            let ghost pv = piece@;
            collector.frags.set(idx, Some(piece));
            collector.got = collector.got + 1;
            proof {
                assert(collector@.frags =~= c0.frags.update(idx as int, Some(pv)));
                lemma_filled_update(c0.frags, idx as int, pv);
            }
        }
        proof {
            assert(collector@ == assembler_with(v, p@));
            assert(collector@.wf());
        }
        proof {
            assert(self@.assemblers =~= v.assemblers.remove(id));
        }
        collector
    }

    proof fn lemma_assemblers_insert(m: Map<u32, Assembler>, k: u32, x: Assembler)
        ensures
            m.insert(k, x).map_values(|a: Assembler| a@) =~= m.map_values(|a: Assembler| a@).insert(k, x@),
    {
        let l = m.insert(k, x).map_values(|a: Assembler| a@);
        let r = m.map_values(|a: Assembler| a@).insert(k, x@);
        assert forall|j: u32| #[trigger] l.contains_key(j) implies l[j] == r[j] by {
            if j != k {
                assert(m.insert(k, x)[j] == m[j]);
            }
        }
    }

    fn on_realtime(&mut self, p: &Packet) -> (out: PacketOutcome)
        requires
            old(self)@.wf(),
            crate::qcp::wire::fragment_fields_ok(p.flags, p.frag_index, p.frag_total),
            (p.flags & FLAG_DATA) != 0,
            p.stream == Stream::Realtime,
        ensures
            (final(self)@, out@) == realtime_step(old(self)@, p@),
            final(self)@.wf(),
    {
        let id = p.msg_id;
        let ghost v = self@;
        proof {
            assert(v.assemblers.dom() =~= self.assemblers@.dom());
        }
        if !(id.wrapping_sub(self.last_realtime) < 0x8000_0000u32 || self.last_realtime == 0) {
            return none_outcome();
        }
        if !self.assemblers.contains_key(&id) && self.assemblers.len() >= MAX_ASSEMBLERS {
            return none_outcome();
        }
        match self.assemblers.get(&id) {
            Some(a) => {
                if (p.frag_index as usize) >= a.frags.len() {
                    return none_outcome();
                }
            },
            None => {},
        }
        let total = p.frag_total as usize;
        let collector = self.collect_fragment(p);
        if collector.got as usize == total {
            let msg = join_fragments(&collector.frags);
            self.last_realtime = id;
            proof {
                assert(self@ == CoreView { assemblers: v.assemblers.remove(id), last_realtime: id, ..v });
            }
            PacketOutcome {
                deliver: Some((msg, p.stream)),
                reply: None,
                rtt_sample_ms: None,
                wake_window: false,
                wake_handshake: false,
                wake_fin: false,
                wake_closed: false,
            }
        } else {
            let ghost before = self.assemblers@;
            let ghost cv = collector@;
            self.assemblers.insert(id, collector);
            proof {
                assert(self.assemblers@ == before.insert(id, collector));
                assert(before.map_values(|a: Assembler| a@) == v.assemblers.remove(id));
                assert(cv == assembler_with(v, p@));
                Self::lemma_assemblers_insert(before, id, collector);
                assert(v.assemblers.remove(id).insert(id, cv) =~= v.assemblers.insert(id, cv));
                assert(self@.assemblers =~= v.assemblers.insert(id, assembler_with(v, p@)));
                assert(self@ == CoreView { assemblers: v.assemblers.insert(id, assembler_with(v, p@)), ..v });
            }
            none_outcome()
        }
    }

    fn on_fragment(&mut self, p: &Packet) -> (out: PacketOutcome)
        requires
            old(self)@.wf(),
            crate::qcp::wire::fragment_fields_ok(p.flags, p.frag_index, p.frag_total),
            (p.flags & FLAG_DATA) != 0,
            fragment_fits(old(self)@, p@),
            (p.flags & (FLAG_SYN | FLAG_FIN | FLAG_PING | FLAG_PONG | FLAG_ACK)) == 0,
            p.stream != Stream::Realtime,
        ensures
            (final(self)@, out@) == fragment_step(old(self)@, p@),
            final(self)@.wf(),
    {
        let id = p.msg_id;
        let ghost v = self@;
        proof {
            assert(v.assemblers.dom() =~= self.assemblers@.dom());
        }
        if !self.assemblers.contains_key(&id) && self.assemblers.len() >= MAX_ASSEMBLERS {
            return none_outcome();
        }
        let total = p.frag_total as usize;
        let collector = self.collect_fragment(p);
        if collector.got as usize == total {
            let ack = control(FLAG_ACK, p.stream, id);
            if self.delivered.contains_key(&id) {
                let ghost before = self.assemblers@;
                let ghost cv = collector@;
                self.assemblers.insert(id, collector);
                proof {
                    assert(before.map_values(|a: Assembler| a@) == v.assemblers.remove(id));
                    assert(cv == assembler_with(v, p@));
                    Self::lemma_assemblers_insert(before, id, collector);
                    assert(v.assemblers.remove(id).insert(id, cv) =~= v.assemblers.insert(id, cv));
                    assert(self@.assemblers =~= v.assemblers.insert(id, assembler_with(v, p@)));
                }
                return PacketOutcome {
                    deliver: None,
                    reply: Some(ack),
                    rtt_sample_ms: None,
                    wake_window: false,
                    wake_handshake: false,
                    wake_fin: false,
                    wake_closed: false,
                };
            }
            let msg = join_fragments(&collector.frags);
            self.delivered.insert(id, ());
            if self.delivered.len() > DELIVERED_CAP {
                self.delivered.clear();
            }
            proof {
                assert(self@.assemblers =~= v.assemblers.remove(id));
                assert(self.delivered@.dom() =~= (if v.delivered.insert(id).len() > DELIVERED_CAP {
                    Set::empty()
                } else {
                    v.delivered.insert(id)
                }));
            }
            PacketOutcome {
                deliver: Some((msg, p.stream)),
                reply: Some(ack),
                rtt_sample_ms: None,
                wake_window: false,
                wake_handshake: false,
                wake_fin: false,
                wake_closed: false,
            }
        } else {
            let ghost before = self.assemblers@;
            let ghost cv = collector@;
            self.assemblers.insert(id, collector);
            proof {
                assert(self.assemblers@ == before.insert(id, collector));
                assert(before.map_values(|a: Assembler| a@) == v.assemblers.remove(id));
                assert(cv == assembler_with(v, p@));
                Self::lemma_assemblers_insert(before, id, collector);
                assert(v.assemblers.remove(id).insert(id, cv) =~= v.assemblers.insert(id, cv));
                assert(self@.assemblers =~= v.assemblers.insert(id, assembler_with(v, p@)));
                assert(self@ == CoreView { assemblers: v.assemblers.insert(id, assembler_with(v, p@)), ..v });
                assert(assembler_with(v, p@).got != p.frag_total as nat);
            }
            none_outcome()
        }
    }

    /// Reacts to an inbound packet received at `now_ms`.
    pub fn handle_packet(&mut self, p: &Packet, now_ms: u64) -> (out: PacketOutcome)
        requires
            old(self)@.wf(),
            crate::qcp::wire::packet_ok(p@),
            fragment_fits(old(self)@, p@),
        ensures
            (final(self)@, out@) == packet_step(old(self)@, p@, now_ms),
            final(self)@.wf(),
    {
        if self.closed {
            return none_outcome();
        }
        self.last_activity_ms = now_ms;
        if p.flags & FLAG_SYN != 0 {
            self.handshaked = true;
            return PacketOutcome {
                deliver: None,
                reply: None,
                rtt_sample_ms: None,
                wake_window: false,
                wake_handshake: true,
                wake_fin: false,
                wake_closed: false,
            };
        }
        if p.flags & FLAG_FIN != 0 {
            self.fin_received = true;
            self.closed = true;
            return PacketOutcome {
                deliver: None,
                reply: None,
                rtt_sample_ms: None,
                wake_window: true,
                wake_handshake: false,
                wake_fin: true,
                wake_closed: true,
            };
        }
        if p.flags & FLAG_PING != 0 {
            let pong = control(FLAG_PONG, p.stream, p.msg_id);
            return PacketOutcome {
                deliver: None,
                reply: Some(pong),
                rtt_sample_ms: None,
                wake_window: false,
                wake_handshake: false,
                wake_fin: false,
                wake_closed: false,
            };
        }
        if p.flags & FLAG_PONG != 0 {
            return none_outcome();
        }
        if p.flags & FLAG_ACK != 0 {
            return self.on_ack(p.msg_id, now_ms);
        }
        if p.flags & FLAG_DATA == 0 {
            return none_outcome();
        }
        let f = p.flags;
        proof {
            assert((f & (FLAG_SYN | FLAG_FIN | FLAG_PING | FLAG_PONG | FLAG_ACK)) == 0) by (bit_vector)
                requires
                    f & 0x01u8 == 0,
                    f & 0x08u8 == 0,
                    f & 0x10u8 == 0,
                    f & 0x20u8 == 0,
                    f & 0x02u8 == 0,
            ;
        }
        match p.stream {
            Stream::Realtime => self.on_realtime(p),
            _ => self.on_fragment(p),
        }
    }

    /// Whether a reliable send on `stream` may proceed now (`Ok(true)`),
    /// must wait for window space or for the previous `Batch` message to be
    /// acknowledged (`Ok(false)`), or fails.
    pub fn send_gate(&self, stream: Stream) -> (r: Result<bool, QcpError>)
        requires
            self@.wf(),
        ensures
            self@.closed ==> r == Err::<bool, QcpError>(QcpError::Closed),
            !self@.closed && self@.dead ==> (r matches Err(QcpError::ConnectionFailed(m)) && m@
                == dead_message(self@.dead_reason)),
            !self@.closed && !self@.dead ==> r == Ok::<bool, QcpError>(
                self@.in_flight.len() < self@.cwnd && !batch_waits(self@, stream),
            ),
    {
        if self.closed {
            return Err(QcpError::Closed);
        }
        if self.dead {
            return Err(QcpError::ConnectionFailed(self.dead_text()));
        }
        proof {
            assert(self@.in_flight.dom() =~= self.in_flight@.dom());
        }
        let waits = match stream {
            Stream::Batch => self.last_batch != 0 && self.in_flight.contains_key(&self.last_batch),
            _ => false,
        };
        Ok(self.in_flight.len() < self.cwnd && !waits)
    }

    fn dead_text(&self) -> (m: String)
        ensures
            m@ == dead_message(self@.dead_reason),
    {
        match &self.dead_reason {
            Some(r) => r.clone(),
            None => "connection dead".to_string(),
        }
    }

    /// Allocates an id for a message of `data` on `stream` and returns it
    /// with the message's fragments.  A reliable message is recorded as in
    /// flight.
    pub fn begin_send(&mut self, data: &[u8], stream: Stream, now_ms: u64) -> (r: Result<
        (u32, Vec<Packet>),
        QcpError,
    >)
        requires
            old(self)@.wf(),
            0 < data@.len() <= MAX_MESSAGE,
        ensures
            final(self)@.wf(),
            old(self)@.closed ==> r == Err::<(u32, Vec<Packet>), QcpError>(QcpError::Closed)
                && final(self)@ == old(self)@,
            !old(self)@.closed && old(self)@.dead ==> (r matches Err(QcpError::ConnectionFailed(m))
                && m@ == dead_message(old(self)@.dead_reason) && final(self)@ == old(self)@),
            !old(self)@.closed && !old(self)@.dead ==> (r matches Ok((id, pkts)) && {
                &&& id == old(self)@.next_msg_id
                &&& pkts@.map_values(|p: Packet| p@) == fragment_packets(data@, stream, id)
                &&& final(self)@ == send_step(old(self)@, data@, stream, now_ms)
            }),
    {
        if self.closed {
            return Err(QcpError::Closed);
        }
        if self.dead {
            return Err(QcpError::ConnectionFailed(self.dead_text()));
        }
        let id = self.next_msg_id;
        let mut next = self.next_msg_id.wrapping_add(1);
        if next == 0 {
            next = 1;
        }
        self.next_msg_id = next;
        let pkts = fragments(data, stream, id);
        match stream {
            Stream::Realtime => {},
            _ => {
                let count = fragment_count(data.len());
                let mut copy: Vec<u8> = Vec::new();
                crate::text::extend_bytes(&mut copy, data);
                self.in_flight.insert(
                    id,
                    InFlight {
                        data: copy,
                        stream,
                        frags: count as u16,
                        sent_at_ms: now_ms,
                        retransmitted: false,
                    },
                );
                self.last_activity_ms = now_ms;
                match stream {
                    Stream::Batch => {
                        self.last_batch = id;
                    },
                    _ => {},
                }
                proof {
                    assert(self@.in_flight =~= old(self)@.in_flight.insert(
                        id,
                        in_flight_entry(data@, stream, now_ms),
                    ));
                }
            },
        }
        Ok((id, pkts))
    }

    /// The messages due for retransmission at `now_ms` (in flight for at
    /// least the retransmission timeout), and whether one of them has used up
    /// its retransmissions.
    pub fn retransmit_plan(&self, now_ms: u64) -> (plan: RetransmitPlan)
        requires
            self@.wf(),
        ensures
            plan.give_up == exists|id: u32|
                #![trigger self@.in_flight.contains_key(id)]
                self@.in_flight.contains_key(id) && exhausted(self@, id, now_ms),
            plan.resend@.no_duplicates(),
            forall|id: u32|
                plan.resend@.contains(id) <==> (self@.in_flight.contains_key(id) && resendable(
                    self@,
                    id,
                    now_ms,
                )),
            forall|id: u32|
                #![trigger self@.in_flight.contains_key(id)]
                self@.in_flight.contains_key(id) && sat_sub(now_ms, self@.in_flight[id].sent_at_ms) >= self@.rto_ms
                    ==> plan.resend@.contains(id) || plan.give_up,
            forall|id: u32|
                #![trigger self@.in_flight.contains_key(id)]
                self@.in_flight.contains_key(id) && sat_sub(now_ms, self@.in_flight[id].sent_at_ms) >= self@.rto_ms
                    && self@.retrans.contains_key(id) && self@.retrans[id] >= MAX_RETRANSMIT ==> plan.give_up,
    {
        let mut give_up = false;
        let mut resend: Vec<u32> = Vec::new();
        let ghost v = self@;
        let ghost s = vstd::std_specs::hash::spec_keys_iter(&self.in_flight).remaining().unref();
        proof {
            assert(v.in_flight.dom() =~= self.in_flight@.dom());
        }
        for id in it: self.in_flight.keys()
            invariant
                v == self@,
                v.wf(),
                v.in_flight.dom() == self.in_flight@.dom(),
                it.seq() == vstd::std_specs::hash::spec_keys_iter(&self.in_flight).remaining(),
                s == it.seq().unref(),
                s.no_duplicates(),
                s.to_set() == self.in_flight@.dom(),
                resend@.no_duplicates(),
                forall|x: u32|
                    resend@.contains(x) <==> (s.take(it.index()).contains(x) && resendable(
                        v,
                        x,
                        now_ms,
                    )),
                give_up == exists|x: u32|
                    #![trigger s.take(it.index()).contains(x)]
                    s.take(it.index()).contains(x) && exhausted(v, x, now_ms),
        {
            proof {
                assert(*id == s[it.index()]);
                assert(s.take(it.index() + 1) == s.take(it.index()).push(*id));
                assert(!s.take(it.index()).contains(*id)) by {
                    if s.take(it.index()).contains(*id) {
                        let j = choose|j: int|
                            0 <= j < it.index() && s.take(it.index())[j] == *id;
                        assert(s[j] == s[it.index()]);
                    }
                }
                assert(s.to_set().contains(*id));
            }
            let inf = self.in_flight.get(id).unwrap();
            let ghost gid = *id;
            let ghost r0 = resend@;
            let ghost g0 = give_up;
            proof {
                assert(v.in_flight[gid] == inf@);
            }
            let age = if now_ms >= inf.sent_at_ms {
                now_ms - inf.sent_at_ms
            } else {
                0
            };
            if age >= self.rto_ms {
                let rc: u32 = match self.retrans.get(id) {
                    Some(c) => *c,
                    None => 0,
                };
                proof {
                    assert(rc == retrans_count(v, gid));
                }
                if rc >= MAX_RETRANSMIT {
                    give_up = true;
                } else {
                    resend.push(*id);
                    proof {
                        assert(!r0.contains(gid));
                        assert forall|a: int, b: int| 0 <= a < b < resend@.len() implies resend@[a]
                            != resend@[b] by {
                            if b == r0.len() {
                                assert(r0.contains(resend@[a]));
                            } else {
                                assert(r0[a] != r0[b]);
                            }
                        }
                        assert forall|x: u32| resend@.contains(x) <==> (r0.contains(x) || x == gid) by {
                            if resend@.contains(x) && x != gid {
                                let j = choose|j: int| 0 <= j < resend@.len() && resend@[j] == x;
                                assert(r0[j] == x);
                            }
                            if r0.contains(x) {
                                let j = choose|j: int| 0 <= j < r0.len() && r0[j] == x;
                                assert(resend@[j] == x);
                            }
                            if x == gid {
                                assert(resend@[r0.len() as int] == x);
                            }
                        }
                    }
                }
            }
            proof {
                assert(due(v, gid, now_ms) == (age >= self.rto_ms));
                let ghost i = it.index();
                let ghost k = i + 1;
                assert forall|x: u32| #![trigger s.take(k).contains(x)]
                    s.take(k).contains(x) <==> (s.take(i).contains(x) || x == gid) by {
                    if s.take(k).contains(x) {
                        let j = choose|j: int| 0 <= j < k && s.take(k)[j] == x;
                        if j < i {
                            assert(s.take(i)[j] == x);
                        }
                    }
                    if s.take(i).contains(x) {
                        let j = choose|j: int| 0 <= j < i && s.take(i)[j] == x;
                        assert(s.take(i + 1)[j] == x);
                    }
                    if x == gid {
                        assert(s.take(i + 1)[i] == x);
                    }
                }
                assert(resendable(v, gid, now_ms) ==> resend@.contains(gid));
                assert(forall|x: u32| #[trigger] resend@.contains(x) <==> (r0.contains(x) || (x == gid
                    && resendable(v, gid, now_ms))));
                assert(give_up == (g0 || exhausted(v, gid, now_ms)));
                if give_up && !g0 {
                    assert(s.take(k).contains(gid));
                }
                if g0 {
                    let y = choose|y: u32| #![trigger s.take(i).contains(y)] s.take(i).contains(y) && exhausted(v, y, now_ms);
                    assert(s.take(k).contains(y));
                }
                if give_up {
                    assert(exists|y: u32| #![trigger s.take(k).contains(y)] s.take(k).contains(y) && exhausted(v, y, now_ms));
                }
            }
        }
        proof {
            assert(s.take(s.len() as int) == s);
            if give_up {
                let x = choose|x: u32| #![trigger s.take(s.len() as int).contains(x)] s.take(s.len() as int).contains(x) && exhausted(v, x, now_ms);
                assert(v.in_flight.contains_key(x));
            }
            assert forall|x: u32| v.in_flight.contains_key(x) && exhausted(v, x, now_ms) implies give_up by {
                assert(s.to_set().contains(x));
                assert(s.take(s.len() as int).contains(x));
            }
            assert forall|x: u32| #[trigger] v.in_flight.contains_key(x) && due(v, x, now_ms) implies resend@.contains(x)
                || give_up by {
                assert(s.to_set().contains(x));
                assert(s.take(s.len() as int).contains(x));
                if !exhausted(v, x, now_ms) {
                    assert(resendable(v, x, now_ms));
                }
            }
        }
        RetransmitPlan { give_up, resend }
    }
}

/// The in-flight messages due for retransmission, and whether the link gives
/// up.
pub struct RetransmitPlan {
    pub give_up: bool,
    pub resend: Vec<u32>,
}

/// The longest message a link carries: as many fragments as a receiver
/// reassembles (`MAX_FRAGMENT_COUNT`), each of a full payload.
pub const MAX_MESSAGE: usize = 11_321_344;

/// The reason reported for a dead link.
pub open spec fn dead_message(reason: Option<Seq<char>>) -> Seq<char> {
    match reason {
        Some(r) => r,
        None => "connection dead"@,
    }
}

/// How many fragments a message of `len` bytes is split into.
pub open spec fn fragment_count_spec(len: nat) -> nat {
    ((len + MAX_PAYLOAD - 1) / (MAX_PAYLOAD as int)) as nat
}

/// The `i`-th fragment of `data`.
pub open spec fn chunk(data: Seq<u8>, i: int) -> Seq<u8> {
    let end = if (i + 1) * MAX_PAYLOAD <= data.len() {
        (i + 1) * MAX_PAYLOAD
    } else {
        data.len() as int
    };
    data.subrange(i * MAX_PAYLOAD, end)
}

/// The data packets that carry message `id`.
pub open spec fn fragment_packets(data: Seq<u8>, stream: Stream, id: u32) -> Seq<PacketView> {
    let n = fragment_count_spec(data.len());
    Seq::new(
        n,
        |i: int|
            PacketView {
                flags: FLAG_DATA,
                stream,
                msg_id: id,
                frag_index: i as u16,
                frag_total: n as u16,
                payload: chunk(data, i),
            },
    )
}

/// The record of a reliable message sent at `now`.
pub open spec fn in_flight_entry(data: Seq<u8>, stream: Stream, now: u64) -> InFlightView {
    InFlightView {
        data,
        stream,
        frags: fragment_count_spec(data.len()) as u16,
        sent_at_ms: now,
        retransmitted: false,
    }
}

/// The message id after `id`; 0 is never used.
pub open spec fn next_id(id: u32) -> u32 {
    if id.wrapping_add(1) == 0 {
        1
    } else {
        id.wrapping_add(1)
    }
}

/// The state after sending `data` on `stream` at `now`.
pub open spec fn send_step(v: CoreView, data: Seq<u8>, stream: Stream, now: u64) -> CoreView {
    let v1 = CoreView { next_msg_id: next_id(v.next_msg_id), ..v };
    match stream {
        Stream::Realtime => v1,
        Stream::Critical => CoreView {
            in_flight: v.in_flight.insert(v.next_msg_id, in_flight_entry(data, stream, now)),
            last_activity_ms: now,
            ..v1
        },
        Stream::Batch => CoreView {
            in_flight: v.in_flight.insert(v.next_msg_id, in_flight_entry(data, stream, now)),
            last_activity_ms: now,
            last_batch: v.next_msg_id,
            ..v1
        },
    }
}

/// Whether a send on `stream` must wait for the previous `Batch` message:
/// `Batch` messages go out one at a time, each once the one before it is
/// acknowledged, so that they are delivered in the order they are sent.
pub open spec fn batch_waits(v: CoreView, stream: Stream) -> bool {
    stream == Stream::Batch && v.last_batch != 0 && v.in_flight.contains_key(v.last_batch)
}

/// Whether message `id` has waited a full retransmission timeout.
pub open spec fn due(v: CoreView, id: u32, now: u64) -> bool {
    sat_sub(now, v.in_flight[id].sent_at_ms) >= v.rto_ms
}

/// How often message `id` has been retransmitted.
pub open spec fn retrans_count(v: CoreView, id: u32) -> u32 {
    if v.retrans.contains_key(id) {
        v.retrans[id]
    } else {
        0
    }
}

pub open spec fn exhausted(v: CoreView, id: u32, now: u64) -> bool {
    due(v, id, now) && retrans_count(v, id) + 1 > MAX_RETRANSMIT
}

pub open spec fn resendable(v: CoreView, id: u32, now: u64) -> bool {
    due(v, id, now) && retrans_count(v, id) + 1 <= MAX_RETRANSMIT
}

/// How many fragments a message of `len` bytes is split into.
pub fn fragment_count(len: usize) -> (n: usize)
    requires
        len <= MAX_MESSAGE,
    ensures
        n == fragment_count_spec(len as nat),
        n <= MAX_FRAGMENT_COUNT,
{
    (len + MAX_PAYLOAD - 1) / MAX_PAYLOAD
}

/// The data packets that carry message `id` of `data` on `stream`.
pub fn fragments(data: &[u8], stream: Stream, id: u32) -> (pkts: Vec<Packet>)
    requires
        data@.len() <= MAX_MESSAGE,
    ensures
        pkts@.map_values(|p: Packet| p@) == fragment_packets(data@, stream, id),
{
    let n = fragment_count(data.len());
    let mut pkts: Vec<Packet> = Vec::new();
    let mut i: usize = 0;
    while i < n
        invariant
            n == fragment_count_spec(data@.len()),
            n <= MAX_FRAGMENT_COUNT,
            data@.len() <= MAX_MESSAGE,
            0 <= i <= n,
            pkts@.len() == i,
            forall|k: int| 0 <= k < i ==> (#[trigger] pkts@[k])@ == fragment_packets(data@, stream, id)[k],
        decreases n - i,
    {
        let start = i * MAX_PAYLOAD;
        let end = if (i + 1) * MAX_PAYLOAD <= data.len() {
            (i + 1) * MAX_PAYLOAD
        } else {
            data.len()
        };
        proof {
            assert(start <= end) by (nonlinear_arith)
                requires
                    start == i * MAX_PAYLOAD,
                    i < n,
                    n == (data@.len() + MAX_PAYLOAD - 1) / (MAX_PAYLOAD as int),
                    end == (if (i + 1) * MAX_PAYLOAD <= data@.len() { (i + 1) * MAX_PAYLOAD } else { data@.len() as int }),
            ;
        }
        let piece = bytes_copy(slice_range(data, start, end));
        pkts.push(
            Packet {
                flags: FLAG_DATA,
                stream,
                msg_id: id,
                frag_index: i as u16,
                frag_total: n as u16,
                payload: piece,
            },
        );
        i = i + 1;
    }
    proof {
        assert(pkts@.map_values(|p: Packet| p@) =~= fragment_packets(data@, stream, id));
    }
    pkts
}

/// `data[start..end]`.
pub fn slice_range(data: &[u8], start: usize, end: usize) -> (r: &[u8])
    requires
        start <= end <= data@.len(),
    ensures
        r@ == data@.subrange(start as int, end as int),
{
    let (head, _) = data.split_at(end);
    let (_, mid) = head.split_at(start);
    proof {
        assert(mid@ =~= data@.subrange(start as int, end as int));
    }
    mid
}

/// What the keep-alive timer does at a tick.
pub enum Liveness {
    /// The link is closed: the timer stops.
    Stopped,
    /// The peer has been silent too long: the link was declared dead.
    Died,
    /// The link has been idle: send this PING.
    Ping(Packet),
    /// Nothing to do.
    Quiet,
}

/// The state after message `id` is sent again at `now`: it is marked
/// retransmitted, its count grows by one, and the window collapses
/// (multiplicative decrease).
pub open spec fn retransmit_step(v: CoreView, id: u32, now: u64) -> CoreView {
    CoreView {
        in_flight: if v.in_flight.contains_key(id) {
            v.in_flight.insert(
                id,
                InFlightView { sent_at_ms: now, retransmitted: true, ..v.in_flight[id] },
            )
        } else {
            v.in_flight
        },
        retrans: v.retrans.insert(id, (retrans_count(v, id) + 1) as u32),
        ssthresh: if v.cwnd / 2 >= MIN_CWND {
            v.cwnd / 2
        } else {
            MIN_CWND
        },
        cwnd: MIN_CWND,
        ca_ack: 0,
        ..v
    }
}

/// The state of a link declared dead for `reason`.
pub open spec fn dead_step(v: CoreView, reason: Seq<char>) -> CoreView {
    CoreView { dead: true, dead_reason: Some(reason), closed: true, ..v }
}

/// The state of a link closed locally: nothing stays in flight or half
/// assembled.
pub open spec fn close_step(v: CoreView) -> CoreView {
    CoreView { closed: true, in_flight: Map::empty(), assemblers: Map::empty(), ..v }
}

/// How long the peer has been silent at `now`.
pub open spec fn idle_ms(v: CoreView, now: u64) -> u64 {
    sat_sub(now, v.last_activity_ms)
}

/// What a keep-alive tick at `now` does to the state.
pub open spec fn liveness_step(v: CoreView, now: u64) -> CoreView {
    if !v.closed && idle_ms(v, now) >= DEAD_TIMEOUT_MS {
        dead_step(v, "peer idle timeout"@)
    } else {
        v
    }
}

/// Whether a message of `len` bytes is refused as too large.
pub open spec fn too_large(len: nat) -> bool {
    len > MAX_MESSAGE
}

/// Checks the length of a message before it is sent: too large is an error,
/// an empty message is accepted and nothing is sent (`Ok(false)`), any other
/// goes on (`Ok(true)`).
pub fn check_message_len(len: usize) -> (r: Result<bool, QcpError>)
    ensures
        too_large(len as nat) ==> r == Err::<bool, QcpError>(QcpError::TooLarge(len, MAX_MESSAGE)),
        !too_large(len as nat) ==> r == Ok::<bool, QcpError>(len > 0),
{
    if len > MAX_MESSAGE {
        Err(QcpError::TooLarge(len, MAX_MESSAGE))
    } else {
        Ok(len > 0)
    }
}

/// A listener's answer to a SYN from a peer: whether a new connection
/// replaces the peer's current one (there is none, or it is closed), and the
/// SYN-ACK that is sent back in every case.
pub fn listener_syn(existing_closed: Option<bool>) -> (r: (bool, Packet))
    ensures
        r.0 == (match existing_closed {
            Some(c) => c,
            None => true,
        }),
        r.1@ == control_packet(FLAG_SYN | FLAG_ACK, Stream::Batch, 0),
{
    let replace = match existing_closed {
        Some(c) => c,
        None => true,
    };
    (replace, control(FLAG_SYN | FLAG_ACK, Stream::Batch, 0))
}

impl CoreState {
    /// Records that message `id` was sent again at `now_ms`.
    pub fn note_retransmit(&mut self, id: u32, now_ms: u64)
        requires
            old(self)@.wf(),
            retrans_count(old(self)@, id) < MAX_RETRANSMIT,
        ensures
            final(self)@ == retransmit_step(old(self)@, id, now_ms),
            final(self)@.wf(),
    {
        let ghost v = self@;
        match self.in_flight.remove(&id) {
            Some(inf) => {
                proof {
                    assert(v.in_flight[id] == inf@);
                }
                self.in_flight.insert(
                    id,
                    InFlight {
                        data: inf.data,
                        stream: inf.stream,
                        frags: inf.frags,
                        sent_at_ms: now_ms,
                        retransmitted: true,
                    },
                );
            },
            None => {},
        }
        let rc: u32 = match self.retrans.get(&id) {
            Some(c) => *c,
            None => 0,
        };
        self.retrans.insert(id, rc + 1);
        let half = self.cwnd / 2;
        self.ssthresh = if half >= MIN_CWND {
            half
        } else {
            MIN_CWND
        };
        self.cwnd = MIN_CWND;
        self.ca_ack = 0;
        proof {
            assert(self@.in_flight =~= retransmit_step(v, id, now_ms).in_flight);
            assert(self@.retrans =~= retransmit_step(v, id, now_ms).retrans);
        }
    }

    /// Declares the link dead for `reason`; it is closed too.
    pub fn mark_dead(&mut self, reason: &str)
        requires
            old(self)@.wf(),
        ensures
            final(self)@ == dead_step(old(self)@, reason@),
            final(self)@.wf(),
    {
        self.dead = true;
        self.dead_reason = Some(reason.to_string());
        self.closed = true;
    }

    /// Closes the link locally and returns the FIN to send.
    pub fn close(&mut self) -> (fin: Packet)
        requires
            old(self)@.wf(),
        ensures
            final(self)@ == close_step(old(self)@),
            final(self)@.wf(),
            fin@ == control_packet(FLAG_FIN, Stream::Batch, 0),
    {
        self.closed = true;
        self.in_flight.clear();
        self.assemblers.clear();
        proof {
            assert(self@.in_flight =~= Map::empty());
            assert(self@.assemblers =~= Map::empty());
        }
        control(FLAG_FIN, Stream::Batch, 0)
    }

    /// One tick of the keep-alive timer at `now_ms`.
    pub fn liveness_tick(&mut self, now_ms: u64) -> (r: Liveness)
        requires
            old(self)@.wf(),
        ensures
            final(self)@ == liveness_step(old(self)@, now_ms),
            final(self)@.wf(),
            old(self)@.closed ==> r is Stopped,
            !old(self)@.closed && idle_ms(old(self)@, now_ms) >= DEAD_TIMEOUT_MS ==> r is Died,
            !old(self)@.closed && KEEPALIVE_INTERVAL_MS <= idle_ms(old(self)@, now_ms)
                < DEAD_TIMEOUT_MS ==> (r matches Liveness::Ping(p) && p@ == control_packet(
                FLAG_PING,
                Stream::Batch,
                0,
            )),
            !old(self)@.closed && idle_ms(old(self)@, now_ms) < KEEPALIVE_INTERVAL_MS ==> r is Quiet,
    {
        if self.closed {
            return Liveness::Stopped;
        }
        let idle = if now_ms >= self.last_activity_ms {
            now_ms - self.last_activity_ms
        } else {
            0
        };
        if idle >= DEAD_TIMEOUT_MS {
            self.mark_dead("peer idle timeout");
            Liveness::Died
        } else if idle >= KEEPALIVE_INTERVAL_MS {
            Liveness::Ping(control(FLAG_PING, Stream::Batch, 0))
        } else {
            Liveness::Quiet
        }
    }

    /// The packets that carry in-flight message `id` again.
    pub fn resend_packets(&self, id: u32) -> (pkts: Vec<Packet>)
        requires
            self@.wf(),
            self@.in_flight.contains_key(id),
        ensures
            pkts@.map_values(|p: Packet| p@) == fragment_packets(
                self@.in_flight[id].data,
                self@.in_flight[id].stream,
                id,
            ),
    {
        let inf = self.in_flight.get(&id).unwrap();
        proof {
            assert(self@.in_flight[id] == inf@);
        }
        fragments(inf.data.as_slice(), inf.stream, id)
    }

    /// Replaces the retransmission timeout (the estimator lives with the
    /// caller).
    pub fn set_rto_ms(&mut self, rto_ms: u64)
        requires
            old(self)@.wf(),
        ensures
            final(self)@ == (CoreView { rto_ms, ..old(self)@ }),
            final(self)@.wf(),
    {
        self.rto_ms = rto_ms;
    }
}

} // verus!
