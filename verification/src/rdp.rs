//! Reliable-datagram sub-state of a connection: a sliding window with
//! 16-bit wrapping sequence numbers, delayed acknowledgments, in-order
//! delivery with an out-of-order holding area, and timer-driven
//! retransmission. The machine itself never touches the wire: it hands
//! copies of segments back to the router and records what it was given.

use vstd::prelude::*;

use crate::codes::RdpState;
use crate::packet::{CspPacket, RdpKind};
use crate::queue::PacketQueue;

verus! {

/// The sequence number `k` steps after `s`, wrapping at sixteen bits.
pub open spec fn spec_seq_add(s: u16, k: int) -> u16 {
    (((s as int) + k) % 65536) as u16
}

/// How many forward steps lead from `from` to `to`, in `0..65536`.
pub open spec fn spec_seq_dist(from: u16, to: u16) -> int {
    ((to as int) - (from as int)) % 65536
}

/// The sequence number directly after `s`.
pub fn seq_next(s: u16) -> (r: u16)
    ensures
        r == spec_seq_add(s, 1),
{
    if s == 65535 {
        proof {
            vstd::arithmetic::div_mod::lemma_mod_self_0(65536);
        }
        0
    } else {
        proof {
            vstd::arithmetic::div_mod::lemma_small_mod((s + 1) as nat, 65536);
        }
        s + 1
    }
}

/// Forward distance from `from` to `to` in sequence space.
pub fn seq_dist(from: u16, to: u16) -> (r: u32)
    ensures
        r == spec_seq_dist(from, to),
{
    if to >= from {
        proof {
            vstd::arithmetic::div_mod::lemma_small_mod((to - from) as nat, 65536);
        }
        (to - from) as u32
    } else {
        proof {
            vstd::arithmetic::div_mod::lemma_mod_multiples_vanish(
                1,
                (to as int) - (from as int),
                65536,
            );
            vstd::arithmetic::div_mod::lemma_small_mod(
                ((to as int) - (from as int) + 65536) as nat,
                65536,
            );
        }
        to as u32 + 65536 - from as u32
    }
}

/// Stepping from a number by the distance to another lands on the other:
/// distance and step are inverse operations in sequence space.
pub proof fn lemma_seq_dist_add(from: u16, to: u16)
    ensures
        spec_seq_add(from, spec_seq_dist(from, to)) == to,
{
    let m = 65536;
    let diff = (to as int) - (from as int);
    vstd::arithmetic::div_mod::lemma_add_mod_noop_right(from as int, diff, m);
    vstd::arithmetic::div_mod::lemma_small_mod(to as nat, m as nat);
}

/// After one forward step, the distance to a strictly-ahead number
/// shrinks by exactly one.
pub proof fn lemma_seq_dist_step(from: u16, to: u16)
    requires
        spec_seq_dist(from, to) >= 1,
    ensures
        spec_seq_dist(spec_seq_add(from, 1), to) == spec_seq_dist(from, to) - 1,
{
    let m = 65536;
    let f1 = spec_seq_add(from, 1);
    vstd::arithmetic::div_mod::lemma_mod_bound((from as int) + 1, m);
    assert(f1 as int == ((from as int) + 1) % m);
    // distance from the stepped number:
    // (to - f1) % m == (to - from - 1) % m
    vstd::arithmetic::div_mod::lemma_sub_mod_noop_right(to as int, (from as int) + 1, m);
    // (to - from - 1) % m == ((to - from) % m) - 1 because the reduced
    // distance is at least one
    let d = spec_seq_dist(from, to);
    vstd::arithmetic::div_mod::lemma_fundamental_div_mod((to as int) - (from as int), m);
    let q = ((to as int) - (from as int)) / m;
    assert((to as int) - (from as int) == q * m + d);
    assert((to as int) - (from as int) - 1 == q * m + (d - 1));
    vstd::arithmetic::div_mod::lemma_mod_multiples_vanish(q, d - 1, m);
    vstd::arithmetic::div_mod::lemma_mod_bound((to as int) - (from as int), m);
    vstd::arithmetic::div_mod::lemma_small_mod((d - 1) as nat, m as nat);
}

/// Stepping zero numbers forward stays in place.
pub proof fn lemma_seq_add_zero(s: u16)
    ensures
        spec_seq_add(s, 0) == s,
{
    vstd::arithmetic::div_mod::lemma_small_mod(s as nat, 65536);
}

/// Stepping `a` then `b` numbers forward is stepping `a + b` forward.
pub proof fn lemma_seq_add_add(s: u16, a: int, b: int)
    ensures
        spec_seq_add(spec_seq_add(s, a), b) == spec_seq_add(s, a + b),
{
    let m = 65536;
    let x = (s as int) + a;
    vstd::arithmetic::div_mod::lemma_mod_bound(x, m);
    assert(spec_seq_add(s, a) as int == x % m);
    vstd::arithmetic::div_mod::lemma_add_mod_noop_right(x % m, b, m);
    vstd::arithmetic::div_mod::lemma_add_mod_noop(x, b, m);
    vstd::arithmetic::div_mod::lemma_mod_twice(x, m);
    assert((x % m + b) % m == (x % m + b % m) % m);
    assert((x % m + b % m) % m == (x + b) % m);
}

/// A queue is an unbroken run of data segments whose last element, if
/// any, carries the given sequence number.
pub open spec fn spec_rx_contiguous(q: Seq<CspPacket>, last: u16) -> bool {
    &&& forall|i: int|
        0 <= i < q.len() - 1 ==> q[i + 1].rdp.seq == spec_seq_add(#[trigger] q[i].rdp.seq, 1)
    &&& q.len() > 0 ==> q[q.len() - 1].rdp.seq == last
    &&& forall|i: int| 0 <= i < q.len() ==> (#[trigger] q[i].rdp.kind) == RdpKind::Data
}

/// In-order delivery: in an unbroken run, any later element is exactly
/// its positional distance ahead of any earlier one, so the receive
/// queue of a reliable connection yields segments in sequence order.
pub proof fn lemma_rdp_in_order_delivery(q: Seq<CspPacket>, last: u16, k: int, l: int)
    requires
        spec_rx_contiguous(q, last),
        0 <= k <= l < q.len(),
    ensures
        q[l].rdp.seq == spec_seq_add(q[k].rdp.seq, l - k),
    decreases l - k,
{
    if l == k {
        assert(spec_seq_add(q[k].rdp.seq, 0) == q[k].rdp.seq) by {
            vstd::arithmetic::div_mod::lemma_small_mod(q[k].rdp.seq as nat, 65536);
        }
    } else {
        lemma_rdp_in_order_delivery(q, last, k, l - 1);
        assert(q[l].rdp.seq == spec_seq_add(q[l - 1].rdp.seq, 1));
        lemma_seq_add_add(q[k].rdp.seq, l - 1 - k, 1);
    }
}

/// An unacknowledged segment kept for retransmission.
pub struct RdpTxSlot {
    /// Sequence number the segment went out with.
    pub seq: u16,
    /// When the segment was last put on the wire.
    pub sent_at: u32,
    /// How many times the segment has been retransmitted.
    pub retries: u32,
    /// The segment itself.
    pub packet: CspPacket,
}

/// What a timer tick asks the router to do.
pub struct RdpTickResult {
    /// Wire copies of segments whose packet timeout elapsed.
    pub retransmit: Vec<CspPacket>,
    /// Whether a delayed acknowledgment is now due.
    pub send_ack: bool,
    /// Whether the connection-level timeout elapsed and the machine closed.
    pub timed_out: bool,
}

/// What accepting an incoming data segment produced.
pub struct RdpRxResult {
    /// Buffers the machine is done with (duplicates, overflow, stale).
    pub freed: Vec<CspPacket>,
    /// Whether an acknowledgment should go out at once.
    pub ack_now: bool,
}

/// Reliable-datagram state embedded in one connection.
pub struct RdpConn {
    /// Protocol state.
    pub state: RdpState,
    /// Whether this side has asked to close.
    pub closed_by_self: bool,
    /// Whether the peer has asked to close.
    pub closed_by_peer: bool,
    /// Initial send sequence number.
    pub snd_iss: u16,
    /// Next sequence number to send.
    pub snd_nxt: u16,
    /// Oldest unacknowledged sequence number.
    pub snd_una: u16,
    /// Initial receive sequence number.
    pub rcv_irs: u16,
    /// Last sequence number received correctly and in order.
    pub rcv_cur: u16,
    /// Last acknowledgment value sent to the peer.
    pub rcv_lsa: u16,
    /// Bound on segments in flight.
    pub window_size: u32,
    /// Connection-level timeout in milliseconds.
    pub conn_timeout_ms: u32,
    /// Per-segment retransmission timeout in milliseconds.
    pub packet_timeout_ms: u32,
    /// Deliveries to batch before acknowledging immediately.
    pub delayed_acks: u32,
    /// Delayed acknowledgment timeout in milliseconds.
    pub ack_timeout_ms: u32,
    /// Deliveries since the last acknowledgment went out.
    pub ack_delay_count: u32,
    /// When the pending delayed acknowledgment started waiting.
    pub ack_timestamp: u32,
    /// Unacknowledged segments, oldest first.
    pub tx_pending: Vec<RdpTxSlot>,
    /// Segments received ahead of order, awaiting the gap to fill.
    pub rx_ooo: Vec<CspPacket>,
    /// When an acknowledgment last made progress (or the machine opened).
    pub last_progress: u32,
}

impl RdpConn {
    /// Structural invariant: the retransmission buffer is an unbroken run
    /// starting at the oldest unacknowledged number and ending just
    /// before the next number to send, bounded by the window; the
    /// holding area keeps only distinct data segments strictly ahead of
    /// the delivery point and well inside half the sequence space.
    pub open spec fn wf(&self) -> bool {
        &&& 1 <= self.window_size < 16384
        &&& self.tx_pending@.len() <= self.window_size
        &&& forall|i: int|
            0 <= i < self.tx_pending@.len() ==> (#[trigger] self.tx_pending@[i].seq)
                == spec_seq_add(self.snd_una, i)
        &&& self.snd_nxt == spec_seq_add(self.snd_una, self.tx_pending@.len() as int)
        &&& (self.state == RdpState::SynSent || self.state == RdpState::SynRcvd) ==> (
        self.rx_ooo@.len() == 0 && self.tx_pending@.len() == 0)
        &&& forall|i: int|
            0 <= i < self.rx_ooo@.len() ==> 1 <= spec_seq_dist(
                self.rcv_cur,
                (#[trigger] self.rx_ooo@[i].rdp.seq),
            ) < 32768
        &&& forall|i: int, j: int|
            0 <= i < j < self.rx_ooo@.len() ==> (#[trigger] self.rx_ooo@[i].rdp.seq)
                != (#[trigger] self.rx_ooo@[j].rdp.seq)
        &&& forall|i: int|
            0 <= i < self.rx_ooo@.len() ==> (#[trigger] self.rx_ooo@[i].rdp.kind)
                == RdpKind::Data
    }

    /// Machine for the side that initiates the connection; it has sent
    /// its request and waits for the peer's acknowledged request.
    pub fn open_active(
        iss: u16,
        window_size: u32,
        conn_timeout_ms: u32,
        packet_timeout_ms: u32,
        delayed_acks: u32,
        ack_timeout_ms: u32,
        now: u32,
    ) -> (r: RdpConn)
        requires
            1 <= window_size < 16384,
        ensures
            r.wf(),
            r.state == RdpState::SynSent,
            r.snd_iss == iss,
            r.snd_una == spec_seq_add(iss, 1),
            r.snd_nxt == spec_seq_add(iss, 1),
            r.tx_pending@.len() == 0,
            r.rx_ooo@.len() == 0,
            r.last_progress == now,
            r.window_size == window_size,
            r.conn_timeout_ms == conn_timeout_ms,
            r.packet_timeout_ms == packet_timeout_ms,
    {
        let next = seq_next(iss);
        proof {
            vstd::arithmetic::div_mod::lemma_small_mod(next as nat, 65536);
        }
        RdpConn {
            state: RdpState::SynSent,
            closed_by_self: false,
            closed_by_peer: false,
            snd_iss: iss,
            snd_nxt: next,
            snd_una: next,
            rcv_irs: 0,
            rcv_cur: 0,
            rcv_lsa: 0,
            window_size,
            conn_timeout_ms,
            packet_timeout_ms,
            delayed_acks,
            ack_timeout_ms,
            ack_delay_count: 0,
            ack_timestamp: now,
            tx_pending: Vec::new(),
            rx_ooo: Vec::new(),
            last_progress: now,
        }
    }

    /// Machine for the side that received a connection request on a
    /// listening socket; it remembers the peer's initial number and
    /// waits for the final handshake acknowledgment.
    pub fn open_passive(
        iss: u16,
        peer_syn_seq: u16,
        window_size: u32,
        conn_timeout_ms: u32,
        packet_timeout_ms: u32,
        delayed_acks: u32,
        ack_timeout_ms: u32,
        now: u32,
    ) -> (r: RdpConn)
        requires
            1 <= window_size < 16384,
        ensures
            r.wf(),
            r.state == RdpState::SynRcvd,
            r.snd_iss == iss,
            r.rcv_irs == peer_syn_seq,
            r.rcv_cur == peer_syn_seq,
            r.tx_pending@.len() == 0,
            r.rx_ooo@.len() == 0,
            r.last_progress == now,
    {
        let next = seq_next(iss);
        proof {
            vstd::arithmetic::div_mod::lemma_small_mod(next as nat, 65536);
        }
        RdpConn {
            state: RdpState::SynRcvd,
            closed_by_self: false,
            closed_by_peer: false,
            snd_iss: iss,
            snd_nxt: next,
            snd_una: next,
            rcv_irs: peer_syn_seq,
            rcv_cur: peer_syn_seq,
            rcv_lsa: peer_syn_seq,
            window_size,
            conn_timeout_ms,
            packet_timeout_ms,
            delayed_acks,
            ack_timeout_ms,
            ack_delay_count: 0,
            ack_timestamp: now,
            tx_pending: Vec::new(),
            rx_ooo: Vec::new(),
            last_progress: now,
        }
    }

    /// The initiating side takes the peer's acknowledged request: the
    /// machine opens exactly when it was waiting for one and the
    /// acknowledgment names its own initial number.
    pub fn on_syn_ack(&mut self, seq: u16, ack: u16, now: u32) -> (accepted: bool)
        requires
            old(self).wf(),
        ensures
            final(self).wf(),
            accepted == (old(self).state == RdpState::SynSent && ack == old(self).snd_iss),
            accepted ==> final(self).state == RdpState::Open && final(self).rcv_irs == seq
                && final(self).rcv_cur == seq && final(self).last_progress == now,
            !accepted ==> *final(self) == *old(self),
    {
        if matches!(self.state, RdpState::SynSent) && ack == self.snd_iss {
            self.state = RdpState::Open;
            self.rcv_irs = seq;
            self.rcv_cur = seq;
            self.rcv_lsa = seq;
            self.last_progress = now;
            true
        } else {
            false
        }
    }

    /// The listening side takes the final handshake acknowledgment: the
    /// machine opens exactly when it was waiting for one and the
    /// acknowledgment names its own initial number.
    pub fn on_handshake_ack(&mut self, ack: u16, now: u32) -> (accepted: bool)
        requires
            old(self).wf(),
        ensures
            final(self).wf(),
            accepted == (old(self).state == RdpState::SynRcvd && ack == old(self).snd_iss),
            accepted ==> final(self).state == RdpState::Open && final(self).last_progress == now,
            !accepted ==> *final(self) == *old(self),
    {
        if matches!(self.state, RdpState::SynRcvd) && ack == self.snd_iss {
            self.state = RdpState::Open;
            self.last_progress = now;
            true
        } else {
            false
        }
    }

    /// Whether the window has room for one more segment in flight.
    pub fn can_send(&self) -> (r: bool)
        ensures
            r == (self.tx_pending@.len() < self.window_size),
    {
        self.tx_pending.len() < self.window_size as usize
    }

    /// Record a segment as sent and in flight. The segment must carry the
    /// next send number; the window must have room.
    pub fn record_sent(&mut self, packet: CspPacket, now: u32) -> (seq: u16)
        requires
            old(self).wf(),
            old(self).state == RdpState::Open,
            old(self).tx_pending@.len() < old(self).window_size,
            packet.rdp.kind == RdpKind::Data,
            packet.rdp.seq == old(self).snd_nxt,
        ensures
            final(self).wf(),
            seq == old(self).snd_nxt,
            final(self).tx_pending@.len() == old(self).tx_pending@.len() + 1,
            final(self).snd_nxt == spec_seq_add(old(self).snd_nxt, 1),
            final(self).snd_una == old(self).snd_una,
            final(self).state == old(self).state,
            final(self).rcv_cur == old(self).rcv_cur,
            final(self).tx_pending@[final(self).tx_pending@.len() - 1].packet == packet,
    {
        let seq = self.snd_nxt;
        let slot = RdpTxSlot { seq, sent_at: now, retries: 0, packet };
        self.tx_pending.push(slot);
        self.snd_nxt = seq_next(self.snd_nxt);
        proof {
            lemma_seq_add_add(self.snd_una, old(self).tx_pending@.len() as int, 1);
        }
        seq
    }

    /// Take an acknowledgment: every in-flight segment at or before the
    /// acknowledged number is released and returned for disposal.
    pub fn on_ack(&mut self, ack: u16, now: u32) -> (released: Vec<CspPacket>)
        requires
            old(self).wf(),
        ensures
            final(self).wf(),
            final(self).state == old(self).state,
            final(self).rcv_cur == old(self).rcv_cur,
            final(self).snd_nxt == old(self).snd_nxt,
            final(self).tx_pending@.len() <= old(self).tx_pending@.len(),
            released@.len() == old(self).tx_pending@.len() - final(self).tx_pending@.len(),
            released@.len() > 0 ==> final(self).last_progress == now,
            released@.len() == 0 ==> final(self).last_progress == old(self).last_progress,
            // whatever is still pending was pending before, in order
            forall|i: int|
                0 <= i < final(self).tx_pending@.len() ==> final(self).tx_pending@[i].seq
                    == old(self).tx_pending@[i + released@.len()].seq,
            // an acknowledgment covering the oldest segment releases at
            // least that segment; what it released is exactly the covered
            // prefix, and whatever stays is still ahead of the
            // acknowledgment
            (old(self).tx_pending@.len() > 0 && spec_seq_dist(
                old(self).tx_pending@[0].seq,
                ack,
            ) < 32768) ==> released@.len() > 0,
            final(self).tx_pending@.len() > 0 ==> spec_seq_dist(
                final(self).tx_pending@[0].seq,
                ack,
            ) >= 32768,
            forall|i: int|
                0 <= i < released@.len() ==> (#[trigger] released@[i]) == old(
                    self,
                ).tx_pending@[i].packet && spec_seq_dist(old(self).tx_pending@[i].seq, ack)
                    < 32768,
    {
        let ghost orig = self.tx_pending@;
        let mut released: Vec<CspPacket> = Vec::new();
        loop
            invariant
                self.wf(),
                self.state == old(self).state,
                self.rcv_cur == old(self).rcv_cur,
                self.snd_nxt == old(self).snd_nxt,
                self.rx_ooo@ == old(self).rx_ooo@,
                released@.len() + self.tx_pending@.len() == orig.len(),
                forall|i: int|
                    0 <= i < self.tx_pending@.len() ==> self.tx_pending@[i].seq == orig[i
                        + released@.len()].seq,
                forall|i: int|
                    0 <= i < self.tx_pending@.len() ==> self.tx_pending@[i].packet == orig[i
                        + released@.len()].packet,
                forall|i: int|
                    0 <= i < released@.len() ==> (#[trigger] released@[i]) == orig[i].packet
                        && spec_seq_dist(orig[i].seq, ack) < 32768,
                self.window_size == old(self).window_size,
                self.conn_timeout_ms == old(self).conn_timeout_ms,
                self.packet_timeout_ms == old(self).packet_timeout_ms,
                self.delayed_acks == old(self).delayed_acks,
                self.ack_timeout_ms == old(self).ack_timeout_ms,
                self.ack_delay_count == old(self).ack_delay_count,
                self.ack_timestamp == old(self).ack_timestamp,
                self.rcv_irs == old(self).rcv_irs,
                self.rcv_lsa == old(self).rcv_lsa,
                self.snd_iss == old(self).snd_iss,
                self.closed_by_self == old(self).closed_by_self,
                self.closed_by_peer == old(self).closed_by_peer,
                released@.len() > 0 ==> self.last_progress == now,
                released@.len() == 0 ==> self.last_progress == old(self).last_progress,
            ensures
                self.tx_pending@.len() == 0 || spec_seq_dist(self.tx_pending@[0].seq, ack)
                    >= 32768,
            decreases self.tx_pending@.len(),
        {
            if self.tx_pending.len() == 0 {
                break;
            }
            let head_seq = self.tx_pending[0].seq;
            let d = seq_dist(head_seq, ack);
            if d >= 32768 {
                // the acknowledgment is older than everything in flight
                break;
            }
            let ghost before_una = self.snd_una;
            let ghost before_len = self.tx_pending@.len() as int;
            let slot = self.tx_pending.remove(0);
            released.push(slot.packet);
            self.snd_una = seq_next(self.snd_una);
            self.last_progress = now;
            proof {
                assert forall|i: int| 0 <= i < self.tx_pending@.len() implies (
                #[trigger] self.tx_pending@[i].seq) == spec_seq_add(self.snd_una, i) by {
                    lemma_seq_add_add(before_una, 1, i);
                }
                lemma_seq_add_add(before_una, 1, before_len - 1);
            }
        }
        released
    }

    /// Index of the held segment carrying the given sequence number.
    fn find_ooo(&self, target: u16) -> (r: Option<usize>)
        ensures
            match r {
                Some(i) => i < self.rx_ooo@.len() && self.rx_ooo@[i as int].rdp.seq == target,
                None => forall|i: int|
                    0 <= i < self.rx_ooo@.len() ==> (#[trigger] self.rx_ooo@[i].rdp.seq)
                        != target,
            },
    {
        let mut i: usize = 0;
        while i < self.rx_ooo.len()
            invariant
                i <= self.rx_ooo@.len(),
                forall|k: int|
                    0 <= k < i ==> (#[trigger] self.rx_ooo@[k].rdp.seq) != target,
            decreases self.rx_ooo@.len() - i,
        {
            if self.rx_ooo[i].rdp.seq == target {
                return Some(i);
            }
            i = i + 1;
        }
        None
    }

    /// Accept an incoming data segment. The next-expected segment is
    /// delivered at the tail of the receive queue and any directly
    /// following held segments are drained after it; a segment ahead of
    /// order is held; anything else is a duplicate and is discarded.
    /// Delivery never reorders: the queue stays an unbroken run and the
    /// delivery point advances exactly by the number of segments
    /// appended.
    pub fn accept_data(&mut self, packet: CspPacket, rxq: &mut PacketQueue, now: u32) -> (r:
        RdpRxResult)
        requires
            old(self).wf(),
            old(self).state == RdpState::Open,
            packet.rdp.kind == RdpKind::Data,
            old(rxq).wf(),
            spec_rx_contiguous(old(rxq)@, old(self).rcv_cur),
        ensures
            final(self).wf(),
            final(self).state == RdpState::Open,
            final(rxq).wf(),
            final(rxq).spec_cap() == old(rxq).spec_cap(),
            spec_rx_contiguous(final(rxq)@, final(self).rcv_cur),
            final(rxq)@.len() >= old(rxq)@.len(),
            final(rxq)@.subrange(0, old(rxq)@.len() as int) == old(rxq)@,
            final(self).rcv_cur == spec_seq_add(
                old(self).rcv_cur,
                final(rxq)@.len() - old(rxq)@.len(),
            ),
            (packet.rdp.seq == spec_seq_add(old(self).rcv_cur, 1) && old(rxq)@.len() < old(
                rxq,
            ).spec_cap()) ==> final(rxq)@.len() > old(rxq)@.len() && final(rxq)@[old(
                rxq,
            )@.len() as int] == packet,
            final(self).snd_una == old(self).snd_una,
            final(self).snd_nxt == old(self).snd_nxt,
            final(self).tx_pending@ == old(self).tx_pending@,
            final(self).last_progress == old(self).last_progress,
            final(self).conn_timeout_ms == old(self).conn_timeout_ms,
            final(self).packet_timeout_ms == old(self).packet_timeout_ms,
    {
        let mut freed: Vec<CspPacket> = Vec::new();
        let mut ack_now = false;
        let d = seq_dist(self.rcv_cur, packet.rdp.seq);
        proof {
            lemma_seq_dist_add(self.rcv_cur, packet.rdp.seq);
            lemma_seq_add_zero(old(self).rcv_cur);
        }
        if d == 1 {
            if rxq.is_full() {
                // no room to deliver: treat as lost; the peer retransmits
                freed.push(packet);
            } else {
                let expected = seq_next(self.rcv_cur);
                let ghost first_cur = self.rcv_cur;
                let ghost ooo_before = self.rx_ooo@;
                // a held copy of the very segment being delivered is
                // now a duplicate and goes back to the pool
                let dup = self.find_ooo(expected);
                let ghost mut removed_at: int = -1;
                match dup {
                    Some(i) => {
                        proof {
                            removed_at = i as int;
                        }
                        let p = self.rx_ooo.remove(i);
                        freed.push(p);
                    },
                    None => {},
                }
                proof {
                    assert forall|k: int| 0 <= k < self.rx_ooo@.len() implies 1
                        <= spec_seq_dist(first_cur, (#[trigger] self.rx_ooo@[k].rdp.seq))
                        < 32768 && self.rx_ooo@[k].rdp.seq != expected by {
                        if removed_at >= 0 {
                            if k < removed_at {
                                assert(self.rx_ooo@[k] == ooo_before[k]);
                                assert(ooo_before[k].rdp.seq != ooo_before[removed_at].rdp.seq);
                            } else {
                                assert(self.rx_ooo@[k] == ooo_before[k + 1]);
                                assert(ooo_before[removed_at].rdp.seq != ooo_before[k
                                    + 1].rdp.seq);
                            }
                        } else {
                            assert(self.rx_ooo@[k] == ooo_before[k]);
                        }
                    }
                }
                let rejected = rxq.enqueue(packet);
                match rejected {
                    Some(p) => {
                        // unreachable: the queue had room
                        freed.push(p);
                    },
                    None => {},
                }
                self.rcv_cur = expected;
                proof {
                    assert(rxq@.subrange(0, old(rxq)@.len() as int) =~= old(rxq)@);
                    lemma_seq_add_add(old(self).rcv_cur, 0, 1);
                    assert forall|i: int| 0 <= i < self.rx_ooo@.len() implies 1
                        <= spec_seq_dist(
                        self.rcv_cur,
                        (#[trigger] self.rx_ooo@[i].rdp.seq),
                    ) < 32768 by {
                        lemma_seq_dist_add(first_cur, self.rx_ooo@[i].rdp.seq);
                        lemma_seq_dist_step(first_cur, self.rx_ooo@[i].rdp.seq);
                    }
                }
                // drain every directly following held segment
                loop
                    invariant
                        self.wf(),
                        self.state == RdpState::Open,
                        rxq.wf(),
                        rxq.spec_cap() == old(rxq).spec_cap(),
                        spec_rx_contiguous(rxq@, self.rcv_cur),
                        rxq@.len() > old(rxq)@.len(),
                        rxq@.subrange(0, old(rxq)@.len() as int) == old(rxq)@,
                        rxq@[old(rxq)@.len() as int] == packet,
                        self.rcv_cur == spec_seq_add(
                            old(self).rcv_cur,
                            rxq@.len() - old(rxq)@.len(),
                        ),
                        self.snd_una == old(self).snd_una,
                        self.snd_nxt == old(self).snd_nxt,
                        self.tx_pending@ == old(self).tx_pending@,
                        self.last_progress == old(self).last_progress,
                        self.conn_timeout_ms == old(self).conn_timeout_ms,
                        self.packet_timeout_ms == old(self).packet_timeout_ms,
                        self.window_size == old(self).window_size,
                        self.delayed_acks == old(self).delayed_acks,
                        self.ack_timeout_ms == old(self).ack_timeout_ms,
                        self.ack_delay_count == old(self).ack_delay_count,
                        self.ack_timestamp == old(self).ack_timestamp,
                        self.snd_iss == old(self).snd_iss,
                        self.rcv_irs == old(self).rcv_irs,
                        self.rcv_lsa == old(self).rcv_lsa,
                        self.closed_by_self == old(self).closed_by_self,
                        self.closed_by_peer == old(self).closed_by_peer,
                    decreases self.rx_ooo@.len(),
                {
                    if rxq.is_full() {
                        break;
                    }
                    let target = seq_next(self.rcv_cur);
                    let found = self.find_ooo(target);
                    match found {
                        None => {
                            break;
                        },
                        Some(i) => {
                            let ghost step_cur = self.rcv_cur;
                            let ghost held_before = self.rx_ooo@;
                            let held = self.rx_ooo.remove(i);
                            proof {
                                lemma_seq_dist_add(step_cur, held.rdp.seq);
                                assert forall|k: int| 0 <= k < self.rx_ooo@.len() implies 1
                                    <= spec_seq_dist(
                                    step_cur,
                                    (#[trigger] self.rx_ooo@[k].rdp.seq),
                                ) < 32768 && self.rx_ooo@[k].rdp.seq != target by {
                                    if k < i {
                                        assert(self.rx_ooo@[k] == held_before[k]);
                                        assert(held_before[k].rdp.seq != held_before[i
                                            as int].rdp.seq);
                                    } else {
                                        assert(self.rx_ooo@[k] == held_before[k + 1]);
                                        assert(held_before[i as int].rdp.seq
                                            != held_before[k + 1].rdp.seq);
                                    }
                                }
                            }
                            let rejected2 = rxq.enqueue(held);
                            match rejected2 {
                                Some(p) => {
                                    freed.push(p);
                                },
                                None => {},
                            }
                            self.rcv_cur = target;
                            proof {
                                assert(rxq@.subrange(0, old(rxq)@.len() as int) =~= old(
                                    rxq,
                                )@);
                                lemma_seq_add_add(
                                    old(self).rcv_cur,
                                    rxq@.len() - old(rxq)@.len() - 1,
                                    1,
                                );
                                assert forall|k: int| 0 <= k < self.rx_ooo@.len() implies 1
                                    <= spec_seq_dist(
                                    self.rcv_cur,
                                    (#[trigger] self.rx_ooo@[k].rdp.seq),
                                ) < 32768 by {
                                    lemma_seq_dist_add(step_cur, self.rx_ooo@[k].rdp.seq);
                                    lemma_seq_dist_step(step_cur, self.rx_ooo@[k].rdp.seq);
                                }
                            }
                        },
                    }
                }
                // acknowledgment batching: after enough deliveries the
                // acknowledgment goes out at once, otherwise it waits for
                // the delayed-acknowledgment timer
                if self.ack_delay_count < u32::MAX {
                    self.ack_delay_count = self.ack_delay_count + 1;
                }
                if self.ack_delay_count >= self.delayed_acks {
                    ack_now = true;
                    self.ack_delay_count = 0;
                } else if self.ack_delay_count == 1 {
                    self.ack_timestamp = now;
                }
            }
        } else if d >= 2 && d < 32768 {
            // ahead of order: hold it until the gap fills, unless it is
            // already held, too far ahead, or the holding area is full
            let already = self.find_ooo(packet.rdp.seq);
            if d <= self.window_size && self.rx_ooo.len() < self.window_size as usize
                && already.is_none() {
                self.rx_ooo.push(packet);
            } else {
                freed.push(packet);
            }
            ack_now = true;
        } else {
            // duplicate or stale segment: discard and re-acknowledge
            freed.push(packet);
            ack_now = true;
        }
        RdpRxResult { freed, ack_now }
    }

    /// Advance protocol time. Closes the machine when nothing has been
    /// acknowledged for the connection-level timeout; otherwise hands
    /// back a wire copy of every in-flight segment whose packet timeout
    /// elapsed, and fires the delayed acknowledgment when due.
    pub fn tick(&mut self, now: u32) -> (r: RdpTickResult)
        requires
            old(self).wf(),
        ensures
            final(self).wf(),
            r.timed_out == (old(self).state != RdpState::Closed && now >= old(
                self,
            ).last_progress && now - old(self).last_progress >= old(self).conn_timeout_ms),
            r.timed_out ==> final(self).state == RdpState::Closed,
            !r.timed_out ==> final(self).state == old(self).state,
            (!r.timed_out && old(self).state == RdpState::Open && old(
                self,
            ).tx_pending@.len() > 0 && now >= old(self).tx_pending@[0].sent_at && now - old(
                self,
            ).tx_pending@[0].sent_at >= old(self).packet_timeout_ms) ==> (r.retransmit@.len()
                > 0 && r.retransmit@[0].rdp == old(self).tx_pending@[0].packet.rdp
                && r.retransmit@[0].data@ == old(self).tx_pending@[0].packet.data@),
            final(self).snd_una == old(self).snd_una,
            final(self).snd_nxt == old(self).snd_nxt,
            final(self).rcv_cur == old(self).rcv_cur,
            final(self).last_progress == old(self).last_progress,
            final(self).ack_timestamp == old(self).ack_timestamp,
            final(self).tx_pending@.len() == old(self).tx_pending@.len(),
            final(self).rx_ooo@ == old(self).rx_ooo@,
            r.retransmit@.len() <= old(self).tx_pending@.len(),
            // the delayed acknowledgment fires exactly when one is
            // pending and its timer has elapsed
            !r.timed_out ==> r.send_ack == (old(self).ack_delay_count > 0 && now >= old(
                self,
            ).ack_timestamp && now - old(self).ack_timestamp >= old(self).ack_timeout_ms),
            r.timed_out ==> !r.send_ack && r.retransmit@.len() == 0,
            // with no segment overdue nothing is retransmitted, and a
            // tick with no timer due at all changes nothing
            (forall|i: int|
                0 <= i < old(self).tx_pending@.len() ==> !(now >= (#[trigger] old(
                    self,
                ).tx_pending@[i]).sent_at && now - old(self).tx_pending@[i].sent_at >= old(
                    self,
                ).packet_timeout_ms)) ==> r.retransmit@.len() == 0,
            (!r.timed_out && r.retransmit@.len() == 0 && !r.send_ack) ==> *final(self) == *old(
                self,
            ),
            forall|i: int| 0 <= i < final(self).tx_pending@.len()
                ==> (#[trigger] final(self).tx_pending@[i].seq) == old(self).tx_pending@[i].seq,
            forall|i: int| 0 <= i < final(self).tx_pending@.len()
                ==> (#[trigger] final(self).tx_pending@[i].packet) == old(
                self,
            ).tx_pending@[i].packet,
    {
        if !matches!(self.state, RdpState::Closed) && now >= self.last_progress && now
            - self.last_progress >= self.conn_timeout_ms {
            self.state = RdpState::Closed;
            return RdpTickResult { retransmit: Vec::new(), send_ack: false, timed_out: true };
        }
        let mut retransmit: Vec<CspPacket> = Vec::new();
        if matches!(self.state, RdpState::Open) {
            let mut idx: usize = 0;
            while idx < self.tx_pending.len()
                invariant
                    self.wf(),
                    self.state == RdpState::Open,
                    idx <= self.tx_pending@.len(),
                    self.tx_pending@.len() == old(self).tx_pending@.len(),
                    self.snd_una == old(self).snd_una,
                    self.snd_nxt == old(self).snd_nxt,
                    self.rcv_cur == old(self).rcv_cur,
                    self.rx_ooo@ == old(self).rx_ooo@,
                    self.last_progress == old(self).last_progress,
                    self.conn_timeout_ms == old(self).conn_timeout_ms,
                    self.packet_timeout_ms == old(self).packet_timeout_ms,
                    self.window_size == old(self).window_size,
                    self.delayed_acks == old(self).delayed_acks,
                    self.ack_timeout_ms == old(self).ack_timeout_ms,
                    self.ack_delay_count == old(self).ack_delay_count,
                    self.ack_timestamp == old(self).ack_timestamp,
                    self.snd_iss == old(self).snd_iss,
                    self.rcv_irs == old(self).rcv_irs,
                    self.rcv_lsa == old(self).rcv_lsa,
                    self.closed_by_self == old(self).closed_by_self,
                    self.closed_by_peer == old(self).closed_by_peer,
                    forall|i: int|
                        0 <= i < self.tx_pending@.len() ==> (#[trigger] self
                            .tx_pending@[i].seq) == old(self).tx_pending@[i].seq,
                    forall|i: int|
                        0 <= i < self.tx_pending@.len() ==> (#[trigger] self
                            .tx_pending@[i].packet) == old(self).tx_pending@[i].packet,
                    forall|i: int|
                        idx <= i < self.tx_pending@.len() ==> (#[trigger] self
                            .tx_pending@[i].sent_at) == old(self).tx_pending@[i].sent_at,
                    idx == 0 ==> retransmit@.len() == 0,
                    retransmit@.len() <= idx,
                    retransmit@.len() == 0 ==> self.tx_pending == old(self).tx_pending,
                    self.rx_ooo == old(self).rx_ooo,
                    (forall|i: int|
                        0 <= i < old(self).tx_pending@.len() ==> !(now >= (#[trigger] old(
                            self,
                        ).tx_pending@[i]).sent_at && now - old(self).tx_pending@[i].sent_at
                            >= old(self).packet_timeout_ms)) ==> retransmit@.len() == 0,
                    (old(self).tx_pending@.len() > 0 && now >= old(
                        self,
                    ).tx_pending@[0].sent_at && now - old(self).tx_pending@[0].sent_at >= old(
                        self,
                    ).packet_timeout_ms && idx > 0)
                        ==> (retransmit@.len() > 0 && retransmit@[0].rdp == old(
                        self,
                    ).tx_pending@[0].packet.rdp && retransmit@[0].data@ == old(
                        self,
                    ).tx_pending@[0].packet.data@),
                decreases self.tx_pending@.len() - idx,
            {
                let ghost round_before = self.tx_pending@;
                if now >= self.tx_pending[idx].sent_at && now - self.tx_pending[idx].sent_at
                    >= self.packet_timeout_ms {
                    let mut slot = self.tx_pending.remove(idx);
                    proof {
                        assert(slot.packet == old(self).tx_pending@[idx as int].packet);
                    }
                    retransmit.push(slot.packet.duplicate());
                    slot.sent_at = now;
                    if slot.retries < u32::MAX {
                        slot.retries = slot.retries + 1;
                    }
                    self.tx_pending.insert(idx, slot);
                    proof {
                        assert(self.tx_pending@ =~= round_before.update(
                            idx as int,
                            self.tx_pending@[idx as int],
                        ));
                    }
                }
                proof {
                    assert forall|i: int| 0 <= i < self.tx_pending@.len() && i != idx
                        implies self.tx_pending@[i] == round_before[i] by {}
                }
                idx = idx + 1;
            }
        }
        let mut send_ack = false;
        if self.ack_delay_count > 0 && now >= self.ack_timestamp && now - self.ack_timestamp
            >= self.ack_timeout_ms {
            send_ack = true;
            self.ack_delay_count = 0;
        }
        RdpTickResult { retransmit, send_ack, timed_out: false }
    }

    /// Note a close request from this side or the peer. The machine
    /// waits in `CloseWait` until both sides have asked to close, then
    /// closes fully.
    pub fn close_request(&mut self, by_peer: bool) -> (fully_closed: bool)
        requires
            old(self).wf(),
        ensures
            final(self).wf(),
            by_peer ==> final(self).closed_by_peer,
            !by_peer ==> final(self).closed_by_self,
            fully_closed == (final(self).closed_by_self && final(self).closed_by_peer),
            fully_closed ==> final(self).state == RdpState::Closed,
            !fully_closed ==> final(self).state == RdpState::CloseWait,
    {
        if by_peer {
            self.closed_by_peer = true;
        } else {
            self.closed_by_self = true;
        }
        if self.closed_by_self && self.closed_by_peer {
            self.state = RdpState::Closed;
            true
        } else {
            self.state = RdpState::CloseWait;
            false
        }
    }
}

} // verus!
