//! The router: one pump drains the ingress FIFO, classifies each packet
//! by destination, delivers it to the matching connection or bound
//! socket, admits new incoming connections up to the backlog, answers
//! service requests, and drives the reliable layer's timers.

use vstd::prelude::*;

use crate::codec::CspId;
use crate::codes::{ConnState, ConnType, CspError, RdpState};
use crate::iface::CspInterface;
use crate::packet::{CspPacket, RdpKind, RdpMeta};
use crate::rdp::RdpConn;
use crate::stack::{spec_first_default, spec_stamped, CspStack};

verus! {

/// Connection-level timeout of the reliable layer in milliseconds.
pub const RDP_CONN_TIMEOUT_MS: u32 = 10000;

/// Per-segment retransmission timeout of the reliable layer in
/// milliseconds.
pub const RDP_PACKET_TIMEOUT_MS: u32 = 1000;

/// Deliveries batched before an immediate acknowledgment.
pub const RDP_DELAYED_ACKS: u32 = 4;

/// Delayed-acknowledgment timeout in milliseconds.
pub const RDP_ACK_TIMEOUT_MS: u32 = 250;

/// The identifier of a reply: addresses and ports swapped, priority and
/// flags kept.
pub open spec fn spec_reply_id(id: CspId) -> CspId {
    CspId { pri: id.pri, flags: id.flags, src: id.dst, dst: id.src, dport: id.sport, sport: id.dport }
}

/// Run-time value of [`spec_reply_id`].
pub fn reply_id(id: &CspId) -> (r: CspId)
    ensures
        r == spec_reply_id(*id),
{
    CspId { pri: id.pri, flags: id.flags, src: id.dst, dst: id.src, dport: id.sport, sport: id.dport }
}

/// The four big-endian bytes of a 32-bit value.
pub open spec fn spec_be32(v: u32) -> Seq<u8> {
    seq![
        ((v >> 24) & 0xff) as u8,
        ((v >> 16) & 0xff) as u8,
        ((v >> 8) & 0xff) as u8,
        (v & 0xff) as u8,
    ]
}

/// The four big-endian bytes of a 32-bit value.
pub fn be32_bytes(v: u32) -> (r: Vec<u8>)
    ensures
        r@ == spec_be32(v),
        r@.len() == 4,
{
    proof {
        lemma_be32_truncate(v);
    }
    let mut out: Vec<u8> = Vec::new();
    out.push(#[verifier::truncate] ((v >> 24) as u8));
    out.push(#[verifier::truncate] ((v >> 16) as u8));
    out.push(#[verifier::truncate] ((v >> 8) as u8));
    out.push(#[verifier::truncate] (v as u8));
    proof {
        lemma_be32_truncate(v);
        assert(out@ =~= spec_be32(v));
    }
    out
}

/// Truncating a shifted word to a byte equals masking it with 0xff.
proof fn lemma_be32_truncate(v: u32)
    by (bit_vector)
    ensures
        (v >> 24) as u8 == ((v >> 24) & 0xff) as u8,
        (v >> 16) as u8 == ((v >> 16) & 0xff) as u8,
        (v >> 8) as u8 == ((v >> 8) & 0xff) as u8,
        v as u8 == (v & 0xff) as u8,
{
}

/// A control segment of the reliable layer, synthesized outside the
/// buffer pool and disposed of by the router on receipt.
pub(crate) fn control_packet(id: CspId, kind: RdpKind, seq: u16, ack: u16, cap: u32) -> (r: CspPacket)
    ensures
        r.id == id,
        r.rdp == (RdpMeta { kind, seq, ack }),
        r.data@.len() == 0,
        r.wf(),
{
    let mut p = CspPacket::zeroed(cap);
    p.id = id;
    p.rdp = RdpMeta { kind, seq, ack };
    p
}

/// One service reply went out for `packet`: the FIFO grew by exactly
/// one packet, addressed back to the requester (addresses and ports
/// swapped) and carrying `body`; the pool is untouched.
pub open spec fn spec_service_replied(
    pre: CspStack,
    post: CspStack,
    packet: CspPacket,
    body: Seq<u8>,
) -> bool {
    &&& post.ingress@.len() == pre.ingress@.len() + 1
    &&& post.ingress@ == pre.ingress@.push(post.ingress@[pre.ingress@.len() as int])
    &&& post.ingress@[pre.ingress@.len() as int].id == spec_reply_id(packet.id)
    &&& post.ingress@[pre.ingress@.len() as int].data@ == body
    &&& post.pool == pre.pool
}

/// Exactly one connection embeds a reliable machine: the one at `ci`.
pub open spec fn spec_sole_reliable(conns: Seq<crate::conn::CspConn>, ci: int) -> bool {
    &&& 0 <= ci < conns.len()
    &&& conns[ci].rdp is Some
    &&& forall|j: int| 0 <= j < conns.len() && j != ci ==> (#[trigger] conns[j]).rdp is None
}

/// No timer of the machine is due: it is not past its connection
/// timeout, no in-flight segment is overdue, and no delayed
/// acknowledgment is waiting to fire.
pub open spec fn spec_machine_idle(m: RdpConn, now: u32) -> bool {
    &&& !(m.state != RdpState::Closed && now >= m.last_progress && now - m.last_progress
        >= m.conn_timeout_ms)
    &&& forall|i: int|
        0 <= i < m.tx_pending@.len() ==> !(now >= (#[trigger] m.tx_pending@[i]).sent_at
            && now - m.tx_pending@[i].sent_at >= m.packet_timeout_ms)
    &&& !(m.ack_delay_count > 0 && now >= m.ack_timestamp && now - m.ack_timestamp
        >= m.ack_timeout_ms)
}

/// The connection at `k` has a reliable machine whose connection-level
/// timeout has elapsed without an acknowledgment.
pub open spec fn spec_conn_timeout_due(stack: CspStack, k: int) -> bool {
    &&& 0 <= k < stack.conns@.len()
    &&& (stack.conns@[k].rdp matches Some(m) && (m.state != RdpState::Closed && stack.now_ms
        >= m.last_progress && stack.now_ms - m.last_progress >= m.conn_timeout_ms))
}

/// The sole reliable connection, at `ci`, owes the wire a
/// retransmission: its machine is open, its oldest in-flight segment is
/// past the packet timeout, the connection-level timeout has not
/// elapsed, the destination is the loopback address, and the router's
/// empty FIFO has room for every in-flight segment and an
/// acknowledgment.
pub open spec fn spec_retransmit_due(stack: CspStack, ci: int) -> bool {
    &&& stack.ingress@.len() == 0
    &&& spec_sole_reliable(stack.conns@, ci)
    &&& (stack.conns@[ci].rdp matches Some(m) && {
        &&& m.state == RdpState::Open
        &&& m.tx_pending@.len() > 0
        &&& stack.now_ms >= m.tx_pending@[0].sent_at
        &&& stack.now_ms - m.tx_pending@[0].sent_at >= m.packet_timeout_ms
        &&& !(stack.now_ms >= m.last_progress && stack.now_ms - m.last_progress
            >= m.conn_timeout_ms)
        &&& m.tx_pending@.len() + 1 <= stack.ingress.spec_cap()
    })
    &&& stack.conns@[ci].id_out.valid(stack.version)
    &&& stack.conns@[ci].id_out.dst == 0
}

/// A wire copy of the sole reliable connection's oldest in-flight
/// segment now heads the router's FIFO, stamped with the connection's
/// outgoing identifier.
pub open spec fn spec_head_retransmitted(pre: CspStack, post: CspStack, ci: int) -> bool {
    pre.conns@[ci].rdp matches Some(m) && {
        &&& post.ingress@.len() > 0
        &&& post.ingress@[0].id == pre.conns@[ci].id_out
        &&& post.ingress@[0].rdp == m.tx_pending@[0].packet.rdp
        &&& post.ingress@[0].data@ == m.tx_pending@[0].packet.data@
        // retransmission moves no window edge: the oldest
        // unacknowledged number stands until an acknowledgment arrives
        &&& (post.conns@[ci].rdp matches Some(m2) && m2.snd_una == m.snd_una
            && m2.snd_nxt == m.snd_nxt)
    }
}

/// The sole reliable connection, at `ci`, owes the peer a delayed
/// acknowledgment: deliveries are waiting to be acknowledged, the
/// acknowledgment timer has elapsed, nothing is in flight, the
/// connection-level timeout has not elapsed, and the empty FIFO has
/// room.
pub open spec fn spec_delayed_ack_due(stack: CspStack, ci: int) -> bool {
    &&& stack.ingress@.len() == 0
    &&& spec_sole_reliable(stack.conns@, ci)
    &&& (stack.conns@[ci].rdp matches Some(m) && {
        &&& m.tx_pending@.len() == 0
        &&& m.ack_delay_count > 0
        &&& stack.now_ms >= m.ack_timestamp
        &&& stack.now_ms - m.ack_timestamp >= m.ack_timeout_ms
        &&& !(stack.now_ms >= m.last_progress && stack.now_ms - m.last_progress
            >= m.conn_timeout_ms)
    })
    &&& 1 <= stack.ingress.spec_cap()
    &&& stack.conns@[ci].id_out.valid(stack.version)
    &&& stack.conns@[ci].id_out.dst == 0
}

/// A bare acknowledgment from the sole reliable connection is the one
/// packet on the router's FIFO, carrying the machine's delivery point.
pub open spec fn spec_ack_emitted(pre: CspStack, post: CspStack, ci: int) -> bool {
    pre.conns@[ci].rdp matches Some(m) && {
        &&& post.ingress@.len() == 1
        &&& post.ingress@[0].id == pre.conns@[ci].id_out
        &&& post.ingress@[0].rdp.kind == RdpKind::Ack
        &&& post.ingress@[0].rdp.ack == m.rcv_cur
    }
}


impl CspStack {
    /// Answer a built-in service request and consume the packet: echo for
    /// ping, counters for free buffers, uptime and free memory, a note
    /// taken for reboot; anything else is freed without reply.
    pub fn service_handler(&mut self, packet: CspPacket)
        requires
            old(self).wf(),
        ensures
            final(self).wf(),
            final(self).conns@ == old(self).conns@,
            final(self).sockets@ == old(self).sockets@,
            final(self).now_ms == old(self).now_ms,
            final(self).config == old(self).config,
            final(self).version == old(self).version,
            packet.id.dport == 4 ==> final(self).reboot_requests == (
            if old(self).reboot_requests < u32::MAX {
                old(self).reboot_requests + 1
            } else {
                u32::MAX as int
            }),
            packet.id.dport != 4 ==> final(self).reboot_requests == old(self).reboot_requests,
            // the echo service sends the request back with addresses and
            // ports swapped and the payload untouched
            (packet.id.dport == 1 && spec_reply_id(packet.id).valid(old(self).version) && old(self).spec_is_local(packet.id.src) && old(self).ingress@.len() < old(self).ingress.spec_cap()) ==> final(self).ingress@ == old(self).ingress@.push(
                spec_stamped(packet, spec_reply_id(packet.id)),
            ) && final(self).pool == old(self).pool,
            // the other reporting services reply likewise: one packet,
            // addresses and ports swapped, carrying the figure asked for
            (packet.id.dport == 2 && spec_reply_id(packet.id).valid(old(self).version) && old(self).spec_is_local(packet.id.src) && old(self).ingress@.len() < old(self).ingress.spec_cap()) ==> spec_service_replied(
                *old(self),
                *final(self),
                packet,
                seq![0u8],
            ),
            (packet.id.dport == 3 && spec_reply_id(packet.id).valid(old(self).version) && old(self).spec_is_local(packet.id.src) && old(self).ingress@.len() < old(self).ingress.spec_cap()) ==> spec_service_replied(
                *old(self),
                *final(self),
                packet,
                spec_be32(old(self).mem_free_reported),
            ),
            (packet.id.dport == 5 && spec_reply_id(packet.id).valid(old(self).version) && old(self).spec_is_local(packet.id.src) && old(self).ingress@.len() < old(self).ingress.spec_cap()) ==> spec_service_replied(
                *old(self),
                *final(self),
                packet,
                spec_be32((old(self).pool.capacity - old(self).pool.in_use) as u32),
            ),
            (packet.id.dport == 6 && spec_reply_id(packet.id).valid(old(self).version) && old(self).spec_is_local(packet.id.src) && old(self).ingress@.len() < old(self).ingress.spec_cap()) ==> spec_service_replied(
                *old(self),
                *final(self),
                packet,
                spec_be32(old(self).now_ms / 1000),
            ),
            // a reboot request and a non-service packet are consumed:
            // the buffer goes back to the pool and nothing is sent
            (packet.id.dport == 4 || packet.id.dport == 0 || packet.id.dport > 6) ==> (final(self).ingress@ == old(self).ingress@ && final(self).pool.in_use == (
            if old(self).pool.in_use > 0 {
                old(self).pool.in_use - 1
            } else {
                0
            })),
    {
        let dport = packet.id.dport;
        if dport == 1 {
            // ping: echo the payload back to the requester
            let mut reply = packet;
            reply.id = reply_id(&reply.id);
            let _ = self.transmit_packet(reply);
        } else if dport == 2 {
            // process list: a minimal one-byte report
            let mut reply = packet;
            reply.id = reply_id(&reply.id);
            let mut body: Vec<u8> = Vec::new();
            body.push(0);
            proof {
                assert(body@ =~= seq![0u8]);
            }
            reply.data = body;
            let _ = self.transmit_packet(reply);
        } else if dport == 3 {
            // free memory
            let mut reply = packet;
            reply.id = reply_id(&reply.id);
            reply.data = be32_bytes(self.mem_free_reported);
            let _ = self.transmit_packet(reply);
        } else if dport == 4 {
            // reboot request: note it; the buffer is consumed
            if self.reboot_requests < u32::MAX {
                self.reboot_requests = self.reboot_requests + 1;
            }
            self.pool.free(packet);
        } else if dport == 5 {
            // free buffer count
            let count = self.pool.free_count();
            let mut reply = packet;
            reply.id = reply_id(&reply.id);
            reply.data = be32_bytes(count);
            let _ = self.transmit_packet(reply);
        } else if dport == 6 {
            // uptime in seconds
            let mut reply = packet;
            reply.id = reply_id(&reply.id);
            reply.data = be32_bytes(self.now_ms / 1000);
            let _ = self.transmit_packet(reply);
        } else {
            // not a service request: free the buffer and do nothing
            self.pool.free(packet);
        }
    }

    /// Admit an incoming connection request on a listening socket. The
    /// request is refused — dropped with the overflow counter raised and
    /// no reply — exactly when the socket's backlog is at its bound or
    /// the connection table has no free slot; otherwise one new pending
    /// connection joins the tail of the backlog.
    pub fn admit_connection(&mut self, sock: usize, packet: CspPacket) -> (admitted: Option<
        usize,
    >)
        requires
            old(self).wf(),
            sock < old(self).sockets@.len(),
        ensures
            final(self).wf(),
            final(self).sockets@.len() == old(self).sockets@.len(),
            final(self).conns@.len() == old(self).conns@.len(),
            final(self).now_ms == old(self).now_ms,
            final(self).config == old(self).config,
            final(self).version == old(self).version,
            // the backlog bound: a full backlog admits nothing
            old(self).sockets@[sock as int].backlog@.len() >= old(self).sockets@[
                sock as int].backlog_max ==> admitted is None,
            // no free connection slot admits nothing
            (forall|i: int|
                0 <= i < old(self).conns@.len() ==> (#[trigger] old(self).conns@[i]).state
                    == ConnState::Open) ==> admitted is None,
            admitted is None ==> final(self).sockets@ == old(self).sockets@ && final(self).conns@ == old(self).conns@,
            // every refusal is counted
            admitted is None ==> final(self).dbg_conn_ovf == (
            if old(self).dbg_conn_ovf < u32::MAX {
                old(self).dbg_conn_ovf + 1
            } else {
                u32::MAX as int
            }),
            // a refused request that came out of the pool goes back to it
            (admitted is None && (packet.rdp.kind == crate::packet::RdpKind::Plain
                || packet.rdp.kind == crate::packet::RdpKind::Data)) ==> final(self).pool.in_use == (if old(self).pool.in_use > 0 {
                old(self).pool.in_use - 1
            } else {
                0
            }),
            // admission touches one free slot and nothing else; open
            // connections are never disturbed, and a slot opened here
            // serves an incoming connection
            admitted matches Some(c) ==> (forall|k: int|
                0 <= k < old(self).conns@.len() && k != c ==> (#[trigger] final(self).conns@[
                    k]) == old(self).conns@[k]),
            // admission only appends to the backlog: the socket keeps its
            // binding, options and queues, and no other socket is touched
            admitted is Some ==> {
                &&& final(self).sockets@[sock as int].bound == old(self).sockets@[
                    sock as int].bound
                &&& final(self).sockets@[sock as int].port == old(self).sockets@[
                    sock as int].port
                &&& final(self).sockets@[sock as int].opts == old(self).sockets@[
                    sock as int].opts
                &&& final(self).sockets@[sock as int].listening == old(self).sockets@[
                    sock as int].listening
                &&& final(self).sockets@[sock as int].backlog_max == old(self).sockets@[
                    sock as int].backlog_max
                &&& final(self).sockets@[sock as int].rx_queue@ == old(self).sockets@[
                    sock as int].rx_queue@
                &&& forall|t: int|
                    0 <= t < old(self).sockets@.len() && t != sock ==> (#[trigger] final(self).sockets@[t]) == old(self).sockets@[t]
            },
            forall|k: int|
                0 <= k < old(self).conns@.len() && old(self).conns@[k].state
                    == ConnState::Open ==> (#[trigger] final(self).conns@[k]) == old(self).conns@[k],
            // room on both sides admits exactly one pending connection
            (old(self).sockets@[sock as int].backlog@.len() < old(self).sockets@[
                sock as int].backlog_max && (exists|i: int|
                0 <= i < old(self).conns@.len() && (#[trigger] old(self).conns@[i]).state
                    == ConnState::Closed)) ==> admitted is Some,
            admitted matches Some(c) ==> {
                &&& c < final(self).conns@.len()
                &&& final(self).conns@[c as int].state == ConnState::Open
                &&& final(self).conns@[c as int].ctype == ConnType::Server
                &&& final(self).conns@[c as int].id_in.src == packet.id.src
                &&& final(self).conns@[c as int].id_in.dst == packet.id.dst
                &&& final(self).conns@[c as int].id_in.dport == packet.id.dport
                &&& final(self).conns@[c as int].id_in.sport == packet.id.sport
                &&& final(self).sockets@[sock as int].backlog@ == old(self).sockets@[
                    sock as int].backlog@.push(c)
            },
    {
        let backlog_len = self.sockets[sock].backlog.len();
        let backlog_max = self.sockets[sock].backlog_max;
        let free = self.conn_find_free();
        let has_room = backlog_len < backlog_max;
        let ci: usize;
        match free {
            None => {
                if self.dbg_conn_ovf < u32::MAX {
                    self.dbg_conn_ovf = self.dbg_conn_ovf + 1;
                }
                if matches!(packet.rdp.kind, RdpKind::Plain) || matches!(
                    packet.rdp.kind,
                    RdpKind::Data,
                ) {
                    self.pool.free(packet);
                }
                return None;
            },
            Some(i) => {
                ci = i;
            },
        }
        if !has_room {
            if self.dbg_conn_ovf < u32::MAX {
                self.dbg_conn_ovf = self.dbg_conn_ovf + 1;
            }
            if matches!(packet.rdp.kind, RdpKind::Plain) || matches!(
                packet.rdp.kind,
                RdpKind::Data,
            ) {
                self.pool.free(packet);
            }
            return None;
        }
        let now = self.now_ms;
        let sock_opts = self.sockets[sock].opts;
        let mut c = self.conns.remove(ci);
        // whatever a previous occupant of the slot left behind goes back
        // to the pool
        let stale = c.rx_queue.drain_all();
        c.state = ConnState::Open;
        c.ctype = ConnType::Server;
        c.id_in = packet.id;
        c.id_out = reply_id(&packet.id);
        c.opts = sock_opts;
        c.timestamp = now;
        c.last_error = None;
        let mut syn_ack: Option<CspPacket> = None;
        if matches!(packet.rdp.kind, RdpKind::Syn) {
            // passive reliable open: remember the peer's initial number
            // and acknowledge the request
            let iss: u16 = #[verifier::truncate] (now as u16);
            let machine = RdpConn::open_passive(
                iss,
                packet.rdp.seq,
                self.config.rdp_max_window,
                RDP_CONN_TIMEOUT_MS,
                RDP_PACKET_TIMEOUT_MS,
                RDP_DELAYED_ACKS,
                RDP_ACK_TIMEOUT_MS,
                now,
            );
            syn_ack = Some(
                control_packet(
                    c.id_out,
                    RdpKind::SynAck,
                    iss,
                    packet.rdp.seq,
                    self.config.buffer_size,
                ),
            );
            c.rdp = Some(machine);
            // the request itself carried no payload and is done with
        } else {
            c.rdp = None;
            // the first packet is also the first delivery
            let rejected = c.rx_queue.enqueue(packet);
            match rejected {
                Some(p) => {
                    // queue bound of a fresh queue is at least one, so
                    // this cannot happen; dispose anyway
                    self.pool.free(p);
                },
                None => {},
            }
        }
        self.conns.insert(ci, c);
        proof {
            assert(self.conns@ =~= old(self).conns@.update(ci as int, self.conns@[ci as int]));
        }
        let mut s = self.sockets.remove(sock);
        s.backlog.push(ci);
        self.sockets.insert(sock, s);
        proof {
            assert(self.sockets@ =~= old(self).sockets@.update(
                sock as int,
                self.sockets@[sock as int],
            ));
        }
        self.free_packets(stale);
        match syn_ack {
            Some(p) => {
                let _ = self.transmit_packet(p);
            },
            None => {},
        }
        Some(ci)
    }

    /// Deliver a packet to an existing open connection: a plain
    /// connection queues it (or drops it when the queue is full); a
    /// reliable connection advances its machine, which may deliver,
    /// hold, acknowledge or discard.
    pub fn deliver_to_conn(&mut self, ci: usize, packet: CspPacket)
        requires
            old(self).wf(),
            ci < old(self).conns@.len(),
            old(self).conns@[ci as int].state == ConnState::Open,
        ensures
            final(self).wf(),
            final(self).sockets@ == old(self).sockets@,
            final(self).conns@.len() == old(self).conns@.len(),
            final(self).now_ms == old(self).now_ms,
            final(self).config == old(self).config,
            final(self).version == old(self).version,
            // a plain connection with room takes the packet at the tail
            (old(self).conns@[ci as int].rdp is None && old(self).conns@[
                ci as int].rx_queue@.len() < old(self).conns@[ci as int].rx_queue.spec_cap())
                ==> final(self).conns@[ci as int].rx_queue@ == old(self).conns@[
                ci as int].rx_queue@.push(packet),
            // a plain connection with a full queue drops it
            (old(self).conns@[ci as int].rdp is None && old(self).conns@[
                ci as int].rx_queue@.len() >= old(self).conns@[ci as int].rx_queue.spec_cap())
                ==> final(self).conns@[ci as int].rx_queue@ == old(self).conns@[
                ci as int].rx_queue@,
            // no other connection is touched
            forall|k: int|
                0 <= k < old(self).conns@.len() && k != ci ==> (#[trigger] final(self).conns@[k])
                    == old(self).conns@[k],
            // delivery never rewrites who the connection is
            final(self).conns@[ci as int].ctype == old(self).conns@[ci as int].ctype,
            final(self).conns@[ci as int].opts == old(self).conns@[ci as int].opts,
            final(self).conns@[ci as int].id_in == old(self).conns@[ci as int].id_in,
            final(self).conns@[ci as int].id_out == old(self).conns@[ci as int].id_out,
            // plain delivery changes nothing but the receive queue
            old(self).conns@[ci as int].rdp is None ==> {
                &&& final(self).conns@[ci as int].state == old(self).conns@[ci as int].state
                &&& final(self).conns@[ci as int].rdp is None
                &&& final(self).conns@[ci as int].id_in == old(self).conns@[ci as int].id_in
                &&& final(self).conns@[ci as int].id_out == old(self).conns@[ci as int].id_out
                &&& final(self).conns@[ci as int].last_error == old(self).conns@[
                    ci as int].last_error
                &&& final(self).conns@[ci as int].rx_queue.spec_cap() == old(self).conns@[
                    ci as int].rx_queue.spec_cap()
                &&& final(self).ingress@ == old(self).ingress@
            },
            (old(self).conns@[ci as int].rdp is None && old(self).conns@[
                ci as int].rx_queue@.len() < old(self).conns@[ci as int].rx_queue.spec_cap())
                ==> final(self).pool == old(self).pool && final(self).dbg_conn_ovf == old(self).dbg_conn_ovf && final(self).dbg_conn_noroute == old(self).dbg_conn_noroute,
            // a data segment for an open reliable machine behaves as the
            // machine's acceptance dictates: the receive queue only
            // grows, staying an unbroken run, the delivery point
            // advances by exactly what was appended, and the
            // next-expected segment with room is delivered at once
            old(self).conns@[ci as int].rdp matches Some(m) ==> ((m.state == RdpState::Open
                && packet.rdp.kind == RdpKind::Data) ==> {
                &&& final(self).conns@[ci as int].rx_queue@.len() >= old(self).conns@[
                    ci as int].rx_queue@.len()
                &&& final(self).conns@[ci as int].rx_queue@.subrange(
                    0,
                    old(self).conns@[ci as int].rx_queue@.len() as int,
                ) == old(self).conns@[ci as int].rx_queue@
                &&& (final(self).conns@[ci as int].rdp matches Some(m2) && m2.rcv_cur
                    == crate::rdp::spec_seq_add(
                    m.rcv_cur,
                    final(self).conns@[ci as int].rx_queue@.len() - old(self).conns@[
                        ci as int].rx_queue@.len(),
                ))
                &&& ((packet.rdp.seq == crate::rdp::spec_seq_add(m.rcv_cur, 1) && old(
                    self,
                ).conns@[ci as int].rx_queue@.len() < old(self).conns@[
                    ci as int].rx_queue.spec_cap()) ==> (final(self).conns@[
                    ci as int].rx_queue@.len() > old(self).conns@[ci as int].rx_queue@.len()
                    && final(self).conns@[ci as int].rx_queue@[old(self).conns@[
                    ci as int].rx_queue@.len() as int] == packet))
            }),
    {
        let now = self.now_ms;
        let mut c = self.conns.remove(ci);
        let mut to_free: Vec<CspPacket> = Vec::new();
        let mut to_send: Vec<CspPacket> = Vec::new();
        let mut drained = false;
        match &mut c.rdp {
            None => {
                let rejected = c.rx_queue.enqueue(packet);
                match rejected {
                    Some(p) => {
                        if self.dbg_conn_ovf < u32::MAX {
                            self.dbg_conn_ovf = self.dbg_conn_ovf + 1;
                        }
                        to_free.push(p);
                    },
                    None => {},
                }
            },
            Some(machine) => {
                match packet.rdp.kind {
                    RdpKind::Data => {
                        if matches!(machine.state, RdpState::Open) {
                            let res = machine.accept_data(packet, &mut c.rx_queue, now);
                            let mut freed = res.freed;
                            loop
                                invariant
                                    true,
                                decreases freed@.len(),
                            {
                                match freed.pop() {
                                    Some(p) => {
                                        to_free.push(p);
                                    },
                                    None => {
                                        break;
                                    },
                                }
                            }
                            if res.ack_now {
                                machine.rcv_lsa = machine.rcv_cur;
                                machine.ack_delay_count = 0;
                                to_send.push(
                                    control_packet(
                                        c.id_out,
                                        RdpKind::Ack,
                                        0,
                                        machine.rcv_cur,
                                        self.config.buffer_size,
                                    ),
                                );
                            }
                        } else {
                            to_free.push(packet);
                        }
                    },
                    RdpKind::Ack => {
                        if matches!(machine.state, RdpState::SynRcvd) {
                            let _ = machine.on_handshake_ack(packet.rdp.ack, now);
                        } else {
                            let released = machine.on_ack(packet.rdp.ack, now);
                            // retransmission copies; synthesized, not pooled
                            let _ = released;
                        }
                        // the bare acknowledgment itself is synthesized
                    },
                    RdpKind::SynAck => {
                        let accepted = machine.on_syn_ack(packet.rdp.seq, packet.rdp.ack, now);
                        if accepted {
                            to_send.push(
                                control_packet(
                                    c.id_out,
                                    RdpKind::Ack,
                                    0,
                                    packet.rdp.seq,
                                    self.config.buffer_size,
                                ),
                            );
                        }
                    },
                    RdpKind::Syn => {
                        // a duplicate request; acknowledge it again while
                        // still waiting for the final handshake step
                        if matches!(machine.state, RdpState::SynRcvd) {
                            to_send.push(
                                control_packet(
                                    c.id_out,
                                    RdpKind::SynAck,
                                    machine.snd_iss,
                                    packet.rdp.seq,
                                    self.config.buffer_size,
                                ),
                            );
                        }
                    },
                    RdpKind::Rst => {
                        // the peer tore the connection down
                        let _ = machine.close_request(true);
                        drained = true;
                    },
                    RdpKind::Plain => {
                        // plain traffic has no place on a reliable
                        // connection
                        to_free.push(packet);
                    },
                }
            },
        }
        if drained {
            c.state = ConnState::Closed;
            c.last_error = Some(CspError::Reset);
            c.rdp = None;
            let mut leftover = c.rx_queue.drain_all();
            loop
                invariant
                    true,
                decreases leftover@.len(),
            {
                match leftover.pop() {
                    Some(p) => {
                        to_free.push(p);
                    },
                    None => {
                        break;
                    },
                }
            }
        }
        self.conns.insert(ci, c);
        proof {
            assert(self.conns@ =~= old(self).conns@.update(ci as int, self.conns@[ci as int]));
        }
        self.free_packets(to_free);
        self.send_all(to_send);
    }

    /// The open connection an incoming identifier belongs to, if any.
    pub fn conn_find_match(&self, id: &CspId) -> (r: Option<usize>)
        ensures
            match r {
                Some(i) => i < self.conns@.len() && self.conns@[i as int].state
                    == ConnState::Open && self.conns@[i as int].spec_matches_incoming(*id),
                None => forall|i: int|
                    0 <= i < self.conns@.len() ==> !((#[trigger] self.conns@[i]).state
                        == ConnState::Open && self.conns@[i].spec_matches_incoming(*id)),
            },
    {
        let mut i: usize = 0;
        while i < self.conns.len()
            invariant
                i <= self.conns@.len(),
                forall|k: int|
                    0 <= k < i ==> !((#[trigger] self.conns@[k]).state == ConnState::Open
                        && self.conns@[k].spec_matches_incoming(*id)),
            decreases self.conns@.len() - i,
        {
            if matches!(self.conns[i].state, ConnState::Open) && self.conns[i].matches_incoming(
                id,
            ) {
                return Some(i);
            }
            i = i + 1;
        }
        None
    }

    /// Check the timers of every reliable connection: a connection whose
    /// connection-level timeout elapsed closes with a timeout error for
    /// its blocked callers; overdue segments go back on the wire; due
    /// delayed acknowledgments go out.
    pub fn rdp_tick_all(&mut self)
        requires
            old(self).wf(),
        ensures
            final(self).wf(),
            final(self).conns@.len() == old(self).conns@.len(),
            final(self).sockets@ == old(self).sockets@,
            final(self).now_ms == old(self).now_ms,
            final(self).config == old(self).config,
            final(self).version == old(self).version,
            // timers deliver nothing and reroute nothing: they may only
            // close timed-out reliable connections and put control
            // segments on the wire
            forall|k: int|
                0 <= k < final(self).conns@.len() ==> {
                    &&& (#[trigger] final(self).conns@[k]).id_in == old(self).conns@[k].id_in
                    &&& final(self).conns@[k].id_out == old(self).conns@[k].id_out
                    &&& final(self).conns@[k].rx_queue@ == old(self).conns@[k].rx_queue@
                    &&& final(self).conns@[k].rx_queue.spec_cap() == old(self).conns@[k].rx_queue.spec_cap()
                    &&& (final(self).conns@[k].state == ConnState::Open ==> old(self).conns@[k].state == ConnState::Open)
                    &&& (final(self).conns@[k].rdp is None <==> old(self).conns@[k].rdp
                        is None)
                    &&& (old(self).conns@[k].rdp is None ==> final(self).conns@[k] == old(self).conns@[k])
                    &&& final(self).conns@[k].ctype == old(self).conns@[k].ctype
                    &&& final(self).conns@[k].opts == old(self).conns@[k].opts
                },
            // a stack with no reliable connection has no timers: the
            // FIFO and the pool are left exactly as they were
            (forall|k: int|
                0 <= k < old(self).conns@.len() ==> (#[trigger] old(self).conns@[k]).rdp
                    is None) ==> final(self).ingress@ == old(self).ingress@ && final(self).pool == old(self).pool && final(self).dbg_conn_ovf == old(self).dbg_conn_ovf
                && final(self).dbg_conn_noroute == old(self).dbg_conn_noroute && final(self).dbg_inval == old(self).dbg_inval && final(self).reboot_requests == old(self).reboot_requests
                && final(self).interfaces@ == old(self).interfaces@,
            // with every machine idle — none timed out, nothing overdue,
            // no acknowledgment pending — the sweep is a pure no-op
            (forall|k: int|
                0 <= k < old(self).conns@.len() ==> ((#[trigger] old(self).conns@[k]).rdp
                    matches Some(m) ==> spec_machine_idle(m, old(self).now_ms))) ==> (final(self).conns@ == old(self).conns@ && final(self).ingress@ == old(self).ingress@
                && final(self).pool == old(self).pool && final(self).interfaces@ == old(self).interfaces@),
            // a machine silent past its connection-level timeout is
            // closed, and its blocked callers learn they timed out
            forall|k: int|
                #[trigger] spec_conn_timeout_due(*old(self), k) ==> final(self).conns@[k].state
                    == ConnState::Closed && final(self).conns@[k].last_error == Some(
                    CspError::TimedOut,
                ),
            // an overdue in-flight segment goes back on the wire
            forall|ci: int|
                #[trigger] spec_retransmit_due(*old(self), ci) ==> spec_head_retransmitted(
                    *old(self),
                    *final(self),
                    ci,
                ),
            // a due delayed acknowledgment goes out
            forall|ci: int|
                #[trigger] spec_delayed_ack_due(*old(self), ci) ==> spec_ack_emitted(
                    *old(self),
                    *final(self),
                    ci,
                ),
    {
        let now = self.now_ms;
        let mut i: usize = 0;
        while i < self.conns.len()
            invariant
                old(self).wf(),
                self.wf(),
                i <= self.conns@.len(),
                self.conns@.len() == old(self).conns@.len(),
                self.sockets@ == old(self).sockets@,
                self.now_ms == old(self).now_ms,
                self.config == old(self).config,
                self.version == old(self).version,
                self.ephemeral_port == old(self).ephemeral_port,
                now == old(self).now_ms,
                forall|k: int|
                    0 <= k < self.conns@.len() ==> {
                        &&& (#[trigger] self.conns@[k]).id_in == old(self).conns@[k].id_in
                        &&& self.conns@[k].id_out == old(self).conns@[k].id_out
                        &&& self.conns@[k].rx_queue@ == old(self).conns@[k].rx_queue@
                        &&& self.conns@[k].rx_queue.spec_cap() == old(self).conns@[k].rx_queue.spec_cap()
                        &&& (self.conns@[k].state == ConnState::Open ==> old(self).conns@[k].state == ConnState::Open)
                        &&& (self.conns@[k].rdp is None <==> old(self).conns@[k].rdp is None)
                        &&& (old(self).conns@[k].rdp is None ==> self.conns@[k] == old(self).conns@[k])
                        &&& self.conns@[k].ctype == old(self).conns@[k].ctype
                        &&& self.conns@[k].opts == old(self).conns@[k].opts
                    },
                (forall|k: int|
                    0 <= k < old(self).conns@.len() ==> (#[trigger] old(self).conns@[k]).rdp
                        is None) ==> self.ingress@ == old(self).ingress@ && self.pool == old(self).pool && self.dbg_conn_ovf == old(self).dbg_conn_ovf
                    && self.dbg_conn_noroute == old(self).dbg_conn_noroute && self.dbg_inval == old(self).dbg_inval && self.reboot_requests == old(self).reboot_requests
                    && self.interfaces@ == old(self).interfaces@,
                (forall|k: int|
                    0 <= k < old(self).conns@.len() ==> ((#[trigger] old(self).conns@[k]).rdp
                        matches Some(m) ==> spec_machine_idle(m, old(self).now_ms))) ==> (
                self.conns@ == old(self).conns@ && self.ingress@ == old(self).ingress@
                    && self.pool == old(self).pool && self.interfaces@ == old(self).interfaces@),
                forall|k: int|
                    i <= k < self.conns@.len() ==> (#[trigger] self.conns@[k]) == old(self).conns@[k],
                forall|k: int|
                    #[trigger] spec_conn_timeout_due(*old(self), k) && k < i ==> self.conns@[
                        k].state == ConnState::Closed && self.conns@[k].last_error == Some(
                        CspError::TimedOut,
                    ),
                forall|ci: int|
                    #[trigger] spec_retransmit_due(*old(self), ci) ==> (if i <= ci {
                        self.ingress@ == old(self).ingress@
                    } else {
                        spec_head_retransmitted(*old(self), *self, ci)
                    }),
                forall|ci: int|
                    #[trigger] spec_delayed_ack_due(*old(self), ci) ==> (if i <= ci {
                        self.ingress@ == old(self).ingress@
                    } else {
                        spec_ack_emitted(*old(self), *self, ci)
                    }),
            decreases self.conns@.len() - i,
        {
            let ghost at_entry = *self;
            let mut retransmit: Vec<CspPacket> = Vec::new();
            let mut ack_due = false;
            let mut ack_value: u16 = 0;
            let ghost round = self.conns@;
            let mut c = self.conns.remove(i);
            match &mut c.rdp {
                Some(machine) => {
                    let res = machine.tick(now);
                    if res.timed_out {
                        c.state = ConnState::Closed;
                        c.last_error = Some(CspError::TimedOut);
                    }
                    retransmit = res.retransmit;
                    ack_due = res.send_ack;
                    ack_value = machine.rcv_cur;
                },
                None => {},
            }
            let ido = c.id_out;
            let cap = self.config.buffer_size;
            self.conns.insert(i, c);
            proof {
                assert(self.conns@ =~= round.update(i as int, self.conns@[i as int]));
            }
            let mut wire: Vec<CspPacket> = Vec::new();
            let ghost retr0 = retransmit@;
            loop
                invariant
                    wire@.len() + retransmit@.len() == retr0.len(),
                    retransmit@ == retr0.subrange(
                        retr0.len() - retransmit@.len(),
                        retr0.len() as int,
                    ),
                    forall|t: int|
                        0 <= t < wire@.len() ==> (#[trigger] wire@[t]).id == ido && wire@[
                            t].rdp == retr0[t].rdp && wire@[t].data@ == retr0[t].data@,
                ensures
                    retransmit@.len() == 0,
                    wire@.len() == retr0.len(),
                    forall|t: int|
                        0 <= t < wire@.len() ==> (#[trigger] wire@[t]).id == ido && wire@[
                            t].rdp == retr0[t].rdp && wire@[t].data@ == retr0[t].data@,
                decreases retransmit@.len(),
            {
                if retransmit.len() == 0 {
                    break;
                }
                let ghost done = retr0.len() - retransmit@.len();
                let q = retransmit.remove(0);
                proof {
                    assert(q == retr0[done]);
                    assert(retransmit@ =~= retr0.subrange(
                        retr0.len() - retransmit@.len(),
                        retr0.len() as int,
                    ));
                }
                let mut stamped = q;
                stamped.id = ido;
                wire.push(stamped);
            }
            if ack_due {
                wire.push(control_packet(ido, RdpKind::Ack, 0, ack_value, cap));
            }
            proof {
                assert forall|t: int| 0 <= t < wire@.len() implies (#[trigger] wire@[t]).id
                    == ido by {}
            }
            let ghost before_wire = *self;
            self.send_all(wire);
            proof {
                if spec_retransmit_due(*old(self), i as int) {
                    // this is the sole reliable connection: the FIFO was
                    // empty, the wire holds its overdue segments in
                    // order, and the whole wire fits
                    let m = old(self).conns@[i as int].rdp->0;
                    assert(wire@.len() <= m.tx_pending@.len() + 1);
                    assert(before_wire.ingress@.len() == 0);
                    assert(wire@.len() > 0);
                    assert forall|t: int| 0 <= t < wire@.len() implies (
                    #[trigger] wire@[t]).id.valid(before_wire.version) && wire@[t].id.dst
                        == 0 by {}
                    assert(before_wire.ingress.spec_cap() == old(self).ingress.spec_cap());
                    assert(before_wire.ingress@.len() + wire@.len()
                        <= before_wire.ingress.spec_cap());
                    assert(self.ingress@ == before_wire.ingress@ + wire@);
                    assert(self.ingress@[0] == wire@[0]);
                    assert(spec_head_retransmitted(*old(self), *self, i as int));
                }
                if spec_delayed_ack_due(*old(self), i as int) {
                    let m = old(self).conns@[i as int].rdp->0;
                    assert(wire@.len() == 1);
                    assert(before_wire.ingress@.len() == 0);
                    assert forall|t: int| 0 <= t < wire@.len() implies (
                    #[trigger] wire@[t]).id.valid(before_wire.version) && wire@[t].id.dst
                        == 0 by {}
                    assert(self.ingress@ == before_wire.ingress@ + wire@);
                    assert(self.ingress@[0] == wire@[0]);
                    assert(spec_ack_emitted(*old(self), *self, i as int));
                }
                assert forall|ci: int|
                    (#[trigger] spec_retransmit_due(*old(self), ci) || spec_delayed_ack_due(
                        *old(self),
                        ci,
                    )) && ci != i as int implies self.ingress@ == at_entry.ingress@ by {
                    assert(old(self).conns@[i as int].rdp is None);
                }
            }
            i = i + 1;
        }
    }
}

/// Handle a service request: the packet is consumed, answered when its
/// destination port names a built-in service, and freed otherwise.
pub fn csp_service_handler(stack: &mut CspStack, packet: CspPacket)
    requires
        old(stack).wf(),
    ensures
        final(stack).wf(),
        final(stack).conns@ == old(stack).conns@,
        final(stack).sockets@ == old(stack).sockets@,
        packet.id.dport == 4 ==> final(stack).reboot_requests == (
        if old(stack).reboot_requests < u32::MAX {
            old(stack).reboot_requests + 1
        } else {
            u32::MAX as int
        }),
        (packet.id.dport == 1 && spec_reply_id(packet.id).valid(old(stack).version) && old(stack).spec_is_local(packet.id.src) && old(stack).ingress@.len() < old(stack).ingress.spec_cap()) ==> final(stack).ingress@ == old(stack).ingress@.push(
            spec_stamped(packet, spec_reply_id(packet.id)),
        ) && final(stack).pool == old(stack).pool,
        (packet.id.dport == 2 && spec_reply_id(packet.id).valid(old(stack).version) && old(stack).spec_is_local(packet.id.src) && old(stack).ingress@.len() < old(stack).ingress.spec_cap()) ==> spec_service_replied(*old(stack), *final(stack), packet, seq![0u8]),
        (packet.id.dport == 3 && spec_reply_id(packet.id).valid(old(stack).version) && old(stack).spec_is_local(packet.id.src) && old(stack).ingress@.len() < old(stack).ingress.spec_cap()) ==> spec_service_replied(*old(stack), *final(stack), packet, spec_be32(old(stack).mem_free_reported)),
        (packet.id.dport == 5 && spec_reply_id(packet.id).valid(old(stack).version) && old(stack).spec_is_local(packet.id.src) && old(stack).ingress@.len() < old(stack).ingress.spec_cap()) ==> spec_service_replied(*old(stack), *final(stack), packet, spec_be32((old(stack).pool.capacity - old(stack).pool.in_use) as u32)),
        (packet.id.dport == 6 && spec_reply_id(packet.id).valid(old(stack).version) && old(stack).spec_is_local(packet.id.src) && old(stack).ingress@.len() < old(stack).ingress.spec_cap()) ==> spec_service_replied(*old(stack), *final(stack), packet, spec_be32(old(stack).now_ms / 1000)),
        (packet.id.dport == 4 || packet.id.dport == 0 || packet.id.dport > 6) ==> (final(stack).ingress@ == old(stack).ingress@ && final(stack).pool.in_use == (
        if old(stack).pool.in_use > 0 {
            old(stack).pool.in_use - 1
        } else {
            0
        })),
{
    stack.service_handler(packet);
}

/// Register an interface with the stack; a duplicate name is refused,
/// and on success the list gains exactly the given interface at its
/// tail.
pub fn csp_iflist_add(stack: &mut CspStack, iface: CspInterface) -> (r: Result<(), CspError>)
    requires
        old(stack).wf(),
    ensures
        final(stack).wf(),
        r is Ok <==> !(exists|i: int|
            0 <= i < old(stack).interfaces@.len() && (#[trigger] old(stack).interfaces@[i].name@) == iface.name@),
        r is Ok ==> final(stack).interfaces@ == old(stack).interfaces@.push(iface),
        r is Err ==> *final(stack) == *old(stack) && r == Err::<(), CspError>(CspError::Used),
        final(stack).sockets@ == old(stack).sockets@,
        final(stack).conns@ == old(stack).conns@,
{
    stack.register_interface(iface)
}

/// Backlog bound: however the stack got here, no socket holds more
/// pending unaccepted connections than the bound its listen call set.
pub proof fn lemma_backlog_bound(stack: CspStack, s: int)
    requires
        stack.wf(),
        0 <= s < stack.sockets@.len(),
    ensures
        stack.sockets@[s].backlog@.len() <= stack.sockets@[s].backlog_max,
{
}

/// Whether some open connection claims an incoming identifier.
pub open spec fn spec_some_conn_matches(conns: Seq<crate::conn::CspConn>, id: CspId) -> bool {
    exists|i: int|
        0 <= i < conns.len() && (#[trigger] conns[i]).state == ConnState::Open && conns[
            i].spec_matches_incoming(id)
}

/// A connectionless socket bound exactly to this port, with room to
/// receive one more packet.
pub open spec fn spec_connless_receiver(
    socks: Seq<crate::conn::CspSocket>,
    port: u8,
    s: int,
) -> bool {
    &&& 0 <= s < socks.len()
    &&& socks[s].bound
    &&& socks[s].port == port
    &&& crate::codes::spec_has_flag(socks[s].opts, crate::codes::CSP_SO_CONN_LESS)
    &&& socks[s].rx_queue@.len() < socks[s].rx_queue.spec_cap()
}

/// A packet's sole claimant: every connection is plain (no reliable
/// timers), exactly the one at `ci` is open and matches the packet's
/// identifier, and its receive queue has room.
pub open spec fn spec_sole_plain_receiver(stack: CspStack, head: CspPacket, ci: int) -> bool {
    &&& head.id.dst == 0
    &&& forall|i: int|
        0 <= i < stack.conns@.len() ==> (#[trigger] stack.conns@[i]).rdp is None
    &&& 0 <= ci < stack.conns@.len()
    &&& stack.conns@[ci].state == ConnState::Open
    &&& stack.conns@[ci].spec_matches_incoming(head.id)
    &&& stack.conns@[ci].rx_queue@.len() < stack.conns@[ci].rx_queue.spec_cap()
    &&& forall|j: int|
        0 <= j < stack.conns@.len() && j != ci ==> !((#[trigger] stack.conns@[j]).state
            == ConnState::Open && stack.conns@[j].spec_matches_incoming(head.id))
}

/// A listening, connection-oriented socket bound exactly to this port
/// whose backlog is at its bound.
pub open spec fn spec_full_listener(
    socks: Seq<crate::conn::CspSocket>,
    port: u8,
    s: int,
) -> bool {
    &&& 0 <= s < socks.len()
    &&& socks[s].bound
    &&& socks[s].port == port
    &&& socks[s].listening
    &&& !crate::codes::spec_has_flag(socks[s].opts, crate::codes::CSP_SO_CONN_LESS)
    &&& socks[s].backlog@.len() >= socks[s].backlog_max
}

/// A listening, connection-oriented socket bound exactly to this port
/// with room in its backlog.
pub open spec fn spec_ready_listener(
    socks: Seq<crate::conn::CspSocket>,
    port: u8,
    s: int,
) -> bool {
    &&& 0 <= s < socks.len()
    &&& socks[s].bound
    &&& socks[s].port == port
    &&& socks[s].listening
    &&& !crate::codes::spec_has_flag(socks[s].opts, crate::codes::CSP_SO_CONN_LESS)
    &&& socks[s].backlog@.len() < socks[s].backlog_max
}

/// One pump of the router: check reliable-protocol timers, then take the
/// oldest packet off the ingress FIFO and dispatch it — to the matching
/// open connection, to the socket bound to its destination port (the
/// exact bind before the wildcard), to a new pending connection on a
/// listening socket, to a built-in service, out through an egress
/// interface, or to the drop counters. With nothing pending it reports a
/// timeout, never an error.
#[verifier::rlimit(60)]
pub fn csp_route_work(stack: &mut CspStack) -> (r: Result<(), CspError>)
    requires
        old(stack).wf(),
    ensures
        final(stack).wf(),
        r == Err::<(), CspError>(CspError::TimedOut) <==> old(stack).ingress@.len() == 0,
        r is Ok <==> old(stack).ingress@.len() > 0,
        final(stack).conns@.len() == old(stack).conns@.len(),
        final(stack).now_ms == old(stack).now_ms,
        final(stack).config == old(stack).config,
        final(stack).version == old(stack).version,
        // port-bind precedence, end to end: a loopback packet that no
        // open connection claims, whose destination port some
        // connectionless socket has bound exactly (with room), lands on
        // that very socket's receive queue, never on a wildcard bind
        (old(stack).ingress@.len() > 0 && old(stack).ingress@[0].id.dst == 0
            && !spec_some_conn_matches(old(stack).conns@, old(stack).ingress@[0].id) && (
        exists|s: int|
            spec_connless_receiver(
                old(stack).sockets@,
                old(stack).ingress@[0].id.dport,
                s,
            ))) ==> (exists|s: int|
            {
                &&& 0 <= s < final(stack).sockets@.len()
                &&& (#[trigger] final(stack).sockets@[s]).port == old(stack).ingress@[0].id.dport
                &&& final(stack).sockets@[s].rx_queue@ == old(stack).sockets@[
                    s].rx_queue@.push(old(stack).ingress@[0])
                // and to no other socket: the wildcard bind sees nothing
                &&& forall|t: int|
                    0 <= t < old(stack).sockets@.len() && t != s ==> (#[trigger] final(stack).sockets@[t]) == old(stack).sockets@[t]
            }),
        // the echo service answers: a loopback ping request that nothing
        // intercepts — no matching connection, no bound socket, no
        // reliable timers — is echoed straight back onto the FIFO with
        // its addresses and ports swapped and its payload untouched
        (old(stack).ingress@.len() > 0 && old(stack).ingress@[0].id.dst == 0 && old(stack).ingress@[0].id.src == 0 && old(stack).ingress@[0].id.dport == 1
            && !spec_some_conn_matches(old(stack).conns@, old(stack).ingress@[0].id)
            && !crate::stack::spec_has_bound_port(
            old(stack).sockets@,
            old(stack).ingress@[0].id.dport,
        ) && !crate::stack::spec_has_bound_port(old(stack).sockets@, crate::CSP_ANY) && (
        forall|i: int|
            0 <= i < old(stack).conns@.len() ==> (#[trigger] old(stack).conns@[i]).rdp
                is None) && spec_reply_id(old(stack).ingress@[0].id).valid(
            old(stack).version,
        )) ==> final(stack).ingress@ == old(stack).ingress@.drop_first().push(
            spec_stamped(old(stack).ingress@[0], spec_reply_id(old(stack).ingress@[0].id)),
        ) && final(stack).conns@ == old(stack).conns@ && final(stack).sockets@ == old(stack).sockets@ && final(stack).pool == old(stack).pool,
        // with nothing pending and no reliable timers the pump is a
        // pure no-op but for its timeout report
        (old(stack).ingress@.len() == 0 && (forall|i: int|
            0 <= i < old(stack).conns@.len() ==> (#[trigger] old(stack).conns@[i]).rdp
                is None)) ==> final(stack).conns@ == old(stack).conns@ && final(stack).ingress@
            == old(stack).ingress@ && final(stack).sockets@ == old(stack).sockets@ && final(stack).pool == old(stack).pool,
        // local delivery: a loopback packet that exactly one open plain
        // connection claims, with room in that connection's receive
        // queue and no reliable timers to interfere, lands at the tail
        // of that queue and nowhere else
        forall|ci: int|
            (old(stack).ingress@.len() > 0 && spec_sole_plain_receiver(
                *old(stack),
                old(stack).ingress@[0],
                ci,
            )) ==> {
                &&& final(stack).conns@[ci].rx_queue@ == old(stack).conns@[
                    ci].rx_queue@.push(old(stack).ingress@[0])
                &&& final(stack).conns@[ci].state == ConnState::Open
                &&& final(stack).conns@[ci].rdp is None
                &&& final(stack).conns@[ci].id_in == old(stack).conns@[ci].id_in
                &&& (forall|j: int|
                    0 <= j < old(stack).conns@.len() && j != ci ==> (#[trigger] final(stack).conns@[j]) == old(stack).conns@[j])
                &&& final(stack).ingress@ == old(stack).ingress@.drop_first()
                &&& final(stack).pool == old(stack).pool
            },
        // backlog overflow, end to end: a plain connection request for a
        // listener whose backlog is full is refused — every socket is
        // left as it was, the request's buffer returns to the pool, and
        // the overflow counter rises
        (old(stack).ingress@.len() > 0 && old(stack).ingress@[0].id.dst == 0 && old(stack).ingress@[0].rdp.kind == crate::packet::RdpKind::Plain && !spec_some_conn_matches(
            old(stack).conns@,
            old(stack).ingress@[0].id,
        ) && (forall|i: int|
            0 <= i < old(stack).conns@.len() ==> (#[trigger] old(stack).conns@[i]).rdp
                is None) && (exists|s: int|
            spec_full_listener(old(stack).sockets@, old(stack).ingress@[0].id.dport, s)))
            ==> (final(stack).sockets@ == old(stack).sockets@ && final(stack).dbg_conn_ovf
            == (if old(stack).dbg_conn_ovf < u32::MAX {
            old(stack).dbg_conn_ovf + 1
        } else {
            u32::MAX as int
        }) && final(stack).pool.in_use == (if old(stack).pool.in_use > 0 {
            old(stack).pool.in_use - 1
        } else {
            0
        })),
        // and while the backlog has room and a table slot is free, the
        // request is admitted: the pending connection joins exactly the
        // bound listener's backlog, never another socket's
        (old(stack).ingress@.len() > 0 && old(stack).ingress@[0].id.dst == 0 && old(stack).ingress@[0].rdp.kind == crate::packet::RdpKind::Plain && !spec_some_conn_matches(
            old(stack).conns@,
            old(stack).ingress@[0].id,
        ) && (forall|i: int|
            0 <= i < old(stack).conns@.len() ==> (#[trigger] old(stack).conns@[i]).rdp
                is None) && (exists|s: int|
            spec_ready_listener(old(stack).sockets@, old(stack).ingress@[0].id.dport, s)) && (
        exists|i: int|
            0 <= i < old(stack).conns@.len() && (#[trigger] old(stack).conns@[i]).state
                == ConnState::Closed)) ==> (exists|s: int|
            {
                &&& 0 <= s < final(stack).sockets@.len()
                &&& (#[trigger] final(stack).sockets@[s]).port == old(stack).ingress@[0].id.dport
                &&& final(stack).sockets@[s].backlog@.len() == old(stack).sockets@[
                    s].backlog@.len() + 1
                &&& forall|t: int|
                    0 <= t < old(stack).sockets@.len() && t != s ==> (#[trigger] final(stack).sockets@[t]) == old(stack).sockets@[t]
            }),
        // the timer sweep runs even when nothing is pending: an overdue
        // in-flight segment of the sole reliable connection is back on
        // the FIFO afterwards, and a due delayed acknowledgment is out
        forall|ci: int|
            #[trigger] spec_retransmit_due(*old(stack), ci) ==> spec_head_retransmitted(
                *old(stack),
                *final(stack),
                ci,
            ),
        forall|ci: int|
            #[trigger] spec_delayed_ack_due(*old(stack), ci) ==> spec_ack_emitted(
                *old(stack),
                *final(stack),
                ci,
            ),
        forall|k: int|
            old(stack).ingress@.len() == 0 && #[trigger] spec_conn_timeout_due(
                *old(stack),
                k,
            ) ==> final(stack).conns@[k].state == ConnState::Closed && final(stack).conns@[k].last_error == Some(CspError::TimedOut),
        // the pump never fabricates outgoing connections: a client
        // connection open afterwards was open before
        forall|k: int|
            0 <= k < old(stack).conns@.len() && (#[trigger] final(stack).conns@[k]).state
                == ConnState::Open && final(stack).conns@[k].ctype == ConnType::Client ==> (
            old(stack).conns@[k].state == ConnState::Open && old(stack).conns@[k].ctype
                == ConnType::Client),
        // with nothing pending and no timer due the pump is a pure
        // no-op but for its timeout report
        (old(stack).ingress@.len() == 0 && (forall|k: int|
            0 <= k < old(stack).conns@.len() ==> ((#[trigger] old(stack).conns@[k]).rdp
                matches Some(m) ==> spec_machine_idle(m, old(stack).now_ms)))) ==> (final(stack).conns@ == old(stack).conns@ && final(stack).ingress@ == old(stack).ingress@
            && final(stack).sockets@ == old(stack).sockets@ && final(stack).pool == old(stack).pool && final(stack).interfaces@ == old(stack).interfaces@),
        // a plain open connection survives the pump, itself, with at
        // most its receive queue grown
        forall|k: int|
            0 <= k < old(stack).conns@.len() && (#[trigger] old(stack).conns@[k]).state
                == ConnState::Open && old(stack).conns@[k].rdp is None ==> (final(stack).conns@[k].state == ConnState::Open && final(stack).conns@[k].rdp is None
                && final(stack).conns@[k].id_in == old(stack).conns@[k].id_in && final(stack).conns@[k].id_out == old(stack).conns@[k].id_out && final(stack).conns@[k].ctype
                == old(stack).conns@[k].ctype && final(stack).conns@[k].opts == old(stack).conns@[k].opts && final(stack).conns@[k].last_error == old(stack).conns@[
                k].last_error),
        // a remote head packet with no route is dropped: the buffer
        // returns to the pool, the failure is counted, and nothing is
        // reported to unrelated callers (with no reliable timers in play)
        (old(stack).ingress@.len() > 0 && !old(stack).spec_is_local(old(stack).ingress@[0].id.dst)
            && old(stack).ingress@[0].id.valid(old(stack).version) && (forall|i: int|
            0 <= i < old(stack).conns@.len() ==> (#[trigger] old(stack).conns@[i]).rdp
                is None) && (forall|i: int|
            0 <= i < old(stack).interfaces@.len() ==> !(#[trigger] old(stack).interfaces@[
                i].is_default))) ==> (r is Ok && final(stack).interfaces@ == old(stack).interfaces@ && final(stack).conns@ == old(stack).conns@ && final(stack).sockets@
            == old(stack).sockets@ && final(stack).pool.in_use == (
        if old(stack).pool.in_use > 0 {
            old(stack).pool.in_use - 1
        } else {
            0
        }) && final(stack).dbg_conn_noroute == (if old(stack).dbg_conn_noroute < u32::MAX {
            old(stack).dbg_conn_noroute + 1
        } else {
            u32::MAX as int
        })),
        // a remote head packet leaves through the first default route:
        // the packed header of the build-time width plus the payload
        // joins that interface's transmit queue and its counter rises
        forall|e: int|
            (old(stack).ingress@.len() > 0 && !old(stack).spec_is_local(old(stack).ingress@[0].id.dst) && old(stack).ingress@[0].id.valid(old(stack).version) && (
            forall|i: int|
                0 <= i < old(stack).conns@.len() ==> (#[trigger] old(stack).conns@[i]).rdp
                    is None) && spec_first_default(old(stack).interfaces@, e)) ==> {
                &&& final(stack).interfaces@.len() == old(stack).interfaces@.len()
                &&& final(stack).interfaces@[e].txq@.len() == old(stack).interfaces@[
                    e].txq@.len() + 1
                &&& final(stack).interfaces@[e].txq@[old(stack).interfaces@[
                    e].txq@.len() as int].bytes@ == crate::codec::spec_pack(
                    old(stack).ingress@[0].id,
                    old(stack).version,
                ) + old(stack).ingress@[0].data@
                &&& final(stack).interfaces@[e].txq@[old(stack).interfaces@[
                    e].txq@.len() as int].via == old(stack).ingress@[0].id.dst
                &&& final(stack).interfaces@[e].tx == (if old(stack).interfaces@[e].tx
                    < u32::MAX {
                    old(stack).interfaces@[e].tx + 1
                } else {
                    u32::MAX as int
                })
                &&& (forall|j: int|
                    0 <= j < old(stack).interfaces@.len() && j != e ==> (#[trigger] final(stack).interfaces@[j]) == old(stack).interfaces@[j])
                &&& final(stack).pool.in_use == (if old(stack).pool.in_use > 0 {
                    old(stack).pool.in_use - 1
                } else {
                    0
                })
            },
{
    let head = stack.ingress.dequeue();
    let ghost s1 = *stack;
    stack.rdp_tick_all();
    match head {
        None => {
            proof {
                // nothing was dequeued, so the sweep's own guarantees
                // carry over unchanged
                assert forall|ci: int| #[trigger] spec_retransmit_due(*old(stack), ci) implies
                    spec_head_retransmitted(*old(stack), *stack, ci) by {
                    assert(s1.ingress@ == old(stack).ingress@);
                    assert(spec_retransmit_due(s1, ci));
                    assert(spec_head_retransmitted(s1, *stack, ci));
                }
                assert forall|ci: int| #[trigger] spec_delayed_ack_due(*old(stack), ci) implies
                    spec_ack_emitted(*old(stack), *stack, ci) by {
                    assert(s1.ingress@ == old(stack).ingress@);
                    assert(spec_delayed_ack_due(s1, ci));
                    assert(spec_ack_emitted(s1, *stack, ci));
                }
                assert forall|k: int|
                    old(stack).ingress@.len() == 0 && #[trigger] spec_conn_timeout_due(
                        *old(stack),
                        k,
                    ) implies stack.conns@[k].state == ConnState::Closed && stack.conns@[
                    k].last_error == Some(CspError::TimedOut) by {
                    assert(spec_conn_timeout_due(s1, k));
                }
            }
            Err(CspError::TimedOut)
        },
        Some(p) => {
            if stack.is_local(p.id.dst) {
                let ghost pre = *stack;
                let found = stack.conn_find_match(&p.id);
                match found {
                    Some(fci) => {
                        proof {
                            assert forall|ci: int|
                                old(stack).ingress@.len() > 0 && spec_sole_plain_receiver(
                                    *old(stack),
                                    old(stack).ingress@[0],
                                    ci,
                                ) implies fci as int == ci by {
                                assert(pre.conns@[ci].id_in == old(stack).conns@[ci].id_in);
                                assert(pre.conns@[ci] == old(stack).conns@[ci]);
                                assert(pre.conns@[fci as int].id_in == old(stack).conns@[
                                    fci as int].id_in);
                                assert(pre.conns@[fci as int] == old(stack).conns@[
                                    fci as int]);
                            }
                        }
                        stack.deliver_to_conn(fci, p);
                        proof {
                            assert forall|ci: int|
                                old(stack).ingress@.len() > 0 && spec_sole_plain_receiver(
                                    *old(stack),
                                    old(stack).ingress@[0],
                                    ci,
                                ) implies stack.conns@[ci].rx_queue@ == old(stack).conns@[
                                ci].rx_queue@.push(old(stack).ingress@[0]) && (forall|j: int|
                                0 <= j < old(stack).conns@.len() && j != ci ==> (
                                #[trigger] stack.conns@[j]) == old(stack).conns@[j])
                                && stack.ingress@ == old(stack).ingress@.drop_first() by {
                                assert(fci as int == ci);
                                assert(pre.conns@[ci].id_in == old(stack).conns@[ci].id_in);
                                assert(pre.conns@[ci] == old(stack).conns@[ci]);
                                assert forall|j: int|
                                    0 <= j < old(stack).conns@.len() && j != ci implies (
                                    #[trigger] stack.conns@[j]) == old(stack).conns@[j] by {
                                    assert(pre.conns@[j].id_in == old(stack).conns@[j].id_in);
                                    assert(pre.conns@[j] == old(stack).conns@[j]);
                                }
                            }
                        }
                    },
                    None => {
                        proof {
                            assert forall|ci: int|
                                !(old(stack).ingress@.len() > 0 && spec_sole_plain_receiver(
                                    *old(stack),
                                    old(stack).ingress@[0],
                                    ci,
                                )) by {
                                if old(stack).ingress@.len() > 0 && spec_sole_plain_receiver(
                                    *old(stack),
                                    old(stack).ingress@[0],
                                    ci,
                                ) {
                                    assert(pre.conns@[ci].id_in == old(stack).conns@[
                                        ci].id_in);
                                    assert(pre.conns@[ci] == old(stack).conns@[ci]);
                                    assert(pre.conns@[ci].state == ConnState::Open
                                        && pre.conns@[ci].spec_matches_incoming(p.id));
                                }
                            }
                        }
                        let sock = stack.find_socket(p.id.dport);
                        match sock {
                            Some(s) => {
                                proof {
                                    // with an exact connectionless bind
                                    // present, the socket found is that
                                    // very bind: ports are bound at most
                                    // once
                                    if old(stack).ingress@.len() > 0 && old(stack).ingress@[0].id.dst == 0 && !spec_some_conn_matches(
                                        old(stack).conns@,
                                        old(stack).ingress@[0].id,
                                    ) && (exists|s0: int|
                                        spec_connless_receiver(
                                            old(stack).sockets@,
                                            old(stack).ingress@[0].id.dport,
                                            s0,
                                        )) {
                                        let s0 = choose|s0: int|
                                            spec_connless_receiver(
                                                old(stack).sockets@,
                                                old(stack).ingress@[0].id.dport,
                                                s0,
                                            );
                                        assert(stack.sockets@ == old(stack).sockets@);
                                        if s as int != s0 {
                                            if (s as int) < s0 {
                                                assert(stack.sockets@[s as int].port
                                                    != stack.sockets@[s0].port);
                                            } else {
                                                assert(stack.sockets@[s0].port
                                                    != stack.sockets@[s as int].port);
                                            }
                                        }
                                        assert(s as int == s0);
                                    }
                                }
                                if crate::codes::has_flag(
                                    stack.sockets[s].opts,
                                    crate::codes::CSP_SO_CONN_LESS,
                                ) {
                                    let mut sk = stack.sockets.remove(s);
                                    let rejected = sk.rx_queue.enqueue(p);
                                    stack.sockets.insert(s, sk);
                                    proof {
                                        assert(stack.sockets@ =~= old(stack).sockets@.update(
                                            s as int,
                                            stack.sockets@[s as int],
                                        ));
                                    }
                                    match rejected {
                                        Some(dropped) => {
                                            if stack.dbg_conn_ovf < u32::MAX {
                                                stack.dbg_conn_ovf = stack.dbg_conn_ovf + 1;
                                            }
                                            stack.pool.free(dropped);
                                        },
                                        None => {},
                                    }
                                } else if stack.sockets[s].listening {
                                    let _ = stack.admit_connection(s, p);
                                } else {
                                    if stack.dbg_conn_noroute < u32::MAX {
                                        stack.dbg_conn_noroute = stack.dbg_conn_noroute + 1;
                                    }
                                    stack.pool.free(p);
                                }
                            },
                            None => {
                                if p.id.dport <= 6 {
                                    stack.service_handler(p);
                                } else {
                                    if stack.dbg_conn_noroute < u32::MAX {
                                        stack.dbg_conn_noroute = stack.dbg_conn_noroute + 1;
                                    }
                                    stack.pool.free(p);
                                }
                            },
                        }
                    },
                }
            } else {
                let _ = stack.transmit_packet(p);
            }
            Ok(())
        },
    }
}

/// One pump of the router reported as a numeric code: zero when a
/// packet was routed, otherwise the code of the error (a timeout when
/// nothing was pending).
pub fn csp_route_work_raw(stack: &mut CspStack) -> (r: i32)
    requires
        old(stack).wf(),
    ensures
        final(stack).wf(),
        r == 0 <==> old(stack).ingress@.len() > 0,
        old(stack).ingress@.len() == 0 ==> r == crate::codes::spec_error_code(
            CspError::TimedOut,
        ),
{
    match csp_route_work(stack) {
        Ok(()) => 0,
        Err(e) => e.code(),
    }
}

} // verus!
