//! Sockets and the connection table. A socket binds one port (or the
//! wildcard) and queues pending connections up to its backlog; a
//! connection pairs two endpoints, owns its receive queue, and may embed
//! a reliable-datagram machine.

use vstd::prelude::*;

use crate::codec::CspId;
use crate::codes::{ConnState, ConnType, CspError};
use crate::queue::PacketQueue;
use crate::rdp::{spec_rx_contiguous, RdpConn};

verus! {

/// A port-bound endpoint that accepts connections, or receives raw
/// packets when connectionless.
pub struct CspSocket {
    /// Whether the socket is bound to a port.
    pub bound: bool,
    /// The bound port; meaningful only while bound.
    pub port: u8,
    /// Socket option flags.
    pub opts: u32,
    /// Whether the socket accepts incoming connections.
    pub listening: bool,
    /// Bound on pending, unaccepted connections.
    pub backlog_max: usize,
    /// Connection-table indices of pending, unaccepted connections.
    pub backlog: Vec<usize>,
    /// Receive queue for connectionless operation.
    pub rx_queue: PacketQueue,
}

impl CspSocket {
    /// The backlog respects its bound and refers only into a connection
    /// table of the given size.
    pub open spec fn wf(&self, conn_count: int) -> bool {
        &&& self.backlog@.len() <= self.backlog_max
        &&& forall|i: int| 0 <= i < self.backlog@.len() ==> (#[trigger] self.backlog@[i]) < conn_count
        &&& self.rx_queue.wf()
    }

    /// A fresh, unbound socket with the given options and receive depth.
    pub fn new(opts: u32, rx_depth: usize) -> (r: CspSocket)
        ensures
            r.wf(0),
            !r.bound,
            !r.listening,
            r.opts == opts,
            r.backlog@.len() == 0,
            r.backlog_max == 0,
            r.rx_queue@.len() == 0,
            r.rx_queue.spec_cap() == rx_depth,
    {
        CspSocket {
            bound: false,
            port: 0,
            opts,
            listening: false,
            backlog_max: 0,
            backlog: Vec::new(),
            rx_queue: PacketQueue::new(rx_depth),
        }
    }
}

/// One slot of the connection table.
pub struct CspConn {
    /// Lifecycle state of the slot.
    pub state: ConnState,
    /// Which side opened the connection.
    pub ctype: ConnType,
    /// Identifier expected on incoming packets.
    pub id_in: CspId,
    /// Identifier stamped on outgoing packets.
    pub id_out: CspId,
    /// Connection option flags.
    pub opts: u32,
    /// Time of the last activity on the connection.
    pub timestamp: u32,
    /// Receive queue of packets delivered to this connection.
    pub rx_queue: PacketQueue,
    /// Reliable-datagram machine, present when the connection uses it.
    pub rdp: Option<RdpConn>,
    /// Error a blocked caller should learn of, if any.
    pub last_error: Option<CspError>,
}

impl CspConn {
    /// The receive queue is within bounds; with a reliable machine
    /// embedded, the queue is an unbroken run ending at the machine's
    /// delivery point, so reads hand segments out in sequence order, and
    /// nothing is delivered before the handshake completes.
    pub open spec fn wf(&self) -> bool {
        &&& self.rx_queue.wf()
        &&& match self.rdp {
            Some(r) => r.wf() && spec_rx_contiguous(self.rx_queue@, r.rcv_cur) && ((r.state
                == crate::codes::RdpState::SynSent || r.state
                == crate::codes::RdpState::SynRcvd) ==> self.rx_queue@.len() == 0),
            None => true,
        }
    }

    /// A closed, empty slot with the given receive depth.
    pub fn empty(rx_depth: usize) -> (r: CspConn)
        ensures
            r.wf(),
            r.state == ConnState::Closed,
            r.rx_queue@.len() == 0,
            r.rx_queue.spec_cap() == rx_depth,
            r.rdp is None,
    {
        CspConn {
            state: ConnState::Closed,
            ctype: ConnType::Client,
            id_in: CspId { pri: 0, flags: 0, src: 0, dst: 0, dport: 0, sport: 0 },
            id_out: CspId { pri: 0, flags: 0, src: 0, dst: 0, dport: 0, sport: 0 },
            opts: 0,
            timestamp: 0,
            rx_queue: PacketQueue::new(rx_depth),
            rdp: None,
            last_error: None,
        }
    }

    /// Whether an incoming identifier belongs to this connection: both
    /// addresses and both ports must pair up with what the connection
    /// expects.
    pub open spec fn spec_matches_incoming(&self, id: CspId) -> bool {
        &&& id.src == self.id_in.src
        &&& id.dst == self.id_in.dst
        &&& id.dport == self.id_in.dport
        &&& id.sport == self.id_in.sport
    }

    /// In-order delivery: whatever is queued on a reliable connection is
    /// in sequence order — a later queue position always holds a higher
    /// sequence number, exactly its positional distance ahead.
    pub proof fn lemma_reads_in_order(&self, k: int, l: int)
        requires
            self.wf(),
            self.rdp is Some,
            0 <= k <= l < self.rx_queue@.len(),
        ensures
            self.rx_queue@[l].rdp.seq == crate::rdp::spec_seq_add(
                self.rx_queue@[k].rdp.seq,
                l - k,
            ),
    {
        match self.rdp {
            Some(m) => {
                crate::rdp::lemma_rdp_in_order_delivery(self.rx_queue@, m.rcv_cur, k, l);
            },
            None => {},
        }
    }

    /// Run-time test of [`Self::spec_matches_incoming`].
    pub fn matches_incoming(&self, id: &CspId) -> (r: bool)
        ensures
            r == self.spec_matches_incoming(*id),
    {
        id.src == self.id_in.src && id.dst == self.id_in.dst && id.dport == self.id_in.dport
            && id.sport == self.id_in.sport
    }
}

} // verus!
