//! The stack itself: pool, ingress FIFO, interface registry, socket list
//! and connection table, owned by one explicit object created at
//! initialization instead of hidden process-wide state.

use vstd::prelude::*;

use crate::codec::HeaderVersion;
use crate::codes::{ConnState, CspError};
use crate::config::Config;
use crate::conn::{CspConn, CspSocket};
use crate::iface::{bytes_equal, CspInterface};
use crate::packet::CspPacket;
use crate::pool::BufferPool;
use crate::queue::PacketQueue;
use crate::CSP_ANY;

verus! {

/// Whether some socket in the list is bound to exactly this port.
pub open spec fn spec_has_bound_port(socks: Seq<CspSocket>, port: u8) -> bool {
    exists|i: int| 0 <= i < socks.len() && (#[trigger] socks[i]).bound && socks[i].port == port
}

/// The slot holds a live incoming connection: open, and serving a peer.
pub open spec fn spec_live_server(conns: Seq<CspConn>, c: int) -> bool {
    &&& 0 <= c < conns.len()
    &&& conns[c].state == ConnState::Open
    &&& conns[c].ctype == crate::codes::ConnType::Server
}

/// The protocol stack. One instance owns every table; callers hold
/// indices into the socket list and connection table.
pub struct CspStack {
    /// Immutable configuration fixed at initialization.
    pub config: Config,
    /// Wire layout of packed headers.
    pub version: HeaderVersion,
    /// The packet buffer pool.
    pub pool: BufferPool,
    /// The single ingress FIFO feeding the router.
    pub ingress: PacketQueue,
    /// Registered interfaces, in registration order.
    pub interfaces: Vec<CspInterface>,
    /// Sockets, created on demand up to the bindable-port limit.
    pub sockets: Vec<CspSocket>,
    /// The fixed-size connection table.
    pub conns: Vec<CspConn>,
    /// Protocol time in milliseconds; the sole clock of the stack.
    pub now_ms: u32,
    /// Next ephemeral source port to hand out.
    pub ephemeral_port: u8,
    /// Packets dropped because no route or binding claimed them.
    pub dbg_conn_noroute: u32,
    /// Packets or connections dropped because a queue or backlog was full.
    pub dbg_conn_ovf: u32,
    /// Malformed packets dropped by the router.
    pub dbg_inval: u32,
    /// Reboot requests taken by the built-in service handler.
    pub reboot_requests: u32,
    /// Free-memory figure the memory service reports.
    pub mem_free_reported: u32,
}

impl CspStack {
    /// Structural invariant tying every table to the configuration:
    /// queue bounds hold, the connection table has its fixed size, socket
    /// backlogs are within bounds, and no two sockets bind the same port.
    pub open spec fn wf(&self) -> bool {
        &&& self.config.wf()
        &&& self.pool.wf()
        &&& self.pool.capacity == self.config.buffer_count
        &&& self.pool.data_size == self.config.buffer_size
        &&& self.ingress.wf()
        &&& self.ingress.spec_cap() == self.config.qfifo_len
        &&& self.conns@.len() == self.config.conn_max
        &&& forall|i: int| 0 <= i < self.conns@.len() ==> (#[trigger] self.conns@[i]).wf()
        &&& forall|i: int|
            0 <= i < self.conns@.len() ==> (#[trigger] self.conns@[i]).rx_queue.spec_cap()
                == self.config.conn_rx_queue_len
        &&& self.sockets@.len() <= self.config.port_max_bind
        &&& forall|i: int|
            0 <= i < self.sockets@.len() ==> (#[trigger] self.sockets@[i]).wf(
                self.conns@.len() as int,
            )
        &&& forall|i: int|
            0 <= i < self.sockets@.len() ==> (#[trigger] self.sockets@[i]).rx_queue.spec_cap()
                == self.config.conn_rx_queue_len
        &&& forall|i: int, j: int|
            0 <= i < j < self.sockets@.len() && (#[trigger] self.sockets@[i]).bound && (
            #[trigger] self.sockets@[j]).bound ==> self.sockets@[i].port != self.sockets@[j].port
        &&& 16 <= self.ephemeral_port < 64
    }

    /// The stack's own address: the address of the first registered
    /// interface, or the loopback address while none is registered.
    pub open spec fn spec_local_address(&self) -> u16 {
        if self.interfaces@.len() > 0 {
            self.interfaces@[0].addr
        } else {
            0
        }
    }

    /// Run-time value of [`Self::spec_local_address`].
    pub fn local_address(&self) -> (r: u16)
        ensures
            r == self.spec_local_address(),
    {
        if self.interfaces.len() > 0 {
            self.interfaces[0].addr
        } else {
            0
        }
    }

    /// Whether a destination address means this node: the loopback
    /// address, or the address of a registered interface.
    pub open spec fn spec_is_local(&self, dst: u16) -> bool {
        dst == 0 || exists|i: int|
            0 <= i < self.interfaces@.len() && (#[trigger] self.interfaces@[i].addr) == dst
    }

    /// Run-time test of [`Self::spec_is_local`].
    pub fn is_local(&self, dst: u16) -> (r: bool)
        ensures
            r == self.spec_is_local(dst),
    {
        if dst == 0 {
            return true;
        }
        let mut i: usize = 0;
        while i < self.interfaces.len()
            invariant
                i <= self.interfaces@.len(),
                forall|k: int| 0 <= k < i ==> (#[trigger] self.interfaces@[k].addr) != dst,
            decreases self.interfaces@.len() - i,
        {
            if self.interfaces[i].addr == dst {
                return true;
            }
            i = i + 1;
        }
        false
    }

    /// The socket a destination port is delivered to: a socket bound to
    /// exactly this port wins over one bound to the wildcard; with
    /// neither present there is no binding.
    pub fn find_socket(&self, port: u8) -> (r: Option<usize>)
        ensures
            match r {
                Some(i) => {
                    &&& i < self.sockets@.len()
                    &&& self.sockets@[i as int].bound
                    &&& spec_has_bound_port(self.sockets@, port) ==> self.sockets@[i as int].port
                        == port
                    &&& !spec_has_bound_port(self.sockets@, port) ==> self.sockets@[
                        i as int].port == CSP_ANY
                },
                None => !spec_has_bound_port(self.sockets@, port) && !spec_has_bound_port(
                    self.sockets@,
                    CSP_ANY,
                ),
            },
            r is Some <==> (spec_has_bound_port(self.sockets@, port) || spec_has_bound_port(
                self.sockets@,
                CSP_ANY,
            )),
    {
        let mut i: usize = 0;
        while i < self.sockets.len()
            invariant
                i <= self.sockets@.len(),
                forall|k: int|
                    0 <= k < i ==> !((#[trigger] self.sockets@[k]).bound && self.sockets@[k].port
                        == port),
            decreases self.sockets@.len() - i,
        {
            if self.sockets[i].bound && self.sockets[i].port == port {
                return Some(i);
            }
            i = i + 1;
        }
        let mut j: usize = 0;
        while j < self.sockets.len()
            invariant
                j <= self.sockets@.len(),
                forall|k: int|
                    0 <= k < self.sockets@.len() ==> !((#[trigger] self.sockets@[k]).bound
                        && self.sockets@[k].port == port),
                forall|k: int|
                    0 <= k < j ==> !((#[trigger] self.sockets@[k]).bound && self.sockets@[k].port
                        == CSP_ANY),
            decreases self.sockets@.len() - j,
        {
            if self.sockets[j].bound && self.sockets[j].port == CSP_ANY {
                return Some(j);
            }
            j = j + 1;
        }
        None
    }

    /// Create a socket. Refused only when as many sockets exist as ports
    /// may be bound.
    pub fn socket_create(&mut self, opts: u32) -> (r: Option<usize>)
        requires
            old(self).wf(),
        ensures
            final(self).wf(),
            r is Some <==> old(self).sockets@.len() < old(self).config.port_max_bind,
            r is None ==> *final(self) == *old(self),
            r matches Some(i) ==> {
                &&& i == old(self).sockets@.len()
                &&& final(self).sockets@.len() == old(self).sockets@.len() + 1
                &&& !final(self).sockets@[i as int].bound
                &&& final(self).sockets@[i as int].opts == opts
                &&& final(self).conns@ == old(self).conns@
                &&& final(self).pool == old(self).pool
                &&& final(self).ingress@ == old(self).ingress@
            },
    {
        if self.sockets.len() < self.config.port_max_bind as usize {
            let idx = self.sockets.len();
            let s = CspSocket::new(opts, self.config.conn_rx_queue_len as usize);
            self.sockets.push(s);
            Some(idx)
        } else {
            None
        }
    }

    /// Register an interface. An interface whose name another registered
    /// interface already carries is refused; the list is append-only.
    #[verifier::loop_isolation(false)]
    pub fn register_interface(&mut self, iface: CspInterface) -> (r: Result<(), CspError>)
        requires
            old(self).wf(),
        ensures
            final(self).wf(),
            r is Ok <==> !(exists|i: int|
                0 <= i < old(self).interfaces@.len() && (#[trigger] old(self).interfaces@[i].name@) == iface.name@),
            // the list is append-only: the new entry is the argument
            // itself, at the tail, and everything before it survives
            r is Ok ==> final(self).interfaces@ == old(self).interfaces@.push(iface),
            r is Err ==> *final(self) == *old(self) && r == Err::<(), CspError>(CspError::Used),
            final(self).sockets@ == old(self).sockets@,
            final(self).conns@ == old(self).conns@,
    {
        let mut i: usize = 0;
        while i < self.interfaces.len()
            invariant
                i <= self.interfaces@.len(),
                forall|k: int|
                    0 <= k < i ==> (#[trigger] self.interfaces@[k].name@) != iface.name@,
            decreases self.interfaces@.len() - i,
        {
            if bytes_equal(&self.interfaces[i].name, &iface.name) {
                return Err(CspError::Used);
            }
            i = i + 1;
        }
        self.interfaces.push(iface);
        Ok(())
    }

    /// Index of a free (closed) connection-table slot.
    pub fn conn_find_free(&self) -> (r: Option<usize>)
        ensures
            match r {
                Some(i) => i < self.conns@.len() && self.conns@[i as int].state
                    == ConnState::Closed,
                None => forall|i: int|
                    0 <= i < self.conns@.len() ==> (#[trigger] self.conns@[i]).state
                        == ConnState::Open,
            },
    {
        let mut i: usize = 0;
        while i < self.conns.len()
            invariant
                i <= self.conns@.len(),
                forall|k: int|
                    0 <= k < i ==> (#[trigger] self.conns@[k]).state == ConnState::Open,
            decreases self.conns@.len() - i,
        {
            if matches!(self.conns[i].state, ConnState::Closed) {
                return Some(i);
            }
            i = i + 1;
        }
        None
    }

    /// Advance the stack's clock. Time never moves backwards.
    pub fn advance_time(&mut self, delta_ms: u32)
        requires
            old(self).wf(),
        ensures
            final(self).wf(),
            final(self).now_ms == if old(self).now_ms + delta_ms <= u32::MAX {
                old(self).now_ms + delta_ms
            } else {
                u32::MAX as int
            },
            final(self).conns@ == old(self).conns@,
            final(self).sockets@ == old(self).sockets@,
            final(self).ingress@ == old(self).ingress@,
            final(self).pool == old(self).pool,
    {
        if delta_ms <= u32::MAX - self.now_ms {
            self.now_ms = self.now_ms + delta_ms;
        } else {
            self.now_ms = u32::MAX;
        }
    }
}

/// Initialize the stack from a configuration: the one-time setup every
/// other operation needs. A configuration outside the supported ranges
/// is rejected whole.
pub fn csp_init(config: Config) -> (r: Result<CspStack, CspError>)
    ensures
        r is Ok <==> config.wf(),
        r is Err ==> r == Err::<CspStack, CspError>(CspError::Inval),
        r matches Ok(s) ==> {
            &&& s.wf()
            &&& s.config == config
            &&& s.pool.capacity == config.buffer_count
            &&& s.pool.in_use == 0
            &&& s.ingress@.len() == 0
            &&& s.interfaces@.len() == 0
            &&& s.sockets@.len() == 0
            &&& s.conns@.len() == config.conn_max
            &&& s.now_ms == 0
            // every connection slot starts free and clean, so the first
            // connect provably finds one
            &&& forall|k: int|
                0 <= k < s.conns@.len() ==> (#[trigger] s.conns@[k]).state
                    == ConnState::Closed && s.conns@[k].rdp is None && s.conns@[
                    k].rx_queue@.len() == 0
        },
{
    if !config.is_valid() {
        return Err(CspError::Inval);
    }
    let mut conns: Vec<CspConn> = Vec::new();
    let mut i: u32 = 0;
    while i < config.conn_max
        invariant
            i <= config.conn_max,
            conns@.len() == i,
            config.wf(),
            forall|k: int| 0 <= k < conns@.len() ==> (#[trigger] conns@[k]).wf(),
            forall|k: int|
                0 <= k < conns@.len() ==> (#[trigger] conns@[k]).rx_queue.spec_cap()
                    == config.conn_rx_queue_len,
            forall|k: int|
                0 <= k < conns@.len() ==> (#[trigger] conns@[k]).state == ConnState::Closed
                    && conns@[k].rdp is None && conns@[k].rx_queue@.len() == 0,
        decreases config.conn_max - i,
    {
        conns.push(CspConn::empty(config.conn_rx_queue_len as usize));
        i = i + 1;
    }
    Ok(
        CspStack {
            config,
            version: if config.legacy_header {
                HeaderVersion::Legacy
            } else {
                HeaderVersion::Current
            },
            pool: BufferPool::new(config.buffer_count, config.buffer_size),
            ingress: PacketQueue::new(config.qfifo_len as usize),
            interfaces: Vec::new(),
            sockets: Vec::new(),
            conns,
            now_ms: 0,
            ephemeral_port: 16,
            dbg_conn_noroute: 0,
            dbg_conn_ovf: 0,
            dbg_inval: 0,
            reboot_requests: 0,
            mem_free_reported: 0,
        },
    )
}

/// Bind a socket to a port, or to the wildcard. A port already bound by
/// any socket is refused; so is a port number the header cannot carry.
#[verifier::loop_isolation(false)]
pub fn csp_bind(stack: &mut CspStack, socket: usize, port: u8) -> (r: Result<(), CspError>)
    requires
        old(stack).wf(),
    ensures
        final(stack).wf(),
        socket >= old(stack).sockets@.len() ==> r == Err::<(), CspError>(CspError::Inval)
            && *final(stack) == *old(stack),
        (socket < old(stack).sockets@.len() && port != CSP_ANY && port >= 64) ==> r == Err::<
            (),
            CspError,
        >(CspError::Inval) && *final(stack) == *old(stack),
        (socket < old(stack).sockets@.len() && (port == CSP_ANY || port < 64)
            && spec_has_bound_port(old(stack).sockets@, port)) ==> r == Err::<(), CspError>(
            CspError::Used,
        ) && *final(stack) == *old(stack),
        (socket < old(stack).sockets@.len() && (port == CSP_ANY || port < 64)
            && !spec_has_bound_port(old(stack).sockets@, port)) ==> {
            &&& r is Ok
            &&& final(stack).sockets@[socket as int].bound
            &&& final(stack).sockets@[socket as int].port == port
            &&& final(stack).sockets@.len() == old(stack).sockets@.len()
            &&& forall|k: int|
                0 <= k < old(stack).sockets@.len() && k != socket ==> final(stack).sockets@[k] == old(stack).sockets@[k]
            &&& final(stack).conns@ == old(stack).conns@
        },
{
    if socket >= stack.sockets.len() {
        return Err(CspError::Inval);
    }
    if port != CSP_ANY && port >= 64 {
        return Err(CspError::Inval);
    }
    let mut i: usize = 0;
    while i < stack.sockets.len()
        invariant
            i <= stack.sockets@.len(),
            forall|k: int|
                0 <= k < i ==> !((#[trigger] stack.sockets@[k]).bound && stack.sockets@[k].port
                    == port),
        decreases stack.sockets@.len() - i,
    {
        if stack.sockets[i].bound && stack.sockets[i].port == port {
            return Err(CspError::Used);
        }
        i = i + 1;
    }
    let mut s = stack.sockets.remove(socket);
    s.bound = true;
    s.port = port;
    stack.sockets.insert(socket, s);
    proof {
        assert(stack.sockets@ =~= old(stack).sockets@.update(
            socket as int,
            stack.sockets@[socket as int],
        ));
    }
    Ok(())
}

/// Set a socket to accept incoming connections, with a bound on pending
/// unaccepted connections. The bound is capped at the connection-table
/// size; a bound below what is already pending is refused.
pub fn csp_listen(stack: &mut CspStack, socket: usize, backlog: usize) -> (r: Result<
    (),
    CspError,
>)
    requires
        old(stack).wf(),
    ensures
        final(stack).wf(),
        socket >= old(stack).sockets@.len() ==> r == Err::<(), CspError>(CspError::Inval)
            && *final(stack) == *old(stack),
        socket < old(stack).sockets@.len() ==> {
            let capped = if backlog <= old(stack).config.conn_max {
                backlog as int
            } else {
                old(stack).config.conn_max as int
            };
            &&& (old(stack).sockets@[socket as int].backlog@.len() > capped ==> r == Err::<
                (),
                CspError,
            >(CspError::Busy) && *final(stack) == *old(stack))
            &&& (old(stack).sockets@[socket as int].backlog@.len() <= capped ==> {
                &&& r is Ok
                &&& final(stack).sockets@[socket as int].listening
                &&& final(stack).sockets@[socket as int].backlog_max == capped
                &&& final(stack).sockets@[socket as int].backlog@ == old(stack).sockets@[
                    socket as int].backlog@
                &&& forall|k: int|
                    0 <= k < old(stack).sockets@.len() && k != socket ==> final(stack).sockets@[k] == old(stack).sockets@[k]
                &&& final(stack).conns@ == old(stack).conns@
                &&& final(stack).sockets@.len() == old(stack).sockets@.len()
            })
        },
{
    if socket >= stack.sockets.len() {
        return Err(CspError::Inval);
    }
    let capped: usize = if backlog <= stack.config.conn_max as usize {
        backlog
    } else {
        stack.config.conn_max as usize
    };
    if stack.sockets[socket].backlog.len() > capped {
        return Err(CspError::Busy);
    }
    let mut s = stack.sockets.remove(socket);
    s.listening = true;
    s.backlog_max = capped;
    stack.sockets.insert(socket, s);
    proof {
        assert(stack.sockets@ =~= old(stack).sockets@.update(
            socket as int,
            stack.sockets@[socket as int],
        ));
    }
    Ok(())
}

/// Take the oldest pending connection off a socket's backlog. Nothing
/// pending within the timeout means no connection. A connection that
/// died while pending (for instance by a reliable-layer timeout) is
/// skipped, never handed out.
pub fn csp_accept(stack: &mut CspStack, socket: usize, timeout_ms: u32) -> (r: Option<usize>)
    requires
        old(stack).wf(),
    ensures
        final(stack).wf(),
        (socket >= old(stack).sockets@.len() || old(stack).sockets@[socket as int].backlog@.len()
            == 0) ==> r is None && *final(stack) == *old(stack),
        final(stack).conns@ == old(stack).conns@,
        final(stack).sockets@.len() == old(stack).sockets@.len(),
        final(stack).ingress@ == old(stack).ingress@,
        final(stack).pool == old(stack).pool,
        final(stack).now_ms == old(stack).now_ms,
        forall|k: int|
            0 <= k < old(stack).sockets@.len() && k != socket ==> (#[trigger] final(stack).sockets@[k]) == old(stack).sockets@[k],
        // what is handed out is a live incoming connection
        r matches Some(c) ==> spec_live_server(final(stack).conns@, c as int),
        // the oldest pending connection, while alive, is the one handed
        // out, and only it leaves the backlog
        (socket < old(stack).sockets@.len() && old(stack).sockets@[socket as int].backlog@.len()
            > 0 && spec_live_server(
            old(stack).conns@,
            old(stack).sockets@[socket as int].backlog@[0] as int,
        )) ==> {
            &&& r == Some(old(stack).sockets@[socket as int].backlog@[0])
            &&& final(stack).sockets@[socket as int].backlog@ == old(stack).sockets@[
                socket as int].backlog@.drop_first()
        },
        socket < old(stack).sockets@.len() ==> final(stack).sockets@[
            socket as int].backlog@.len() <= old(stack).sockets@[socket as int].backlog@.len(),
{
    let _ = timeout_ms;
    if socket >= stack.sockets.len() {
        return None;
    }
    if stack.sockets[socket].backlog.len() == 0 {
        return None;
    }
    let mut s = stack.sockets.remove(socket);
    let ghost orig = s.backlog@;
    let mut picked: Option<usize> = None;
    loop
        invariant_except_break
            picked is None,
            forall|e: int|
                0 <= e < orig.len() - s.backlog@.len() ==> !spec_live_server(
                    old(stack).conns@,
                    (#[trigger] orig[e]) as int,
                ),
        invariant
            stack.conns@ == old(stack).conns@,
            stack.sockets@ == old(stack).sockets@.remove(socket as int),
            stack.ingress@ == old(stack).ingress@,
            stack.pool == old(stack).pool,
            stack.now_ms == old(stack).now_ms,
            socket < old(stack).sockets@.len(),
            orig == old(stack).sockets@[socket as int].backlog@,
            s == (crate::conn::CspSocket {
                backlog: s.backlog,
                ..old(stack).sockets@[socket as int]
            }),
            s.backlog@.len() <= orig.len(),
            s.backlog@ == orig.subrange(orig.len() - s.backlog@.len(), orig.len() as int),
        ensures
            match picked {
                Some(c) => {
                    &&& spec_live_server(old(stack).conns@, c as int)
                    &&& exists|d: int|
                        0 <= d < orig.len() && c == (#[trigger] orig[d]) && s.backlog@
                            == orig.subrange(d + 1, orig.len() as int) && (forall|e: int|
                            0 <= e < d ==> !spec_live_server(
                                old(stack).conns@,
                                (#[trigger] orig[e]) as int,
                            ))
                },
                None => s.backlog@.len() == 0 && (forall|e: int|
                    0 <= e < orig.len() ==> !spec_live_server(
                        old(stack).conns@,
                        (#[trigger] orig[e]) as int,
                    )),
            },
        decreases s.backlog@.len(),
    {
        if s.backlog.len() == 0 {
            break;
        }
        let ghost d = orig.len() - s.backlog@.len();
        let c = s.backlog.remove(0);
        proof {
            assert(c == orig[d]);
            assert(s.backlog@ =~= orig.subrange(orig.len() - s.backlog@.len(), orig.len() as int));
        }
        if c < stack.conns.len() && matches!(stack.conns[c].state, ConnState::Open) && matches!(
            stack.conns[c].ctype,
            crate::codes::ConnType::Server,
        ) {
            picked = Some(c);
            break;
        }
        // a connection that died while pending is dropped from the
        // backlog and the next one is considered
    }
    stack.sockets.insert(socket, s);
    proof {
        assert(stack.sockets@ =~= old(stack).sockets@.update(
            socket as int,
            stack.sockets@[socket as int],
        ));
        if picked is Some && spec_live_server(old(stack).conns@, orig[0] as int) {
            assert(stack.sockets@[socket as int].backlog@ =~= old(stack).sockets@[
                socket as int].backlog@.drop_first());
        }
    }
    picked
}

/// A packet restamped with the given outgoing identifier.
pub open spec fn spec_stamped(packet: CspPacket, id: crate::codec::CspId) -> CspPacket {
    CspPacket { id, rdp: packet.rdp, data: packet.data, cap: packet.cap }
}

/// The interface at `e` is the egress choice for remote traffic: the
/// first registered default route.
pub open spec fn spec_first_default(ifaces: Seq<CspInterface>, e: int) -> bool {
    &&& 0 <= e < ifaces.len()
    &&& ifaces[e].is_default
    &&& forall|j: int| 0 <= j < e ==> !(#[trigger] ifaces[j].is_default)
}

impl CspStack {
    /// Hand a finished packet to the wire. A packet for this node joins
    /// the router's ingress FIFO (backpressure drops it when the FIFO is
    /// full); a packet for a remote node is packed and queued on the
    /// egress interface; a packet no interface can carry is dropped and
    /// counted. A dropped packet goes back to the pool; an accepted one
    /// is owned by a queue afterwards.
    pub fn transmit_packet(&mut self, packet: CspPacket) -> (r: Result<(), CspError>)
        requires
            old(self).wf(),
        ensures
            final(self).wf(),
            final(self).conns@ == old(self).conns@,
            final(self).sockets@ == old(self).sockets@,
            final(self).now_ms == old(self).now_ms,
            final(self).config == old(self).config,
            final(self).version == old(self).version,
            final(self).ephemeral_port == old(self).ephemeral_port,
            final(self).reboot_requests == old(self).reboot_requests,
            final(self).ingress.spec_cap() == old(self).ingress.spec_cap(),
            !packet.id.valid(old(self).version) ==> r == Err::<(), CspError>(CspError::Inval)
                && final(self).ingress@ == old(self).ingress@,
            (packet.id.valid(old(self).version) && old(self).spec_is_local(packet.id.dst)
                && old(self).ingress@.len() < old(self).ingress.spec_cap()) ==> (r is Ok
                && final(self).ingress@ == old(self).ingress@.push(packet) && final(self).pool
                == old(self).pool),
            (packet.id.valid(old(self).version) && old(self).spec_is_local(packet.id.dst)
                && old(self).ingress@.len() >= old(self).ingress.spec_cap()) ==> (r == Err::<
                (),
                CspError,
            >(CspError::NoBufs) && final(self).ingress@ == old(self).ingress@),
            !old(self).spec_is_local(packet.id.dst) ==> final(self).ingress@ == old(self).ingress@,
            // remote with no default route: dropped, freed and counted,
            // never reported to unrelated callers
            (packet.id.valid(old(self).version) && !old(self).spec_is_local(packet.id.dst) && (
            forall|i: int|
                0 <= i < old(self).interfaces@.len() ==> !(#[trigger] old(self).interfaces@[i].is_default))) ==> (r == Err::<(), CspError>(CspError::Tx)
                && final(self).interfaces@ == old(self).interfaces@ && final(self).pool.in_use
                == (if old(self).pool.in_use > 0 {
                old(self).pool.in_use - 1
            } else {
                0
            }) && final(self).dbg_conn_noroute == (if old(self).dbg_conn_noroute < u32::MAX {
                old(self).dbg_conn_noroute + 1
            } else {
                u32::MAX as int
            })),
            // remote with a default route: the packed header of the
            // build-time width, followed by the payload, joins the first
            // default interface's transmit queue; the frame owns the
            // bytes and the buffer returns to the pool
            forall|e: int|
                (packet.id.valid(old(self).version) && !old(self).spec_is_local(packet.id.dst)
                    && spec_first_default(old(self).interfaces@, e)) ==> {
                    &&& r is Ok
                    &&& final(self).interfaces@.len() == old(self).interfaces@.len()
                    &&& final(self).interfaces@[e].txq@ == old(self).interfaces@[
                        e].txq@.push(crate::iface::OutFrame {
                        via: packet.id.dst,
                        bytes: final(self).interfaces@[e].txq@[old(self).interfaces@[
                            e].txq@.len() as int].bytes,
                    })
                    &&& final(self).interfaces@[e].txq@[old(self).interfaces@[
                        e].txq@.len() as int].bytes@ == crate::codec::spec_pack(
                        packet.id,
                        old(self).version,
                    ) + packet.data@
                    &&& final(self).interfaces@[e].txq@[old(self).interfaces@[
                        e].txq@.len() as int].via == packet.id.dst
                    &&& final(self).interfaces@[e].tx == (if old(self).interfaces@[e].tx
                        < u32::MAX {
                        old(self).interfaces@[e].tx + 1
                    } else {
                        u32::MAX as int
                    })
                    &&& (forall|j: int|
                        0 <= j < old(self).interfaces@.len() && j != e ==> (#[trigger] final(self).interfaces@[j]) == old(self).interfaces@[j])
                    &&& final(self).pool.in_use == (if old(self).pool.in_use > 0 {
                        old(self).pool.in_use - 1
                    } else {
                        0
                    })
                },
    {
        if !packet.id.is_valid(self.version) {
            if self.dbg_inval < u32::MAX {
                self.dbg_inval = self.dbg_inval + 1;
            }
            self.pool.free(packet);
            return Err(CspError::Inval);
        }
        if self.is_local(packet.id.dst) {
            match self.ingress.enqueue(packet) {
                None => Ok(()),
                Some(rejected) => {
                    if self.dbg_conn_ovf < u32::MAX {
                        self.dbg_conn_ovf = self.dbg_conn_ovf + 1;
                    }
                    self.pool.free(rejected);
                    Err(CspError::NoBufs)
                },
            }
        } else {
            // select the egress interface: the first default route
            let mut egress: Option<usize> = None;
            let mut i: usize = 0;
            while i < self.interfaces.len()
                invariant
                    i <= self.interfaces@.len(),
                    match egress {
                        Some(e) => spec_first_default(self.interfaces@, e as int),
                        None => forall|j: int|
                            0 <= j < i ==> !(#[trigger] self.interfaces@[j].is_default),
                    },
                decreases self.interfaces@.len() - i,
            {
                if self.interfaces[i].is_default && egress.is_none() {
                    egress = Some(i);
                }
                i = i + 1;
            }
            match egress {
                Some(e) => {
                    proof {
                        // the first default route is unique, so the
                        // quantified egress clause speaks of this one
                        assert forall|e2: int|
                            spec_first_default(old(self).interfaces@, e2) implies e2
                            == e as int by {
                            if e2 < e as int {
                                assert(!old(self).interfaces@[e2].is_default);
                            } else if e2 > e as int {
                                assert(!old(self).interfaces@[e as int].is_default);
                            }
                        }
                    }
                    let header = crate::codec::pack_header(&packet.id, self.version);
                    let mut bytes = header;
                    let mut payload = crate::packet::copy_bytes(&packet.data);
                    bytes.append(&mut payload);
                    let frame = crate::iface::OutFrame { via: packet.id.dst, bytes };
                    let mut iface = self.interfaces.remove(e);
                    iface.txq.push(frame);
                    if iface.tx < u32::MAX {
                        iface.tx = iface.tx + 1;
                    }
                    self.interfaces.insert(e, iface);
                    proof {
                        assert(self.interfaces@ =~= old(self).interfaces@.update(
                            e as int,
                            self.interfaces@[e as int],
                        ));
                        assert(self.interfaces@[e as int].txq@ =~= old(self).interfaces@[
                            e as int].txq@.push(self.interfaces@[e as int].txq@[old(self).interfaces@[e as int].txq@.len() as int]));
                    }
                    // the frame now owns the bytes; the buffer is done
                    self.pool.free(packet);
                    Ok(())
                },
                None => {
                    if self.dbg_conn_noroute < u32::MAX {
                        self.dbg_conn_noroute = self.dbg_conn_noroute + 1;
                    }
                    self.pool.free(packet);
                    Err(CspError::Tx)
                },
            }
        }
    }
}

impl CspStack {
    /// Return a batch of buffers to the pool: the in-use count falls by
    /// the batch's length (never below zero) and nothing else changes.
    pub fn free_packets(&mut self, packets: Vec<CspPacket>)
        requires
            old(self).wf(),
        ensures
            final(self).wf(),
            final(self).conns@ == old(self).conns@,
            final(self).sockets@ == old(self).sockets@,
            final(self).ingress@ == old(self).ingress@,
            final(self).ingress.spec_cap() == old(self).ingress.spec_cap(),
            final(self).interfaces@ == old(self).interfaces@,
            final(self).config == old(self).config,
            final(self).version == old(self).version,
            final(self).now_ms == old(self).now_ms,
            final(self).ephemeral_port == old(self).ephemeral_port,
            final(self).reboot_requests == old(self).reboot_requests,
            packets@.len() == 0 ==> *final(self) == *old(self),
            final(self).pool.capacity == old(self).pool.capacity,
            final(self).pool.data_size == old(self).pool.data_size,
            final(self).pool.exhaustion_count == old(self).pool.exhaustion_count,
            final(self).pool.in_use == (if old(self).pool.in_use >= packets@.len() {
                old(self).pool.in_use - packets@.len()
            } else {
                0
            }),
    {
        let mut rest = packets;
        if rest.len() == 0 {
            return ;
        }
        let ghost total = rest@.len();
        loop
            invariant
                self.wf(),
                self.conns@ == old(self).conns@,
                self.sockets@ == old(self).sockets@,
                self.ingress@ == old(self).ingress@,
                self.ingress.spec_cap() == old(self).ingress.spec_cap(),
                self.interfaces@ == old(self).interfaces@,
                self.config == old(self).config,
                self.version == old(self).version,
                self.now_ms == old(self).now_ms,
                self.ephemeral_port == old(self).ephemeral_port,
                self.reboot_requests == old(self).reboot_requests,
                self.dbg_conn_noroute == old(self).dbg_conn_noroute,
                self.dbg_conn_ovf == old(self).dbg_conn_ovf,
                self.dbg_inval == old(self).dbg_inval,
                self.mem_free_reported == old(self).mem_free_reported,
                self.pool.capacity == old(self).pool.capacity,
                self.pool.data_size == old(self).pool.data_size,
                self.pool.exhaustion_count == old(self).pool.exhaustion_count,
                rest@.len() <= total,
                self.pool.in_use == (if old(self).pool.in_use + rest@.len() >= total {
                    old(self).pool.in_use + rest@.len() - total
                } else {
                    0
                }),
            ensures
                rest@.len() == 0,
            decreases rest@.len(),
        {
            match rest.pop() {
                Some(p) => {
                    self.pool.free(p);
                },
                None => {
                    break;
                },
            }
        }
    }

    /// Hand a batch of finished packets to the wire, oldest first.
    /// Connections and sockets are untouched; a batch of loopback
    /// packets that fits the router's FIFO is appended to it whole, in
    /// order.
    pub fn send_all(&mut self, packets: Vec<CspPacket>)
        requires
            old(self).wf(),
        ensures
            final(self).wf(),
            final(self).conns@ == old(self).conns@,
            final(self).sockets@ == old(self).sockets@,
            final(self).config == old(self).config,
            final(self).version == old(self).version,
            final(self).now_ms == old(self).now_ms,
            final(self).ephemeral_port == old(self).ephemeral_port,
            final(self).reboot_requests == old(self).reboot_requests,
            packets@.len() == 0 ==> *final(self) == *old(self),
            ((forall|i: int|
                0 <= i < packets@.len() ==> (#[trigger] packets@[i]).id.valid(
                    old(self).version,
                ) && packets@[i].id.dst == 0) && old(self).ingress@.len() + packets@.len()
                <= old(self).ingress.spec_cap()) ==> final(self).ingress@ == old(self).ingress@
                + packets@,
    {
        let mut rest = packets;
        if rest.len() == 0 {
            return ;
        }
        let ghost all = rest@;
        let ghost fits = (forall|i: int|
            0 <= i < all.len() ==> (#[trigger] all[i]).id.valid(old(self).version) && all[
                i].id.dst == 0) && old(self).ingress@.len() + all.len() <= old(self).ingress.spec_cap();
        proof {
            if fits {
                assert(self.ingress@ =~= old(self).ingress@ + all.subrange(0, 0));
            }
        }
        loop
            invariant
                self.wf(),
                self.conns@ == old(self).conns@,
                self.sockets@ == old(self).sockets@,
                self.config == old(self).config,
                self.version == old(self).version,
                self.now_ms == old(self).now_ms,
                self.ephemeral_port == old(self).ephemeral_port,
                self.reboot_requests == old(self).reboot_requests,
                self.ingress.spec_cap() == old(self).ingress.spec_cap(),
                rest@.len() <= all.len(),
                rest@ == all.subrange(all.len() - rest@.len(), all.len() as int),
                fits == ((forall|i: int|
                    0 <= i < all.len() ==> (#[trigger] all[i]).id.valid(old(self).version)
                        && all[i].id.dst == 0) && old(self).ingress@.len() + all.len() <= old(self).ingress.spec_cap()),
                fits ==> self.ingress@ == old(self).ingress@ + all.subrange(
                    0,
                    all.len() - rest@.len(),
                ),
            ensures
                rest@.len() == 0,
            decreases rest@.len(),
        {
            if rest.len() == 0 {
                break;
            }
            let ghost done = all.len() - rest@.len();
            let p = rest.remove(0);
            proof {
                assert(p == all[done]);
                assert(rest@ =~= all.subrange(all.len() - rest@.len(), all.len() as int));
            }
            let ghost pre = *self;
            let _ = self.transmit_packet(p);
            proof {
                if fits {
                    assert(p.id.dst == 0);
                    assert(p.id.valid(pre.version));
                    assert(pre.spec_is_local(p.id.dst));
                    assert(pre.ingress@.len() < pre.ingress.spec_cap());
                    assert(self.ingress@ == pre.ingress@.push(p));
                    assert(self.ingress@ =~= old(self).ingress@ + all.subrange(0, done + 1));
                }
            }
        }
        proof {
            if fits {
                assert(all.subrange(0, all.len() as int) =~= all);
            }
        }
    }
}

/// Read the next packet delivered to a connection. An empty queue within
/// the timeout, a closed connection, or an invalid handle all yield no
/// packet: a caller who must tell a timeout from a closure consults the
/// connection state afterwards.
pub fn csp_read(stack: &mut CspStack, conn: usize, timeout_ms: u32) -> (r: Option<CspPacket>)
    requires
        old(stack).wf(),
    ensures
        final(stack).wf(),
        (conn >= old(stack).conns@.len() || old(stack).conns@[conn as int].state
            == ConnState::Closed || old(stack).conns@[conn as int].rx_queue@.len() == 0) ==> (r
            is None && *final(stack) == *old(stack)),
        (conn < old(stack).conns@.len() && old(stack).conns@[conn as int].state == ConnState::Open
            && old(stack).conns@[conn as int].rx_queue@.len() > 0) ==> {
            &&& r == Some(old(stack).conns@[conn as int].rx_queue@[0])
            &&& final(stack).conns@[conn as int].rx_queue@ == old(stack).conns@[
                conn as int].rx_queue@.drop_first()
            &&& final(stack).conns@[conn as int].state == ConnState::Open
            &&& forall|k: int|
                0 <= k < old(stack).conns@.len() && k != conn ==> final(stack).conns@[k] == old(stack).conns@[k]
            &&& final(stack).sockets@ == old(stack).sockets@
            &&& final(stack).ingress@ == old(stack).ingress@
            &&& final(stack).pool == old(stack).pool
            &&& final(stack).now_ms == old(stack).now_ms
            // only the queue shrinks: the connection stays who it was
            &&& final(stack).conns@[conn as int].id_in == old(stack).conns@[conn as int].id_in
            &&& final(stack).conns@[conn as int].id_out == old(stack).conns@[
                conn as int].id_out
            &&& final(stack).conns@[conn as int].ctype == old(stack).conns@[conn as int].ctype
            &&& final(stack).conns@[conn as int].opts == old(stack).conns@[conn as int].opts
            &&& final(stack).conns@[conn as int].rdp == old(stack).conns@[conn as int].rdp
            &&& final(stack).conns@[conn as int].last_error == old(stack).conns@[
                conn as int].last_error
        },
        final(stack).conns@.len() == old(stack).conns@.len(),
{
    let _ = timeout_ms;
    if conn >= stack.conns.len() {
        return None;
    }
    if matches!(stack.conns[conn].state, ConnState::Closed) {
        return None;
    }
    if stack.conns[conn].rx_queue.is_empty() {
        return None;
    }
    let mut c = stack.conns.remove(conn);
    let r = c.rx_queue.dequeue();
    stack.conns.insert(conn, c);
    proof {
        assert(stack.conns@ =~= old(stack).conns@.update(conn as int, stack.conns@[conn as int]));
    }
    r
}

/// Send a packet on a connection. The packet is always consumed, even on
/// failure. A reliable connection stamps sequence metadata, keeps a
/// retransmission copy and refuses to overfill its window; a closed or
/// timed-out connection reports why instead of sending.
pub fn csp_send(stack: &mut CspStack, conn: usize, packet: CspPacket) -> (r: Result<
    (),
    CspError,
>)
    requires
        old(stack).wf(),
    ensures
        final(stack).wf(),
        conn >= old(stack).conns@.len() ==> r == Err::<(), CspError>(CspError::Inval),
        (conn < old(stack).conns@.len() && old(stack).conns@[conn as int].state
            == ConnState::Closed) ==> r == Err::<(), CspError>(
            if old(stack).conns@[conn as int].last_error == Some(CspError::TimedOut) {
                CspError::TimedOut
            } else {
                CspError::Reset
            },
        ),
        (conn < old(stack).conns@.len() && old(stack).conns@[conn as int].state == ConnState::Open
            && (old(stack).conns@[conn as int].rdp matches Some(m) && m.state
            != crate::codes::RdpState::Open)) ==> r is Err,
        (conn < old(stack).conns@.len() && old(stack).conns@[conn as int].state == ConnState::Open
            && (old(stack).conns@[conn as int].rdp matches Some(m) && m.state
            == crate::codes::RdpState::Open && m.tx_pending@.len() >= m.window_size)) ==> r
            == Err::<(), CspError>(CspError::Again),
        // sending touches no other connection, and never rewrites who
        // this one is
        final(stack).conns@.len() == old(stack).conns@.len(),
        final(stack).version == old(stack).version,
        final(stack).config == old(stack).config,
        forall|k: int|
            0 <= k < old(stack).conns@.len() && k != conn ==> (#[trigger] final(stack).conns@[
                k]) == old(stack).conns@[k],
        conn < old(stack).conns@.len() ==> {
            &&& final(stack).conns@[conn as int].state == old(stack).conns@[conn as int].state
            &&& final(stack).conns@[conn as int].ctype == old(stack).conns@[conn as int].ctype
            &&& final(stack).conns@[conn as int].opts == old(stack).conns@[conn as int].opts
            &&& final(stack).conns@[conn as int].id_in == old(stack).conns@[conn as int].id_in
            &&& final(stack).conns@[conn as int].id_out == old(stack).conns@[
                conn as int].id_out
            &&& final(stack).conns@[conn as int].rx_queue@ == old(stack).conns@[
                conn as int].rx_queue@
            &&& final(stack).conns@[conn as int].last_error == old(stack).conns@[
                conn as int].last_error
            &&& (old(stack).conns@[conn as int].rdp is None ==> final(stack).conns@[
                conn as int].rdp is None)
        },
        // a plain open connection with a local destination and room in
        // the router's FIFO gets its packet, stamped with the
        // connection's outgoing identifier, onto the FIFO tail
        (conn < old(stack).conns@.len() && old(stack).conns@[conn as int].state == ConnState::Open
            && old(stack).conns@[conn as int].rdp is None && old(stack).conns@[
            conn as int].id_out.valid(old(stack).version) && old(stack).spec_is_local(
            old(stack).conns@[conn as int].id_out.dst,
        ) && old(stack).ingress@.len() < old(stack).ingress.spec_cap()) ==> (r is Ok && final(stack).ingress@ == old(stack).ingress@.push(
            spec_stamped(packet, old(stack).conns@[conn as int].id_out),
        ) && final(stack).conns@ == old(stack).conns@ && final(stack).sockets@ == old(stack).sockets@ && final(stack).pool == old(stack).pool && final(stack).now_ms == old(stack).now_ms),
        // a plain open connection with a remote destination has its
        // packet packed — a header of the build-time width followed by
        // the payload — onto the first default interface's transmit
        // queue, stamped with the connection's outgoing identifier
        forall|e: int|
            (conn < old(stack).conns@.len() && old(stack).conns@[conn as int].state
                == ConnState::Open && old(stack).conns@[conn as int].rdp is None && old(stack).conns@[conn as int].id_out.valid(old(stack).version) && !old(stack).spec_is_local(old(stack).conns@[conn as int].id_out.dst) && spec_first_default(
                old(stack).interfaces@,
                e,
            )) ==> {
                &&& r is Ok
                &&& final(stack).interfaces@.len() == old(stack).interfaces@.len()
                &&& final(stack).interfaces@[e].txq@.len() == old(stack).interfaces@[
                    e].txq@.len() + 1
                &&& final(stack).interfaces@[e].txq@[old(stack).interfaces@[
                    e].txq@.len() as int].bytes@ == crate::codec::spec_pack(
                    old(stack).conns@[conn as int].id_out,
                    old(stack).version,
                ) + packet.data@
                &&& final(stack).interfaces@[e].txq@[old(stack).interfaces@[
                    e].txq@.len() as int].via == old(stack).conns@[conn as int].id_out.dst
            },
    {
    if conn >= stack.conns.len() {
        stack.pool.free(packet);
        return Err(CspError::Inval);
    }
    if matches!(stack.conns[conn].state, ConnState::Closed) {
        let is_timeout = match stack.conns[conn].last_error {
            Some(CspError::TimedOut) => true,
            _ => false,
        };
        stack.pool.free(packet);
        if is_timeout {
            return Err(CspError::TimedOut);
        }
        return Err(CspError::Reset);
    }
    let mut c = stack.conns.remove(conn);
    let mut p = packet;
    p.id = c.id_out;
    let now = stack.now_ms;
    let mut rdp_refuse: Option<CspError> = None;
    match &mut c.rdp {
        None => {},
        Some(machine) => {
            if !matches!(machine.state, crate::codes::RdpState::Open) {
                if matches!(machine.state, crate::codes::RdpState::SynSent) || matches!(
                    machine.state,
                    crate::codes::RdpState::SynRcvd,
                ) {
                    rdp_refuse = Some(CspError::Again);
                } else {
                    rdp_refuse = Some(CspError::Reset);
                }
            } else if !machine.can_send() {
                rdp_refuse = Some(CspError::Again);
            } else {
                p.rdp = crate::packet::RdpMeta {
                    kind: crate::packet::RdpKind::Data,
                    seq: machine.snd_nxt,
                    ack: machine.rcv_cur,
                };
                let copy = p.duplicate();
                machine.record_sent(copy, now);
            }
        },
    }
    stack.conns.insert(conn, c);
    proof {
        assert(stack.conns@ =~= old(stack).conns@.update(conn as int, stack.conns@[conn as int]));
    }
    match rdp_refuse {
        Some(e) => {
            stack.pool.free(p);
            Err(e)
        },
        None => stack.transmit_packet(p),
    }
}

/// Close a connection: every queued packet goes back to the pool, the
/// reliable machine is torn down, and the slot becomes free. A reader
/// blocked on the connection finds it closed rather than waiting on.
#[verifier::loop_isolation(false)]
pub fn csp_close(stack: &mut CspStack, conn: usize) -> (r: Result<(), CspError>)
    requires
        old(stack).wf(),
    ensures
        final(stack).wf(),
        conn >= old(stack).conns@.len() ==> r == Err::<(), CspError>(CspError::Inval) && *final(stack) == *old(stack),
        final(stack).conns@.len() == old(stack).conns@.len(),
        conn < old(stack).conns@.len() ==> {
            &&& r is Ok
            &&& final(stack).conns@[conn as int].state == ConnState::Closed
            &&& final(stack).conns@[conn as int].rx_queue@.len() == 0
            &&& final(stack).conns@[conn as int].rdp is None
            &&& forall|k: int|
                0 <= k < old(stack).conns@.len() && k != conn ==> final(stack).conns@[k] == old(stack).conns@[k]
            &&& final(stack).sockets@ == old(stack).sockets@
            &&& final(stack).now_ms == old(stack).now_ms
            &&& (old(stack).conns@[conn as int].rdp is None ==> final(stack).ingress@ == old(stack).ingress@)
            // every queued packet goes back to the pool
            &&& (old(stack).conns@[conn as int].rdp is None ==> final(stack).pool.in_use == (
            if old(stack).pool.in_use >= old(stack).conns@[conn as int].rx_queue@.len() {
                old(stack).pool.in_use - old(stack).conns@[conn as int].rx_queue@.len()
            } else {
                0
            }))
            &&& final(stack).pool.capacity == old(stack).pool.capacity
            &&& final(stack).pool.data_size == old(stack).pool.data_size
        },
{
    if conn >= stack.conns.len() {
        return Err(CspError::Inval);
    }
    let mut c = stack.conns.remove(conn);
    // tell the peer of a reliable connection that this side is done
    let mut rst: Option<CspPacket> = None;
    match &mut c.rdp {
        Some(machine) => {
            if !matches!(machine.state, crate::codes::RdpState::Closed) {
                let _ = machine.close_request(false);
                rst = Some(
                    crate::router::control_packet(
                        c.id_out,
                        crate::packet::RdpKind::Rst,
                        0,
                        0,
                        stack.config.buffer_size,
                    ),
                );
            }
        },
        None => {},
    }
    loop
        invariant
            c.rx_queue.wf(),
            c.rx_queue.spec_cap() == old(stack).conns@[conn as int].rx_queue.spec_cap(),
            stack.pool.wf(),
            stack.pool.capacity == old(stack).pool.capacity,
            stack.pool.data_size == old(stack).pool.data_size,
            stack.conns@ == old(stack).conns@.remove(conn as int),
            stack.sockets@ == old(stack).sockets@,
            stack.ingress@ == old(stack).ingress@,
            stack.ingress.spec_cap() == old(stack).ingress.spec_cap(),
            stack.config == old(stack).config,
            stack.ephemeral_port == old(stack).ephemeral_port,
            stack.now_ms == old(stack).now_ms,
            c.rx_queue@.len() <= old(stack).conns@[conn as int].rx_queue@.len(),
            stack.pool.in_use == (if old(stack).pool.in_use + c.rx_queue@.len() >= old(stack).conns@[conn as int].rx_queue@.len() {
                old(stack).pool.in_use + c.rx_queue@.len() - old(stack).conns@[
                    conn as int].rx_queue@.len()
            } else {
                0
            }),
        decreases c.rx_queue@.len(),
    {
        match c.rx_queue.dequeue() {
            Some(p) => {
                stack.pool.free(p);
            },
            None => {
                break;
            },
        }
    }
    c.state = ConnState::Closed;
    c.rdp = None;
    stack.conns.insert(conn, c);
    proof {
        assert(stack.conns@ =~= old(stack).conns@.update(conn as int, stack.conns@[conn as int]));
    }
    match rst {
        Some(p) => {
            let _ = stack.transmit_packet(p);
        },
        None => {},
    }
    Ok(())
}

/// Take a zeroed buffer from the pool, or nothing when the pool is
/// exhausted. Exhaustion is ordinary backpressure, not a fault.
pub fn csp_buffer_get(stack: &mut CspStack) -> (r: Option<CspPacket>)
    requires
        old(stack).wf(),
    ensures
        final(stack).wf(),
        r is None <==> old(stack).pool.in_use == old(stack).pool.capacity,
        r is Some ==> final(stack).pool.in_use == old(stack).pool.in_use + 1,
        r matches Some(p) ==> p.wf() && p.cap == old(stack).config.buffer_size && p.data@.len()
            == 0 && p.id == (crate::codec::CspId {
            pri: 0,
            flags: 0,
            src: 0,
            dst: 0,
            dport: 0,
            sport: 0,
        }) && p.rdp == (crate::packet::RdpMeta {
            kind: crate::packet::RdpKind::Plain,
            seq: 0,
            ack: 0,
        }),
        // a refused allocation changes nothing but the exhaustion
        // counter: the pool stays exhausted until a free makes room
        r is None ==> final(stack).pool.in_use == old(stack).pool.in_use && final(stack).pool.exhaustion_count == (if old(stack).pool.exhaustion_count < u32::MAX {
            old(stack).pool.exhaustion_count + 1
        } else {
            u32::MAX as int
        }),
        final(stack).pool.capacity == old(stack).pool.capacity,
        final(stack).pool.data_size == old(stack).pool.data_size,
        final(stack).config == old(stack).config,
        final(stack).conns@ == old(stack).conns@,
        final(stack).sockets@ == old(stack).sockets@,
        final(stack).ingress@ == old(stack).ingress@,
        final(stack).now_ms == old(stack).now_ms,
        final(stack).ingress.spec_cap() == old(stack).ingress.spec_cap(),
        final(stack).interfaces@ == old(stack).interfaces@,
        final(stack).version == old(stack).version,
{
    stack.pool.allocate()
}

/// Return a buffer to the pool. Ownership makes a second return of the
/// same buffer impossible.
pub fn csp_buffer_free(stack: &mut CspStack, packet: CspPacket)
    requires
        old(stack).wf(),
    ensures
        final(stack).wf(),
        final(stack).pool.in_use == if old(stack).pool.in_use > 0 {
            old(stack).pool.in_use - 1
        } else {
            0
        },
        final(stack).conns@ == old(stack).conns@,
        final(stack).sockets@ == old(stack).sockets@,
        final(stack).ingress@ == old(stack).ingress@,
        final(stack).ingress.spec_cap() == old(stack).ingress.spec_cap(),
        final(stack).now_ms == old(stack).now_ms,
        // the pool's shape survives, so a following allocation succeeds
        final(stack).pool.capacity == old(stack).pool.capacity,
        final(stack).pool.data_size == old(stack).pool.data_size,
        final(stack).pool.exhaustion_count == old(stack).pool.exhaustion_count,
        final(stack).config == old(stack).config,
        final(stack).version == old(stack).version,
        final(stack).interfaces@ == old(stack).interfaces@,
{
    stack.pool.free(packet);
}

/// Destination port of an open connection, or -1 for an invalid handle.
pub fn csp_conn_dport(stack: &CspStack, conn: usize) -> (r: i32)
    ensures
        (conn < stack.conns@.len() && stack.conns@[conn as int].state == ConnState::Open) ==> r
            == stack.conns@[conn as int].id_in.dport,
        !(conn < stack.conns@.len() && stack.conns@[conn as int].state == ConnState::Open) ==> r
            == -1,
{
    if conn < stack.conns.len() && matches!(stack.conns[conn].state, ConnState::Open) {
        stack.conns[conn].id_in.dport as i32
    } else {
        -1
    }
}

/// Source port of an open connection, or -1 for an invalid handle.
pub fn csp_conn_sport(stack: &CspStack, conn: usize) -> (r: i32)
    ensures
        (conn < stack.conns@.len() && stack.conns@[conn as int].state == ConnState::Open) ==> r
            == stack.conns@[conn as int].id_in.sport,
        !(conn < stack.conns@.len() && stack.conns@[conn as int].state == ConnState::Open) ==> r
            == -1,
{
    if conn < stack.conns.len() && matches!(stack.conns[conn].state, ConnState::Open) {
        stack.conns[conn].id_in.sport as i32
    } else {
        -1
    }
}

/// Destination address of an open connection, or -1 for an invalid handle.
pub fn csp_conn_dst(stack: &CspStack, conn: usize) -> (r: i32)
    ensures
        (conn < stack.conns@.len() && stack.conns@[conn as int].state == ConnState::Open) ==> r
            == stack.conns@[conn as int].id_in.dst,
        !(conn < stack.conns@.len() && stack.conns@[conn as int].state == ConnState::Open) ==> r
            == -1,
{
    if conn < stack.conns.len() && matches!(stack.conns[conn].state, ConnState::Open) {
        stack.conns[conn].id_in.dst as i32
    } else {
        -1
    }
}

/// Source address of an open connection, or -1 for an invalid handle.
pub fn csp_conn_src(stack: &CspStack, conn: usize) -> (r: i32)
    ensures
        (conn < stack.conns@.len() && stack.conns@[conn as int].state == ConnState::Open) ==> r
            == stack.conns@[conn as int].id_in.src,
        !(conn < stack.conns@.len() && stack.conns@[conn as int].state == ConnState::Open) ==> r
            == -1,
{
    if conn < stack.conns.len() && matches!(stack.conns[conn].state, ConnState::Open) {
        stack.conns[conn].id_in.src as i32
    } else {
        -1
    }
}

/// Header flags of an open connection, or -1 for an invalid handle.
pub fn csp_conn_flags(stack: &CspStack, conn: usize) -> (r: i32)
    ensures
        (conn < stack.conns@.len() && stack.conns@[conn as int].state == ConnState::Open) ==> r
            == stack.conns@[conn as int].id_in.flags,
        !(conn < stack.conns@.len() && stack.conns@[conn as int].state == ConnState::Open) ==> r
            == -1,
{
    if conn < stack.conns.len() && matches!(stack.conns[conn].state, ConnState::Open) {
        stack.conns[conn].id_in.flags as i32
    } else {
        -1
    }
}

} // verus!
