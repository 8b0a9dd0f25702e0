//! Client operations built on the router: outgoing connections, the
//! ping and reboot utilities, whole request-reply transactions, and
//! connectionless receiving.

use vstd::prelude::*;

use crate::codes::{
    has_flag, spec_opts_contradictory, ConnState, ConnType, CspError, MsgPriority, RdpState,
    CSP_O_RDP,
};
use crate::packet::{copy_byte_slice, CspPacket};
use crate::rdp::RdpConn;
use crate::router::{
    csp_route_work, RDP_ACK_TIMEOUT_MS, RDP_CONN_TIMEOUT_MS, RDP_DELAYED_ACKS,
    RDP_PACKET_TIMEOUT_MS,
};
use crate::stack::{csp_read, csp_send, CspStack};

verus! {

/// Failure of a ping exchange: no reply arrived in time, or the reply
/// did not match the request.
#[derive(Debug, PartialEq, Eq, Copy, Clone, Structural)]
pub struct PingError;

/// Establish an outgoing connection. Contradictory reliability options,
/// a port or address the header cannot carry, or a full connection
/// table yield no connection. A plain connection opens at once,
/// optimistically; a reliable one performs its handshake over the local
/// router and is only returned once open.
pub fn csp_connect(
    stack: &mut CspStack,
    prio: MsgPriority,
    dst: u16,
    dst_port: u8,
    timeout_ms: u32,
    opts: u32,
) -> (r: Option<usize>)
    requires
        old(stack).wf(),
    ensures
        final(stack).wf(),
        spec_opts_contradictory(opts) ==> r is None,
        dst_port >= 64 ==> r is None,
        (forall|i: int|
            0 <= i < old(stack).conns@.len() ==> (#[trigger] old(stack).conns@[i]).state
                == ConnState::Open) ==> r is None,
        r matches Some(ci) ==> {
            &&& ci < final(stack).conns@.len()
            &&& final(stack).conns@[ci as int].state == ConnState::Open
            &&& final(stack).conns@[ci as int].ctype == ConnType::Client
            &&& final(stack).conns@[ci as int].id_out.dst == dst
            &&& final(stack).conns@[ci as int].id_out.dport == dst_port
        },
        final(stack).conns@.len() == old(stack).conns@.len(),
        // a failed plain open changes nothing at all
        (r is None && !crate::codes::spec_has_flag(opts, CSP_O_RDP)) ==> *final(stack) == *old(stack),
        // the returned connection carries the requested options and
        // priority, and a reliable one is only handed out with its
        // machine open
        r matches Some(ci) ==> final(stack).conns@[ci as int].opts == opts && final(stack).conns@[ci as int].id_out.pri == crate::codes::spec_priority_bits(prio),
        r matches Some(ci) ==> ((crate::codes::spec_has_flag(opts, CSP_O_RDP) && old(stack).config.rdp) ==> (final(stack).conns@[ci as int].rdp matches Some(m) && m.state
            == RdpState::Open)),
        // besides the slot handed out, no client connection appears
        r matches Some(ci) ==> (forall|k: int|
            0 <= k < old(stack).conns@.len() && k != ci && (#[trigger] final(stack).conns@[
                k]).state == ConnState::Open && final(stack).conns@[k].ctype
                == ConnType::Client ==> (old(stack).conns@[k].state == ConnState::Open && old(stack).conns@[k].ctype == ConnType::Client)),
        // a failed open leaves no outgoing connection behind: a client
        // connection open afterwards was open before the call
        r is None ==> (forall|k: int|
            0 <= k < old(stack).conns@.len() && (#[trigger] final(stack).conns@[k]).state
                == ConnState::Open && final(stack).conns@[k].ctype == ConnType::Client ==> (
            old(stack).conns@[k].state == ConnState::Open && old(stack).conns@[k].ctype
                == ConnType::Client)),
        // a plain open succeeds whenever the options are consistent, the
        // addresses fit the header in use, and a table slot is free
        (!spec_opts_contradictory(opts) && !crate::codes::spec_has_flag(opts, CSP_O_RDP)
            && dst_port < 64 && ((dst < 32 && old(stack).spec_local_address() < 32) || (old(stack).version == crate::codec::HeaderVersion::Current && dst < 16384 && old(stack).spec_local_address() < 16384)) && (exists|i: int|
            0 <= i < old(stack).conns@.len() && (#[trigger] old(stack).conns@[i]).state
                == ConnState::Closed)) ==> r is Some,
        // a plain open sets its slot up in place and touches nothing
        // else but the ephemeral port counter
        r matches Some(ci) ==> (!crate::codes::spec_has_flag(opts, CSP_O_RDP) ==> {
            &&& final(stack).conns@[ci as int].rdp is None
            &&& final(stack).conns@[ci as int].rx_queue@.len() == 0
            &&& final(stack).conns@[ci as int].id_out == (crate::codec::CspId {
                pri: crate::codes::spec_priority_bits(prio) as u8,
                flags: 0,
                src: old(stack).spec_local_address(),
                dst,
                dport: dst_port,
                sport: old(stack).ephemeral_port,
            })
            &&& final(stack).conns@[ci as int].id_in == (crate::codec::CspId {
                pri: crate::codes::spec_priority_bits(prio) as u8,
                flags: 0,
                src: dst,
                dst: old(stack).spec_local_address(),
                dport: old(stack).ephemeral_port,
                sport: dst_port,
            })
            &&& forall|k: int|
                0 <= k < old(stack).conns@.len() && k != ci ==> (#[trigger] final(stack).conns@[k]) == old(stack).conns@[k]
            &&& final(stack).ingress@ == old(stack).ingress@
            &&& final(stack).sockets@ == old(stack).sockets@
            &&& final(stack).now_ms == old(stack).now_ms
            &&& final(stack).interfaces@ == old(stack).interfaces@
            // the freed slot's leftovers, if any, went back to the pool
            &&& (old(stack).conns@[ci as int].rx_queue@.len() == 0 ==> final(stack).pool
                == old(stack).pool)
        }),
{
    let _ = timeout_ms;
    if crate::codes::has_flag(opts, crate::codes::CSP_O_RDP) && has_flag(
        opts,
        crate::codes::CSP_O_NORDP,
    ) {
        return None;
    }
    if dst_port >= 64 {
        return None;
    }
    let free = stack.conn_find_free();
    let ci: usize;
    match free {
        None => {
            return None;
        },
        Some(i) => {
            ci = i;
        },
    }
    let sport = stack.ephemeral_port;
    let local = stack.local_address();
    let id_out = crate::codec::CspId {
        pri: prio.bits(),
        flags: 0,
        src: local,
        dst,
        dport: dst_port,
        sport,
    };
    let id_in = crate::codec::CspId {
        pri: prio.bits(),
        flags: 0,
        src: dst,
        dst: local,
        dport: sport,
        sport: dst_port,
    };
    if !id_out.is_valid(stack.version) || !id_in.is_valid(stack.version) {
        return None;
    }
    if stack.ephemeral_port >= 63 {
        stack.ephemeral_port = 16;
    } else {
        stack.ephemeral_port = stack.ephemeral_port + 1;
    }
    let now = stack.now_ms;
    let wants_rdp = has_flag(opts, CSP_O_RDP) && stack.config.rdp;
    let mut c = stack.conns.remove(ci);
    let stale = c.rx_queue.drain_all();
    c.state = ConnState::Open;
    c.ctype = ConnType::Client;
    c.id_in = id_in;
    c.id_out = id_out;
    c.opts = opts;
    c.timestamp = now;
    c.last_error = None;
    let mut syn: Option<CspPacket> = None;
    if wants_rdp {
        let iss: u16 = #[verifier::truncate] (now as u16);
        let machine = RdpConn::open_active(
            iss,
            stack.config.rdp_max_window,
            RDP_CONN_TIMEOUT_MS,
            RDP_PACKET_TIMEOUT_MS,
            RDP_DELAYED_ACKS,
            RDP_ACK_TIMEOUT_MS,
            now,
        );
        syn = Some(
            crate::router::control_packet(
                id_out,
                crate::packet::RdpKind::Syn,
                iss,
                0,
                stack.config.buffer_size,
            ),
        );
        c.rdp = Some(machine);
    } else {
        c.rdp = None;
    }
    stack.conns.insert(ci, c);
    proof {
        assert(stack.conns@ =~= old(stack).conns@.update(ci as int, stack.conns@[ci as int]));
    }
    stack.free_packets(stale);
    match syn {
        None => Some(ci),
        Some(p) => {
            // reliable open: the handshake must finish before the
            // connection is handed out
            let dst_is_local = stack.is_local(dst);
            let _ = stack.transmit_packet(p);
            let ghost pre_pump = *stack;
            if dst_is_local {
                let mut round: u32 = 0;
                while round < 8
                    invariant
                        stack.wf(),
                        stack.conns@.len() == old(stack).conns@.len(),
                        stack.conns@.len() == pre_pump.conns@.len(),
                        round <= 8,
                        forall|k: int|
                            0 <= k < stack.conns@.len() && (#[trigger] stack.conns@[k]).state
                                == ConnState::Open && stack.conns@[k].ctype
                                == ConnType::Client ==> (pre_pump.conns@[k].state
                                == ConnState::Open && pre_pump.conns@[k].ctype
                                == ConnType::Client),
                    decreases 8 - round,
                {
                    let _ = csp_route_work(stack);
                    round = round + 1;
                }
            }
            let open_now = ci < stack.conns.len() && matches!(
                stack.conns[ci].state,
                ConnState::Open,
            ) && match &stack.conns[ci].rdp {
                Some(m) => matches!(m.state, RdpState::Open),
                None => false,
            } && matches!(stack.conns[ci].ctype, ConnType::Client)
                && stack.conns[ci].id_out.dst == dst && stack.conns[ci].id_out.dport == dst_port
                && stack.conns[ci].opts == opts && stack.conns[ci].id_out.pri == prio.bits();
            if open_now {
                Some(ci)
            } else {
                let ghost pre_close = *stack;
                let _ = crate::stack::csp_close(stack, ci);
                proof {
                    // whatever the handshake left open besides the
                    // released slot was an open client connection before
                    // the call began
                    assert forall|k: int|
                        0 <= k < old(stack).conns@.len() && (#[trigger] stack.conns@[k]).state
                            == ConnState::Open && stack.conns@[k].ctype == ConnType::Client
                        implies (old(stack).conns@[k].state == ConnState::Open && old(stack).conns@[k].ctype == ConnType::Client) by {
                        assert(k != ci);
                        assert(stack.conns@[k] == pre_close.conns@[k]);
                        assert(pre_pump.conns@[k] == old(stack).conns@.update(
                            ci as int,
                            pre_pump.conns@[ci as int],
                        )[k]);
                    }
                }
                None
            }
        },
    }
}

/// Close a socket: unbind its port, refuse further connections, close
/// every pending connection in its backlog and free every queued
/// packet.
pub fn csp_socket_close(stack: &mut CspStack, socket: usize) -> (r: Result<(), CspError>)
    requires
        old(stack).wf(),
    ensures
        final(stack).wf(),
        socket >= old(stack).sockets@.len() ==> r == Err::<(), CspError>(CspError::Inval)
            && *final(stack) == *old(stack),
        socket < old(stack).sockets@.len() ==> {
            &&& r is Ok
            &&& !final(stack).sockets@[socket as int].bound
            &&& !final(stack).sockets@[socket as int].listening
            &&& final(stack).sockets@[socket as int].backlog@.len() == 0
            &&& final(stack).sockets@[socket as int].rx_queue@.len() == 0
            &&& final(stack).sockets@.len() == old(stack).sockets@.len()
            &&& forall|t: int|
                0 <= t < old(stack).sockets@.len() && t != socket ==> (#[trigger] final(stack).sockets@[t]) == old(stack).sockets@[t]
        },
{
    if socket >= stack.sockets.len() {
        return Err(CspError::Inval);
    }
    let mut s = stack.sockets.remove(socket);
    s.bound = false;
    s.listening = false;
    let mut pending = s.backlog;
    s.backlog = Vec::new();
    let queued = s.rx_queue.drain_all();
    stack.sockets.insert(socket, s);
    proof {
        assert(stack.sockets@ =~= old(stack).sockets@.update(
            socket as int,
            stack.sockets@[socket as int],
        ));
    }
    stack.free_packets(queued);
    loop
        invariant
            stack.wf(),
            socket < stack.sockets@.len(),
            stack.sockets@.len() == old(stack).sockets@.len(),
            forall|t: int|
                0 <= t < old(stack).sockets@.len() && t != socket ==> (#[trigger] stack.sockets@[
                    t]) == old(stack).sockets@[t],
            stack.sockets@[socket as int].bound == false,
            stack.sockets@[socket as int].listening == false,
            stack.sockets@[socket as int].backlog@.len() == 0,
            stack.sockets@[socket as int].rx_queue@.len() == 0,
        decreases pending@.len(),
    {
        match pending.pop() {
            Some(ci) => {
                if ci < stack.conns.len() {
                    let _ = crate::stack::csp_close(stack, ci);
                }
            },
            None => {
                break;
            },
        }
    }
    Ok(())
}

/// Read the next raw packet from a connectionless socket. Nothing
/// arriving within the timeout yields no packet.
pub fn csp_recvfrom(stack: &mut CspStack, socket: usize, timeout_ms: u32) -> (r: Option<
    CspPacket,
>)
    requires
        old(stack).wf(),
    ensures
        final(stack).wf(),
        (socket >= old(stack).sockets@.len() || old(stack).sockets@[
            socket as int].rx_queue@.len() == 0) ==> r is None && *final(stack) == *old(stack),
        (socket < old(stack).sockets@.len() && old(stack).sockets@[
            socket as int].rx_queue@.len() > 0) ==> {
            &&& r == Some(old(stack).sockets@[socket as int].rx_queue@[0])
            &&& final(stack).sockets@[socket as int].rx_queue@ == old(stack).sockets@[
                socket as int].rx_queue@.drop_first()
            &&& final(stack).conns@ == old(stack).conns@
            // only the queue shrinks: binding, options and backlog stay
            &&& final(stack).sockets@[socket as int].bound == old(stack).sockets@[
                socket as int].bound
            &&& final(stack).sockets@[socket as int].port == old(stack).sockets@[
                socket as int].port
            &&& final(stack).sockets@[socket as int].opts == old(stack).sockets@[
                socket as int].opts
            &&& final(stack).sockets@[socket as int].listening == old(stack).sockets@[
                socket as int].listening
            &&& final(stack).sockets@[socket as int].backlog@ == old(stack).sockets@[
                socket as int].backlog@
            &&& final(stack).sockets@[socket as int].backlog_max == old(stack).sockets@[
                socket as int].backlog_max
            &&& forall|t: int|
                0 <= t < old(stack).sockets@.len() && t != socket ==> (#[trigger] final(stack).sockets@[t]) == old(stack).sockets@[t]
            &&& final(stack).sockets@.len() == old(stack).sockets@.len()
            &&& final(stack).ingress@ == old(stack).ingress@
            &&& final(stack).pool == old(stack).pool
            &&& final(stack).now_ms == old(stack).now_ms
        },
{
    let _ = timeout_ms;
    if socket >= stack.sockets.len() {
        return None;
    }
    if stack.sockets[socket].rx_queue.is_empty() {
        return None;
    }
    let mut s = stack.sockets.remove(socket);
    let r = s.rx_queue.dequeue();
    stack.sockets.insert(socket, s);
    proof {
        assert(stack.sockets@ =~= old(stack).sockets@.update(
            socket as int,
            stack.sockets@[socket as int],
        ));
    }
    r
}

/// Connection options of an open connection, or nothing for an invalid
/// handle.
pub fn csp_conn_flags_typed(stack: &CspStack, conn: usize) -> (r: Option<u32>)
    ensures
        (conn < stack.conns@.len() && stack.conns@[conn as int].state == ConnState::Open) ==> r
            == Some(stack.conns@[conn as int].opts),
        !(conn < stack.conns@.len() && stack.conns@[conn as int].state == ConnState::Open) ==> r
            is None,
{
    if conn < stack.conns.len() && matches!(stack.conns[conn].state, ConnState::Open) {
        Some(stack.conns[conn].opts)
    } else {
        None
    }
}

/// The echo exchange is pending: the request from the one open plain
/// connection at `ci` is the sole packet on the router's FIFO, nothing
/// else claims it or its echo, and no socket intercepts the echo port.
pub open spec fn spec_echo_pending(s: CspStack, ci: int, data: Seq<u8>) -> bool {
    &&& 0 <= ci < s.conns@.len()
    &&& s.ingress@.len() == 1
    &&& s.ingress@[0].id == s.conns@[ci].id_out
    &&& s.ingress@[0].data@ == data
    &&& s.ingress@[0].id.dst == 0
    &&& s.ingress@[0].id.src == 0
    &&& s.ingress@[0].id.dport == 1
    &&& crate::router::spec_reply_id(s.ingress@[0].id).valid(s.version)
    &&& !crate::router::spec_some_conn_matches(s.conns@, s.ingress@[0].id)
    &&& forall|j: int| 0 <= j < s.conns@.len() ==> (#[trigger] s.conns@[j]).rdp is None
    &&& s.conns@[ci].state == ConnState::Open
    &&& s.conns@[ci].rx_queue@.len() == 0
    &&& s.conns@[ci].spec_matches_incoming(crate::router::spec_reply_id(s.ingress@[0].id))
    &&& forall|j: int|
        0 <= j < s.conns@.len() && j != ci ==> !((#[trigger] s.conns@[j]).state
            == ConnState::Open && s.conns@[j].spec_matches_incoming(
            crate::router::spec_reply_id(s.ingress@[0].id),
        ))
    &&& !crate::stack::spec_has_bound_port(s.sockets@, 1)
    &&& !crate::stack::spec_has_bound_port(s.sockets@, crate::CSP_ANY)
}

/// The echo exchange settled: the echo, carrying the request's payload,
/// is the one packet in the connection's receive queue; the connection
/// is still open and the clock has not moved.
pub open spec fn spec_echo_settled(pre: CspStack, post: CspStack, ci: int, data: Seq<u8>) -> bool {
    &&& post.conns@.len() == pre.conns@.len()
    &&& 0 <= ci < post.conns@.len()
    &&& post.conns@[ci].state == ConnState::Open
    &&& post.conns@[ci].rx_queue@.len() == 1
    &&& post.conns@[ci].rx_queue@[0].data@ == data
    &&& post.now_ms == pre.now_ms
}

/// Drive the router through one whole echo exchange: the request is
/// routed to the echo service, the echo routed back and delivered, and
/// two further pumps settle into timeouts. With `active` the
/// quiet-exchange precondition holds and the settled state is
/// guaranteed; without it this is just four pumps.
fn pump_echo_exchange(
    stack: &mut CspStack,
    ci: usize,
    Ghost(data): Ghost<Seq<u8>>,
    Ghost(active): Ghost<bool>,
)
    requires
        old(stack).wf(),
        active ==> spec_echo_pending(*old(stack), ci as int, data),
    ensures
        final(stack).wf(),
        active ==> spec_echo_settled(*old(stack), *final(stack), ci as int, data),
        final(stack).conns@.len() == old(stack).conns@.len(),
        forall|k: int|
            0 <= k < old(stack).conns@.len() && (#[trigger] final(stack).conns@[k]).state
                == ConnState::Open && final(stack).conns@[k].ctype == ConnType::Client ==> (
            old(stack).conns@[k].state == ConnState::Open && old(stack).conns@[k].ctype
                == ConnType::Client),
        // a plain open connection survives the pumps, itself, with at
        // most its receive queue grown
        forall|k: int|
            0 <= k < old(stack).conns@.len() && (#[trigger] old(stack).conns@[k]).state
                == ConnState::Open && old(stack).conns@[k].rdp is None ==> (final(stack).conns@[k].state == ConnState::Open && final(stack).conns@[k].rdp is None
                && final(stack).conns@[k].id_in == old(stack).conns@[k].id_in && final(stack).conns@[k].id_out == old(stack).conns@[k].id_out && final(stack).conns@[k].ctype
                == old(stack).conns@[k].ctype && final(stack).conns@[k].opts == old(stack).conns@[k].opts && final(stack).conns@[k].last_error == old(stack).conns@[
                k].last_error),
{
    let ghost s_sent = *stack;
    let _ = csp_route_work(stack);
    let ghost s_echoed = *stack;
    proof {
        // the echo is back on the FIFO, addressed to the one open
        // connection and nothing else
        if active {
            let echo = s_echoed.ingress@[0];
            assert(s_sent.ingress@.drop_first() =~= Seq::<CspPacket>::empty());
            assert(s_echoed.ingress@.len() == 1);
            assert forall|j: int|
                0 <= j < s_echoed.conns@.len() && j != ci implies !((
            #[trigger] s_echoed.conns@[j]).state == ConnState::Open && s_echoed.conns@[
                j].spec_matches_incoming(echo.id)) by {
                assert(s_echoed.conns@[j] == s_sent.conns@[j]);
            }
            assert(crate::router::spec_sole_plain_receiver(s_echoed, echo, ci as int));
        }
    }
    let _ = csp_route_work(stack);
    let ghost s_delivered = *stack;
    proof {
        if active {
            assert(s_delivered.conns@[ci as int].rx_queue@.len() == 1);
            assert forall|j: int|
                0 <= j < s_delivered.conns@.len() implies (#[trigger] s_delivered.conns@[
                j]).rdp is None by {
                if j != ci {
                    assert(s_delivered.conns@[j] == s_echoed.conns@[j]);
                    assert(s_echoed.conns@[j] == s_sent.conns@[j]);
                }
            }
        }
    }
    let _ = csp_route_work(stack);
    proof {
        if active {
            assert forall|j: int|
                0 <= j < stack.conns@.len() implies (#[trigger] stack.conns@[j]).rdp
                is None by {
                if j != ci {
                    assert(stack.conns@[j] == s_delivered.conns@[j]);
                }
            }
        }
    }
    let _ = csp_route_work(stack);
    proof {
        // the echo sits, alone, in the connection's receive queue,
        // carrying the request's payload, and the clock has not moved
        if active {
            let req = s_sent.ingress@[0];
            let echo = s_echoed.ingress@[0];
            assert(echo == crate::stack::spec_stamped(
                req,
                crate::router::spec_reply_id(req.id),
            ));
            assert(echo.data@ == data);
            assert(s_echoed.conns@[ci as int].rx_queue@.len() == 0);
            assert(s_delivered.conns@[ci as int].rx_queue@[0] == echo);
            assert(stack.conns@[ci as int].rx_queue@.len() == 1);
            assert(stack.conns@[ci as int].rx_queue@[0].data@ == data);
            assert(stack.conns@[ci as int].state == ConnState::Open);
        }
    }
}

/// A quiet stack around a held echo connection: the connection at
/// `conn` is the one open connection — plain, addressed to the echo
/// service over the loopback path, its receive queue empty and its
/// incoming identifier the mirror of its outgoing one; nothing is
/// pending, a buffer is free, the payload fits, and nothing intercepts
/// the echo port.
pub open spec fn spec_quiet_held_echo(stack: CspStack, conn: int, size: int) -> bool {
    &&& stack.ingress@.len() == 0
    &&& stack.pool.in_use < stack.pool.capacity
    &&& size <= stack.config.buffer_size
    &&& stack.spec_local_address() == 0
    &&& 0 <= conn < stack.conns@.len()
    &&& stack.conns@[conn].state == ConnState::Open
    &&& stack.conns@[conn].rdp is None
    &&& stack.conns@[conn].rx_queue@.len() == 0
    &&& stack.conns@[conn].id_out.dst == 0
    &&& stack.conns@[conn].id_out.src == 0
    &&& stack.conns@[conn].id_out.dport == 1
    &&& stack.conns@[conn].id_out.sport != 1
    &&& stack.conns@[conn].id_out.valid(stack.version)
    &&& stack.conns@[conn].id_in == crate::router::spec_reply_id(stack.conns@[conn].id_out)
    &&& forall|j: int|
        0 <= j < stack.conns@.len() && j != conn ==> (#[trigger] stack.conns@[j]).state
            == ConnState::Closed && stack.conns@[j].rdp is None
    &&& !crate::stack::spec_has_bound_port(stack.sockets@, 1)
    &&& !crate::stack::spec_has_bound_port(stack.sockets@, crate::CSP_ANY)
}

/// A quiet stack, ready to answer its own echo request at once: nothing
/// in the router's FIFO, every connection slot free and clean, the echo
/// port and the wildcard unbound, a buffer available, a payload that
/// fits, and the node's own address the loopback address.
pub open spec fn spec_quiet_loopback(stack: CspStack, size: int) -> bool {
    &&& stack.ingress@.len() == 0
    &&& stack.pool.in_use < stack.pool.capacity
    &&& size <= stack.config.buffer_size
    &&& stack.spec_local_address() == 0
    &&& forall|i: int|
        0 <= i < stack.conns@.len() ==> (#[trigger] stack.conns@[i]).state
            == ConnState::Closed && stack.conns@[i].rdp is None && stack.conns@[
            i].rx_queue@.len() == 0
    &&& !crate::stack::spec_has_bound_port(stack.sockets@, 1)
    &&& !crate::stack::spec_has_bound_port(stack.sockets@, crate::CSP_ANY)
}

/// Send one ping and wait for the echo, driving the local router.
/// Returns the echo time in milliseconds, or -1 when no matching echo
/// arrived within the timeout. Against a quiet stack, a plain loopback
/// ping is answered immediately: the echo time is zero.
pub fn csp_ping_raw(stack: &mut CspStack, node: u16, timeout_ms: u32, size: usize, opts: u32)
    -> (r: i32)
    requires
        old(stack).wf(),
    ensures
        final(stack).wf(),
        r == -1 || (0 <= r <= timeout_ms),
        (node == 0 && !crate::codes::spec_has_flag(opts, CSP_O_RDP) && spec_quiet_loopback(*old(stack), size as int)) ==> r == 0,
        // the ping's own connection is gone again: a client connection
        // open afterwards was open before the call
        forall|k: int|
            0 <= k < old(stack).conns@.len() && (#[trigger] final(stack).conns@[k]).state
                == ConnState::Open && final(stack).conns@[k].ctype == ConnType::Client ==> (
            old(stack).conns@[k].state == ConnState::Open && old(stack).conns@[k].ctype
                == ConnType::Client),
{
    let ghost quiet = node == 0 && !crate::codes::spec_has_flag(opts, CSP_O_RDP)
        && spec_quiet_loopback(*old(stack), size as int);
    let start = stack.now_ms;
    proof {
        if quiet {
            assert(old(stack).conns@.len() > 0);
            assert(old(stack).conns@[0].state == ConnState::Closed);
        }
    }
    let conn = csp_connect(stack, MsgPriority::Normal, node, 1, timeout_ms, opts);
    let ci: usize;
    match conn {
        None => {
            return -1;
        },
        Some(i) => {
            ci = i;
        },
    }
    let ghost eph0 = old(stack).ephemeral_port;
    let packet = crate::stack::csp_buffer_get(stack);
    let mut p: CspPacket;
    match packet {
        None => {
            let _ = crate::stack::csp_close(stack, ci);
            return -1;
        },
        Some(q) => {
            p = q;
        },
    }
    // a recognizable pattern fills the payload
    let mut body: Vec<u8> = Vec::new();
    let mut i: usize = 0;
    while i < size
        invariant
            body@.len() == i,
            i <= size,
        decreases size - i,
    {
        body.push(#[verifier::truncate] (i as u8));
        i = i + 1;
    }
    if !p.set_data(body.as_slice()) {
        crate::stack::csp_buffer_free(stack, p);
        let _ = crate::stack::csp_close(stack, ci);
        return -1;
    }
    let ghost p_snap = p;
    if csp_send(stack, ci, p).is_err() {
        let _ = crate::stack::csp_close(stack, ci);
        return -1;
    }
    let ghost s_sent = *stack;
    proof {
        // on a quiet stack the request is now the sole FIFO entry, no
        // connection claims it or its echo, and no socket intercepts it
        if quiet {
            let req = s_sent.ingress@[0];
            assert(req.data@ == p_snap.data@);
            assert forall|j: int|
                0 <= j < s_sent.conns@.len() implies !((#[trigger] s_sent.conns@[j]).state
                == ConnState::Open && s_sent.conns@[j].spec_matches_incoming(req.id)) by {
                if j != ci {
                    assert(s_sent.conns@[j] == old(stack).conns@[j]);
                } else {
                    assert(s_sent.conns@[j].id_in.dport == eph0);
                }
            }
            assert(!crate::router::spec_some_conn_matches(s_sent.conns@, req.id));
            assert forall|j: int|
                0 <= j < s_sent.conns@.len() implies (#[trigger] s_sent.conns@[j]).rdp
                is None by {
                if j != ci {
                    assert(s_sent.conns@[j] == old(stack).conns@[j]);
                }
            }
            assert forall|j: int|
                0 <= j < s_sent.conns@.len() && j != ci implies !((
            #[trigger] s_sent.conns@[j]).state == ConnState::Open && s_sent.conns@[
                j].spec_matches_incoming(crate::router::spec_reply_id(req.id))) by {
                assert(s_sent.conns@[j] == old(stack).conns@[j]);
            }
            assert(spec_echo_pending(s_sent, ci as int, body@));
        }
    }
    pump_echo_exchange(stack, ci, Ghost(body@), Ghost(quiet));
    proof {
        if quiet {
            assert(stack.now_ms == start);
        }
    }
    let reply = csp_read(stack, ci, timeout_ms);
    let _ = crate::stack::csp_close(stack, ci);
    match reply {
        None => -1,
        Some(echo) => {
            let ok_len = echo.packet_length() == size;
            crate::stack::csp_buffer_free(stack, echo);
            if !ok_len {
                return -1;
            }
            let now = stack.now_ms;
            if now < start {
                return -1;
            }
            let elapsed = now - start;
            if elapsed > timeout_ms {
                return -1;
            }
            if elapsed > 0x7fffffff {
                return -1;
            }
            elapsed as i32
        },
    }
}

/// Send one ping and wait for the echo. The echo time never exceeds the
/// timeout: a later echo counts as no echo.
pub fn csp_ping(stack: &mut CspStack, node: u16, timeout_ms: u32, size: usize, opts: u32) -> (r:
    Result<u32, PingError>)
    requires
        old(stack).wf(),
    ensures
        final(stack).wf(),
        r matches Ok(ms) ==> ms <= timeout_ms,
        (node == 0 && !crate::codes::spec_has_flag(opts, CSP_O_RDP) && spec_quiet_loopback(*old(stack), size as int)) ==> r == Ok::<u32, PingError>(0),
        // no client connection of this call's making remains: one open
        // afterwards was open before
        forall|k: int|
            0 <= k < old(stack).conns@.len() && (#[trigger] final(stack).conns@[k]).state
                == ConnState::Open && final(stack).conns@[k].ctype == ConnType::Client ==> (
            old(stack).conns@[k].state == ConnState::Open && old(stack).conns@[k].ctype
                == ConnType::Client),
{
    let raw = csp_ping_raw(stack, node, timeout_ms, size, opts);
    if raw < 0 {
        Err(PingError)
    } else {
        Ok(raw as u32)
    }
}

/// Send one ping without waiting for the echo: fire and forget, with a
/// one-byte payload.
pub fn csp_ping_noreply(stack: &mut CspStack, node: u16)
    requires
        old(stack).wf(),
    ensures
        final(stack).wf(),
        final(stack).conns@ == old(stack).conns@,
        final(stack).sockets@ == old(stack).sockets@,
        // with a buffer free and room in the FIFO, the loopback request
        // is on its way
        (node == 0 && old(stack).spec_local_address() < 32 && old(stack).pool.in_use < old(stack).pool.capacity && old(stack).ingress@.len() < old(stack).ingress.spec_cap()) ==> (
        final(stack).ingress@.len() == old(stack).ingress@.len() + 1 && final(stack).ingress@[
            old(stack).ingress@.len() as int].id.dport == 1 && final(stack).ingress@[old(stack).ingress@.len() as int].id.dst == node),
{
    let packet = crate::stack::csp_buffer_get(stack);
    match packet {
        None => {},
        Some(mut p) => {
            let local = stack.local_address();
            p.id = crate::codec::CspId {
                pri: MsgPriority::Normal.bits(),
                flags: 0,
                src: local,
                dst: node,
                dport: 1,
                sport: 62,
            };
            let one = [0u8];
            let _ = p.set_data(&one);
            let _ = stack.transmit_packet(p);
        },
    }
}

/// Ask a node to reboot: fire and forget. The request is a service
/// packet; nothing is awaited.
pub fn csp_reboot(stack: &mut CspStack, node: u16)
    requires
        old(stack).wf(),
    ensures
        final(stack).wf(),
        final(stack).conns@ == old(stack).conns@,
        final(stack).sockets@ == old(stack).sockets@,
        // with a buffer free and room in the FIFO, the loopback request
        // is on its way
        (node == 0 && old(stack).spec_local_address() < 32 && old(stack).pool.in_use < old(stack).pool.capacity && old(stack).ingress@.len() < old(stack).ingress.spec_cap()) ==> (
        final(stack).ingress@.len() == old(stack).ingress@.len() + 1 && final(stack).ingress@[
            old(stack).ingress@.len() as int].id.dport == 4 && final(stack).ingress@[old(stack).ingress@.len() as int].id.dst == node),
{
    let packet = crate::stack::csp_buffer_get(stack);
    match packet {
        None => {},
        Some(mut p) => {
            let local = stack.local_address();
            p.id = crate::codec::CspId {
                pri: MsgPriority::Normal.bits(),
                flags: 0,
                src: local,
                dst: node,
                dport: 4,
                sport: 63,
            };
            let _ = stack.transmit_packet(p);
        },
    }
}

/// A whole request-and-reply exchange: connect, send the request, wait
/// for the reply, copy it out and close. Returns the reply size when the
/// expected size was unknown, 1 when the reply matched the expected
/// size (or none was expected), and 0 on any failure.
pub fn csp_transaction_w_opts(
    stack: &mut CspStack,
    prio: MsgPriority,
    dst: u16,
    dst_port: u8,
    timeout_ms: u32,
    out_data: &[u8],
    in_data: &mut Vec<u8>,
    in_len: Option<usize>,
    opts: u32,
) -> (r: i32)
    requires
        old(stack).wf(),
    ensures
        final(stack).wf(),
        r >= 0,
        in_len matches Some(l) ==> ((r != 0 && l > 0) ==> final(in_data)@.len() == l),
        // with an expected reply length the verdict is pass or fail,
        // never a size
        in_len matches Some(l) ==> (r == 0 || r == 1),
        // a full connection table fails the whole exchange
        (forall|i: int|
            0 <= i < old(stack).conns@.len() ==> (#[trigger] old(stack).conns@[i]).state
                == ConnState::Open) ==> r == 0,
        // against a quiet stack, a plain loopback exchange with the echo
        // service succeeds and hands the request back verbatim
        in_len matches Some(l) ==> ((dst == 0 && dst_port == 1 && !crate::codes::spec_has_flag(
            opts,
            CSP_O_RDP,
        ) && l == out_data@.len() && l > 0 && spec_quiet_loopback(
            *old(stack),
            out_data@.len() as int,
        )) ==> r == 1 && final(in_data)@ == out_data@),
        // no client connection of this call's making remains: one open
        // afterwards was open before
        forall|k: int|
            0 <= k < old(stack).conns@.len() && (#[trigger] final(stack).conns@[k]).state
                == ConnState::Open && final(stack).conns@[k].ctype == ConnType::Client ==> (
            old(stack).conns@[k].state == ConnState::Open && old(stack).conns@[k].ctype
                == ConnType::Client),
{
    let ghost quiet = dst == 0 && dst_port == 1 && !crate::codes::spec_has_flag(
        opts,
        CSP_O_RDP,
    ) && (in_len matches Some(l) && l == out_data@.len() && l > 0) && spec_quiet_loopback(
        *old(stack),
        out_data@.len() as int,
    );
    proof {
        if quiet {
            assert(old(stack).conns@.len() > 0);
            assert(old(stack).conns@[0].state == ConnState::Closed);
        }
    }
    let conn = csp_connect(stack, prio, dst, dst_port, timeout_ms, opts);
    let ci: usize;
    match conn {
        None => {
            return 0;
        },
        Some(i) => {
            ci = i;
        },
    }
    let ghost eph0 = old(stack).ephemeral_port;
    let packet = crate::stack::csp_buffer_get(stack);
    let mut p: CspPacket;
    match packet {
        None => {
            let _ = crate::stack::csp_close(stack, ci);
            return 0;
        },
        Some(q) => {
            p = q;
        },
    }
    if !p.set_data(out_data) {
        crate::stack::csp_buffer_free(stack, p);
        let _ = crate::stack::csp_close(stack, ci);
        return 0;
    }
    let ghost p_snap = p;
    if csp_send(stack, ci, p).is_err() {
        let _ = crate::stack::csp_close(stack, ci);
        return 0;
    }
    let expects_reply = match in_len {
        Some(0) => false,
        _ => true,
    };
    if !expects_reply {
        let _ = crate::stack::csp_close(stack, ci);
        return 1;
    }
    let ghost s_sent = *stack;
    proof {
        // on a quiet stack the request is now the sole FIFO entry, no
        // connection claims it or its echo, and no socket intercepts it
        if quiet {
            let req = s_sent.ingress@[0];
            assert(req.data@ == p_snap.data@);
            assert forall|j: int|
                0 <= j < s_sent.conns@.len() implies !((#[trigger] s_sent.conns@[j]).state
                == ConnState::Open && s_sent.conns@[j].spec_matches_incoming(req.id)) by {
                if j != ci {
                    assert(s_sent.conns@[j] == old(stack).conns@[j]);
                } else {
                    assert(s_sent.conns@[j].id_in.dport == eph0);
                }
            }
            assert(!crate::router::spec_some_conn_matches(s_sent.conns@, req.id));
            assert forall|j: int|
                0 <= j < s_sent.conns@.len() implies (#[trigger] s_sent.conns@[j]).rdp
                is None by {
                if j != ci {
                    assert(s_sent.conns@[j] == old(stack).conns@[j]);
                }
            }
            assert forall|j: int|
                0 <= j < s_sent.conns@.len() && j != ci implies !((
            #[trigger] s_sent.conns@[j]).state == ConnState::Open && s_sent.conns@[
                j].spec_matches_incoming(crate::router::spec_reply_id(req.id))) by {
                assert(s_sent.conns@[j] == old(stack).conns@[j]);
            }
            assert(spec_echo_pending(s_sent, ci as int, out_data@));
        }
    }
    pump_echo_exchange(stack, ci, Ghost(out_data@), Ghost(quiet));
    let reply = csp_read(stack, ci, timeout_ms);
    let _ = crate::stack::csp_close(stack, ci);
    match reply {
        None => 0,
        Some(echo) => {
            let len = echo.packet_length();
            let verdict: i32;
            match in_len {
                Some(l) => {
                    if len == l {
                        *in_data = copy_byte_slice(echo.packet_data().as_slice());
                        verdict = 1;
                    } else {
                        verdict = 0;
                    }
                },
                None => {
                    *in_data = copy_byte_slice(echo.packet_data().as_slice());
                    if len > 0x7fffffff {
                        verdict = 1;
                    } else {
                        verdict = len as i32;
                    }
                },
            }
            crate::stack::csp_buffer_free(stack, echo);
            verdict
        },
    }
}

/// A request-and-reply exchange over a connection the caller already
/// holds: send the request, wait for the reply and copy it out. Returns
/// the reply size when the expected size was unknown, 1 when the reply
/// matched the expected size (or none was expected), and 0 on failure.
pub fn csp_transaction_persistent(
    stack: &mut CspStack,
    conn: usize,
    timeout_ms: u32,
    out_data: &[u8],
    in_data: &mut Vec<u8>,
    in_len: Option<usize>,
) -> (r: i32)
    requires
        old(stack).wf(),
    ensures
        final(stack).wf(),
        r >= 0,
        in_len matches Some(l) ==> ((r != 0 && l > 0) ==> final(in_data)@.len() == l),
        in_len matches Some(l) ==> (r == 0 || r == 1),
        // the exchange opens nothing of its own: a client connection
        // other than the one held that is open afterwards was open before
        forall|k: int|
            0 <= k < old(stack).conns@.len() && k != conn && (#[trigger] final(stack).conns@[
                k]).state == ConnState::Open && final(stack).conns@[k].ctype
                == ConnType::Client ==> (old(stack).conns@[k].state == ConnState::Open && old(stack).conns@[k].ctype == ConnType::Client),
        // the held connection is never closed by the exchange: a plain
        // open connection is still open, and still itself, afterwards
        (conn < old(stack).conns@.len() && old(stack).conns@[conn as int].state
            == ConnState::Open && old(stack).conns@[conn as int].rdp is None) ==> (final(stack).conns@[conn as int].state == ConnState::Open && final(stack).conns@[
            conn as int].rdp is None && final(stack).conns@[conn as int].id_in == old(stack).conns@[conn as int].id_in && final(stack).conns@[conn as int].id_out == old(stack).conns@[conn as int].id_out && final(stack).conns@[conn as int].ctype == old(stack).conns@[conn as int].ctype && final(stack).conns@[conn as int].opts == old(stack).conns@[conn as int].opts),
        // against a quiet stack, an exchange with the echo service over
        // the held connection succeeds and hands the request back
        // verbatim
        in_len matches Some(l) ==> ((l == out_data@.len() && l > 0 && spec_quiet_held_echo(
            *old(stack),
            conn as int,
            out_data@.len() as int,
        )) ==> r == 1 && final(in_data)@ == out_data@),
{
    let ghost quiet = (in_len matches Some(l) && l == out_data@.len() && l > 0)
        && spec_quiet_held_echo(*old(stack), conn as int, out_data@.len() as int);
    let packet = crate::stack::csp_buffer_get(stack);
    let mut p: CspPacket;
    match packet {
        None => {
            return 0;
        },
        Some(q) => {
            p = q;
        },
    }
    if !p.set_data(out_data) {
        crate::stack::csp_buffer_free(stack, p);
        return 0;
    }
    let ghost p_snap = p;
    if csp_send(stack, conn, p).is_err() {
        return 0;
    }
    let expects_reply = match in_len {
        Some(0) => false,
        _ => true,
    };
    if !expects_reply {
        return 1;
    }
    let ghost s_sent = *stack;
    proof {
        // on a quiet stack the request is now the sole FIFO entry, no
        // connection claims it or its echo, and no socket intercepts it
        if quiet {
            let req = s_sent.ingress@[0];
            assert(req.data@ == p_snap.data@);
            assert(req.id == old(stack).conns@[conn as int].id_out);
            assert forall|j: int|
                0 <= j < s_sent.conns@.len() implies !((#[trigger] s_sent.conns@[j]).state
                == ConnState::Open && s_sent.conns@[j].spec_matches_incoming(req.id)) by {
                if j != conn {
                    assert(s_sent.conns@[j] == old(stack).conns@[j]);
                } else {
                    assert(s_sent.conns@[j].id_in.dport == old(stack).conns@[
                        conn as int].id_out.sport);
                }
            }
            assert(!crate::router::spec_some_conn_matches(s_sent.conns@, req.id));
            assert forall|j: int|
                0 <= j < s_sent.conns@.len() implies (#[trigger] s_sent.conns@[j]).rdp
                is None by {
                if j != conn {
                    assert(s_sent.conns@[j] == old(stack).conns@[j]);
                }
            }
            assert forall|j: int|
                0 <= j < s_sent.conns@.len() && j != conn implies !((
            #[trigger] s_sent.conns@[j]).state == ConnState::Open && s_sent.conns@[
                j].spec_matches_incoming(crate::router::spec_reply_id(req.id))) by {
                assert(s_sent.conns@[j] == old(stack).conns@[j]);
            }
            let idout = old(stack).conns@[conn as int].id_out;
            let rep = crate::router::spec_reply_id(req.id);
            assert(rep.pri == idout.pri && rep.flags == idout.flags && rep.src == 0
                && rep.dst == 0 && rep.dport == idout.sport && rep.sport == 1);
            if s_sent.version == crate::codec::HeaderVersion::Legacy {
                assert(idout.valid_legacy());
                assert(rep.valid_legacy());
            } else {
                assert(idout.valid_current());
                assert(rep.valid_current());
            }
            assert(s_sent.conns@[conn as int].id_in == rep);
            assert(spec_echo_pending(s_sent, conn as int, out_data@));
        }
    }
    pump_echo_exchange(stack, conn, Ghost(out_data@), Ghost(quiet));
    let reply = csp_read(stack, conn, timeout_ms);
    match reply {
        None => 0,
        Some(echo) => {
            let len = echo.packet_length();
            let verdict: i32;
            match in_len {
                Some(l) => {
                    if len == l {
                        *in_data = copy_byte_slice(echo.packet_data().as_slice());
                        verdict = 1;
                    } else {
                        verdict = 0;
                    }
                },
                None => {
                    *in_data = copy_byte_slice(echo.packet_data().as_slice());
                    if len > 0x7fffffff {
                        verdict = 1;
                    } else {
                        verdict = len as i32;
                    }
                },
            }
            crate::stack::csp_buffer_free(stack, echo);
            verdict
        },
    }
}

/// A whole request-and-reply exchange with no special connection
/// options.
pub fn csp_transaction(
    stack: &mut CspStack,
    prio: MsgPriority,
    dst: u16,
    dst_port: u8,
    timeout_ms: u32,
    out_data: &[u8],
    in_data: &mut Vec<u8>,
    in_len: Option<usize>,
) -> (r: i32)
    requires
        old(stack).wf(),
    ensures
        final(stack).wf(),
        r >= 0,
        in_len matches Some(l) ==> ((r != 0 && l > 0) ==> final(in_data)@.len() == l),
        in_len matches Some(l) ==> (r == 0 || r == 1),
        // a full connection table fails the whole exchange
        (forall|i: int|
            0 <= i < old(stack).conns@.len() ==> (#[trigger] old(stack).conns@[i]).state
                == ConnState::Open) ==> r == 0,
        // against a quiet stack, a loopback exchange with the echo
        // service succeeds and hands the request back verbatim
        in_len matches Some(l) ==> ((dst == 0 && dst_port == 1 && l == out_data@.len() && l
            > 0 && spec_quiet_loopback(*old(stack), out_data@.len() as int)) ==> r == 1
            && final(in_data)@ == out_data@),
        // no client connection of this call's making remains: one open
        // afterwards was open before
        forall|k: int|
            0 <= k < old(stack).conns@.len() && (#[trigger] final(stack).conns@[k]).state
                == ConnState::Open && final(stack).conns@[k].ctype == ConnType::Client ==> (
            old(stack).conns@[k].state == ConnState::Open && old(stack).conns@[k].ctype
                == ConnType::Client),
{
    proof {
        assert(crate::codes::CSP_O_NONE & CSP_O_RDP != CSP_O_RDP) by (bit_vector);
    }
    csp_transaction_w_opts(
        stack,
        prio,
        dst,
        dst_port,
        timeout_ms,
        out_data,
        in_data,
        in_len,
        crate::codes::CSP_O_NONE,
    )
}

/// Close a socket, reported as a numeric code: zero on success,
/// otherwise the code of the error.
pub fn csp_socket_close_raw(stack: &mut CspStack, socket: usize) -> (r: i32)
    requires
        old(stack).wf(),
    ensures
        final(stack).wf(),
        r == 0 <==> socket < old(stack).sockets@.len(),
        socket >= old(stack).sockets@.len() ==> r == crate::codes::spec_error_code(
            CspError::Inval,
        ),
{
    match csp_socket_close(stack, socket) {
        Ok(()) => 0,
        Err(e) => e.code(),
    }
}

} // verus!
