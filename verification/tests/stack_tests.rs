use libcsp::api::{csp_conn_flags_typed, csp_ping, csp_reboot, csp_socket_close, csp_transaction};
use libcsp::codec::CspId;
use libcsp::codes::{ConnState, CspError, MsgPriority, CSP_O_NONE, CSP_SO_CONN_LESS};
use libcsp::config::Config;
use libcsp::conn::CspConn;
use libcsp::iface::CspInterface;
use libcsp::router::{csp_iflist_add, csp_route_work};
use libcsp::stack::{
    csp_accept, csp_bind, csp_buffer_get, csp_close, csp_init, csp_listen, csp_read, csp_send,
    CspStack,
};
use libcsp::{CSP_ANY, CSP_LOOPBACK};

fn fresh_stack() -> CspStack {
    csp_init(Config::default()).unwrap()
}

fn inject(stack: &mut CspStack, id: CspId, payload: &[u8]) {
    let mut p = csp_buffer_get(stack).unwrap();
    p.id = id;
    assert!(p.set_data(payload));
    assert!(stack.transmit_packet(p).is_ok());
}

#[test]
fn route_work_with_nothing_pending_times_out() {
    let mut stack = fresh_stack();
    assert_eq!(csp_route_work(&mut stack), Err(CspError::TimedOut));
}

#[test]
fn bind_rejects_duplicates_and_bad_ports() {
    let mut stack = fresh_stack();
    let a = stack.socket_create(CSP_O_NONE).unwrap();
    let b = stack.socket_create(CSP_O_NONE).unwrap();
    assert_eq!(csp_bind(&mut stack, a, 10), Ok(()));
    assert_eq!(csp_bind(&mut stack, b, 10), Err(CspError::Used));
    assert_eq!(csp_bind(&mut stack, b, 100), Err(CspError::Inval));
    assert_eq!(csp_bind(&mut stack, 99, 11), Err(CspError::Inval));
    assert_eq!(csp_bind(&mut stack, b, CSP_ANY), Ok(()));
}

#[test]
fn socket_creation_stops_at_the_port_limit() {
    let mut stack = fresh_stack();
    for _ in 0..16 {
        assert!(stack.socket_create(CSP_O_NONE).is_some());
    }
    assert!(stack.socket_create(CSP_O_NONE).is_none());
}

#[test]
fn port_bind_precedence_specific_wins_over_any() {
    let mut stack = fresh_stack();
    let specific = stack.socket_create(CSP_SO_CONN_LESS).unwrap();
    let wildcard = stack.socket_create(CSP_SO_CONN_LESS).unwrap();
    assert_eq!(csp_bind(&mut stack, specific, 10), Ok(()));
    assert_eq!(csp_bind(&mut stack, wildcard, CSP_ANY), Ok(()));
    // a packet for port 10 must land on the specific bind, not the wildcard
    inject(
        &mut stack,
        CspId { pri: 2, flags: 0, src: 0, dst: 0, dport: 10, sport: 33 },
        &[7, 7],
    );
    assert_eq!(csp_route_work(&mut stack), Ok(()));
    let got = libcsp::api::csp_recvfrom(&mut stack, specific, 100);
    assert!(got.is_some());
    let packet = got.unwrap();
    assert_eq!(packet.packet_data().as_slice(), &[7, 7]);
    assert!(libcsp::api::csp_recvfrom(&mut stack, wildcard, 100).is_none());
    libcsp::stack::csp_buffer_free(&mut stack, packet);
    // a packet for another port falls through to the wildcard bind
    inject(
        &mut stack,
        CspId { pri: 2, flags: 0, src: 0, dst: 0, dport: 11, sport: 34 },
        &[8],
    );
    assert_eq!(csp_route_work(&mut stack), Ok(()));
    assert!(libcsp::api::csp_recvfrom(&mut stack, specific, 100).is_none());
    let fell_through = libcsp::api::csp_recvfrom(&mut stack, wildcard, 100);
    assert!(fell_through.is_some());
    libcsp::stack::csp_buffer_free(&mut stack, fell_through.unwrap());
}

#[test]
fn backlog_overflow_refuses_the_second_connection() {
    let mut stack = fresh_stack();
    let sock = stack.socket_create(CSP_O_NONE).unwrap();
    assert_eq!(csp_bind(&mut stack, sock, 10), Ok(()));
    assert_eq!(csp_listen(&mut stack, sock, 1), Ok(()));
    // two concurrent connection attempts from different source ports
    inject(
        &mut stack,
        CspId { pri: 2, flags: 0, src: 0, dst: 0, dport: 10, sport: 21 },
        &[1],
    );
    inject(
        &mut stack,
        CspId { pri: 2, flags: 0, src: 0, dst: 0, dport: 10, sport: 22 },
        &[2],
    );
    let overflow_before = stack.dbg_conn_ovf;
    assert_eq!(csp_route_work(&mut stack), Ok(()));
    assert_eq!(csp_route_work(&mut stack), Ok(()));
    // exactly one pending connection; the second was refused and counted
    assert_eq!(stack.dbg_conn_ovf, overflow_before + 1);
    let first = csp_accept(&mut stack, sock, 1000);
    assert!(first.is_some());
    let second = csp_accept(&mut stack, sock, 1000);
    assert!(second.is_none());
    // the accepted connection carries the first attempt's data
    let ci = first.unwrap();
    let p = csp_read(&mut stack, ci, 100).unwrap();
    assert_eq!(p.packet_data().as_slice(), &[1]);
    assert_eq!(libcsp::stack::csp_conn_dport(&stack, ci), 10);
    assert_eq!(libcsp::stack::csp_conn_sport(&stack, ci), 21);
    libcsp::stack::csp_buffer_free(&mut stack, p);
    let _ = csp_close(&mut stack, ci);
}

#[test]
fn listen_cannot_shrink_below_pending_connections() {
    let mut stack = fresh_stack();
    let sock = stack.socket_create(CSP_O_NONE).unwrap();
    assert_eq!(csp_bind(&mut stack, sock, 10), Ok(()));
    assert_eq!(csp_listen(&mut stack, sock, 4), Ok(()));
    inject(
        &mut stack,
        CspId { pri: 2, flags: 0, src: 0, dst: 0, dport: 10, sport: 21 },
        &[1],
    );
    assert_eq!(csp_route_work(&mut stack), Ok(()));
    // one connection is pending: a bound below it is refused
    assert_eq!(csp_listen(&mut stack, sock, 0), Err(CspError::Busy));
    assert_eq!(csp_listen(&mut stack, sock, 2), Ok(()));
}

#[test]
fn full_ingress_fifo_reports_backpressure() {
    let mut stack = fresh_stack();
    // the FIFO holds 16 packets; the seventeenth is refused and freed
    for sport in 0..17u8 {
        let mut p = libcsp::packet::CspPacket::new();
        p.id = CspId { pri: 2, flags: 0, src: 0, dst: 0, dport: 40, sport };
        let r = stack.transmit_packet(p);
        if sport < 16 {
            assert_eq!(r, Ok(()));
        } else {
            assert_eq!(r, Err(CspError::NoBufs));
        }
    }
    assert_eq!(stack.dbg_conn_ovf, 1);
}

#[test]
fn ping_over_loopback_returns_within_the_timeout() {
    let mut stack = fresh_stack();
    let echo = csp_ping(&mut stack, CSP_LOOPBACK, 1000, 100, CSP_O_NONE);
    assert_eq!(echo, Ok(0));
    // every buffer went back to the pool
    assert_eq!(stack.pool.in_use, 0);
}

#[test]
fn ping_with_oversize_payload_fails_cleanly() {
    let mut stack = fresh_stack();
    let echo = csp_ping(&mut stack, CSP_LOOPBACK, 1000, 4096, CSP_O_NONE);
    assert!(echo.is_err());
    assert_eq!(stack.pool.in_use, 0);
}

#[test]
fn close_wakes_a_blocked_reader() {
    let mut stack = fresh_stack();
    let conn = libcsp::api::csp_connect(
        &mut stack,
        MsgPriority::Normal,
        CSP_LOOPBACK,
        30,
        1000,
        CSP_O_NONE,
    )
    .unwrap();
    // nothing has arrived: a bounded wait returns no value
    assert!(csp_read(&mut stack, conn, 10000).is_none());
    // closing from another thread must unblock the reader with no value;
    // in this deterministic model the closed state makes every read
    // return at once
    assert_eq!(csp_close(&mut stack, conn), Ok(()));
    assert!(csp_read(&mut stack, conn, 10000).is_none());
    assert!(matches!(stack.conns[conn].state, ConnState::Closed));
}

#[test]
fn send_after_close_reports_reset_or_timeout() {
    let mut stack = fresh_stack();
    let conn = libcsp::api::csp_connect(
        &mut stack,
        MsgPriority::Normal,
        CSP_LOOPBACK,
        30,
        1000,
        CSP_O_NONE,
    )
    .unwrap();
    assert_eq!(csp_close(&mut stack, conn), Ok(()));
    let p = csp_buffer_get(&mut stack).unwrap();
    assert_eq!(csp_send(&mut stack, conn, p), Err(CspError::Reset));
    // a connection torn down by the reliable layer's timeout reports so
    stack.conns[conn].last_error = Some(CspError::TimedOut);
    let q = csp_buffer_get(&mut stack).unwrap();
    assert_eq!(csp_send(&mut stack, conn, q), Err(CspError::TimedOut));
    assert_eq!(stack.pool.in_use, 0);
}

#[test]
fn transaction_echoes_through_the_ping_service() {
    let mut stack = fresh_stack();
    let out = [1u8, 2, 3];
    let mut reply: Vec<u8> = Vec::new();
    let r = csp_transaction(
        &mut stack,
        MsgPriority::Normal,
        CSP_LOOPBACK,
        1,
        1000,
        &out,
        &mut reply,
        Some(3),
    );
    assert_eq!(r, 1);
    assert_eq!(reply, vec![1, 2, 3]);
}

#[test]
fn transaction_reads_the_free_buffer_service() {
    let mut stack = fresh_stack();
    let mut reply: Vec<u8> = Vec::new();
    let r = csp_transaction(
        &mut stack,
        MsgPriority::Normal,
        CSP_LOOPBACK,
        5,
        1000,
        &[],
        &mut reply,
        None,
    );
    // the reply is the 32-bit free-buffer count
    assert_eq!(r, 4);
    assert_eq!(reply.len(), 4);
}

#[test]
fn transaction_persistent_echoes_and_keeps_the_connection() {
    let mut stack = fresh_stack();
    // a held connection straight to the echo service
    let conn = libcsp::api::csp_connect(
        &mut stack,
        MsgPriority::Normal,
        CSP_LOOPBACK,
        1,
        1000,
        CSP_O_NONE,
    )
    .unwrap();
    let out = [4u8, 5, 6];
    let mut reply: Vec<u8> = Vec::new();
    let r = libcsp::api::csp_transaction_persistent(
        &mut stack, conn, 1000, &out, &mut reply, Some(3),
    );
    assert_eq!(r, 1);
    assert_eq!(reply, vec![4, 5, 6]);
    // the connection survived: a second exchange over it works too
    let out2 = [7u8];
    let mut reply2: Vec<u8> = Vec::new();
    let r2 = libcsp::api::csp_transaction_persistent(
        &mut stack, conn, 1000, &out2, &mut reply2, Some(1),
    );
    assert_eq!(r2, 1);
    assert_eq!(reply2, vec![7]);
    assert!(matches!(stack.conns[conn].state, ConnState::Open));
    assert_eq!(csp_close(&mut stack, conn), Ok(()));
    assert_eq!(stack.pool.in_use, 0);
}

#[test]
fn transaction_with_wrong_expected_length_fails() {
    let mut stack = fresh_stack();
    let out = [9u8, 9];
    let mut reply: Vec<u8> = Vec::new();
    let r = csp_transaction(
        &mut stack,
        MsgPriority::Normal,
        CSP_LOOPBACK,
        1,
        1000,
        &out,
        &mut reply,
        Some(5),
    );
    assert_eq!(r, 0);
}

#[test]
fn uptime_service_reports_seconds() {
    let mut stack = fresh_stack();
    stack.advance_time(5000);
    let mut reply: Vec<u8> = Vec::new();
    let r = csp_transaction(
        &mut stack,
        MsgPriority::Normal,
        CSP_LOOPBACK,
        6,
        1000,
        &[],
        &mut reply,
        None,
    );
    assert_eq!(r, 4);
    assert_eq!(reply, vec![0, 0, 0, 5]);
}

#[test]
fn ping_noreply_consumes_no_buffers_in_the_end() {
    let mut stack = fresh_stack();
    libcsp::api::csp_ping_noreply(&mut stack, CSP_LOOPBACK);
    assert_eq!(stack.pool.in_use, 1);
    // the request is echoed, but nobody waits: the echo is dropped
    assert_eq!(csp_route_work(&mut stack), Ok(()));
    assert_eq!(csp_route_work(&mut stack), Ok(()));
    assert_eq!(stack.pool.in_use, 0);
}

#[test]
fn reboot_requests_are_counted() {
    let mut stack = fresh_stack();
    assert_eq!(stack.reboot_requests, 0);
    csp_reboot(&mut stack, CSP_LOOPBACK);
    assert_eq!(csp_route_work(&mut stack), Ok(()));
    assert_eq!(stack.reboot_requests, 1);
}

#[test]
fn interface_registration_rejects_duplicate_names() {
    let mut stack = fresh_stack();
    let mut first = CspInterface::new(5, true);
    first.name = b"LOOP".to_vec();
    assert_eq!(csp_iflist_add(&mut stack, first), Ok(()));
    let mut dup = CspInterface::new(6, false);
    dup.name = b"LOOP".to_vec();
    assert_eq!(csp_iflist_add(&mut stack, dup), Err(CspError::Used));
    let mut other = CspInterface::new(6, false);
    other.name = b"WIRE".to_vec();
    assert_eq!(csp_iflist_add(&mut stack, other), Ok(()));
    assert_eq!(stack.interfaces.len(), 2);
}

#[test]
fn interface_new_starts_clean() {
    let iface = CspInterface::new(7, true);
    assert_eq!(iface.addr, 7);
    assert!(iface.is_default);
    assert_eq!(iface.tx, 0);
    assert_eq!(iface.rx, 0);
    assert_eq!(iface.dropped, 0);
    assert!(iface.txq.is_empty());
}

#[test]
fn remote_packets_leave_through_the_default_interface() {
    let mut stack = fresh_stack();
    // with no interface there is no route: the packet is dropped and counted
    inject_remote_expect_drop(&mut stack);
    let mut iface = CspInterface::new(5, true);
    iface.name = b"WIRE".to_vec();
    assert_eq!(csp_iflist_add(&mut stack, iface), Ok(()));
    let mut p = csp_buffer_get(&mut stack).unwrap();
    p.id = CspId { pri: 2, flags: 0, src: 5, dst: 9, dport: 12, sport: 40 };
    assert!(p.set_data(&[0xAA, 0xBB]));
    assert!(stack.transmit_packet(p).is_ok());
    assert_eq!(stack.interfaces[0].txq.len(), 1);
    // the frame is the packed 6-byte header followed by the payload
    assert_eq!(stack.interfaces[0].txq[0].bytes.len(), 8);
    assert_eq!(stack.interfaces[0].txq[0].via, 9);
    assert_eq!(stack.interfaces[0].tx, 1);
    assert_eq!(stack.pool.in_use, 0);
}

fn inject_remote_expect_drop(stack: &mut CspStack) {
    let mut p = csp_buffer_get(stack).unwrap();
    p.id = CspId { pri: 2, flags: 0, src: 0, dst: 9, dport: 12, sport: 40 };
    assert!(p.set_data(&[1]));
    assert_eq!(stack.transmit_packet(p), Err(CspError::Tx));
    assert_eq!(stack.dbg_conn_noroute, 1);
}

#[test]
fn connection_introspection_matches_the_open_connection() {
    let mut stack = fresh_stack();
    let conn = libcsp::api::csp_connect(
        &mut stack,
        MsgPriority::Normal,
        CSP_LOOPBACK,
        30,
        1000,
        CSP_O_NONE,
    )
    .unwrap();
    assert_eq!(libcsp::stack::csp_conn_dst(&stack, conn), 0);
    assert_eq!(libcsp::stack::csp_conn_src(&stack, conn), 0);
    assert_eq!(libcsp::stack::csp_conn_sport(&stack, conn), 30);
    assert_eq!(csp_conn_flags_typed(&stack, conn), Some(CSP_O_NONE));
    assert_eq!(libcsp::stack::csp_conn_dport(&stack, 99), -1);
    assert_eq!(csp_conn_flags_typed(&stack, 99), None);
    let _ = csp_close(&mut stack, conn);
    assert_eq!(libcsp::stack::csp_conn_dport(&stack, conn), -1);
}

#[test]
fn accept_skips_a_connection_that_died_while_pending() {
    let mut stack = fresh_stack();
    let sock = stack.socket_create(CSP_O_NONE).unwrap();
    assert_eq!(csp_bind(&mut stack, sock, 10), Ok(()));
    assert_eq!(csp_listen(&mut stack, sock, 4), Ok(()));
    inject(
        &mut stack,
        CspId { pri: 2, flags: 0, src: 0, dst: 0, dport: 10, sport: 21 },
        &[1],
    );
    assert_eq!(csp_route_work(&mut stack), Ok(()));
    // the pending connection dies before anyone accepts it
    let pending = stack.sockets[sock].backlog[0];
    assert_eq!(csp_close(&mut stack, pending), Ok(()));
    assert!(csp_accept(&mut stack, sock, 1000).is_none());
    assert_eq!(stack.sockets[sock].backlog.len(), 0);
}

#[test]
fn socket_close_unbinds_and_clears_the_backlog() {
    let mut stack = fresh_stack();
    let sock = stack.socket_create(CSP_O_NONE).unwrap();
    assert_eq!(csp_bind(&mut stack, sock, 10), Ok(()));
    assert_eq!(csp_listen(&mut stack, sock, 4), Ok(()));
    inject(
        &mut stack,
        CspId { pri: 2, flags: 0, src: 0, dst: 0, dport: 10, sport: 21 },
        &[1],
    );
    assert_eq!(csp_route_work(&mut stack), Ok(()));
    assert_eq!(csp_socket_close(&mut stack, sock), Ok(()));
    assert!(!stack.sockets[sock].bound);
    assert!(csp_accept(&mut stack, sock, 100).is_none());
    // the port can be bound again at once
    let other = stack.socket_create(CSP_O_NONE).unwrap();
    assert_eq!(csp_bind(&mut stack, other, 10), Ok(()));
    assert_eq!(stack.pool.in_use, 0);
}

#[test]
fn connection_table_exhaustion_yields_no_connection() {
    let mut stack = fresh_stack();
    let mut held = Vec::new();
    for _ in 0..8 {
        let c = libcsp::api::csp_connect(
            &mut stack,
            MsgPriority::Normal,
            CSP_LOOPBACK,
            30,
            1000,
            CSP_O_NONE,
        );
        assert!(c.is_some());
        held.push(c.unwrap());
    }
    assert!(libcsp::api::csp_connect(
        &mut stack,
        MsgPriority::Normal,
        CSP_LOOPBACK,
        30,
        1000,
        CSP_O_NONE,
    )
    .is_none());
    let reuse = held.pop().unwrap();
    assert_eq!(csp_close(&mut stack, reuse), Ok(()));
    assert!(libcsp::api::csp_connect(
        &mut stack,
        MsgPriority::Normal,
        CSP_LOOPBACK,
        30,
        1000,
        CSP_O_NONE,
    )
    .is_some());
}

#[test]
fn conn_struct_slots_start_closed() {
    let c = CspConn::empty(16);
    assert!(matches!(c.state, ConnState::Closed));
}
