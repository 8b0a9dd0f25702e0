use libcsp::codes::{ConnState, MsgPriority, RdpState, CSP_O_RDP};
use libcsp::config::Config;
use libcsp::packet::{CspPacket, RdpKind, RdpMeta};
use libcsp::queue::PacketQueue;
use libcsp::rdp::{seq_dist, seq_next, RdpConn};
use libcsp::router::csp_route_work;
use libcsp::stack::{csp_bind, csp_buffer_get, csp_init, csp_listen, csp_read, csp_send, CspStack};
use libcsp::CSP_LOOPBACK;

fn open_machine(window: u32) -> RdpConn {
    let mut m = RdpConn::open_active(100, window, 10000, 1000, 4, 250, 0);
    assert!(matches!(m.state, RdpState::SynSent));
    assert!(m.on_syn_ack(7, 100, 0));
    assert!(matches!(m.state, RdpState::Open));
    m
}

fn data_packet(seq: u16, body: u8) -> CspPacket {
    let mut p = CspPacket::new();
    p.rdp = RdpMeta { kind: RdpKind::Data, seq, ack: 0 };
    assert!(p.set_data(&[body]));
    p
}

#[test]
fn sequence_numbers_wrap() {
    assert_eq!(seq_next(0), 1);
    assert_eq!(seq_next(65535), 0);
    assert_eq!(seq_dist(65535, 2), 3);
    assert_eq!(seq_dist(5, 5), 0);
    assert_eq!(seq_dist(5, 9), 4);
}

#[test]
fn window_bounds_segments_in_flight() {
    let mut m = open_machine(2);
    assert!(m.can_send());
    let seq1 = m.snd_nxt;
    m.record_sent(data_packet(seq1, 1), 0);
    assert!(m.can_send());
    let seq2 = m.snd_nxt;
    m.record_sent(data_packet(seq2, 2), 0);
    assert!(!m.can_send());
    assert_eq!(m.tx_pending.len(), 2);
    // acknowledging the first segment frees exactly one window slot
    let released = m.on_ack(seq1, 5);
    assert_eq!(released.len(), 1);
    assert!(m.can_send());
    assert_eq!(m.snd_una, seq2);
}

#[test]
fn retransmission_then_connection_timeout() {
    let mut m = open_machine(5);
    let seq = m.snd_nxt;
    m.record_sent(data_packet(seq, 9), 0);
    // an acknowledgment withheld past the packet timeout forces a
    // retransmission of the segment
    let first = m.tick(1000);
    assert!(!first.timed_out);
    assert_eq!(first.retransmit.len(), 1);
    assert_eq!(first.retransmit[0].rdp.seq, seq);
    assert_eq!(first.retransmit[0].packet_data().as_slice(), &[9]);
    assert_eq!(m.tx_pending[0].retries, 1);
    // still within the connection timeout: the machine keeps trying
    let second = m.tick(9999);
    assert!(!second.timed_out);
    assert!(matches!(m.state, RdpState::Open));
    // beyond the connection timeout the machine gives up and closes
    let third = m.tick(10000);
    assert!(third.timed_out);
    assert!(matches!(m.state, RdpState::Closed));
}

#[test]
fn out_of_order_segments_are_delivered_in_sequence() {
    let mut m = open_machine(5);
    let mut rxq = PacketQueue::new(16);
    // rcv_cur is 7 after the handshake; segment 9 arrives early
    let early = m.accept_data(data_packet(9, 2), &mut rxq, 0);
    assert!(early.ack_now);
    assert_eq!(rxq.len(), 0);
    // segment 8 fills the gap: both are delivered, in order
    let fill = m.accept_data(data_packet(8, 1), &mut rxq, 0);
    assert!(fill.freed.is_empty());
    let a = rxq.dequeue().unwrap();
    let b = rxq.dequeue().unwrap();
    assert_eq!(a.rdp.seq, 8);
    assert_eq!(a.packet_data().as_slice(), &[1]);
    assert_eq!(b.rdp.seq, 9);
    assert_eq!(b.packet_data().as_slice(), &[2]);
    assert_eq!(m.rcv_cur, 9);
}

#[test]
fn duplicate_segments_are_discarded() {
    let mut m = open_machine(5);
    let mut rxq = PacketQueue::new(16);
    let first = m.accept_data(data_packet(8, 1), &mut rxq, 0);
    assert!(first.freed.is_empty());
    // the same segment again is a duplicate: discarded, re-acknowledged
    let dup = m.accept_data(data_packet(8, 1), &mut rxq, 0);
    assert_eq!(dup.freed.len(), 1);
    assert!(dup.ack_now);
    assert_eq!(rxq.len(), 1);
}

#[test]
fn two_sided_close() {
    let mut m = open_machine(5);
    assert!(!m.close_request(false));
    assert!(matches!(m.state, RdpState::CloseWait));
    assert!(m.close_request(true));
    assert!(matches!(m.state, RdpState::Closed));
}

fn rdp_pair(stack: &mut CspStack) -> (usize, usize, usize) {
    let sock = stack.socket_create(0).unwrap();
    assert_eq!(csp_bind(stack, sock, 20), Ok(()));
    assert_eq!(csp_listen(stack, sock, 4), Ok(()));
    let client = libcsp::api::csp_connect(
        stack,
        MsgPriority::Normal,
        CSP_LOOPBACK,
        20,
        1000,
        CSP_O_RDP,
    )
    .unwrap();
    let server = libcsp::stack::csp_accept(stack, sock, 1000).unwrap();
    assert!(matches!(stack.conns[client].rdp.as_ref().unwrap().state, RdpState::Open));
    assert!(matches!(stack.conns[server].rdp.as_ref().unwrap().state, RdpState::Open));
    (sock, client, server)
}

#[test]
fn reliable_handshake_completes_over_loopback() {
    let mut stack = csp_init(Config::default()).unwrap();
    let (_, client, server) = rdp_pair(&mut stack);
    assert!(matches!(stack.conns[client].state, ConnState::Open));
    assert!(matches!(stack.conns[server].state, ConnState::Open));
}

#[test]
fn reliable_data_arrives_in_order_despite_reordering() {
    let mut stack = csp_init(Config::default()).unwrap();
    let (_, client, server) = rdp_pair(&mut stack);
    let next = stack.conns[client].rdp.as_ref().unwrap().snd_nxt;
    let id_out = stack.conns[client].id_out;
    // two segments arrive in the wrong order, within the window
    let mut hi = csp_buffer_get(&mut stack).unwrap();
    hi.id = id_out;
    hi.rdp = RdpMeta { kind: RdpKind::Data, seq: next.wrapping_add(1), ack: 0 };
    assert!(hi.set_data(&[2]));
    assert!(stack.transmit_packet(hi).is_ok());
    for _ in 0..4 {
        let _ = csp_route_work(&mut stack);
    }
    // the early segment is held, not delivered
    assert!(csp_read(&mut stack, server, 100).is_none());
    let mut lo = csp_buffer_get(&mut stack).unwrap();
    lo.id = id_out;
    lo.rdp = RdpMeta { kind: RdpKind::Data, seq: next, ack: 0 };
    assert!(lo.set_data(&[1]));
    assert!(stack.transmit_packet(lo).is_ok());
    for _ in 0..4 {
        let _ = csp_route_work(&mut stack);
    }
    // the gap filled: reads yield both segments in sequence order
    let a = csp_read(&mut stack, server, 100).unwrap();
    let b = csp_read(&mut stack, server, 100).unwrap();
    assert_eq!(a.rdp.seq, next);
    assert_eq!(a.packet_data().as_slice(), &[1]);
    assert_eq!(b.rdp.seq, next.wrapping_add(1));
    assert_eq!(b.packet_data().as_slice(), &[2]);
    libcsp::stack::csp_buffer_free(&mut stack, a);
    libcsp::stack::csp_buffer_free(&mut stack, b);
}

#[test]
fn withheld_acknowledgment_triggers_retransmission() {
    let mut stack = csp_init(Config::default()).unwrap();
    let (_, client, server) = rdp_pair(&mut stack);
    let mut p = csp_buffer_get(&mut stack).unwrap();
    assert!(p.set_data(&[5]));
    assert_eq!(csp_send(&mut stack, client, p), Ok(()));
    assert_eq!(csp_route_work(&mut stack), Ok(()));
    // delivered to the server, but the delayed acknowledgment has not
    // gone out: the segment stays in flight
    assert_eq!(stack.conns[client].rdp.as_ref().unwrap().tx_pending.len(), 1);
    assert_eq!(stack.conns[client].rdp.as_ref().unwrap().tx_pending[0].retries, 0);
    // past the packet timeout the sender retransmits at least once
    stack.advance_time(1001);
    let _ = csp_route_work(&mut stack);
    assert!(stack.conns[client].rdp.as_ref().unwrap().tx_pending[0].retries >= 1);
    // once acknowledgments flow again the segment is released
    for _ in 0..6 {
        let _ = csp_route_work(&mut stack);
    }
    assert_eq!(stack.conns[client].rdp.as_ref().unwrap().tx_pending.len(), 0);
    // the server read the payload exactly once
    let got = csp_read(&mut stack, server, 100).unwrap();
    assert_eq!(got.packet_data().as_slice(), &[5]);
    assert!(csp_read(&mut stack, server, 100).is_none());
    libcsp::stack::csp_buffer_free(&mut stack, got);
}

#[test]
fn closing_one_side_resets_the_peer() {
    let mut stack = csp_init(Config::default()).unwrap();
    let (_, client, server) = rdp_pair(&mut stack);
    assert_eq!(libcsp::stack::csp_close(&mut stack, client), Ok(()));
    // the reset reaches the peer through the router
    let _ = csp_route_work(&mut stack);
    let _ = csp_route_work(&mut stack);
    assert!(matches!(stack.conns[server].state, ConnState::Closed));
    assert!(csp_read(&mut stack, server, 1000).is_none());
    assert_eq!(stack.pool.in_use, 0);
}

#[test]
fn reliable_window_refuses_overfill() {
    let mut stack = csp_init(Config::default()).unwrap();
    let (_, client, _server) = rdp_pair(&mut stack);
    // the default window is 5: five unacknowledged sends fit, the sixth
    // is refused as backpressure
    for i in 0..5 {
        let mut p = csp_buffer_get(&mut stack).unwrap();
        assert!(p.set_data(&[i]));
        assert_eq!(csp_send(&mut stack, client, p), Ok(()));
    }
    let mut extra = csp_buffer_get(&mut stack).unwrap();
    assert!(extra.set_data(&[9]));
    assert_eq!(
        csp_send(&mut stack, client, extra),
        Err(libcsp::codes::CspError::Again)
    );
}
