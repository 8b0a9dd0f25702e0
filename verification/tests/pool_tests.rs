use libcsp::config::Config;
use libcsp::stack::{csp_buffer_free, csp_buffer_get, csp_init};

#[test]
fn config_default_values() {
    let cfg = Config::default();
    assert_eq!(cfg.qfifo_len, 16);
    assert_eq!(cfg.port_max_bind, 16);
    assert_eq!(cfg.conn_rx_queue_len, 16);
    assert_eq!(cfg.conn_max, 8);
    assert_eq!(cfg.buffer_size, 256);
    assert_eq!(cfg.buffer_count, 15);
    assert_eq!(cfg.rdp_max_window, 5);
    assert_eq!(cfg.rtable_size, 10);
    assert!(cfg.rdp && cfg.hmac && cfg.crc32 && cfg.promisc && !cfg.rtable);
    assert!(cfg.is_valid());
}

#[test]
fn init_rejects_bad_config() {
    let mut cfg = Config::default();
    cfg.buffer_count = 0;
    assert!(csp_init(cfg).is_err());
}

#[test]
fn pool_exhaustion_and_recovery() {
    let mut stack = csp_init(Config::default()).unwrap();
    let mut held = Vec::new();
    for _ in 0..15 {
        let p = csp_buffer_get(&mut stack);
        assert!(p.is_some());
        held.push(p.unwrap());
    }
    // the pool is exhausted: allocation reports backpressure, not a fault
    assert!(csp_buffer_get(&mut stack).is_none());
    assert!(csp_buffer_get(&mut stack).is_none());
    assert_eq!(stack.pool.exhaustion_count, 2);
    assert_eq!(stack.pool.in_use, 15);
    // one free makes exactly one buffer available again
    csp_buffer_free(&mut stack, held.pop().unwrap());
    assert_eq!(stack.pool.in_use, 14);
    let again = csp_buffer_get(&mut stack);
    assert!(again.is_some());
    assert!(csp_buffer_get(&mut stack).is_none());
    csp_buffer_free(&mut stack, again.unwrap());
    for p in held {
        csp_buffer_free(&mut stack, p);
    }
    assert_eq!(stack.pool.in_use, 0);
}

#[test]
fn fresh_buffers_are_zeroed() {
    let mut stack = csp_init(Config::default()).unwrap();
    let p = csp_buffer_get(&mut stack).unwrap();
    assert_eq!(p.packet_length(), 0);
    assert_eq!(p.cap, 256);
    assert_eq!(p.id.dst, 0);
    csp_buffer_free(&mut stack, p);
}

#[test]
fn set_data_respects_capacity() {
    let mut stack = csp_init(Config::default()).unwrap();
    let mut p = csp_buffer_get(&mut stack).unwrap();
    let small = [1u8, 2, 3];
    assert!(p.set_data(&small));
    assert_eq!(p.packet_data().as_slice(), &small);
    let big = [0u8; 300];
    assert!(!p.set_data(&big));
    assert_eq!(p.packet_length(), 3);
    csp_buffer_free(&mut stack, p);
}
