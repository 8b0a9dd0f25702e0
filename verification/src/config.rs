//! Immutable configuration of the stack, fixed once at initialization:
//! buffer pool geometry, table sizes, queue depths and feature toggles.

use vstd::prelude::*;

verus! {

/// Build-time configuration of the protocol stack. The stack copies the
/// configuration at initialization and never changes it afterwards.
#[derive(Debug, Clone, Copy, PartialEq, Eq, Structural)]
pub struct Config {
    /// Capacity of the single ingress FIFO feeding the router.
    pub qfifo_len: u32,
    /// Maximum number of ports that sockets may bind at one time.
    pub port_max_bind: u32,
    /// Depth of each connection's (and connectionless socket's) receive queue.
    pub conn_rx_queue_len: u32,
    /// Number of slots in the connection table.
    pub conn_max: u32,
    /// Payload capacity of one packet buffer in bytes.
    pub buffer_size: u32,
    /// Number of packet buffers in the pool.
    pub buffer_count: u32,
    /// Largest sliding window the reliable-datagram layer may use.
    pub rdp_max_window: u32,
    /// Number of entries in the routing table.
    pub rtable_size: u32,
    /// Whether the reliable-datagram layer is available.
    pub rdp: bool,
    /// Whether HMAC integrity checking is available.
    pub hmac: bool,
    /// Whether CRC32 integrity checking is available.
    pub crc32: bool,
    /// Whether interfaces may be put in promiscuous mode.
    pub promisc: bool,
    /// Whether the explicit routing table is used for egress selection.
    pub rtable: bool,
    /// Whether headers use the legacy 4-byte wire layout instead of the
    /// current 6-byte one.
    pub legacy_header: bool,
}

impl Config {
    /// A configuration the stack can actually run with: every capacity is
    /// positive, payloads fit the 16-bit length field, and the window is
    /// small enough for sequence-number arithmetic to stay unambiguous.
    pub open spec fn wf(&self) -> bool {
        &&& 1 <= self.qfifo_len <= 4096
        &&& 1 <= self.port_max_bind <= 256
        &&& 1 <= self.conn_rx_queue_len <= 4096
        &&& 1 <= self.conn_max <= 1024
        &&& 1 <= self.buffer_size <= 65535
        &&& 1 <= self.buffer_count <= 65535
        &&& 1 <= self.rdp_max_window <= 1024
        &&& 1 <= self.rtable_size <= 1024
        &&& self.rdp_max_window <= self.conn_rx_queue_len
    }

    /// Whether this configuration is usable, decided at run time.
    pub fn is_valid(&self) -> (r: bool)
        ensures
            r == self.wf(),
    {
        1 <= self.qfifo_len && self.qfifo_len <= 4096
            && 1 <= self.port_max_bind && self.port_max_bind <= 256
            && 1 <= self.conn_rx_queue_len && self.conn_rx_queue_len <= 4096
            && 1 <= self.conn_max && self.conn_max <= 1024
            && 1 <= self.buffer_size && self.buffer_size <= 65535
            && 1 <= self.buffer_count && self.buffer_count <= 65535
            && 1 <= self.rdp_max_window && self.rdp_max_window <= 1024
            && 1 <= self.rtable_size && self.rtable_size <= 1024
            && self.rdp_max_window <= self.conn_rx_queue_len
    }
}

impl Default for Config {
    /// The stock configuration: a 16-deep router FIFO, 16 bindable ports,
    /// 16-deep receive queues, 8 connections, 15 buffers of 256 bytes, a
    /// reliable-datagram window of 5 and a 10-entry routing table.
    fn default() -> (r: Self)
        ensures
            r.qfifo_len == 16,
            r.port_max_bind == 16,
            r.conn_rx_queue_len == 16,
            r.conn_max == 8,
            r.buffer_size == 256,
            r.buffer_count == 15,
            r.rdp_max_window == 5,
            r.rtable_size == 10,
            r.rdp && r.hmac && r.crc32 && r.promisc && !r.rtable,
            !r.legacy_header,
            r.wf(),
    {
        Config {
            qfifo_len: 16,
            port_max_bind: 16,
            conn_rx_queue_len: 16,
            conn_max: 8,
            buffer_size: 256,
            buffer_count: 15,
            rdp_max_window: 5,
            rtable_size: 10,
            rdp: true,
            hmac: true,
            crc32: true,
            promisc: true,
            rtable: false,
            legacy_header: false,
        }
    }
}

} // verus!
