//! A small-satellite inter-process communication protocol stack:
//! socket and connection lifecycle, a FIFO router over registered
//! interfaces, a fixed-capacity packet buffer pool, a compact binary
//! header codec, a reliable-datagram (RDP) layer, and built-in service
//! responders, all with machine-checked contracts.

pub mod api;
pub mod clock;
pub mod codec;
pub mod codes;
pub mod config;
pub mod conn;
pub mod iface;
pub mod packet;
pub mod pool;
pub mod queue;
pub mod rdp;
pub mod router;
pub mod stack;

use vstd::prelude::*;

verus! {

/// Wildcard port: a socket bound to this port receives every packet whose
/// destination port no other socket claims.
pub const CSP_ANY: u8 = 255;

/// Address of the local node itself; packets sent here are routed back in.
pub const CSP_LOOPBACK: u16 = 0;

} // verus!
