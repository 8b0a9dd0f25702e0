//! The packet buffer: a header identifier, reliable-datagram metadata and
//! a bounded payload. Packets are moved, never aliased: at any time exactly
//! one holder (pool, router, queue or application) owns a given packet.

use vstd::prelude::*;

use crate::codec::CspId;

verus! {

/// Role of a packet within the reliable-datagram exchange.
#[derive(Debug, PartialEq, Eq, Copy, Clone, Structural)]
pub enum RdpKind {
    /// Not a reliable-datagram segment.
    Plain,
    /// Connection request of the active opener.
    Syn,
    /// Acknowledged connection request of the passive opener.
    SynAck,
    /// Bare acknowledgment carrying no payload.
    Ack,
    /// Payload-carrying segment with a sequence number.
    Data,
    /// Reset announcing that the sender tore the connection down.
    Rst,
}

/// Reliable-datagram metadata attached to a packet.
#[derive(Debug, PartialEq, Eq, Copy, Clone, Structural)]
pub struct RdpMeta {
    /// Segment role.
    pub kind: RdpKind,
    /// Sequence number of this segment.
    pub seq: u16,
    /// Highest in-order sequence number the sender has received.
    pub ack: u16,
}

impl RdpMeta {
    /// Metadata of a packet that takes no part in the reliable layer.
    pub fn plain() -> (r: RdpMeta)
        ensures
            r.kind == RdpKind::Plain,
            r.seq == 0,
            r.ack == 0,
    {
        RdpMeta { kind: RdpKind::Plain, seq: 0, ack: 0 }
    }
}

/// One packet buffer.
pub struct CspPacket {
    /// Header identifier: priority, flags, addresses and ports.
    pub id: CspId,
    /// Reliable-datagram metadata; plain for ordinary traffic.
    pub rdp: RdpMeta,
    /// Payload bytes; the length of this vector is the packet length.
    pub data: Vec<u8>,
    /// Payload capacity in bytes, fixed when the buffer is created.
    pub cap: u32,
}

impl CspPacket {
    /// The payload fits the buffer's fixed capacity.
    pub open spec fn wf(&self) -> bool {
        self.data@.len() <= self.cap
    }

    /// A zeroed buffer of the given payload capacity.
    pub fn zeroed(cap: u32) -> (r: CspPacket)
        ensures
            r.wf(),
            r.cap == cap,
            r.data@.len() == 0,
            r.id == (CspId { pri: 0, flags: 0, src: 0, dst: 0, dport: 0, sport: 0 }),
            r.rdp == (RdpMeta { kind: RdpKind::Plain, seq: 0, ack: 0 }),
    {
        CspPacket {
            id: CspId { pri: 0, flags: 0, src: 0, dst: 0, dport: 0, sport: 0 },
            rdp: RdpMeta::plain(),
            data: Vec::new(),
            cap,
        }
    }

    /// A zeroed buffer with the stock payload capacity of 256 bytes.
    pub fn new() -> (r: CspPacket)
        ensures
            r.wf(),
            r.cap == 256,
            r.data@.len() == 0,
            r.id == (CspId { pri: 0, flags: 0, src: 0, dst: 0, dport: 0, sport: 0 }),
            r.rdp == (RdpMeta { kind: RdpKind::Plain, seq: 0, ack: 0 }),
    {
        CspPacket::zeroed(256)
    }

    /// Length of the payload currently held.
    pub fn packet_length(&self) -> (r: usize)
        ensures
            r == self.data@.len(),
    {
        self.data.len()
    }

    /// Read access to the payload.
    pub fn packet_data(&self) -> (r: &Vec<u8>)
        ensures
            r@ == self.data@,
    {
        &self.data
    }

    /// An identical packet in a fresh buffer, used by the reliable layer
    /// to keep a retransmission copy of a segment in flight.
    pub fn duplicate(&self) -> (r: CspPacket)
        ensures
            r.id == self.id,
            r.rdp == self.rdp,
            r.data@ == self.data@,
            r.cap == self.cap,
            self.wf() ==> r.wf(),
    {
        CspPacket { id: self.id, rdp: self.rdp, data: copy_bytes(&self.data), cap: self.cap }
    }

    /// Replace the payload with a copy of the given bytes. Returns false
    /// and leaves the packet unchanged when the bytes exceed the buffer's
    /// capacity.
    pub fn set_data(&mut self, bytes: &[u8]) -> (ok: bool)
        ensures
            ok == (bytes@.len() <= old(self).cap),
            ok ==> final(self).data@ == bytes@,
            !ok ==> *final(self) == *old(self),
            final(self).cap == old(self).cap,
            final(self).id == old(self).id,
            final(self).rdp == old(self).rdp,
            old(self).wf() ==> final(self).wf(),
    {
        if bytes.len() > self.cap as usize {
            return false;
        }
        self.data = copy_byte_slice(bytes);
        true
    }
}

/// A fresh vector holding the same bytes as the given slice.
pub fn copy_byte_slice(bytes: &[u8]) -> (r: Vec<u8>)
    ensures
        r@ == bytes@,
{
    let mut copied: Vec<u8> = Vec::new();
    let mut i: usize = 0;
    while i < bytes.len()
        invariant
            i <= bytes@.len(),
            copied@ == bytes@.subrange(0, i as int),
        decreases bytes@.len() - i,
    {
        copied.push(bytes[i]);
        i = i + 1;
        proof {
            assert(copied@ =~= bytes@.subrange(0, i as int));
        }
    }
    proof {
        assert(copied@ =~= bytes@);
    }
    copied
}

/// A fresh vector holding the same bytes as the given vector.
pub fn copy_bytes(bytes: &Vec<u8>) -> (r: Vec<u8>)
    ensures
        r@ == bytes@,
{
    copy_byte_slice(bytes.as_slice())
}

} // verus!
