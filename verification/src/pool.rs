//! Fixed-capacity packet buffer pool. Allocation never blocks and never
//! grows the pool: when every buffer is out, `allocate` reports exhaustion
//! and the caller must treat it as backpressure. Ownership of the returned
//! packets is the only handle on a buffer, so a buffer can be returned at
//! most once.

use vstd::prelude::*;

use crate::packet::CspPacket;

verus! {

/// One step a client can take against the pool, used to state the
/// conservation law over arbitrary call sequences.
#[derive(Debug, PartialEq, Eq, Copy, Clone, Structural)]
pub enum PoolOp {
    /// One call of `allocate`.
    Allocate,
    /// One call of `free`.
    Free,
}

/// Buffers in use after one operation on a pool with the given capacity.
pub open spec fn spec_pool_step(in_use: nat, capacity: nat, op: PoolOp) -> nat {
    match op {
        PoolOp::Allocate => if in_use < capacity {
            in_use + 1
        } else {
            in_use
        },
        PoolOp::Free => if in_use > 0 {
            (in_use - 1) as nat
        } else {
            in_use
        },
    }
}

/// Buffers in use after a whole sequence of operations.
pub open spec fn spec_pool_run(in_use: nat, capacity: nat, ops: Seq<PoolOp>) -> nat
    decreases ops.len(),
{
    if ops.len() == 0 {
        in_use
    } else {
        spec_pool_run(spec_pool_step(in_use, capacity, ops[0]), capacity, ops.drop_first())
    }
}

/// The fixed-capacity pool. It accounts for buffers; the buffers
/// themselves travel as owned [`CspPacket`] values.
pub struct BufferPool {
    /// Number of buffers the pool was created with.
    pub capacity: u32,
    /// Payload capacity of each buffer in bytes.
    pub data_size: u32,
    /// Number of buffers currently out of the pool.
    pub in_use: u32,
    /// Number of allocations refused because the pool was empty;
    /// diagnostic only, saturating.
    pub exhaustion_count: u32,
}

impl BufferPool {
    /// No more buffers are out than the pool was created with.
    pub open spec fn wf(&self) -> bool {
        self.in_use <= self.capacity
    }

    /// A fresh pool with every buffer available.
    pub fn new(capacity: u32, data_size: u32) -> (r: BufferPool)
        ensures
            r.wf(),
            r.capacity == capacity,
            r.data_size == data_size,
            r.in_use == 0,
            r.exhaustion_count == 0,
    {
        BufferPool { capacity, data_size, in_use: 0, exhaustion_count: 0 }
    }

    /// Take a zeroed buffer out of the pool, or report exhaustion. The
    /// result is `None` exactly when every buffer is already out, and in
    /// that case only the exhaustion counter changes.
    pub fn allocate(&mut self) -> (r: Option<CspPacket>)
        requires
            old(self).wf(),
        ensures
            final(self).wf(),
            final(self).capacity == old(self).capacity,
            final(self).data_size == old(self).data_size,
            r is None <==> old(self).in_use == old(self).capacity,
            r is None ==> final(self).in_use == old(self).in_use,
            r is Some ==> final(self).in_use == old(self).in_use + 1,
            r is Some ==> r->0.wf() && r->0.cap == old(self).data_size
                && r->0.data@.len() == 0,
            r matches Some(p) ==> p.id == (crate::codec::CspId {
                pri: 0,
                flags: 0,
                src: 0,
                dst: 0,
                dport: 0,
                sport: 0,
            }) && p.rdp == (crate::packet::RdpMeta {
                kind: crate::packet::RdpKind::Plain,
                seq: 0,
                ack: 0,
            }),
            final(self).in_use == spec_pool_step(
                old(self).in_use as nat,
                old(self).capacity as nat,
                PoolOp::Allocate,
            ),
            r is Some ==> final(self).exhaustion_count == old(self).exhaustion_count,
            // a refused allocation is counted, and nothing else changes,
            // so allocation keeps failing until a free makes room
            r is None ==> final(self).exhaustion_count == (
            if old(self).exhaustion_count < u32::MAX {
                old(self).exhaustion_count + 1
            } else {
                u32::MAX as int
            }),
    {
        if self.in_use == self.capacity {
            if self.exhaustion_count < u32::MAX {
                self.exhaustion_count = self.exhaustion_count + 1;
            }
            None
        } else {
            self.in_use = self.in_use + 1;
            Some(CspPacket::zeroed(self.data_size))
        }
    }

    /// Return a buffer to the pool. The packet is consumed, so the same
    /// buffer cannot be returned twice.
    pub fn free(&mut self, packet: CspPacket) -> (freed: bool)
        ensures
            final(self).capacity == old(self).capacity,
            final(self).data_size == old(self).data_size,
            final(self).exhaustion_count == old(self).exhaustion_count,
            freed == (old(self).in_use > 0),
            final(self).in_use == spec_pool_step(
                old(self).in_use as nat,
                old(self).capacity as nat,
                PoolOp::Free,
            ),
            old(self).wf() ==> final(self).wf(),
    {
        let _ = packet;
        if self.in_use > 0 {
            self.in_use = self.in_use - 1;
            true
        } else {
            false
        }
    }

    /// Number of buffers still available.
    pub fn free_count(&self) -> (r: u32)
        requires
            self.wf(),
        ensures
            r == self.capacity - self.in_use,
    {
        self.capacity - self.in_use
    }
}

/// Pool conservation: starting within capacity, no sequence of allocate
/// and free operations ever drives the number of buffers in use above the
/// pool's capacity.
pub proof fn lemma_pool_conservation(in_use: nat, capacity: nat, ops: Seq<PoolOp>)
    requires
        in_use <= capacity,
    ensures
        spec_pool_run(in_use, capacity, ops) <= capacity,
    decreases ops.len(),
{
    if ops.len() > 0 {
        lemma_pool_conservation(
            spec_pool_step(in_use, capacity, ops[0]),
            capacity,
            ops.drop_first(),
        );
    }
}

/// An allocation refused by a full pool stays refused until a free: the
/// allocate step leaves a full pool full, and only a free step lowers the
/// count below capacity.
pub proof fn lemma_pool_exhaustion_stable(capacity: nat, ops: Seq<PoolOp>)
    requires
        forall|i: int| 0 <= i < ops.len() ==> ops[i] == PoolOp::Allocate,
    ensures
        spec_pool_run(capacity, capacity, ops) == capacity,
    decreases ops.len(),
{
    if ops.len() > 0 {
        lemma_pool_exhaustion_stable(capacity, ops.drop_first());
    }
}

} // verus!
