//! Bounded first-in-first-out packet queue, the building block of the
//! router's ingress FIFO, per-connection receive queues and socket
//! backlogs. A full queue refuses new packets instead of growing.

use vstd::prelude::*;

use crate::packet::CspPacket;

verus! {

/// A bounded FIFO of owned packets.
pub struct PacketQueue {
    /// The queued packets, oldest first.
    pub items: Vec<CspPacket>,
    /// Bound on the number of queued packets.
    pub cap: usize,
}

impl PacketQueue {
    /// The queued packets, oldest first.
    pub open spec fn view(&self) -> Seq<CspPacket> {
        self.items@
    }

    /// The bound the queue was created with.
    pub open spec fn spec_cap(&self) -> nat {
        self.cap as nat
    }

    /// Never more packets than the bound.
    pub open spec fn wf(&self) -> bool {
        self.items@.len() <= self.cap
    }

    /// An empty queue with the given bound.
    pub fn new(cap: usize) -> (r: PacketQueue)
        ensures
            r.wf(),
            r@ == Seq::<CspPacket>::empty(),
            r.spec_cap() == cap,
    {
        PacketQueue { items: Vec::new(), cap }
    }

    /// Number of packets queued.
    pub fn len(&self) -> (r: usize)
        ensures
            r == self@.len(),
    {
        self.items.len()
    }

    /// Bound of this queue.
    pub fn capacity(&self) -> (r: usize)
        ensures
            r == self.spec_cap(),
    {
        self.cap
    }

    /// Whether the queue holds nothing.
    pub fn is_empty(&self) -> (r: bool)
        ensures
            r == (self@.len() == 0),
    {
        self.items.is_empty()
    }

    /// Whether the queue is at its bound.
    pub fn is_full(&self) -> (r: bool)
        ensures
            r == (self@.len() >= self.spec_cap()),
    {
        self.items.len() >= self.cap
    }

    /// Append a packet at the tail. A full queue hands the packet back
    /// unchanged instead of growing.
    pub fn enqueue(&mut self, packet: CspPacket) -> (rejected: Option<CspPacket>)
        requires
            old(self).wf(),
        ensures
            final(self).wf(),
            final(self).spec_cap() == old(self).spec_cap(),
            old(self)@.len() < old(self).spec_cap() ==> {
                &&& rejected is None
                &&& final(self)@ == old(self)@.push(packet)
            },
            old(self)@.len() >= old(self).spec_cap() ==> {
                &&& rejected == Some(packet)
                &&& final(self)@ == old(self)@
            },
    {
        if self.items.len() >= self.cap {
            Some(packet)
        } else {
            self.items.push(packet);
            None
        }
    }

    /// Empty the queue, handing every packet back, oldest first.
    pub fn drain_all(&mut self) -> (r: Vec<CspPacket>)
        requires
            old(self).wf(),
        ensures
            final(self).wf(),
            final(self).spec_cap() == old(self).spec_cap(),
            final(self)@.len() == 0,
            r@ == old(self)@,
    {
        let mut out: Vec<CspPacket> = Vec::new();
        proof {
            assert(out@ + self@ =~= old(self)@);
        }
        loop
            invariant
                self.wf(),
                self.spec_cap() == old(self).spec_cap(),
                out@ + self@ == old(self)@,
            ensures
                self@.len() == 0,
                out@ + self@ == old(self)@,
            decreases self@.len(),
        {
            match self.dequeue() {
                Some(p) => {
                    out.push(p);
                    proof {
                        assert(out@ + self@ =~= old(self)@);
                    }
                },
                None => {
                    break;
                },
            }
        }
        proof {
            assert(out@ =~= out@ + self@);
        }
        out
    }

    /// Remove and return the oldest packet, or nothing when empty.
    pub fn dequeue(&mut self) -> (r: Option<CspPacket>)
        requires
            old(self).wf(),
        ensures
            final(self).wf(),
            final(self).spec_cap() == old(self).spec_cap(),
            old(self)@.len() == 0 ==> r is None && final(self)@ == old(self)@,
            old(self)@.len() > 0 ==> {
                &&& r == Some(old(self)@[0])
                &&& final(self)@ == old(self)@.drop_first()
            },
    {
        if self.items.is_empty() {
            None
        } else {
            let p = self.items.remove(0);
            proof {
                assert(self.items@ =~= old(self)@.drop_first());
            }
            Some(p)
        }
    }
}

} // verus!
