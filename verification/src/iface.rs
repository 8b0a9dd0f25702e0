//! Network interfaces: the address, netmask and traffic counters of each
//! medium, and the frames awaiting the medium's transmit hook. Interfaces
//! are registered once and live as long as the stack.

use vstd::prelude::*;

verus! {

/// A frame handed to an interface for transmission: the packed header
/// bytes followed by the payload, and the address of the next hop.
pub struct OutFrame {
    /// Address the frame should be forwarded to next.
    pub via: u16,
    /// Wire bytes: packed header followed by the payload.
    pub bytes: Vec<u8>,
}

/// One network interface.
pub struct CspInterface {
    /// Host address on this interface's subnet.
    pub addr: u16,
    /// Subnet mask width in bits.
    pub netmask: u16,
    /// Interface name; registration rejects duplicates.
    pub name: Vec<u8>,
    /// Whether the interface serves as a default route.
    pub is_default: bool,
    /// Successfully transmitted packets.
    pub tx: u32,
    /// Successfully received packets.
    pub rx: u32,
    /// Transmit errors.
    pub tx_error: u32,
    /// Receive errors.
    pub rx_error: u32,
    /// Packets dropped on this interface.
    pub dropped: u32,
    /// Authentication failures.
    pub autherr: u32,
    /// Frame format errors.
    pub frame: u32,
    /// Transmitted bytes.
    pub txbytes: u32,
    /// Received bytes.
    pub rxbytes: u32,
    /// Frames awaiting the medium's transmit function, oldest first.
    pub txq: Vec<OutFrame>,
}

impl CspInterface {
    /// A fresh interface with the given host address, zeroed counters,
    /// an empty name and an empty transmit queue.
    pub fn new(host_addr: u16, is_default: bool) -> (r: CspInterface)
        ensures
            r.addr == host_addr,
            r.is_default == is_default,
            r.netmask == 0,
            r.name@ == Seq::<u8>::empty(),
            r.tx == 0 && r.rx == 0 && r.tx_error == 0 && r.rx_error == 0,
            r.dropped == 0 && r.autherr == 0 && r.frame == 0,
            r.txbytes == 0 && r.rxbytes == 0,
            r.txq@.len() == 0,
    {
        CspInterface {
            addr: host_addr,
            netmask: 0,
            name: Vec::new(),
            is_default,
            tx: 0,
            rx: 0,
            tx_error: 0,
            rx_error: 0,
            dropped: 0,
            autherr: 0,
            frame: 0,
            txbytes: 0,
            rxbytes: 0,
            txq: Vec::new(),
        }
    }
}

/// Whether two byte strings hold the same bytes.
pub fn bytes_equal(a: &Vec<u8>, b: &Vec<u8>) -> (r: bool)
    ensures
        r == (a@ == b@),
{
    if a.len() != b.len() {
        proof {
            assert(a@.len() != b@.len());
        }
        return false;
    }
    let mut i: usize = 0;
    while i < a.len()
        invariant
            i <= a@.len(),
            a@.len() == b@.len(),
            forall|k: int| 0 <= k < i ==> a@[k] == b@[k],
        decreases a@.len() - i,
    {
        if a[i] != b[i] {
            return false;
        }
        i = i + 1;
    }
    proof {
        assert(a@ =~= b@);
    }
    true
}

} // verus!
