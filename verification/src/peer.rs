use vstd::prelude::*;

verus! {

/// Identifier of one authority node: a fixed 256-bit name, held as two
/// machine words. `hi` holds the first sixteen bytes of the name read as a
/// big-endian integer, `lo` the last sixteen, so the order defined below
/// agrees with the lexicographic order of the underlying byte string.
#[derive(Clone, Copy, PartialEq, Eq, Structural, Hash, Debug)]
pub struct PeerId {
    pub hi: u128,
    pub lo: u128,
}

impl PeerId {
    /// Strict total order on identifiers: big-endian numeric order.
    pub open spec fn lt_spec(self, other: PeerId) -> bool {
        self.hi < other.hi || (self.hi == other.hi && self.lo < other.lo)
    }

    pub fn lt(&self, other: &PeerId) -> (r: bool)
        ensures
            r == self.lt_spec(*other),
    {
        self.hi < other.hi || (self.hi == other.hi && self.lo < other.lo)
    }
}

/// A reachable network endpoint: an IP address (a v4 address sits in the low
/// 32 bits with `v6` false) and a port.
#[derive(Clone, Copy, PartialEq, Eq, Structural, Hash, Debug)]
pub struct NodeAddr {
    pub ip: u128,
    pub port: u16,
    pub v6: bool,
}

/// When a node sends to its own externally visible address, the message is
/// redirected to the local one, so that a node never connects to itself
/// through the outside network.
pub fn resolve_send_addr(dest: &NodeAddr, public_addr: &NodeAddr, local_addr: &NodeAddr) -> (r: NodeAddr)
    ensures
        *dest == *public_addr ==> r == *local_addr,
        *dest != *public_addr ==> r == *dest,
{
    if *dest == *public_addr {
        *local_addr
    } else {
        *dest
    }
}

} // verus!
