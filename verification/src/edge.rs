//! A packed edge: port index and target-agent index in one word, the
//! dense encoding variant of a wire endpoint (two bits of port, thirty
//! bits of pointer).

use vstd::prelude::*;

verus! {

/// A wire endpoint packed into 32 bits: the low two bits are the port,
/// the rest the agent index.
#[derive(Debug, Copy, Clone, PartialEq, Eq, Structural)]
pub struct Edge(pub u32);

impl Edge {
    /// Pack `port` (two bits kept) and `ptr` (thirty bits kept).
    pub fn new(port: u8, ptr: usize) -> (r: Edge)
        ensures
            r.0 == ((port & 3) as u32 | ((ptr << 2) as u32)),
            ptr < 0x4000_0000 ==> r.ptr_spec() == ptr,
            port < 4 && ptr < 0x4000_0000 ==> r.port_spec() == port,
    {
        let masked_port = (port & 0x03) as u32;
        let shifted_ptr = (ptr << 2) as u32;
        let r = Edge(masked_port | shifted_ptr);
        proof {
            assert(ptr < 0x4000_0000 ==> (((port & 3) as u32 | ((ptr << 2) as u32)) >> 2)
                == ptr as u32) by (bit_vector);
            assert(port < 4 && ptr < 0x4000_0000 ==> (((port & 3) as u32 | ((ptr
                << 2) as u32)) & 3) == port as u32) by (bit_vector);
        }
        r
    }

    /// The port index held in the low two bits.
    pub open spec fn port_spec(self) -> u32 {
        self.0 & 3
    }

    /// The agent index held in the high thirty bits.
    pub open spec fn ptr_spec(self) -> u32 {
        self.0 >> 2
    }

    /// The port index of this endpoint.
    pub fn port(&self) -> (r: usize)
        ensures
            r == self.port_spec(),
            r < 4,
    {
        let Edge(data) = self;
        proof {
            assert((*data & 3) < 4) by (bit_vector);
        }
        (*data & 0x00_00_00_03) as usize
    }

    /// The agent index of this endpoint.
    pub fn ptr(&self) -> (r: usize)
        ensures
            r == self.ptr_spec(),
            r < 0x4000_0000,
    {
        let Edge(data) = self;
        proof {
            assert((*data >> 2) < 0x4000_0000u32) by (bit_vector);
        }
        (*data >> 2) as usize
    }
}

} // verus!
