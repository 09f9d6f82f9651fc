//! The three buses between the CPU and main memory.

use vstd::prelude::*;

verus! {

/// 48-bit address bus.
pub struct AddressBus {
    pub bits: [bool; 48],
}

impl Default for AddressBus {
    fn default() -> (r: Self)
        ensures
            r.bits@ == crate::bits::zero_bits(48),
    {
        let r = AddressBus { bits: [false; 48] };
        proof {
            assert(r.bits@ =~= crate::bits::zero_bits(48));
        }
        r
    }
}

/// 64-bit data bus.
pub struct DataBus {
    pub bits: [bool; 64],
}

impl Default for DataBus {
    fn default() -> (r: Self)
        ensures
            r.bits@ == crate::bits::zero_bits(64),
    {
        let r = DataBus { bits: [false; 64] };
        proof {
            assert(r.bits@ =~= crate::bits::zero_bits(64));
        }
        r
    }
}

/// Control bus: request, reply, store and bus-arbitration flags.
pub struct ControlBus {
    /// The CPU has placed a request.
    pub ready_memory: bool,
    /// The memory has placed a reply.
    pub ready_cpu: bool,
    /// True for a store request, false for a load.
    pub str: bool,
    /// Mutual-exclusion flag for bus access.
    pub lock: bool,
}

impl Default for ControlBus {
    fn default() -> (r: Self)
        ensures
            !r.ready_memory && !r.ready_cpu && !r.str && !r.lock,
    {
        ControlBus { ready_memory: false, ready_cpu: false, str: false, lock: false }
    }
}

} // verus!
