//! Physical addresses.

use vstd::prelude::*;

verus! {

/// A physical address.
#[derive(Debug, Clone, Copy, PartialEq, Eq, Structural)]
pub struct PhysAddr(pub u64);

impl PhysAddr {
    pub fn new(addr: u64) -> (r: Self)
        ensures
            r.0 == addr,
    {
        Self(addr)
    }

    pub fn as_u64(self) -> (r: u64)
        ensures
            r == self.0,
    {
        self.0
    }

    /// The low 32 bits.
    pub fn low_u32(self) -> (r: u32)
        ensures
            r == self.0 % 0x1_0000_0000,
    {
        (self.0 % 0x1_0000_0000) as u32
    }

    /// The high 32 bits.
    pub fn high_u32(self) -> (r: u32)
        ensures
            r == self.0 / 0x1_0000_0000,
    {
        let v = self.0;
        assert(v >> 32 == v / 0x1_0000_0000) by (bit_vector);
        (v >> 32) as u32
    }

    /// The virtual address at which the physical memory mapped at
    /// `phys_offset` shows this address.
    pub fn as_virt(self, phys_offset: u64) -> (r: u64)
        requires
            self.0 + phys_offset <= u64::MAX,
        ensures
            r == self.0 + phys_offset,
    {
        self.0 + phys_offset
    }
}

/// An address is its high half shifted up, joined with its low half.
pub proof fn lemma_halves_rebuild(a: PhysAddr)
    ensures
        ((a.0 / 0x1_0000_0000) as u64) * 0x1_0000_0000 + (a.0 % 0x1_0000_0000) == a.0,
{
}

} // verus!
