//! The PCIe enhanced configuration access window: where each function's
//! configuration dwords sit in the kernel's view of physical memory.

use vstd::prelude::*;

verus! {

/// The physical base of the ECAM window and the offset at which physical
/// memory is mapped; a base of 0 means no window was found.
#[derive(Debug, Clone, Copy)]
pub struct Ecam {
    phys_base: u64,
    phys_offset: u64,
}

impl Ecam {
    pub closed spec fn phys_base(&self) -> u64 {
        self.phys_base
    }

    pub closed spec fn phys_offset(&self) -> u64 {
        self.phys_offset
    }
}

/// Record the ECAM window found by ACPI and the physical mapping offset.
pub fn init_ecam(ecam_phys: u64, phys_offset: u64) -> (r: Ecam)
    ensures
        r.phys_base() == ecam_phys,
        r.phys_offset() == phys_offset,
{
    Ecam { phys_base: ecam_phys, phys_offset }
}

/// Whether a window was recorded.
pub fn is_ready(ecam: &Ecam) -> (r: bool)
    ensures
        r == (ecam.phys_base() != 0),
{
    ecam.phys_base != 0
}

/// The physical address of the configuration dword of `bus:device.func`
/// that holds byte `offset`: bus, device and function select 1 MiB,
/// 32 KiB and 4 KiB pages of the window, the offset is rounded down to
/// its dword within the 4 KiB page.
pub open spec fn config_phys(base: u64, bus: u8, device: u8, func: u8, offset: u16) -> int {
    base + bus * 0x10_0000 + device * 0x8000 + func * 0x1000 + (offset % 0x1000) / 4 * 4
}

/// The virtual address of the configuration dword of `bus:device.func`
/// that holds byte `offset`.
pub fn config_address(ecam: &Ecam, bus: u8, device: u8, func: u8, offset: u16) -> (r: u64)
    requires
        config_phys(ecam.phys_base(), bus, device, func, offset) + ecam.phys_offset() <= u64::MAX,
    ensures
        r == config_phys(ecam.phys_base(), bus, device, func, offset) + ecam.phys_offset(),
{
    let b = bus as u64;
    let d = device as u64;
    let f = func as u64;
    let o = offset as u64;
    assert(b << 20u64 == b * 0x10_0000) by (bit_vector)
        requires b < 256;
    assert(d << 15u64 == d * 0x8000) by (bit_vector)
        requires d < 256;
    assert(f << 12u64 == f * 0x1000) by (bit_vector)
        requires f < 256;
    assert(o & 0xFFC == (o % 0x1000) / 4 * 4) by (bit_vector)
        requires o < 0x10000;
    let phys = ecam.phys_base + (b << 20u64) + (d << 15u64) + (f << 12u64) + (o & 0xFFC);
    phys + ecam.phys_offset
}

} // verus!
