//! PCI devices: addresses, base address registers, and the arithmetic of
//! configuration-space accesses.

pub mod ecam;

use vstd::prelude::*;
use crate::hal::pci::ecam::Ecam;
use crate::hal::addr::PhysAddr;

verus! {

/// A decoded base address register.
#[derive(Debug, Clone, Copy, PartialEq, Eq, Structural)]
pub enum Bar {
    Memory { base: PhysAddr, size: usize, prefetchable: bool },
    Io { port: u16, size: usize },
    Empty,
}

impl Bar {
    /// The physical base of a memory BAR.
    pub fn mmio_phys(&self) -> (r: Option<PhysAddr>)
        ensures
            r == match *self {
                Bar::Memory { base, .. } => Some(base),
                _ => None,
            },
    {
        match self {
            Bar::Memory { base, .. } => Some(*base),
            _ => None,
        }
    }

    /// The port of an I/O BAR.
    pub fn io_port(&self) -> (r: Option<u16>)
        ensures
            r == match *self {
                Bar::Io { port, .. } => Some(port),
                _ => None,
            },
    {
        match self {
            Bar::Io { port, .. } => Some(*port),
            _ => None,
        }
    }

    /// The size of the region, zero for an empty BAR.
    pub fn size(&self) -> (r: usize)
        ensures
            r == match *self {
                Bar::Memory { size, .. } => size,
                Bar::Io { size, .. } => size,
                Bar::Empty => 0usize,
            },
    {
        match self {
            Bar::Memory { size, .. } => *size,
            Bar::Io { size, .. } => *size,
            Bar::Empty => 0,
        }
    }
}

/// The size a BAR decodes to from the mask read back after writing all
/// ones: the complement of the address bits, plus one.
pub open spec fn bar_size32(mask: u32) -> u32 {
    (!(mask & !0xFu32)).wrapping_add(1)
}

/// The BAR the sizing probe of one slot describes, and how many slots it
/// takes: `orig` and `orig_hi` are the values first read from the slot and
/// the next one, `mask_lo` and `mask_hi` the values read back after writing
/// all ones (the next slot only matters for a 64-bit BAR).
pub open spec fn bar_of(orig: u32, orig_hi: u32, mask_lo: u32, mask_hi: u32) -> (Bar, usize) {
    if orig == 0 || orig == 0xFFFF_FFFF {
        (Bar::Empty, 1)
    } else if orig & 1 != 0 {
        (Bar::Io { port: (orig & 0xFFFC) as u16, size: bar_size32(mask_lo) as usize }, 1)
    } else {
        let prefetchable = (orig >> 3) & 1 != 0;
        let kind = (orig >> 1) & 3;
        if kind == 0 {
            (Bar::Memory { base: PhysAddr((orig as u64) & !0xFu64), size: bar_size32(mask_lo) as usize, prefetchable }, 1)
        } else if kind == 2 {
            let mask64 = ((mask_lo as u64) & !0xFu64) | ((mask_hi as u64) << 32);
            (Bar::Memory {
                base: PhysAddr(((orig as u64) & !0xFu64) | ((orig_hi as u64) << 32)),
                size: ((!mask64).wrapping_add(1)) as usize,
                prefetchable,
            }, 2)
        } else {
            (Bar::Empty, 1)
        }
    }
}

/// Decode a BAR from the values its sizing probe read.
pub fn decode_bar(orig: u32, orig_hi: u32, mask_lo: u32, mask_hi: u32) -> (r: (Bar, usize))
    ensures
        r == bar_of(orig, orig_hi, mask_lo, mask_hi),
{
    if orig == 0 || orig == 0xFFFF_FFFF {
        return (Bar::Empty, 1);
    }
    if orig & 1 != 0 {
        let size = (!(mask_lo & !0xFu32)).wrapping_add(1) as usize;
        return (Bar::Io { port: (orig & 0xFFFC) as u16, size }, 1);
    }
    let kind = (orig >> 1) & 0x3;
    let prefetchable = (orig >> 3) & 1 != 0;
    if kind == 0 {
        let size = (!(mask_lo & !0xFu32)).wrapping_add(1) as usize;
        let base = PhysAddr((orig as u64) & !0xFu64);
        (Bar::Memory { base, size, prefetchable }, 1)
    } else if kind == 2 {
        let mask64 = ((mask_lo as u64) & !0xFu64) | ((mask_hi as u64) << 32);
        let size = ((!mask64).wrapping_add(1)) as usize;
        let base = PhysAddr(((orig as u64) & !0xFu64) | ((orig_hi as u64) << 32));
        (Bar::Memory { base, size, prefetchable }, 2)
    } else {
        (Bar::Empty, 1)
    }
}

/// Where a PCI function sits.
#[derive(Debug, Clone, Copy, PartialEq, Eq, Structural)]
pub struct PciAddress {
    pub bus: u8,
    pub device: u8,
    pub function: u8,
}

/// A PCI function found by enumeration.
#[derive(Debug, Clone, Copy)]
pub struct PciDeviceInfo {
    pub address: PciAddress,
    pub vendor_id: u16,
    pub device_id: u16,
    pub class: u8,
    pub subclass: u8,
    pub prog_if: u8,
    pub revision: u8,
    pub bars: [Bar; 6],
    pub irq_line: Option<u8>,
}

impl PciDeviceInfo {
    /// BAR `idx`'s memory base, if it is a memory BAR.
    pub fn bar_mmio(&self, idx: usize) -> (r: Option<PhysAddr>)
        ensures
            r == if idx < 6 {
                match self.bars@[idx as int] {
                    Bar::Memory { base, .. } => Some(base),
                    _ => None,
                }
            } else {
                None
            },
    {
        if idx < 6 {
            self.bars[idx].mmio_phys()
        } else {
            None
        }
    }

    /// BAR `idx`'s I/O port, if it is an I/O BAR.
    pub fn bar_io(&self, idx: usize) -> (r: Option<u16>)
        ensures
            r == if idx < 6 {
                match self.bars@[idx as int] {
                    Bar::Io { port, .. } => Some(port),
                    _ => None,
                }
            } else {
                None
            },
    {
        if idx < 6 {
            self.bars[idx].io_port()
        } else {
            None
        }
    }

    /// The command register value with bus-master DMA enabled (bit 2),
    /// given its current value `cmd`; the caller writes it back.
    pub fn enable_bus_master(&self, cmd: u16) -> (r: u16)
        ensures
            r == cmd | 4,
    {
        cmd | 4
    }

    /// The command register value with memory decoding enabled (bit 1),
    /// given its current value `cmd`; the caller writes it back.
    pub fn enable_mmio(&self, cmd: u16) -> (r: u16)
        ensures
            r == cmd | 2,
    {
        cmd | 2
    }
}

/// The 16-bit register at `off` within the configuration dword `word`.
pub fn extract16(word: u32, off: u16) -> (r: u16)
    ensures
        r == #[verifier::truncate] ((word >> (((off & 2) * 8) as u32)) as u16),
{
    assert(off & 2 <= 2) by (bit_vector);
    let shift = ((off & 2) * 8) as u32;
    #[verifier::truncate] ((word >> shift) as u16)
}

/// The byte register at `off` within the configuration dword `word`.
pub fn extract8(word: u32, off: u16) -> (r: u8)
    ensures
        r == #[verifier::truncate] ((word >> (((off & 3) * 8) as u32)) as u8),
{
    assert(off & 3 <= 3) by (bit_vector);
    let shift = ((off & 3) * 8) as u32;
    #[verifier::truncate] ((word >> shift) as u8)
}

/// The dword `cur` with the 16-bit register at `off` replaced by `val`.
pub fn merge16(cur: u32, off: u16, val: u16) -> (r: u32)
    ensures
        r == (cur & !(0xFFFFu32 << (((off & 2) * 8) as u32))) | ((val as u32) << (((off & 2) * 8) as u32)),
{
    assert(off & 2 <= 2) by (bit_vector);
    let shift = ((off & 2) * 8) as u32;
    (cur & !(0xFFFFu32 << shift)) | ((val as u32) << shift)
}

/// The dword `cur` with the byte register at `off` replaced by `val`.
pub fn merge8(cur: u32, off: u16, val: u8) -> (r: u32)
    ensures
        r == (cur & !(0xFFu32 << (((off & 3) * 8) as u32))) | ((val as u32) << (((off & 3) * 8) as u32)),
{
    assert(off & 3 <= 3) by (bit_vector);
    let shift = ((off & 3) * 8) as u32;
    (cur & !(0xFFu32 << shift)) | ((val as u32) << shift)
}

/// Reading a register back after writing it gives the value written, and
/// the other half of the dword is kept.
pub proof fn lemma_merge16_read_back(cur: u32, off: u16, val: u16)
    ensures
        ({
            let s = ((off & 2) * 8) as u32;
            let t = (((off ^ 2) & 2) * 8) as u32;
            let w = (cur & !(0xFFFFu32 << s)) | ((val as u32) << s);
            &&& (w >> s) as u16 == val
            &&& (w >> t) as u16 == (cur >> t) as u16
        }),
{
    let s = ((off & 2) * 8) as u32;
    let t = (((off ^ 2) & 2) * 8) as u32;
    assert(off & 2 == 0 || off & 2 == 2) by (bit_vector);
    assert((off ^ 2) & 2 == 2 - (off & 2)) by (bit_vector);
    if off & 2 == 0 {
        assert(s == 0 && t == 16);
        assert((((cur & !(0xFFFFu32 << 0u32)) | ((val as u32) << 0u32)) >> 0u32) as u16 == val) by (bit_vector);
        assert((((cur & !(0xFFFFu32 << 0u32)) | ((val as u32) << 0u32)) >> 16u32) as u16 == (cur >> 16u32) as u16) by (bit_vector);
    } else {
        assert(s == 16 && t == 0);
        assert((((cur & !(0xFFFFu32 << 16u32)) | ((val as u32) << 16u32)) >> 16u32) as u16 == val) by (bit_vector);
        assert((((cur & !(0xFFFFu32 << 16u32)) | ((val as u32) << 16u32)) >> 0u32) as u16 == (cur >> 0u32) as u16) by (bit_vector);
    }
}

/// Reading a byte register back after writing it gives the value written.
pub proof fn lemma_merge8_read_back(cur: u32, off: u16, val: u8)
    ensures
        ({
            let s = ((off & 3) * 8) as u32;
            let w = (cur & !(0xFFu32 << s)) | ((val as u32) << s);
            (w >> s) as u8 == val
        }),
{
    let s = ((off & 3) * 8) as u32;
    assert(s == 0 || s == 8 || s == 16 || s == 24) by (bit_vector)
        requires s == ((off & 3) * 8) as u32;
    assert(forall|c: u32, v: u8, k: u32| (k == 0 || k == 8 || k == 16 || k == 24) ==>
        #[trigger] (((c & !(0xFFu32 << k)) | ((v as u32) << k)) >> k) as u8 == v) by (bit_vector);
}

/// The multi-function bit of the header type byte.
pub const HEADER_TYPE_MF: u8 = 0x80;

/// How many functions of a device to look at, from the header type byte of
/// its function 0: all eight when the multi-function bit is set, else one.
pub fn function_count(header_type0: u8) -> (r: u8)
    ensures
        r == (if header_type0 & HEADER_TYPE_MF != 0 { 8u8 } else { 1u8 }),
{
    if header_type0 & HEADER_TYPE_MF != 0 { 8 } else { 1 }
}

/// Whether a function is present: the vendor ID in the low half of its
/// first configuration dword does not read as `0xFFFF`.
pub fn function_present(id_dword: u32) -> (r: bool)
    ensures
        r == (id_dword % 0x10000 != 0xFFFF),
{
    assert(id_dword & 0xFFFF == id_dword % 0x10000) by (bit_vector);
    id_dword & 0xFFFF != 0xFFFF
}

/// Whether a function's BARs are probed: only a general device, whose
/// header type (the multi-function bit aside) is 0, has six of them.
pub fn has_bars(header_type: u8) -> (r: bool)
    ensures
        r == (header_type & !HEADER_TYPE_MF == 0),
{
    header_type & !HEADER_TYPE_MF == 0
}

/// What enumeration reports of a present function, from its identification
/// dword (offset 0), its class dword (offset 8), its interrupt line byte
/// (`0xFF` meaning none) and its BARs.
pub fn device_info(address: PciAddress, id_dword: u32, class_dword: u32, irq_byte: u8, bars: [Bar; 6]) -> (r: PciDeviceInfo)
    ensures
        r.address == address,
        r.vendor_id == id_dword % 0x10000,
        r.device_id == id_dword / 0x10000,
        r.revision == class_dword % 0x100,
        r.prog_if == (class_dword / 0x100) % 0x100,
        r.subclass == (class_dword / 0x10000) % 0x100,
        r.class == class_dword / 0x100_0000,
        r.bars == bars,
        r.irq_line == (if irq_byte == 0xFF { None } else { Some(irq_byte) }),
{
    let v = id_dword;
    let c = class_dword;
    assert(v & 0xFFFF == v % 0x10000 && v >> 16u32 == v / 0x10000) by (bit_vector);
    assert(c & 0xFF == c % 0x100 && (c >> 8u32) & 0xFF == (c / 0x100) % 0x100
        && (c >> 16u32) & 0xFF == (c / 0x10000) % 0x100 && (c >> 24u32) & 0xFF == c / 0x100_0000) by (bit_vector);
    PciDeviceInfo {
        address,
        vendor_id: (v & 0xFFFF) as u16,
        device_id: (v >> 16u32) as u16,
        class: ((c >> 24u32) & 0xFF) as u8,
        subclass: ((c >> 16u32) & 0xFF) as u8,
        prog_if: ((c >> 8u32) & 0xFF) as u8,
        revision: (c & 0xFF) as u8,
        bars,
        irq_line: if irq_byte == 0xFF { None } else { Some(irq_byte) },
    }
}

/// Whether configuration space can be reached: an ECAM window is known.
pub fn is_ready(ecam: &Ecam) -> (r: bool)
    ensures
        r == (ecam.phys_base() != 0),
{
    ecam::is_ready(ecam)
}

/// What `device_info` reports, as a value.
pub open spec fn device_info_spec(address: PciAddress, id_dword: u32, class_dword: u32, irq_byte: u8, bars: [Bar; 6]) -> PciDeviceInfo {
    PciDeviceInfo {
        address,
        vendor_id: (id_dword % 0x10000) as u16,
        device_id: (id_dword / 0x10000) as u16,
        class: (class_dword / 0x100_0000) as u8,
        subclass: ((class_dword / 0x10000) % 0x100) as u8,
        prog_if: ((class_dword / 0x100) % 0x100) as u8,
        revision: (class_dword % 0x100) as u8,
        bars,
        irq_line: if irq_byte == 0xFF { None } else { Some(irq_byte) },
    }
}

/// The configuration registers of one PCI function that enumeration reads:
/// the dwords at offsets 0 (IDs) and 8 (class), the header type byte, the
/// interrupt line byte, and its BARs as probing decoded them.
#[derive(Debug, Clone, Copy)]
pub struct FunctionConfig {
    pub id_dword: u32,
    pub class_dword: u32,
    pub header_type: u8,
    pub irq_line: u8,
    pub bars: [Bar; 6],
}

/// The number of functions a configuration snapshot holds: 8 functions of
/// 32 devices on each of 256 buses.
pub const CONFIG_FUNCTIONS: usize = 65536;

/// Where function `func` of `device` on `bus` sits in a snapshot.
pub open spec fn config_index(bus: int, device: int, func: int) -> int {
    bus * 256 + device * 8 + func
}

/// Six empty BARs.
pub open spec fn no_bars() -> [Bar; 6] {
    [Bar::Empty, Bar::Empty, Bar::Empty, Bar::Empty, Bar::Empty, Bar::Empty]
}

/// What enumeration reports of function `func` of `device` on `bus`, read
/// from `c`: its BARs only when its header type is 0.
pub open spec fn reported_function(bus: int, device: int, func: int, c: FunctionConfig) -> PciDeviceInfo {
    device_info_spec(
        PciAddress { bus: bus as u8, device: device as u8, function: func as u8 },
        c.id_dword,
        c.class_dword,
        c.irq_line,
        if c.header_type & !HEADER_TYPE_MF == 0 { c.bars } else { no_bars() },
    )
}

/// The present functions among the first `n` of a device, in order.
pub open spec fn function_infos(space: Seq<FunctionConfig>, bus: int, device: int, n: int) -> Seq<PciDeviceInfo>
    decreases n,
{
    if n <= 0 {
        Seq::empty()
    } else {
        let c = space[config_index(bus, device, n - 1)];
        function_infos(space, bus, device, n - 1) + if c.id_dword % 0x10000 != 0xFFFF {
            seq![reported_function(bus, device, n - 1, c)]
        } else {
            Seq::empty()
        }
    }
}

/// The present functions of a device: none when function 0 is absent, else
/// those among the first eight (multi-function) or the first one.
pub open spec fn device_infos(space: Seq<FunctionConfig>, bus: int, device: int) -> Seq<PciDeviceInfo> {
    let c0 = space[config_index(bus, device, 0)];
    if c0.id_dword % 0x10000 == 0xFFFF {
        Seq::empty()
    } else {
        function_infos(space, bus, device, if c0.header_type & HEADER_TYPE_MF != 0 { 8 } else { 1 })
    }
}

/// The present functions of the first `n` devices of a bus.
pub open spec fn bus_infos(space: Seq<FunctionConfig>, bus: int, n: int) -> Seq<PciDeviceInfo>
    decreases n,
{
    if n <= 0 {
        Seq::empty()
    } else {
        bus_infos(space, bus, n - 1) + device_infos(space, bus, n - 1)
    }
}

/// The present functions of the first `n` buses.
pub open spec fn buses_infos(space: Seq<FunctionConfig>, n: int) -> Seq<PciDeviceInfo>
    decreases n,
{
    if n <= 0 {
        Seq::empty()
    } else {
        buses_infos(space, n - 1) + bus_infos(space, n - 1, 32)
    }
}

/// Walk every PCI function of a configuration snapshot, bus by bus and
/// device by device, and report each present one in that order.
pub fn enumerate(space: &Vec<FunctionConfig>) -> (r: Vec<PciDeviceInfo>)
    requires
        space@.len() == CONFIG_FUNCTIONS,
    ensures
        r@ == buses_infos(space@, 256),
{
    let mut out: Vec<PciDeviceInfo> = Vec::new();
    let mut bus: usize = 0;
    while bus < 256
        invariant
            bus <= 256,
            space@.len() == CONFIG_FUNCTIONS,
            out@ == buses_infos(space@, bus as int),
        decreases 256 - bus,
    {
        let ghost before_bus = out@;
        let mut device: usize = 0;
        while device < 32
            invariant
                bus < 256,
                device <= 32,
                space@.len() == CONFIG_FUNCTIONS,
                out@ == before_bus + bus_infos(space@, bus as int, device as int),
            decreases 32 - device,
        {
            let ghost before_dev = out@;
            let base = bus * 256 + device * 8;
            let c0 = space[base];
            if function_present(c0.id_dword) {
                let funcs = function_count(c0.header_type) as usize;
                let mut func: usize = 0;
                while func < funcs
                    invariant
                        bus < 256,
                        device < 32,
                        base == config_index(bus as int, device as int, 0),
                        funcs <= 8,
                        func <= funcs,
                        space@.len() == CONFIG_FUNCTIONS,
                        out@ == before_dev + function_infos(space@, bus as int, device as int, func as int),
                    decreases funcs - func,
                {
                    let c = space[base + func];
                    let ghost prev = out@;
                    if function_present(c.id_dword) {
                        let bars = if has_bars(c.header_type) { c.bars } else { [Bar::Empty; 6] };
                        assert(bars == (if c.header_type & !HEADER_TYPE_MF == 0 { c.bars } else { no_bars() }));
                        let info = device_info(
                            PciAddress { bus: bus as u8, device: device as u8, function: func as u8 },
                            c.id_dword,
                            c.class_dword,
                            c.irq_line,
                            bars,
                        );
                        assert(info == reported_function(bus as int, device as int, func as int, c));
                        out.push(info);
                        assert(out@ =~= before_dev + function_infos(space@, bus as int, device as int, func + 1));
                    } else {
                        assert(out@ =~= before_dev + function_infos(space@, bus as int, device as int, func + 1));
                    }
                    func = func + 1;
                }
                assert(out@ =~= before_dev + device_infos(space@, bus as int, device as int));
            } else {
                assert(out@ =~= before_dev + device_infos(space@, bus as int, device as int));
            }
            assert(out@ =~= before_bus + bus_infos(space@, bus as int, device + 1));
            device = device + 1;
        }
        assert(out@ =~= buses_infos(space@, bus + 1));
        bus = bus + 1;
    }
    out
}

} // verus!
