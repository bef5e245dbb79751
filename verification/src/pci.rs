//! Probing PCI functions from their configuration space: identification,
//! the virtio common-configuration capability, and BAR selection.

use vstd::prelude::*;

verus! {

/// The virtio vendor ID.
pub const VENDOR_VIRTIO: u16 = 0x1AF4;
/// The legacy virtio block device ID.
pub const DEVICE_VIRTIO_BLK: u16 = 0x1001;
/// The mass-storage class code.
pub const CLASS_STORAGE: u8 = 0x01;
/// The SATA (AHCI) subclass code.
pub const SUBCLASS_AHCI: u8 = 0x06;

/// A PCI function and the BAR its driver should use.
#[derive(Debug, Clone, Copy, PartialEq, Eq, Structural)]
pub struct PciDevice {
    pub bus: u8,
    pub device: u8,
    pub func: u8,
    pub vendor_id: u16,
    pub device_id: u16,
    pub class: u8,
    pub subclass: u8,
    pub bar0_phys: Option<u64>,
    pub bar0_io: Option<u16>,
}

/// The configuration space of one function, as read dword by dword:
/// `regs[i]` is the dword at offset `4 i`. A function whose vendor ID reads
/// as `0xFFFF` is absent and only its first dword is needed.
pub struct PciConfig {
    pub bus: u8,
    pub device: u8,
    pub func: u8,
    pub regs: Vec<u32>,
}

/// The dword at configuration offset `off` (its low two bits ignored).
pub open spec fn dword(regs: Seq<u32>, off: int) -> u32 {
    regs[off / 4]
}

/// Walking the capability list from `ptr`, at most `16 - guard` more steps,
/// for the virtio common-configuration capability (ID 9, type 1): the
/// offset it was found at and the BAR index it names.
pub open spec fn virtio_cap_from(regs: Seq<u32>, ptr: u8, guard: nat) -> Option<(u8, u8)>
    decreases 16 - guard,
{
    if ptr < 0x40 || guard >= 16 {
        None
    } else {
        let dw0 = dword(regs, ptr as int);
        if dw0 & 0xFF == 9 && (dw0 >> 24) & 0xFF == 1 {
            Some((ptr, (dword(regs, ptr + 4) & 0xFF) as u8))
        } else {
            virtio_cap_from(regs, ((dw0 >> 8) & 0xFF) as u8, guard + 1)
        }
    }
}

/// The virtio capability of a function, if its status register says it has
/// a capability list.
pub open spec fn virtio_cap(regs: Seq<u32>) -> Option<(u8, u8)> {
    if (regs[1] >> 16) & 0x10 != 0 {
        virtio_cap_from(regs, (regs[13] & 0xFF) as u8, 0)
    } else {
        None
    }
}

/// Scanning the six BARs from slot `i`: the first non-zero memory base
/// (64-bit BARs take two slots, the high half reading as zero in the last
/// slot) and the first I/O port.
pub open spec fn scan_bars(regs: Seq<u32>, i: int, phys: Option<u64>, io: Option<u16>) -> (Option<u64>, Option<u16>)
    decreases 7 - i,
{
    if i >= 6 {
        (phys, io)
    } else {
        let raw = dword(regs, 0x10 + 4 * i);
        if raw & 1 != 0 {
            let io2 = if io is None { Some((raw & !3u32) as u16) } else { io };
            scan_bars(regs, i + 1, phys, io2)
        } else {
            let addr_low = (raw as u64) & !0xFu64;
            if (raw >> 1) & 3 == 2 {
                let high: u64 = if i < 5 { dword(regs, 0x10 + 4 * i + 4) as u64 } else { 0 };
                let full = (high << 32) | addr_low;
                let phys2 = if phys is None && full != 0 { Some(full) } else { phys };
                scan_bars(regs, i + 2, phys2, io)
            } else {
                let phys2 = if phys is None && addr_low != 0 { Some(addr_low) } else { phys };
                scan_bars(regs, i + 1, phys2, io)
            }
        }
    }
}

/// The BAR a function's driver should use: the one the virtio capability
/// names (a 64-bit pair), else the result of the BAR scan.
pub open spec fn chosen_bar(regs: Seq<u32>) -> (Option<u64>, Option<u16>) {
    match virtio_cap(regs) {
        Some((_, idx)) => {
            let off = 0x10 + 4 * idx;
            let lo = dword(regs, off);
            let hi = dword(regs, off + 4);
            (Some(((hi as u64) << 32) | ((lo as u64) & !0xFu64)), None)
        },
        None => scan_bars(regs, 0, None, None),
    }
}

/// The configuration space can be probed without overflowing a byte
/// offset: a capability found lies below 252, and the BAR it names below 59.
pub open spec fn probe_ok(regs: Seq<u32>) -> bool {
    &&& regs.len() == 64
    &&& virtio_cap(regs) matches Some((p, idx)) ==> p < 252 && idx < 59
}

/// The device a present function describes.
pub open spec fn device_of(c: (u8, u8, u8), regs: Seq<u32>) -> PciDevice {
    PciDevice {
        bus: c.0,
        device: c.1,
        func: c.2,
        vendor_id: (regs[0] & 0xFFFF) as u16,
        device_id: ((regs[0] >> 16) & 0xFFFF) as u16,
        class: ((regs[2] >> 24) & 0xFF) as u8,
        subclass: ((regs[2] >> 16) & 0xFF) as u8,
        bar0_phys: chosen_bar(regs).0,
        bar0_io: chosen_bar(regs).1,
    }
}

/// Whether a function's vendor ID says it is absent.
pub open spec fn absent(regs: Seq<u32>) -> bool {
    regs[0] & 0xFFFF == 0xFFFF
}

fn find_virtio_cap(regs: &Vec<u32>) -> (r: Option<(u8, u8)>)
    requires
        regs@.len() == 64,
        virtio_cap(regs@) matches Some((p, _)) ==> p < 252,
    ensures
        r == virtio_cap(regs@),
{
    let status_cmd = regs[1];
    if (status_cmd >> 16) & 0x10 == 0 {
        return None;
    }
    let mut ptr: u8 = #[verifier::truncate] ((regs[13] & 0xFF) as u8);
    let mut guard: u8 = 0;
    while ptr >= 0x40 && guard < 16
        invariant
            regs@.len() == 64,
            guard <= 16,
            virtio_cap(regs@) matches Some((p, _)) ==> p < 252,
            virtio_cap_from(regs@, ptr, guard as nat) == virtio_cap(regs@),
        decreases 16 - guard,
    {
        let dw0 = regs[(ptr / 4) as usize];
        let cap_id = dw0 & 0xFF;
        let next_ptr = #[verifier::truncate] (((dw0 >> 8) & 0xFF) as u8);
        let cfg_type = (dw0 >> 24) & 0xFF;
        if cap_id == 0x09 && cfg_type == 0x01 {
            let dw1 = regs[((ptr as usize) + 4) / 4];
            return Some((ptr, #[verifier::truncate] ((dw1 & 0xFF) as u8)));
        }
        ptr = next_ptr;
        guard = guard + 1;
    }
    None
}

fn scan_bar_slots(regs: &Vec<u32>) -> (r: (Option<u64>, Option<u16>))
    requires
        regs@.len() == 64,
    ensures
        r == scan_bars(regs@, 0, None, None),
{
    let mut bar_phys: Option<u64> = None;
    let mut bar_io: Option<u16> = None;
    let mut i: usize = 0;
    while i < 6
        invariant
            regs@.len() == 64,
            i <= 7,
            scan_bars(regs@, i as int, bar_phys, bar_io) == scan_bars(regs@, 0, None, None),
        decreases 7 - i,
    {
        let raw = regs[(0x10 + i * 4) / 4];
        if raw & 0x1 != 0 {
            if bar_io.is_none() {
                bar_io = Some(#[verifier::truncate] ((raw & !0x3u32) as u16));
            }
            i = i + 1;
        } else {
            let bar_type = (raw >> 1) & 0x3;
            let addr_low = (raw as u64) & !0xFu64;
            if bar_type == 0x2 {
                let high: u64 = if i < 5 { regs[(0x10 + i * 4 + 4) / 4] as u64 } else { 0 };
                let full = (high << 32) | addr_low;
                if bar_phys.is_none() && full != 0 {
                    bar_phys = Some(full);
                }
                i = i + 2;
            } else {
                if bar_phys.is_none() && addr_low != 0 {
                    bar_phys = Some(addr_low);
                }
                i = i + 1;
            }
        }
    }
    (bar_phys, bar_io)
}

/// Identify one function from its configuration space.
pub fn probe_function(bus: u8, device: u8, func: u8, regs: &Vec<u32>) -> (r: PciDevice)
    requires
        probe_ok(regs@),
    ensures
        r == device_of((bus, device, func), regs@),
{
    let val = regs[0];
    let vendor_id = #[verifier::truncate] ((val & 0xFFFF) as u16);
    let device_id = #[verifier::truncate] (((val >> 16) & 0xFFFF) as u16);
    let class_info = regs[2];
    let class = #[verifier::truncate] (((class_info >> 24) & 0xFF) as u8);
    let subclass = #[verifier::truncate] (((class_info >> 16) & 0xFF) as u8);
    let (bar0_phys, bar0_io) = match find_virtio_cap(regs) {
        Some((_, bar_idx)) => {
            let bar_off = 0x10 + (bar_idx as usize) * 4;
            let lo = regs[bar_off / 4];
            let hi = regs[(bar_off + 4) / 4];
            let addr = ((hi as u64) << 32) | ((lo as u64) & !0xFu64);
            (Some(addr), None)
        },
        None => scan_bar_slots(regs),
    };
    PciDevice { bus, device, func, vendor_id, device_id, class, subclass, bar0_phys, bar0_io }
}

/// The devices of the present functions, in the order given.
pub open spec fn devices_of(cs: Seq<PciConfig>) -> Seq<PciDevice>
    decreases cs.len(),
{
    if cs.len() == 0 {
        Seq::empty()
    } else {
        let c = cs.last();
        if absent(c.regs@) {
            devices_of(cs.drop_last())
        } else {
            devices_of(cs.drop_last()).push(device_of((c.bus, c.device, c.func), c.regs@))
        }
    }
}

/// Every function given can be probed.
pub open spec fn scan_ok(cs: Seq<PciConfig>) -> bool {
    forall|k: int| 0 <= k < cs.len() ==> {
        &&& (#[trigger] cs[k]).regs@.len() >= 1
        &&& !absent(cs[k].regs@) ==> probe_ok(cs[k].regs@)
    }
}

/// Identify every present function among the configuration spaces read by
/// walking the buses.
pub fn scan(functions: &[PciConfig]) -> (r: Vec<PciDevice>)
    requires
        scan_ok(functions@),
    ensures
        r@ == devices_of(functions@),
{
    let mut results: Vec<PciDevice> = Vec::new();
    let mut k: usize = 0;
    while k < functions.len()
        invariant
            k <= functions@.len(),
            scan_ok(functions@),
            results@ == devices_of(functions@.take(k as int)),
        decreases functions@.len() - k,
    {
        assert(functions@.take(k + 1).drop_last() =~= functions@.take(k as int));
        let f = &functions[k];
        let val = f.regs[0];
        if (val & 0xFFFF) != 0xFFFF {
            let d = probe_function(f.bus, f.device, f.func, &f.regs);
            results.push(d);
        }
        k = k + 1;
    }
    assert(functions@.take(k as int) =~= functions@);
    results
}

/// The register values `assign_bar64` writes, in order: the command
/// register with memory decoding off, the BAR's low dword (address and the
/// BAR's flag bits), its high dword, and the command register with memory
/// decoding and bus mastering on.
#[derive(Debug, Clone, Copy, PartialEq, Eq, Structural)]
pub struct Bar64Writes {
    pub disable_cmd: u32,
    pub bar_lo: u32,
    pub bar_hi: u32,
    pub enable_cmd: u32,
}

/// The values that program a 64-bit BAR to `assign_addr`, from the command
/// register `cmd` and the BAR's current low dword `bar_raw`.
pub fn assign_bar64(cmd: u32, bar_raw: u32, assign_addr: u64) -> (r: Bar64Writes)
    ensures
        r.disable_cmd == cmd & !2u32,
        r.bar_lo == ((assign_addr % 0x1_0000_0000) as u32) | (bar_raw & 0xF),
        r.bar_hi == (assign_addr / 0x1_0000_0000) as u32,
        r.enable_cmd == cmd | 6,
{
    let flags = bar_raw & 0xF;
    let lo = (assign_addr & 0xFFFF_FFFF) as u32;
    let hi = (assign_addr >> 32) as u32;
    assert(assign_addr & 0xFFFF_FFFF == assign_addr % 0x1_0000_0000) by (bit_vector);
    assert(assign_addr >> 32 == assign_addr / 0x1_0000_0000) by (bit_vector);
    Bar64Writes { disable_cmd: cmd & !0x2u32, bar_lo: lo | flags, bar_hi: hi, enable_cmd: cmd | 0x6 }
}

/// The I/O port of a BAR dword, if it is an I/O BAR (bit 0 set), with the
/// two flag bits masked off.
pub fn pci_read_bar_io(raw: u32) -> (r: Option<u16>)
    ensures
        r == if raw & 1 == 0 { None } else { Some((raw & !3u32) as u16) },
{
    if raw & 0x1 == 0 {
        return None;
    }
    Some(#[verifier::truncate] ((raw & !0x3u32) as u16))
}

/// The I/O port that selects a configuration dword.
pub const CONFIG_ADDRESS: u16 = 0xCF8;
/// The I/O port through which the selected dword is read or written.
pub const CONFIG_DATA: u16 = 0xCFC;

/// The value written to `CONFIG_ADDRESS` to select the configuration dword
/// of `bus:device.func` that holds byte `offset`: the enable bit, then the
/// bus, device, function and dword-aligned offset, ORed into place.
pub fn config_address(bus: u8, device: u8, func: u8, offset: u8) -> (r: u32)
    ensures
        r == 0x8000_0000u32 | ((bus as u32) << 16u32) | ((device as u32) << 11u32) | ((func as u32) << 8u32)
            | ((offset as u32) & 0xFCu32),
        r & 0x8000_0000 != 0,
        r & 3 == 0,
        r & 0xFC == offset & 0xFC,
        device < 32 && func < 8 ==> {
            &&& (r >> 16u32) & 0xFF == bus
            &&& (r >> 11u32) & 0x1F == device
            &&& (r >> 8u32) & 0x7 == func
        },
{
    let b = bus as u32;
    let d = device as u32;
    let f = func as u32;
    let o = offset as u32;
    let r = 0x8000_0000u32 | (b << 16u32) | (d << 11u32) | (f << 8u32) | (o & 0xFCu32);
    assert(r & 0x8000_0000 != 0 && r & 3 == 0 && r & 0xFC == o & 0xFC) by (bit_vector)
        requires
            b < 256, d < 256, f < 256, o < 256,
            r == 0x8000_0000u32 | (b << 16u32) | (d << 11u32) | (f << 8u32) | (o & 0xFCu32);
    assert(d < 32 && f < 8 ==> (r >> 16u32) & 0xFF == b && (r >> 11u32) & 0x1F == d && (r >> 8u32) & 0x7 == f)
        by (bit_vector)
        requires
            b < 256, d < 256, f < 256, o < 256,
            r == 0x8000_0000u32 | (b << 16u32) | (d << 11u32) | (f << 8u32) | (o & 0xFCu32);
    r
}

} // verus!
