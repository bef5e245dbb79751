//! The decisions of the AHCI driver: register addresses, the port to use,
//! and the command header, command FIS and PRDT entry of a one-sector
//! command. The register and DMA accesses stay with the caller.

use vstd::prelude::*;

verus! {

pub const SECTOR_SIZE: usize = 512;

pub const HBA_GHC: usize = 0x04;
pub const HBA_PI: usize = 0x0C;
pub const HBA_PORTS: usize = 0x100;
pub const PORT_SIZE: usize = 0x80;

pub const PORT_CLB: usize = 0x00;
pub const PORT_CLBU: usize = 0x04;
pub const PORT_FB: usize = 0x08;
pub const PORT_FBU: usize = 0x0C;
pub const PORT_IS: usize = 0x10;
pub const PORT_IE: usize = 0x14;
pub const PORT_CMD: usize = 0x18;
pub const PORT_TFD: usize = 0x20;
pub const PORT_SIG: usize = 0x24;
pub const PORT_SSTS: usize = 0x28;
pub const PORT_SCTL: usize = 0x2C;
pub const PORT_SERR: usize = 0x30;
pub const PORT_SACT: usize = 0x34;
pub const PORT_CI: usize = 0x38;
pub const PORT_SNTF: usize = 0x3C;

pub const ATA_CMD_READ_SECTORS: u8 = 0x20;
pub const ATA_CMD_WRITE_SECTORS: u8 = 0x30;

/// The register block of `port` of the controller at `mmio_base`.
pub fn port_base(mmio_base: usize, port: usize) -> (r: usize)
    requires
        mmio_base + HBA_PORTS + port * PORT_SIZE <= usize::MAX,
    ensures
        r == mmio_base + HBA_PORTS + port * PORT_SIZE,
{
    mmio_base + HBA_PORTS + port * PORT_SIZE
}

/// Whether bit `i` of `pi` is set.
pub open spec fn port_implemented(pi: u32, i: int) -> bool {
    (pi >> (i as u32)) & 1 == 1
}

/// The lowest port the ports-implemented mask `pi` marks; `None` when it
/// marks none.
pub fn first_implemented_port(pi: u32) -> (r: Option<usize>)
    ensures
        r is None <==> forall|i: int| 0 <= i < 32 ==> !#[trigger] port_implemented(pi, i),
        r matches Some(p) ==> p < 32 && port_implemented(pi, p as int)
            && forall|i: int| 0 <= i < p ==> !#[trigger] port_implemented(pi, i),
{
    let mut i: u32 = 0;
    while i < 32
        invariant
            i <= 32,
            forall|j: int| 0 <= j < i ==> !#[trigger] port_implemented(pi, j),
        decreases 32 - i,
    {
        if (pi >> i) & 1 == 1 {
            assert(port_implemented(pi, i as int));
            return Some(i as usize);
        }
        i = i + 1;
    }
    None
}

/// The flags word of a command header: a five-dword FIS, and the write bit
/// when the command writes.
pub fn command_header_flags(is_write: bool) -> (r: u16)
    ensures
        r == (if is_write { 0x44u16 } else { 0x04u16 }),
{
    let fis_dwords: u16 = 5 - 1;
    let write_bit: u16 = if is_write { 0x40 } else { 0 };
    assert(fis_dwords | 0x40u16 == 0x44u16) by (bit_vector)
        requires fis_dwords == 4u16;
    assert(fis_dwords | 0u16 == 0x04u16) by (bit_vector)
        requires fis_dwords == 4u16;
    fis_dwords | write_bit
}

/// A host-to-device register FIS.
#[derive(Debug, Clone, Copy, PartialEq, Eq, Structural)]
pub struct FisRegH2D {
    pub fis_type: u8,
    pub pmport: u8,
    pub command: u8,
    pub featurel: u8,
    pub lba0: u8,
    pub lba1: u8,
    pub lba2: u8,
    pub device: u8,
    pub lba3: u8,
    pub lba4: u8,
    pub lba5: u8,
    pub featureh: u8,
    pub countl: u8,
    pub counth: u8,
    pub icc: u8,
    pub control: u8,
}

/// The command FIS of `command` on `count` sectors at `lba`: type 0x27,
/// the command bit set, LBA mode with address bits 24 to 27 in the device
/// register, the 48-bit address and the count byte by byte.
pub fn h2d_fis(command: u8, lba: u64, count: u16) -> (r: FisRegH2D)
    ensures
        r.fis_type == 0x27,
        r.pmport == 0x80,
        r.command == command,
        r.featurel == 0 && r.featureh == 0 && r.icc == 0 && r.control == 0,
        r.device == 0x40 | (((lba >> 24) & 0x0F) as u8),
        r.lba0 == (lba & 0xFF) as u8,
        r.lba1 == ((lba >> 8) & 0xFF) as u8,
        r.lba2 == ((lba >> 16) & 0xFF) as u8,
        r.lba3 == ((lba >> 24) & 0xFF) as u8,
        r.lba4 == ((lba >> 32) & 0xFF) as u8,
        r.lba5 == ((lba >> 40) & 0xFF) as u8,
        r.countl == count % 256,
        r.counth == count / 256,
{
    assert((count & 0xFF) as u8 == count % 256) by (bit_vector);
    assert(((count >> 8) & 0xFF) as u8 == count / 256) by (bit_vector);
    FisRegH2D {
        fis_type: 0x27,
        pmport: 0x80,
        command,
        featurel: 0,
        lba0: (lba & 0xFF) as u8,
        lba1: ((lba >> 8) & 0xFF) as u8,
        lba2: ((lba >> 16) & 0xFF) as u8,
        device: 0x40 | ((lba >> 24) & 0x0F) as u8,
        lba3: ((lba >> 24) & 0xFF) as u8,
        lba4: ((lba >> 32) & 0xFF) as u8,
        lba5: ((lba >> 40) & 0xFF) as u8,
        featureh: 0,
        countl: (count & 0xFF) as u8,
        counth: ((count >> 8) & 0xFF) as u8,
        icc: 0,
        control: 0,
    }
}

/// The byte count field of a PRDT entry for `count` sectors: the length
/// less one.
pub fn prdt_byte_count(count: u16) -> (r: u32)
    requires
        count >= 1,
    ensures
        r == count * 512 - 1,
{
    let bytes: u32 = (count as u32) * 512;
    bytes - 1
}

/// Whether the task file reports the port busy or requesting data.
pub fn port_busy(tfd: u32) -> (r: bool)
    ensures
        r == (tfd & 0x88 != 0),
{
    tfd & 0x88 != 0
}

/// Whether the task file reports an error.
pub fn task_file_error(tfd: u32) -> (r: bool)
    ensures
        r == (tfd & 0x01 != 0),
{
    tfd & 0x01 != 0
}

} // verus!
