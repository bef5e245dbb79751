//! Choosing the device the root file system is mounted from: PCI functions
//! are tried in scan order, a virtio block device first and then, on the
//! same function, an AHCI controller; the first driver that comes up wins.

use vstd::prelude::*;
use crate::pci::{PciDevice, CLASS_STORAGE, DEVICE_VIRTIO_BLK, SUBCLASS_AHCI, VENDOR_VIRTIO};

verus! {

/// Where the file system's partition starts on the disk, in bytes.
pub const PARTITION_OFFSET: u64 = 512;
/// The size of the file system's partition, in bytes (63 MiB).
pub const PARTITION_SIZE: u64 = 66060288;

/// The modern virtio block device ID.
pub const DEVICE_VIRTIO_BLK_MODERN: u16 = 0x1042;

/// Which driver an attempt brings up.
#[derive(Debug, Clone, Copy, PartialEq, Eq, Structural)]
pub enum StorageKind {
    Virtio,
    Ahci,
}

/// The next driver to bring up: the attempt's number, the driver, and the
/// virtual address of the function's memory BAR.
#[derive(Debug, Clone, Copy, PartialEq, Eq, Structural)]
pub struct Attempt {
    pub slot: usize,
    pub kind: StorageKind,
    pub virt: u64,
}

/// A virtio block device, legacy or modern.
pub open spec fn is_virtio(d: PciDevice) -> bool {
    d.vendor_id == VENDOR_VIRTIO && (d.device_id == DEVICE_VIRTIO_BLK || d.device_id == DEVICE_VIRTIO_BLK_MODERN)
}

/// A SATA controller in AHCI mode.
pub open spec fn is_ahci(d: PciDevice) -> bool {
    d.class == CLASS_STORAGE && d.subclass == SUBCLASS_AHCI
}

/// Attempt `s` is the virtio driver on function `s / 2` when `s` is even,
/// the AHCI driver on it when `s` is odd.
pub open spec fn kind_of(s: int) -> StorageKind {
    if s % 2 == 0 { StorageKind::Virtio } else { StorageKind::Ahci }
}

/// Attempt `s` is made: its function exists, is of the attempt's kind,
/// and has a memory BAR.
pub open spec fn attempt_applies(devs: Seq<PciDevice>, s: int) -> bool {
    &&& 0 <= s < 2 * devs.len()
    &&& devs[s / 2].bar0_phys is Some
    &&& if s % 2 == 0 { is_virtio(devs[s / 2]) } else { is_ahci(devs[s / 2]) }
}

/// The memory BARs of all functions can be shown at `phys_mem_offset`.
pub open spec fn bars_mappable(devs: Seq<PciDevice>, phys_mem_offset: u64) -> bool {
    forall|i: int| 0 <= i < devs.len() && (#[trigger] devs[i]).bar0_phys is Some
        ==> devs[i].bar0_phys->0 + phys_mem_offset <= u64::MAX
}

/// The first attempt numbered `from` or later that applies, with the
/// virtual address of its BAR; `None` when no device is left to try.
pub fn next_attempt(devs: &[PciDevice], phys_mem_offset: u64, from: usize) -> (r: Option<Attempt>)
    requires
        bars_mappable(devs@, phys_mem_offset),
        devs@.len() < usize::MAX / 2,
    ensures
        r is None <==> forall|s: int| from <= s ==> !#[trigger] attempt_applies(devs@, s),
        r matches Some(a) ==> {
            &&& from <= a.slot
            &&& attempt_applies(devs@, a.slot as int)
            &&& forall|s: int| from <= s < a.slot ==> !#[trigger] attempt_applies(devs@, s)
            &&& a.kind == kind_of(a.slot as int)
            &&& a.virt == devs@[a.slot as int / 2].bar0_phys->0 + phys_mem_offset
        },
{
    let n = devs.len() * 2;
    let mut s = from;
    while s < n
        invariant
            n == 2 * devs@.len(),
            from <= s,
            bars_mappable(devs@, phys_mem_offset),
            forall|t: int| from <= t < s ==> !#[trigger] attempt_applies(devs@, t),
        decreases n - s,
    {
        let d = devs[s / 2];
        if let Some(phys) = d.bar0_phys {
            let wanted = if s % 2 == 0 {
                d.vendor_id == VENDOR_VIRTIO && (d.device_id == DEVICE_VIRTIO_BLK || d.device_id == DEVICE_VIRTIO_BLK_MODERN)
            } else {
                d.class == CLASS_STORAGE && d.subclass == SUBCLASS_AHCI
            };
            if wanted {
                assert(devs@[s as int / 2] == d);
                assert(attempt_applies(devs@, s as int));
                let kind = if s % 2 == 0 { StorageKind::Virtio } else { StorageKind::Ahci };
                return Some(Attempt { slot: s, kind, virt: phys + phys_mem_offset });
            }
        }
        assert(!attempt_applies(devs@, s as int));
        s = s + 1;
    }
    None
}

} // verus!
