//! The decisions of the VirtIO block driver: the request header and the
//! descriptor chain of a request, publishing it on the available ring,
//! polling the used ring, and reading the status; and the choices made
//! while bringing the device up. The register and DMA accesses stay with
//! the caller.

use vstd::prelude::*;
use crate::blockdev::BlockError;

verus! {

pub const SECTOR_SIZE: usize = 512;

pub const VIRTIO_BLK_T_IN: u32 = 0;
pub const VIRTIO_BLK_T_OUT: u32 = 1;
pub const VIRTIO_BLK_S_OK: u8 = 0;

pub const VIRTQ_DESC_F_NEXT: u16 = 1;
pub const VIRTQ_DESC_F_WRITE: u16 = 2;

pub const DEVICE_FEATURE_SELECT: usize = 0x00;
pub const DEVICE_FEATURE: usize = 0x04;
pub const DRIVER_FEATURE_SELECT: usize = 0x08;
pub const DRIVER_FEATURE: usize = 0x0C;
pub const DEVICE_STATUS: usize = 0x14;
pub const QUEUE_SELECT: usize = 0x16;
pub const QUEUE_SIZE: usize = 0x18;
pub const QUEUE_MSIX_VECTOR: usize = 0x1A;
pub const QUEUE_ENABLE: usize = 0x1C;
pub const QUEUE_DESC_LO: usize = 0x20;
pub const QUEUE_DESC_HI: usize = 0x24;
pub const QUEUE_DRIVER_LO: usize = 0x28;
pub const QUEUE_DRIVER_HI: usize = 0x2C;
pub const QUEUE_DEVICE_LO: usize = 0x30;
pub const QUEUE_DEVICE_HI: usize = 0x34;

/// Device status bits.
pub const STATUS_ACKNOWLEDGE: u8 = 0x01;
pub const STATUS_DRIVER: u8 = 0x02;
pub const STATUS_DRIVER_OK: u8 = 0x04;
pub const STATUS_FEATURES_OK: u8 = 0x08;

/// The most descriptors the driver uses a queue for.
pub const MAX_QUEUE_SIZE: u16 = 64;

/// Where the data buffer starts in the request page.
pub const DATA_OFFSET: u64 = 64;

/// How many polls of the used ring before a request times out.
pub const POLL_LIMIT: u32 = 10_000_000;

/// A descriptor of the virtqueue.
#[derive(Debug, Clone, Copy, PartialEq, Eq, Structural)]
pub struct VirtqDesc {
    pub addr: u64,
    pub len: u32,
    pub flags: u16,
    pub next: u16,
}

/// The header of a block request.
#[derive(Debug, Clone, Copy, PartialEq, Eq, Structural)]
pub struct VirtioBlkReq {
    pub type_: u32,
    pub reserved: u32,
    pub sector: u64,
}

/// The header of a request for `sector`: type OUT to write, IN to read.
pub fn block_request(sector: u64, is_write: bool) -> (r: VirtioBlkReq)
    ensures
        r.type_ == (if is_write { VIRTIO_BLK_T_OUT } else { VIRTIO_BLK_T_IN }),
        r.reserved == 0,
        r.sector == sector,
{
    VirtioBlkReq { type_: if is_write { VIRTIO_BLK_T_OUT } else { VIRTIO_BLK_T_IN }, reserved: 0, sector }
}

/// The three descriptors of a request: the 16-byte header at `req_phys`,
/// then `data_len` bytes of data 64 bytes further (written by the device
/// when reading), then the status byte at `status_phys` (written by the
/// device); each but the last chained to the next.
pub fn request_chain(req_phys: u64, status_phys: u64, data_len: u32, is_write: bool) -> (r: [VirtqDesc; 3])
    requires
        req_phys + DATA_OFFSET <= u64::MAX,
    ensures
        r[0] == (VirtqDesc { addr: req_phys, len: 16, flags: VIRTQ_DESC_F_NEXT, next: 1 }),
        r[1] == (VirtqDesc {
            addr: (req_phys + DATA_OFFSET) as u64,
            len: data_len,
            flags: if is_write { VIRTQ_DESC_F_NEXT } else { (VIRTQ_DESC_F_NEXT | VIRTQ_DESC_F_WRITE) as u16 },
            next: 2,
        }),
        r[2] == (VirtqDesc { addr: status_phys, len: 1, flags: VIRTQ_DESC_F_WRITE, next: 0 }),
{
    let data_flags = if is_write { VIRTQ_DESC_F_NEXT } else { VIRTQ_DESC_F_NEXT | VIRTQ_DESC_F_WRITE };
    [
        VirtqDesc { addr: req_phys, len: 16, flags: VIRTQ_DESC_F_NEXT, next: 1 },
        VirtqDesc { addr: req_phys + DATA_OFFSET, len: data_len, flags: data_flags, next: 2 },
        VirtqDesc { addr: status_phys, len: 1, flags: VIRTQ_DESC_F_WRITE, next: 0 },
    ]
}

/// Publishing the chain on the available ring whose index is `avail_idx`:
/// the ring slot that takes descriptor 0, and the new index, wrapping at
/// 16 bits.
pub fn publish_slot(avail_idx: u16, queue_size: u16) -> (r: (usize, u16))
    requires
        queue_size > 0,
    ensures
        r.0 == avail_idx % queue_size,
        r.0 < queue_size,
        r.1 == (if avail_idx == u16::MAX { 0 } else { avail_idx + 1 }),
{
    let slot = (avail_idx as usize) % (queue_size as usize);
    (slot, avail_idx.wrapping_add(1))
}

/// One poll of the used ring.
#[derive(Debug, Clone, Copy, PartialEq, Eq, Structural)]
pub enum PollStep {
    /// The device has used the chain.
    Complete,
    /// Poll again, with this many polls left.
    Wait(u32),
    /// No poll is left: the request timed out.
    TimedOut,
}

/// Decide after reading the used index: done once it moved past
/// `last_used`; otherwise one poll fewer is left, and none left is a
/// timeout.
pub fn poll_step(used_idx: u16, last_used: u16, polls_left: u32) -> (r: PollStep)
    requires
        polls_left > 0,
    ensures
        used_idx != last_used ==> r == PollStep::Complete,
        used_idx == last_used && polls_left == 1 ==> r == PollStep::TimedOut,
        used_idx == last_used && polls_left > 1 ==> r == PollStep::Wait((polls_left - 1) as u32),
{
    if used_idx != last_used {
        return PollStep::Complete;
    }
    let left = polls_left - 1;
    if left == 0 {
        PollStep::TimedOut
    } else {
        PollStep::Wait(left)
    }
}

/// After the device used a chain: the next used index to wait for, wrapping
/// at 16 bits, and the outcome the status byte reports, `DeviceError`
/// unless it is `VIRTIO_BLK_S_OK`.
pub fn complete_request(last_used: u16, status: u8) -> (r: (u16, Result<(), BlockError>))
    ensures
        r.0 == (if last_used == u16::MAX { 0 } else { last_used + 1 }),
        r.1 is Ok <==> status == VIRTIO_BLK_S_OK,
        r.1 matches Err(e) ==> e == BlockError::DeviceError,
{
    let next = last_used.wrapping_add(1);
    if status != VIRTIO_BLK_S_OK {
        (next, Err(BlockError::DeviceError))
    } else {
        (next, Ok(()))
    }
}

/// The queue size to use: the device's, at most 64.
pub fn queue_size_for(device_max: u16) -> (r: u16)
    ensures
        r == (if device_max < MAX_QUEUE_SIZE { device_max } else { MAX_QUEUE_SIZE }),
{
    if device_max < MAX_QUEUE_SIZE { device_max } else { MAX_QUEUE_SIZE }
}

/// Whether the device kept `FEATURES_OK` set after negotiation.
pub fn features_accepted(status: u8) -> (r: bool)
    ensures
        r == (status & STATUS_FEATURES_OK != 0),
{
    status & STATUS_FEATURES_OK != 0
}

/// A 64-bit physical address as its low and high 32-bit halves.
pub fn split_phys(phys: u64) -> (r: (u32, u32))
    ensures
        r.0 == phys % 0x1_0000_0000,
        r.1 == phys / 0x1_0000_0000,
        r.0 + r.1 * 0x1_0000_0000 == phys,
{
    let lo = (phys & 0xFFFF_FFFF) as u32;
    let hi = (phys >> 32) as u32;
    assert(phys & 0xFFFF_FFFF == phys % 0x1_0000_0000) by (bit_vector);
    assert(phys >> 32 == phys / 0x1_0000_0000) by (bit_vector);
    (lo, hi)
}

} // verus!
