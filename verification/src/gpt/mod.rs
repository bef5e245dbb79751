//! GUID partition tables: on-disk layout, checksums, reading, writing and
//! formatting.

pub mod manager;
pub mod read;
pub mod write;

use vstd::prelude::*;
use crate::bytes::{le16, le32, le64, write_u16_le, write_u32_le, write_u64_le};
use crate::hal::block::BlockError;
use crate::hal::io::IoError;

verus! {

/// The signature a GPT header starts with: `"EFI PART"`.
pub const GPT_SIGNATURE: [u8; 8] = [0x45, 0x46, 0x49, 0x20, 0x50, 0x41, 0x52, 0x54];
/// GPT revision 1.0.
pub const GPT_REVISION: [u8; 4] = [0x00, 0x00, 0x01, 0x00];
/// Size of the header fields covered by the header checksum.
pub const GPT_HEADER_SIZE: u32 = 92;
/// Size of one partition entry.
pub const GPT_ENTRY_SIZE: u32 = 128;
/// Most partition entries a table is written with.
pub const GPT_MAX_ENTRIES: u32 = 128;
/// First LBA usable by partitions: after the MBR, the header and 32 sectors
/// of entries.
pub const GPT_FIRST_USABLE_LBA: u64 = 34;
/// Sectors kept at the end of the disk for the backup entries and header.
pub const GPT_RESERVED_LBAS: u64 = 33;

/// The bytes of `"EFI PART"`.
pub open spec fn gpt_signature() -> Seq<u8> {
    seq![0x45u8, 0x46u8, 0x49u8, 0x20u8, 0x50u8, 0x41u8, 0x52u8, 0x54u8]
}

/// Errors of GPT handling.
#[derive(Debug, Clone, Copy, PartialEq, Eq, Structural)]
pub enum GptError {
    InvalidSignature,
    InvalidHeaderCrc,
    InvalidEntriesCrc,
    InvalidHeaderSize,
    InvalidEntrySize,
    IoError,
    Overflow,
    NoSpace,
    NotFound,
}

impl From<IoError> for GptError {
    fn from(e: IoError) -> (r: GptError) {
        GptError::IoError
    }
}

impl vstd::std_specs::convert::FromSpecImpl<IoError> for GptError {
    open spec fn obeys_from_spec() -> bool {
        true
    }

    open spec fn from_spec(e: IoError) -> GptError {
        GptError::IoError
    }
}

impl From<BlockError> for GptError {
    fn from(e: BlockError) -> (r: GptError) {
        GptError::IoError
    }
}

impl vstd::std_specs::convert::FromSpecImpl<BlockError> for GptError {
    open spec fn obeys_from_spec() -> bool {
        true
    }

    open spec fn from_spec(e: BlockError) -> GptError {
        GptError::IoError
    }
}

/// One step of the reflected CRC-32 shift register (polynomial 0xEDB88320).
pub open spec fn crc_step(c: u32) -> u32 {
    if c & 1 != 0 { (c >> 1) ^ 0xEDB8_8320u32 } else { c >> 1 }
}

/// `k` steps of the shift register.
pub open spec fn crc_steps(c: u32, k: nat) -> u32
    decreases k,
{
    if k == 0 { c } else { crc_steps(crc_step(c), (k - 1) as nat) }
}

/// The shift register after the bytes of `data`, from all ones.
pub open spec fn crc_register(data: Seq<u8>) -> u32
    decreases data.len(),
{
    if data.len() == 0 {
        0xFFFF_FFFFu32
    } else {
        crc_steps(crc_register(data.drop_last()) ^ (data.last() as u32), 8)
    }
}

/// The CRC-32 (IEEE 802.3) of `data`.
pub open spec fn crc32_spec(data: Seq<u8>) -> u32 {
    !crc_register(data)
}

/// The CRC-32 (IEEE 802.3) of `data`.
pub fn crc32(data: &[u8]) -> (r: u32)
    ensures
        r == crc32_spec(data@),
{
    let mut crc: u32 = 0xFFFF_FFFF;
    let mut i: usize = 0;
    while i < data.len()
        invariant
            i <= data@.len(),
            crc == crc_register(data@.subrange(0, i as int)),
        decreases data@.len() - i,
    {
        assert(data@.subrange(0, i + 1).drop_last() =~= data@.subrange(0, i as int));
        crc = crc ^ (data[i] as u32);
        let ghost start = crc;
        let mut k: usize = 0;
        while k < 8
            invariant
                k <= 8,
                crc_steps(crc, (8 - k) as nat) == crc_steps(start, 8),
            decreases 8 - k,
        {
            crc = if crc & 1 != 0 { (crc >> 1) ^ 0xEDB8_8320u32 } else { crc >> 1 };
            k = k + 1;
        }
        i = i + 1;
    }
    assert(data@.subrange(0, i as int) =~= data@);
    !crc
}

/// The GPT header fields.
#[derive(Debug, Clone, Copy)]
pub struct GptHeader {
    pub signature: [u8; 8],
    pub revision: [u8; 4],
    pub header_size: u32,
    pub header_crc32: u32,
    pub reserved: u32,
    pub my_lba: u64,
    pub alternate_lba: u64,
    pub first_usable_lba: u64,
    pub last_usable_lba: u64,
    pub disk_guid: [u8; 16],
    pub partition_entry_lba: u64,
    pub num_partition_entries: u32,
    pub partition_entry_size: u32,
    pub partition_array_crc32: u32,
}

/// One partition entry.
#[derive(Debug, Clone, Copy)]
pub struct GptEntry {
    pub type_guid: [u8; 16],
    pub unique_guid: [u8; 16],
    pub start_lba: u64,
    pub end_lba: u64,
    pub attributes: u64,
    pub name: [u16; 36],
}

/// The 128 bytes `b` hold entry `e`: the two GUIDs, the LBAs and attributes
/// little-endian, the name as 36 little-endian UTF-16 units.
pub open spec fn entry_bytes(b: Seq<u8>, e: GptEntry) -> bool {
    &&& b.len() == 128
    &&& b.subrange(0, 16) == e.type_guid@
    &&& b.subrange(16, 32) == e.unique_guid@
    &&& le64(b, 32) == e.start_lba
    &&& le64(b, 40) == e.end_lba
    &&& le64(b, 48) == e.attributes
    &&& forall|i: int| 0 <= i < 36 ==> le16(b, 56 + 2 * i) == #[trigger] e.name@[i]
}

/// The bytes of an entry array: entry `k` in bytes `128 k .. 128 k + 128`.
pub open spec fn entries_bytes(b: Seq<u8>, es: Seq<GptEntry>) -> bool {
    &&& b.len() == 128 * es.len()
    &&& forall|k: int| 0 <= k < es.len() ==> entry_bytes(#[trigger] b.subrange(128 * k, 128 * k + 128), es[k])
}

/// Write entry `e` into `buf` at `off`.
fn write_entry(buf: &mut Vec<u8>, off: usize, e: &GptEntry)
    requires
        off + 128 <= old(buf)@.len(),
    ensures
        final(buf)@.len() == old(buf)@.len(),
        entry_bytes(final(buf)@.subrange(off as int, off + 128), *e),
        forall|i: int| 0 <= i < old(buf)@.len() && !(off <= i < off + 128) ==> #[trigger] final(buf)@[i] == old(buf)@[i],
{
    let len = buf.len();
    let ghost b0 = buf@;
    let mut i: usize = 0;
    while i < 16
        invariant
            i <= 16,
            off + 128 <= len,
            len == buf@.len(),
            forall|k: int| 0 <= k < i ==> #[trigger] buf@[off + k] == e.type_guid@[k],
            forall|k: int| 0 <= k < len && !(off <= k < off + i) ==> #[trigger] buf@[k] == b0[k],
        decreases 16 - i,
    {
        buf.set(off + i, e.type_guid[i]);
        i = i + 1;
    }
    let mut i: usize = 0;
    while i < 16
        invariant
            i <= 16,
            off + 128 <= len,
            len == buf@.len(),
            forall|k: int| 0 <= k < 16 ==> #[trigger] buf@[off + k] == e.type_guid@[k],
            forall|k: int| 0 <= k < i ==> #[trigger] buf@[off + 16 + k] == e.unique_guid@[k],
            forall|k: int| 0 <= k < len && !(off <= k < off + 16 + i) ==> #[trigger] buf@[k] == b0[k],
        decreases 16 - i,
    {
        buf.set(off + 16 + i, e.unique_guid[i]);
        i = i + 1;
    }
    let ghost b1 = buf@;
    write_u64_le(buf.as_mut_slice(), off + 32, e.start_lba);
    write_u64_le(buf.as_mut_slice(), off + 40, e.end_lba);
    write_u64_le(buf.as_mut_slice(), off + 48, e.attributes);
    let ghost b2 = buf@;
    let mut j: usize = 0;
    while j < 36
        invariant
            j <= 36,
            off + 128 <= len,
            len == buf@.len(),
            forall|k: int| 0 <= k < j ==> le16(buf@, off + 56 + 2 * k) == #[trigger] e.name@[k],
            forall|k: int| 0 <= k < len && !(off + 56 <= k < off + 56 + 2 * j) ==> #[trigger] buf@[k] == b2[k],
        decreases 36 - j,
    {
        write_u16_le(buf.as_mut_slice(), off + 56 + 2 * j, e.name[j]);
        j = j + 1;
    }
    proof {
        let s = buf@.subrange(off as int, off + 128);
        assert forall|k: int| 0 <= k < 32 implies #[trigger] buf@[off + k] == b1[off + k] by {
            assert(buf@[off + k] == b2[off + k]);
        }
        assert forall|k: int| 0 <= k < 16 implies #[trigger] s.subrange(0, 16)[k] == e.type_guid@[k] by {
            assert(buf@[off + k] == b1[off + k]);
        }
        assert forall|k: int| 0 <= k < 16 implies #[trigger] s.subrange(16, 32)[k] == e.unique_guid@[k] by {
            assert(buf@[off + 16 + k] == b1[off + 16 + k]);
        }
        assert(s.subrange(0, 16) =~= e.type_guid@);
        assert(s.subrange(16, 32) =~= e.unique_guid@);
        assert(le64(s, 32) == le64(b2, off + 32));
        assert(le64(s, 40) == le64(b2, off + 40));
        assert(le64(s, 48) == le64(b2, off + 48));
        assert forall|k: int| 0 <= k < 36 implies le16(s, 56 + 2 * k) == #[trigger] e.name@[k] by {
            assert(le16(buf@, off + 56 + 2 * k) == e.name@[k]);
        }
    }
}

/// The bytes of an entry array.
pub fn serialize_entries(entries: &[GptEntry]) -> (r: Vec<u8>)
    requires
        128 * entries@.len() <= usize::MAX,
    ensures
        entries_bytes(r@, entries@),
{
    let n = entries.len();
    let mut buf: Vec<u8> = vec![0u8; 128 * n];
    let mut k: usize = 0;
    while k < n
        invariant
            k <= n,
            n == entries@.len(),
            128 * n <= usize::MAX,
            buf@.len() == 128 * n,
            forall|j: int| 0 <= j < k ==> entry_bytes(#[trigger] buf@.subrange(128 * j, 128 * j + 128), entries@[j]),
        decreases n - k,
    {
        let ghost before = buf@;
        assert(128 * k + 128 <= 128 * n) by (nonlinear_arith)
            requires k < n;
        assert(128 * k <= usize::MAX);
        write_entry(&mut buf, 128 * k, &entries[k]);
        proof {
            assert forall|j: int| 0 <= j < k + 1 implies entry_bytes(#[trigger] buf@.subrange(128 * j, 128 * j + 128), entries@[j]) by {
                if j < k {
                    assert(buf@.subrange(128 * j, 128 * j + 128) =~= before.subrange(128 * j, 128 * j + 128));
                }
            }
        }
        k = k + 1;
    }
    buf
}

} // verus!
