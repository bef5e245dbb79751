//! The NTFS boot sector (BIOS parameter block).

use vstd::prelude::*;
use vstd::arithmetic::power2::pow2;
use crate::bytes::{le16, le32, le64, read_u16_le, read_u32_le, read_u64_le};
use crate::ntfs::NtfsError;

verus! {

/// NTFS boot sector (BPB).
#[derive(Clone, Copy)]
pub struct BootSector {
    pub jump: [u8; 3],
    pub oem_id: [u8; 8],
    pub bytes_per_sector: u16,
    pub sectors_per_cluster: u8,
    pub reserved: [u8; 7],
    pub media_type: u8,
    pub total_sectors: u64,
    pub mft_start_cluster: u64,
    pub mft_mirror_start_cluster: u64,
    pub clusters_per_mft_record: i8,
    pub clusters_per_index_buffer: i8,
    pub serial_number: u64,
    pub checksum: u32,
    pub boot_code: [u8; 426],
    pub boot_signature: u16,
}

/// The OEM identifier an NTFS volume carries at offset 3: `"NTFS    "`.
pub open spec fn ntfs_oem_id() -> Seq<u8> {
    seq![0x4Eu8, 0x54u8, 0x46u8, 0x53u8, 0x20u8, 0x20u8, 0x20u8, 0x20u8]
}

/// A sector that `from_bytes` accepts: the NTFS OEM identifier and the
/// `0x55 0xAA` boot signature.
pub open spec fn is_ntfs_boot_sector(b: Seq<u8>) -> bool {
    &&& b.len() == 512
    &&& b.subrange(3, 11) == ntfs_oem_id()
    &&& b[0x1FE] == 0x55
    &&& b[0x1FF] == 0xAA
}

/// The fields `from_bytes` reads out of an accepted sector.
pub open spec fn parsed_from(bs: BootSector, b: Seq<u8>) -> bool {
    &&& bs.jump@ == b.subrange(0, 3)
    &&& bs.oem_id@ == b.subrange(3, 11)
    &&& bs.bytes_per_sector == le16(b, 0x0B)
    &&& bs.sectors_per_cluster == b[0x0D]
    &&& bs.reserved@ == Seq::new(7, |i: int| 0u8)
    &&& bs.media_type == b[0x15]
    &&& bs.total_sectors == le64(b, 0x28)
    &&& bs.mft_start_cluster == le64(b, 0x30)
    &&& bs.mft_mirror_start_cluster == le64(b, 0x38)
    &&& bs.clusters_per_mft_record == b[0x40] as i8
    &&& bs.clusters_per_index_buffer == b[0x44] as i8
    &&& bs.serial_number == le64(b, 0x48)
    &&& bs.checksum == le32(b, 0x50)
    &&& bs.boot_code@ == Seq::new(426, |i: int| 0u8)
    &&& bs.boot_signature == 0xAA55
}

impl BootSector {
    /// Bytes per cluster.
    pub open spec fn cluster_bytes(&self) -> int {
        self.bytes_per_sector * self.sectors_per_cluster
    }

    /// Size of one MFT record: a cluster count when positive, else a power
    /// of two given by the negated value.
    pub open spec fn record_bytes(&self) -> int {
        if self.clusters_per_mft_record > 0 {
            self.clusters_per_mft_record * self.cluster_bytes()
        } else {
            pow2((-self.clusters_per_mft_record) as nat) as int
        }
    }

    /// Whether the record size can be computed without overflow.
    pub open spec fn record_size_ok(&self) -> bool {
        self.clusters_per_mft_record > 0 || -self.clusters_per_mft_record < usize::BITS
    }

    /// Byte offset of the MFT on the volume.
    pub open spec fn mft_offset(&self) -> int {
        self.mft_start_cluster * self.cluster_bytes()
    }

    /// Parse a boot sector; fails on a missing OEM identifier or signature.
    pub fn from_bytes(buf: &[u8; 512]) -> (r: Result<Self, NtfsError>)
        ensures
            r is Ok <==> is_ntfs_boot_sector(buf@),
            r matches Ok(bs) ==> parsed_from(bs, buf@),
            r matches Err(e) ==> e == NtfsError::InvalidBootSector,
    {
        let b = buf.as_slice();
        assert(b@.len() == 512);
        let oem_ok = b[3] == 0x4E && b[4] == 0x54 && b[5] == 0x46 && b[6] == 0x53
            && b[7] == 0x20 && b[8] == 0x20 && b[9] == 0x20 && b[10] == 0x20;
        if !oem_ok {
            proof {
                if b@.subrange(3, 11) == ntfs_oem_id() {
                    assert(b@.subrange(3, 11)[0] == ntfs_oem_id()[0]);
                    assert(b@.subrange(3, 11)[1] == ntfs_oem_id()[1]);
                    assert(b@.subrange(3, 11)[2] == ntfs_oem_id()[2]);
                    assert(b@.subrange(3, 11)[3] == ntfs_oem_id()[3]);
                    assert(b@.subrange(3, 11)[4] == ntfs_oem_id()[4]);
                    assert(b@.subrange(3, 11)[5] == ntfs_oem_id()[5]);
                    assert(b@.subrange(3, 11)[6] == ntfs_oem_id()[6]);
                    assert(b@.subrange(3, 11)[7] == ntfs_oem_id()[7]);
                }
            }
            return Err(NtfsError::InvalidBootSector);
        }
        assert(b@.subrange(3, 11) =~= ntfs_oem_id());
        if b[0x1FE] != 0x55 || b[0x1FF] != 0xAA {
            return Err(NtfsError::InvalidBootSector);
        }
        let bs = BootSector {
            jump: [b[0], b[1], b[2]],
            oem_id: [b[3], b[4], b[5], b[6], b[7], b[8], b[9], b[10]],
            bytes_per_sector: read_u16_le(b, 0x0B),
            sectors_per_cluster: b[0x0D],
            reserved: [0u8; 7],
            media_type: b[0x15],
            total_sectors: read_u64_le(b, 0x28),
            mft_start_cluster: read_u64_le(b, 0x30),
            mft_mirror_start_cluster: read_u64_le(b, 0x38),
            clusters_per_mft_record: #[verifier::truncate] (b[0x40] as i8),
            clusters_per_index_buffer: #[verifier::truncate] (b[0x44] as i8),
            serial_number: read_u64_le(b, 0x48),
            checksum: read_u32_le(b, 0x50),
            boot_code: [0u8; 426],
            boot_signature: 0xAA55,
        };
        assert(bs.jump@ =~= b@.subrange(0, 3));
        assert(bs.oem_id@ =~= b@.subrange(3, 11));
        assert(bs.reserved@ =~= Seq::new(7, |i: int| 0u8));
        assert(bs.boot_code@ =~= Seq::new(426, |i: int| 0u8));
        Ok(bs)
    }

    /// Bytes per cluster.
    pub fn bytes_per_cluster(&self) -> (r: u64)
        ensures
            r == self.cluster_bytes(),
    {
        assert(self.bytes_per_sector * self.sectors_per_cluster <= 65535 * 255) by (nonlinear_arith)
            requires
                self.bytes_per_sector <= 65535,
                self.sectors_per_cluster <= 255,
        ;
        self.bytes_per_sector as u64 * self.sectors_per_cluster as u64
    }

    /// Size in bytes of one MFT record.
    pub fn mft_record_size(&self) -> (r: usize)
        requires
            self.record_size_ok(),
        ensures
            r == self.record_bytes(),
    {
        if self.clusters_per_mft_record > 0 {
            let bpc = self.bytes_per_cluster();
            let c = self.clusters_per_mft_record as u64;
            assert(bpc <= 65535 * 255) by (nonlinear_arith)
                requires
                    bpc == self.bytes_per_sector * self.sectors_per_cluster,
                    self.bytes_per_sector <= 65535,
                    self.sectors_per_cluster <= 255,
            ;
            assert(c * bpc <= 127 * (65535 * 255)) by (nonlinear_arith)
                requires
                    c <= 127,
                    bpc <= 65535 * 255,
            ;
            (c * bpc) as usize
        } else {
            let shift = (-(self.clusters_per_mft_record as i32)) as usize;
            proof {
                vstd::bits::lemma_usize_pow2_no_overflow(shift as nat);
                vstd::bits::lemma_usize_shl_is_mul(1, shift);
            }
            1usize << shift
        }
    }

    /// Byte offset of the MFT on the volume.
    pub fn mft_byte_offset(&self) -> (r: u64)
        requires
            self.mft_offset() <= u64::MAX,
        ensures
            r == self.mft_offset(),
    {
        self.mft_start_cluster * self.bytes_per_cluster()
    }
}

} // verus!
