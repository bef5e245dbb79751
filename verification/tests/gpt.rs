use std::collections::BTreeMap;

use kstorage::disk::{image_gpt, IMAGE_DISK_GUID, PARTITION_END_LBA, PARTITION_START_LBA, TOTAL_SECTORS};
use kstorage::gpt::manager::{
    format_guid, is_zero_guid, str_to_utf16le, utf16le_to_str, GptManager, PartitionKind, ESP_GUID, ESP_SIZE_SECTORS,
    NTFS_GUID,
};
use kstorage::gpt::read::{parse_and_verify_header, parse_gpt_entry, parse_header, read_gpt, validate_header, verify_entries_crc};
use kstorage::gpt::write::{build_header, finalize_header_crc, write_gpt, write_protective_mbr};
use kstorage::gpt::{crc32, serialize_entries, GptEntry, GptError};
use kstorage::hal::block::{BlockDevice, BlockError};
use kstorage::ntfs::boot::BootSector;

/// A disk that keeps only the sectors written to it; the rest read as zeros.
struct SparseDisk {
    sector: usize,
    count: u64,
    sectors: BTreeMap<u64, Vec<u8>>,
}

impl SparseDisk {
    fn new(sector: usize, count: u64) -> Self {
        SparseDisk { sector, count, sectors: BTreeMap::new() }
    }

    fn len(&self) -> u64 {
        self.count * self.sector as u64
    }

    fn byte(&self, pos: u64) -> u8 {
        let s = self.sector as u64;
        match self.sectors.get(&(pos / s)) {
            Some(v) => v[(pos % s) as usize],
            None => 0,
        }
    }

    fn set_byte(&mut self, pos: u64, b: u8) {
        let s = self.sector as u64;
        let sector = self.sector;
        let v = self.sectors.entry(pos / s).or_insert_with(|| vec![0u8; sector]);
        v[(pos % s) as usize] = b;
    }
}

impl BlockDevice for SparseDisk {
    fn bytes(&self) -> vstd::seq::Seq<u8> {
        unreachable!()
    }

    fn block_size_view(&self) -> usize {
        unreachable!()
    }

    fn block_count_view(&self) -> u64 {
        unreachable!()
    }

    fn read_blocks(&mut self, lba: u64, buf: &mut [u8]) -> Result<(), BlockError> {
        if lba + buf.len() as u64 > self.len() {
            return Err(BlockError::OutOfBounds);
        }
        for (i, b) in buf.iter_mut().enumerate() {
            *b = self.byte(lba + i as u64);
        }
        Ok(())
    }

    fn write_blocks(&mut self, lba: u64, buf: &[u8]) -> Result<(), BlockError> {
        if lba + buf.len() as u64 > self.len() {
            return Err(BlockError::OutOfBounds);
        }
        for (i, b) in buf.iter().enumerate() {
            self.set_byte(lba + i as u64, *b);
        }
        Ok(())
    }

    fn block_size(&self) -> usize {
        self.sector
    }

    fn block_count(&self) -> u64 {
        self.count
    }
}

fn entry(type_guid: [u8; 16], unique: u8, start: u64, end: u64, name: &str) -> GptEntry {
    GptEntry {
        type_guid,
        unique_guid: [unique; 16],
        start_lba: start,
        end_lba: end,
        attributes: 0,
        name: str_to_utf16le(name),
    }
}

#[test]
fn crc32_check_value() {
    assert_eq!(crc32(b"123456789"), 0xCBF4_3926);
    assert_eq!(crc32(b""), 0);
    assert_eq!(crc32(b"a"), 0xE8B7_BE43);
}

#[test]
fn entry_serializes_and_parses_back() {
    let e = entry(NTFS_GUID, 7, 2048, 4095, "data");
    let bytes = serialize_entries(&[e]);
    assert_eq!(bytes.len(), 128);
    assert_eq!(&bytes[0..16], &NTFS_GUID);
    assert_eq!(u64::from_le_bytes(bytes[32..40].try_into().unwrap()), 2048);
    let back = parse_gpt_entry(&bytes).unwrap();
    assert_eq!(back.type_guid, e.type_guid);
    assert_eq!(back.unique_guid, e.unique_guid);
    assert_eq!(back.start_lba, 2048);
    assert_eq!(back.end_lba, 4095);
    assert_eq!(back.name, e.name);
    assert!(matches!(parse_gpt_entry(&bytes[..100]), Err(GptError::InvalidEntrySize)));
}

#[test]
fn built_header_verifies_after_finalizing() {
    let guid = [9u8; 16];
    let mut h = build_header(1, 999, 2, 0x1234_5678, 999, 512, &guid, 4).unwrap();
    finalize_header_crc(&mut h);
    let (copy, header) = parse_and_verify_header(&h).unwrap();
    assert_eq!(copy, h);
    assert_eq!(header.my_lba, 1);
    assert_eq!(header.alternate_lba, 999);
    assert_eq!(header.first_usable_lba, 34);
    assert_eq!(header.last_usable_lba, 966);
    assert_eq!(header.partition_entry_lba, 2);
    assert_eq!(header.num_partition_entries, 4);
    assert_eq!(header.partition_array_crc32, 0x1234_5678);
    assert_eq!(header.disk_guid, guid);
    assert!(validate_header(&header).is_ok());
}

#[test]
fn header_errors_are_reported() {
    let guid = [1u8; 16];
    assert!(matches!(build_header(1, 9, 2, 0, 9, 64, &guid, 1), Err(GptError::InvalidHeaderSize)));
    let mut h = build_header(1, 999, 2, 0, 999, 512, &guid, 4).unwrap();
    finalize_header_crc(&mut h);

    let mut bad_crc = h.clone();
    bad_crc[30] ^= 1;
    assert!(matches!(parse_and_verify_header(&bad_crc), Err(GptError::InvalidHeaderCrc)));

    let mut bad_sig = h.clone();
    bad_sig[0] = b'X';
    assert!(matches!(parse_and_verify_header(&bad_sig), Err(GptError::InvalidSignature)));

    let mut bad_size = h.clone();
    bad_size[12] = 93;
    assert!(matches!(parse_and_verify_header(&bad_size), Err(GptError::InvalidHeaderSize)));

    let mut bad_entry = h.clone();
    bad_entry[84] = 64;
    let parsed = parse_header(&bad_entry).unwrap();
    assert!(matches!(validate_header(&parsed), Err(GptError::InvalidEntrySize)));

    assert!(matches!(parse_header(&h[..91]), Err(GptError::InvalidHeaderSize)));
}

#[test]
fn entries_checksum_is_checked() {
    let es = [entry(ESP_GUID, 1, 34, 100, "esp"), entry(NTFS_GUID, 2, 101, 200, "data")];
    let crc = crc32(&serialize_entries(&es));
    assert!(verify_entries_crc(&es, crc).is_ok());
    assert!(matches!(verify_entries_crc(&es, crc ^ 1), Err(GptError::InvalidEntriesCrc)));
}

#[test]
fn written_table_reads_back() {
    let mut disk = SparseDisk::new(512, 4096);
    let es = [entry(ESP_GUID, 1, 34, 1000, "EFI"), entry(NTFS_GUID, 2, 1001, 4000, "Data")];
    let guid = [0x42u8; 16];
    write_gpt(&mut disk, &es, &guid).unwrap();
    assert_eq!(disk.byte(510), 0x55);
    assert_eq!(disk.byte(511), 0xAA);
    assert_eq!(disk.byte(450), 0xEE);
    let (h, back) = read_gpt(&mut disk).unwrap();
    assert_eq!(h.disk_guid, guid);
    assert_eq!(h.my_lba, 1);
    assert_eq!(h.alternate_lba, 4095);
    assert_eq!(back.len(), 2);
    assert_eq!(back[0].start_lba, 34);
    assert_eq!(back[1].end_lba, 4000);
    assert_eq!(utf16le_to_str(&back[1].name), "Data");
}

#[test]
fn backup_table_is_used_when_primary_is_damaged() {
    let mut disk = SparseDisk::new(512, 4096);
    let es = [entry(NTFS_GUID, 2, 100, 200, "x")];
    write_gpt(&mut disk, &es, &[3u8; 16]).unwrap();
    disk.set_byte(512, b'X');
    let (h, back) = read_gpt(&mut disk).unwrap();
    assert_eq!(h.my_lba, 4095);
    assert_eq!(h.partition_entry_lba, 4095 - 32);
    assert_eq!(back[0].start_lba, 100);
}

#[test]
fn write_gpt_refuses_what_does_not_fit() {
    let mut disk = SparseDisk::new(512, 4096);
    let many: Vec<GptEntry> = (0..129).map(|i| entry(NTFS_GUID, i as u8, 0, 0, "")).collect();
    assert!(matches!(write_gpt(&mut disk, &many, &[0u8; 16]), Err(GptError::NoSpace)));
    let mut empty = SparseDisk::new(512, 0);
    assert!(matches!(write_gpt(&mut empty, &[], &[0u8; 16]), Err(GptError::NoSpace)));
    let mut tiny = SparseDisk::new(512, 36);
    assert!(matches!(write_gpt(&mut tiny, &[], &[0u8; 16]), Err(GptError::NoSpace)));
}

#[test]
fn protective_mbr_covers_disk() {
    let mut disk = SparseDisk::new(512, 100);
    write_protective_mbr(&mut disk, 99).unwrap();
    assert_eq!(disk.byte(450), 0xEE);
    assert_eq!(disk.byte(454), 1);
    assert_eq!(disk.byte(458), 99);
    assert_eq!(disk.byte(510), 0x55);
}

#[test]
fn guid_formatting() {
    let g = [0x28, 0x73, 0x2A, 0xC1, 0x1F, 0xF8, 0xD2, 0x11, 0xBA, 0x4B, 0x00, 0xA0, 0xC9, 0x3E, 0xC9, 0x3B];
    assert_eq!(format_guid(&g), "c12a7328-f81f-11d2-ba4b-00a0c93ec93b");
    assert!(is_zero_guid(&[0u8; 16]));
    assert!(!is_zero_guid(&g));
}

#[test]
fn partition_names_round_trip() {
    let units = str_to_utf16le("NTFS Data");
    assert_eq!(units[0], b'N' as u16);
    assert_eq!(units[9], 0);
    assert_eq!(utf16le_to_str(&units), "NTFS Data");
    let long = "abcdefghijklmnopqrstuvwxyzabcdefghijklmnop";
    assert_eq!(utf16le_to_str(&str_to_utf16le(long)), &long[..36]);
    let mut odd = [0u16; 36];
    odd[0] = 0x263A;
    odd[1] = b'x' as u16;
    assert_eq!(utf16le_to_str(&odd), "x");
}

#[test]
fn format_disk_lays_out_esp_and_ntfs() {
    let count = ESP_SIZE_SECTORS + 34 + 34 + 5000;
    let mut disk = SparseDisk::new(512, count);
    let (esp_start, esp_size, ntfs_start, ntfs_size) =
        GptManager::format_disk(&mut disk, 2000, &[1u8; 16], &[2u8; 16], &[3u8; 16]).unwrap();
    assert_eq!((esp_start, esp_size), (34, ESP_SIZE_SECTORS));
    assert_eq!(ntfs_start, 34 + ESP_SIZE_SECTORS);
    assert_eq!(ntfs_size, 2000);
    assert_eq!(GptManager::find_esp_offset(&mut disk), Ok(34 * 512));
    assert_eq!(GptManager::find_ntfs_offset(&mut disk), Ok(ntfs_start * 512));
    let info = GptManager::read_disk(&mut disk).unwrap();
    assert_eq!(info.sector_size, 512);
    assert_eq!(info.total_sectors, count);
    assert_eq!(info.disk_guid, "03030303-0303-0303-0303-030303030303");
    assert_eq!(info.partitions.len(), 2);
    assert_eq!(info.partitions[0].kind, PartitionKind::Esp);
    assert_eq!(info.partitions[1].kind, PartitionKind::Ntfs);
    assert_eq!(info.partitions[1].size_bytes, 2000 * 512);
}

#[test]
fn format_disk_takes_all_space_when_asked_for_none() {
    let count = ESP_SIZE_SECTORS + 34 + 34 + 5000;
    let mut disk = SparseDisk::new(512, count);
    let (_, _, ntfs_start, ntfs_size) =
        GptManager::format_disk(&mut disk, 0, &[1u8; 16], &[2u8; 16], &[3u8; 16]).unwrap();
    assert_eq!(ntfs_start + ntfs_size, count - 34);
}

#[test]
fn format_disk_refuses_small_disk() {
    let mut disk = SparseDisk::new(512, 100_000);
    assert!(matches!(GptManager::format_disk(&mut disk, 0, &[1u8; 16], &[2u8; 16], &[3u8; 16]), Err(GptError::NoSpace)));
}

#[test]
fn find_offset_without_partition_is_not_found() {
    let mut disk = SparseDisk::new(512, 4096);
    write_gpt(&mut disk, &[entry(NTFS_GUID, 2, 100, 200, "x")], &[3u8; 16]).unwrap();
    assert_eq!(GptManager::find_esp_offset(&mut disk), Err(GptError::NotFound));
    assert_eq!(GptManager::find_ntfs_offset(&mut disk), Ok(100 * 512));
}

#[test]
fn ntfs_boot_sector_is_accepted_by_the_driver() {
    let b = GptManager::create_ntfs_boot_sector(123_456, 512).unwrap();
    assert_eq!(b.len(), 512);
    let arr: [u8; 512] = b.as_slice().try_into().unwrap();
    let bs = BootSector::from_bytes(&arr).unwrap();
    assert_eq!(bs.bytes_per_sector, 512);
    assert_eq!(bs.sectors_per_cluster, 8);
    assert_eq!(bs.total_sectors, 123_456);
    assert_eq!(bs.mft_start_cluster, 2);
    assert!(matches!(GptManager::create_ntfs_boot_sector(1, 256), Err(GptError::InvalidHeaderSize)));
}

#[test]
fn boot_image_gpt_is_consistent() {
    let g = image_gpt();
    assert_eq!(&g.mbr[0..3], &[0xEB, 0xFE, 0x90]);
    assert_eq!(g.mbr[0x1C2], 0xEE);
    assert_eq!(u32::from_le_bytes(g.mbr[0x1CA..0x1CE].try_into().unwrap()), (TOTAL_SECTORS - 1) as u32);
    assert_eq!(g.entries.len(), 128 * 128);
    let (_, primary) = parse_and_verify_header(&g.primary).unwrap();
    let (_, secondary) = parse_and_verify_header(&g.secondary).unwrap();
    assert_eq!(primary.my_lba, 1);
    assert_eq!(primary.alternate_lba, TOTAL_SECTORS - 1);
    assert_eq!(secondary.my_lba, TOTAL_SECTORS - 1);
    assert_eq!(secondary.partition_entry_lba, TOTAL_SECTORS - 33);
    assert_eq!(primary.partition_array_crc32, crc32(&g.entries));
    assert_eq!(primary.disk_guid, IMAGE_DISK_GUID);
    assert_eq!(primary.last_usable_lba, TOTAL_SECTORS - 34);
    let e = parse_gpt_entry(&g.entries[..128]).unwrap();
    assert_eq!(e.start_lba, PARTITION_START_LBA);
    assert_eq!(e.end_lba, PARTITION_END_LBA);
    assert_eq!(utf16le_to_str(&e.name), "KRNLDISK");
    assert!(g.entries[128..].iter().all(|b| *b == 0));
}
