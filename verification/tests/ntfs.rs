use kstorage::blockdev::{BlockDevice, BlockError};
use kstorage::ntfs::attr::{
    apply_fixups, find_attribute_offset, find_data_attribute_offset, fixups_applied, parse_attr_name,
    parse_attributes, parse_filename, parse_filename_from_key, parse_name_and_parent, reapply_fixups,
    update_resident_data,
};
use kstorage::ntfs::boot::BootSector;
use kstorage::ntfs::driver::{fill_from, find_in_stat, list_from_stat, record_result, stat_from_raw, NtfsDriver};
use kstorage::ntfs::error::FsError as NtfsFsError;
use kstorage::ntfs::index::{find, find_in_directory_with_index, list, list_from_index};
use kstorage::ntfs::runs::parse_data_runs;
use kstorage::ntfs::streams::parse_stat_with_streams;
use kstorage::ntfs::write::{create_mft_record, encode_utf16, write_data_attr, write_filename_attr, write_standard_info_attr};
use kstorage::ntfs::{AttributeType, CreateOptions, NtfsError};

const MFT_OFFSET: usize = 4 * 4096;
const RECORD_SIZE: usize = 1024;

struct RamDisk {
    data: Vec<u8>,
}

impl BlockDevice for RamDisk {
    fn contents(&self) -> vstd::seq::Seq<u8> {
        unreachable!()
    }

    fn sector_bytes(&self) -> usize {
        unreachable!()
    }

    fn size_view(&self) -> u64 {
        unreachable!()
    }

    fn read_at(&mut self, offset: u64, buf: &mut [u8]) -> Result<(), BlockError> {
        let off = offset as usize;
        if off + buf.len() > self.data.len() {
            return Err(BlockError::OutOfBounds);
        }
        buf.copy_from_slice(&self.data[off..off + buf.len()]);
        Ok(())
    }

    fn write_at(&mut self, offset: u64, buf: &[u8]) -> Result<(), BlockError> {
        let off = offset as usize;
        if off + buf.len() > self.data.len() {
            return Err(BlockError::OutOfBounds);
        }
        self.data[off..off + buf.len()].copy_from_slice(buf);
        Ok(())
    }

    fn size(&self) -> u64 {
        self.data.len() as u64
    }

    fn sector_size(&self) -> usize {
        512
    }
}

/// A boot sector: 512-byte sectors, 8 per cluster, MFT at cluster 4,
/// 1024-byte records, one cluster per index buffer.
fn boot_sector_bytes() -> [u8; 512] {
    let mut b = [0u8; 512];
    b[0] = 0xEB;
    b[1] = 0x52;
    b[2] = 0x90;
    b[3..11].copy_from_slice(b"NTFS    ");
    b[0x0B..0x0D].copy_from_slice(&512u16.to_le_bytes());
    b[0x0D] = 8;
    b[0x15] = 0xF8;
    b[0x28..0x30].copy_from_slice(&4096u64.to_le_bytes());
    b[0x30..0x38].copy_from_slice(&4u64.to_le_bytes());
    b[0x38..0x40].copy_from_slice(&8u64.to_le_bytes());
    b[0x40] = 0xF6;
    b[0x44] = 1;
    b[0x48..0x50].copy_from_slice(&0x0102_0304_0506_0708u64.to_le_bytes());
    b[0x1FE] = 0x55;
    b[0x1FF] = 0xAA;
    b
}

/// A 2 MiB volume holding the boot sector and a root directory record.
fn fresh_volume() -> RamDisk {
    let mut data = vec![0u8; 2 * 1024 * 1024];
    data[0..512].copy_from_slice(&boot_sector_bytes());
    let root = create_mft_record(RECORD_SIZE, 1, 5, ".", 5, true, &[]).unwrap();
    let at = MFT_OFFSET + 5 * RECORD_SIZE;
    data[at..at + RECORD_SIZE].copy_from_slice(&root);
    RamDisk { data }
}

#[test]
fn boot_sector_parses_geometry() {
    let bs = BootSector::from_bytes(&boot_sector_bytes()).unwrap();
    assert_eq!(bs.bytes_per_sector, 512);
    assert_eq!(bs.sectors_per_cluster, 8);
    assert_eq!(bs.bytes_per_cluster(), 4096);
    assert_eq!(bs.mft_record_size(), 1024);
    assert_eq!(bs.mft_byte_offset(), 16384);
    assert_eq!(bs.serial_number, 0x0102_0304_0506_0708);
}

#[test]
fn boot_sector_positive_record_clusters() {
    let mut b = boot_sector_bytes();
    b[0x40] = 2;
    let bs = BootSector::from_bytes(&b).unwrap();
    assert_eq!(bs.mft_record_size(), 2 * 4096);
}

#[test]
fn boot_sector_rejects_bad_oem() {
    let mut b = boot_sector_bytes();
    b[3] = b'X';
    assert!(matches!(BootSector::from_bytes(&b), Err(NtfsError::InvalidBootSector)));
}

#[test]
fn boot_sector_rejects_missing_signature() {
    let mut b = boot_sector_bytes();
    b[0x1FF] = 0;
    assert!(matches!(BootSector::from_bytes(&b), Err(NtfsError::InvalidBootSector)));
}

/// A record with fixups: sequence number 0x0102 at offset 48, two sectors.
fn record_with_fixups() -> Vec<u8> {
    let mut r = vec![0u8; 1024];
    r[0..4].copy_from_slice(b"FILE");
    r[4..6].copy_from_slice(&48u16.to_le_bytes());
    r[6..8].copy_from_slice(&3u16.to_le_bytes());
    r[48] = 0x02;
    r[49] = 0x01;
    r[50] = 0xAA;
    r[51] = 0xBB;
    r[52] = 0xCC;
    r[53] = 0xDD;
    r[510] = 0x02;
    r[511] = 0x01;
    r[1022] = 0x02;
    r[1023] = 0x01;
    r
}

#[test]
fn apply_fixups_restores_sector_ends() {
    let mut r = record_with_fixups();
    apply_fixups(&mut r).unwrap();
    assert_eq!(&r[510..512], &[0xAA, 0xBB]);
    assert_eq!(&r[1022..1024], &[0xCC, 0xDD]);
}

#[test]
fn apply_fixups_detects_torn_sector() {
    let mut r = record_with_fixups();
    r[1022] = 0x99;
    assert!(matches!(apply_fixups(&mut r), Err(NtfsError::CorruptedFilesystem)));
}

#[test]
fn reapply_then_apply_round_trips() {
    let mut r = record_with_fixups();
    apply_fixups(&mut r).unwrap();
    r[300] = 7;
    let before = r.clone();
    reapply_fixups(&mut r).unwrap();
    assert_eq!(&r[510..512], &[0x02, 0x01]);
    assert_eq!(&r[1022..1024], &[0x02, 0x01]);
    apply_fixups(&mut r).unwrap();
    assert_eq!(r, before);
}

#[test]
fn fixups_applied_reads_first_sector_end() {
    let r = record_with_fixups();
    assert_eq!(fixups_applied(&r, 512), Ok(false));
    let mut applied = r.clone();
    apply_fixups(&mut applied).unwrap();
    assert_eq!(fixups_applied(&applied, 512), Ok(true));
    let mut no_usa = r.clone();
    no_usa[6] = 0;
    no_usa[7] = 0;
    assert_eq!(fixups_applied(&no_usa, 512), Ok(false));
}

#[test]
fn data_runs_decode_offsets_and_lengths() {
    let mut attr = vec![0u8; 64];
    attr[32..34].copy_from_slice(&40u16.to_le_bytes());
    // 0x18 clusters at cluster 0x5634, then 0x10 clusters 0x20 further on, then -0x10 back.
    attr[40..45].copy_from_slice(&[0x21, 0x18, 0x34, 0x56, 0x11]);
    attr[45..47].copy_from_slice(&[0x10, 0x20]);
    attr[47..50].copy_from_slice(&[0x11, 0x08, 0xF0]);
    attr[50] = 0;
    let runs = parse_data_runs(&attr).unwrap();
    assert_eq!(runs, vec![(0x5634, 0x18), (0x5654, 0x10), (0x5644, 0x08)]);
}

#[test]
fn data_runs_need_a_header() {
    assert!(matches!(parse_data_runs(&[0u8; 10]), Err(NtfsError::InvalidAttribute)));
}

#[test]
fn new_file_record_has_expected_attributes() {
    let rec = create_mft_record(RECORD_SIZE, 1, 42, "a.txt", 5, false, b"hi").unwrap();
    assert_eq!(&rec[0..4], b"FILE");
    let mut fixed = rec.clone();
    apply_fixups(&mut fixed).unwrap();
    let attrs = parse_attributes(&fixed);
    let kinds: Vec<AttributeType> = attrs.iter().map(|a| a.0).collect();
    assert_eq!(kinds, vec![AttributeType::StandardInformation, AttributeType::FileName, AttributeType::Data]);
    let (name, parent) = parse_filename(attrs[1].1).unwrap();
    assert_eq!(name, "a.txt");
    assert_eq!(parent, 5);
    let off = find_data_attribute_offset(&fixed).unwrap();
    assert_eq!(find_attribute_offset(&fixed, 0x80), Ok(off));
    assert_eq!(find_attribute_offset(&fixed, 0x90), Err(NtfsError::InvalidAttribute));
    update_resident_data(&mut fixed, off, b"yo").unwrap();
    assert!(matches!(update_resident_data(&mut fixed, off, b"too long"), Err(NtfsError::InvalidAttribute)));
}

#[test]
fn large_resident_data_is_refused() {
    let data = vec![1u8; 701];
    assert!(matches!(create_mft_record(RECORD_SIZE, 1, 42, "big", 5, false, &data), Err(NtfsError::InvalidAttribute)));
}

#[test]
fn filename_key_parses_name_and_parent() {
    let mut key = vec![0u8; 0x42 + 6];
    key[0..8].copy_from_slice(&77u64.to_le_bytes());
    key[0x40] = 3;
    for (i, c) in "a\u{e9}c".encode_utf16().enumerate() {
        key[0x42 + 2 * i..0x42 + 2 * i + 2].copy_from_slice(&c.to_le_bytes());
    }
    assert_eq!(parse_filename_from_key(&key), Some(("a?c".to_string(), 77)));
    assert_eq!(parse_name_and_parent(&key, 0x42), Some(("a?c".to_string(), 77)));
    key[0x40] = 4;
    assert_eq!(parse_filename_from_key(&key), None);
    assert_eq!(parse_filename_from_key(&key[..0x41]), None);
}

#[test]
fn filename_stops_at_zero_unit() {
    let mut key = vec![0u8; 0x42 + 6];
    key[0x40] = 3;
    key[0x42] = b'x';
    assert_eq!(parse_filename_from_key(&key), Some(("x".to_string(), 0)));
}

#[test]
fn attribute_name_reads_units_at_name_offset() {
    let mut attr = vec![0u8; 32];
    attr[10..12].copy_from_slice(&24u16.to_le_bytes());
    attr[24] = b'a';
    attr[26] = b'd';
    attr[28] = 0x00;
    attr[29] = 0x01;
    assert_eq!(parse_attr_name(&attr, 3), "ad?");
    assert_eq!(parse_attr_name(&attr, 5), "");
    assert_eq!(parse_attr_name(&attr[..8], 1), "");
}

#[test]
fn encode_utf16_matches_std() {
    let s = "h\u{e9}llo \u{1F600}";
    let expected: Vec<u16> = s.encode_utf16().collect();
    assert_eq!(encode_utf16(s), expected);
}

#[test]
fn attribute_writers_report_lengths() {
    let mut rec = vec![0u8; 1024];
    let a = write_standard_info_attr(&mut rec, 56, false).unwrap();
    assert_eq!(a, 56 + 80);
    assert_eq!(u32::from_le_bytes(rec[56..60].try_into().unwrap()), 0x10);
    assert_eq!(u32::from_le_bytes(rec[60..64].try_into().unwrap()), 80);
    let b = write_filename_attr(&mut rec, a, "x", 5).unwrap();
    assert_eq!(u32::from_le_bytes(rec[a..a + 4].try_into().unwrap()), 0x30);
    assert_eq!(b - a, 96);
    let c = write_data_attr(&mut rec, b, b"abc").unwrap();
    assert_eq!(u32::from_le_bytes(rec[b..b + 4].try_into().unwrap()), 0x80);
    assert_eq!((c - b) % 8, 0);
}

#[test]
fn empty_directory_index_lists_nothing() {
    let rec = create_mft_record(RECORD_SIZE, 1, 5, ".", 5, true, &[]).unwrap();
    let mut fixed = rec.clone();
    apply_fixups(&mut fixed).unwrap();
    let attrs = parse_attributes(&fixed);
    let root = attrs.iter().find(|a| a.0 == AttributeType::IndexRoot).unwrap();
    let value_off = u16::from_le_bytes([root.1[20], root.1[21]]) as usize;
    let index = &root.1[value_off..];
    assert_eq!(list_from_index(index), Ok(Vec::<String>::new()));
    assert_eq!(list(index), Ok(Vec::<String>::new()));
    assert_eq!(find_in_directory_with_index(index, "x"), Err(NtfsError::FileNotFound));
    assert_eq!(find(index, "x"), Err(NtfsError::FileNotFound));
}

fn index_root_with_one_entry(name: &str, record: u64) -> Vec<u8> {
    let mut v = vec![0u8; 136];
    v[0..4].copy_from_slice(&0x30u32.to_le_bytes());
    v[4..8].copy_from_slice(&1u32.to_le_bytes());
    v[8..12].copy_from_slice(&4096u32.to_le_bytes());
    v[12] = 1;
    let node = 16;
    v[node..node + 4].copy_from_slice(&16u32.to_le_bytes());
    v[node + 4..node + 8].copy_from_slice(&120u32.to_le_bytes());
    v[node + 8..node + 12].copy_from_slice(&120u32.to_le_bytes());
    let e = node + 16;
    v[e..e + 8].copy_from_slice(&(record | (1u64 << 48)).to_le_bytes());
    v[e + 8..e + 10].copy_from_slice(&88u16.to_le_bytes());
    v[e + 10..e + 12].copy_from_slice(&68u16.to_le_bytes());
    let key = e + 16;
    v[key..key + 8].copy_from_slice(&5u64.to_le_bytes());
    v[key + 0x40] = name.len() as u8;
    v[key + 0x41] = 1;
    for (i, c) in name.encode_utf16().enumerate() {
        v[key + 0x42 + 2 * i..key + 0x44 + 2 * i].copy_from_slice(&c.to_le_bytes());
    }
    let last = e + 88;
    v[last + 8..last + 10].copy_from_slice(&16u16.to_le_bytes());
    v[last + 12..last + 14].copy_from_slice(&2u16.to_le_bytes());
    v
}

#[test]
fn index_root_entries_are_listed_after_the_root_header() {
    let root = index_root_with_one_entry("a", 42);
    assert_eq!(list_from_index(&root), Ok(vec!["a".to_string()]));
    assert_eq!(list(&root), Ok(vec!["a".to_string()]));
    assert_eq!(find_in_directory_with_index(&root, "A"), Ok(42));
    assert_eq!(find(&root, "a"), Ok(42));
    assert_eq!(find(&root, "b"), Err(NtfsError::FileNotFound));
}

#[test]
fn mount_rejects_non_ntfs_volume() {
    let disk = RamDisk { data: vec![0u8; 4096] };
    assert!(matches!(NtfsDriver::mount(disk), Err(NtfsError::InvalidBootSector)));
}

#[test]
fn volume_info_reports_geometry() {
    let drv = match NtfsDriver::mount(fresh_volume()) {
        Ok(d) => d,
        Err(e) => panic!("mount failed: {:?}", e),
    };
    let info = drv.volume_info();
    assert_eq!(info.sector_size, 512);
    assert_eq!(info.cluster_size, 4096);
    assert_eq!(info.file_record_size, 1024);
    assert_eq!(info.mft_position, 16384);
    assert_eq!(info.serial_number, 0x0102_0304_0506_0708);
}

#[test]
fn create_write_read_round_trip() {
    let mut drv = match NtfsDriver::mount(fresh_volume()) {
        Ok(d) => d,
        Err(e) => panic!("mount failed: {:?}", e),
    };
    let root = drv.root_directory().unwrap();
    assert_eq!(root.record_number(), 5);
    assert_eq!(drv.is_directory(&root), Ok(true));

    let f = drv
        .create_file(&root, "hello.txt", CreateOptions { is_directory: false, data: b"hello world".to_vec() })
        .unwrap();
    assert_eq!(f.record_number(), 16);
    assert_eq!(drv.read_file_all(&f), Ok(b"hello world".to_vec()));
    assert_eq!(drv.file_size(&f), Ok(11));
    assert_eq!(drv.file_name(&f), Ok(Some("hello.txt".to_string())));
    assert_eq!(drv.is_directory(&f), Ok(false));
    let again = drv.open_file(16).unwrap();
    assert_eq!(again.record_number(), 16);

    drv.write_file(&f, b"HELLO WORLD").unwrap();
    assert_eq!(drv.read_file_all(&f), Ok(b"HELLO WORLD".to_vec()));
    let mut buf = [0u8; 5];
    assert_eq!(drv.read_file(&f, &mut buf), Ok(5));
    assert_eq!(&buf, b"HELLO");

    assert_eq!(drv.write_file(&f, b"short"), Err(NtfsError::InvalidAttribute));
    assert_eq!(drv.read_file_all(&f), Ok(b"HELLO WORLD".to_vec()));

    let g = drv.create_file(&root, "b.txt", CreateOptions { is_directory: false, data: b"b".to_vec() }).unwrap();
    assert_eq!(g.record_number(), 17);
    assert_eq!(drv.open_file(40).map(|x| x.record_number()), Err(NtfsError::InvalidMftRecord));
}

#[test]
fn new_entries_do_not_fit_an_empty_resident_index() {
    // A fresh directory index has no room beyond its end marker, so the new
    // entry is not linked and the name is not found.
    let mut drv = match NtfsDriver::mount(fresh_volume()) {
        Ok(d) => d,
        Err(e) => panic!("mount failed: {:?}", e),
    };
    let root = drv.root_directory().unwrap();
    let f = drv.create_file(&root, "a.txt", CreateOptions { is_directory: false, data: b"abc".to_vec() }).unwrap();
    assert_eq!(drv.find_in_directory(&root, "a.txt"), Err(NtfsError::FileNotFound));
    assert_eq!(drv.list_directory(&root), Ok(Vec::<String>::new()));
    assert_eq!(drv.open("/a.txt").map(|x| x.record_number()), Err(NtfsError::FileNotFound));
    assert_eq!(drv.open("/").map(|x| x.record_number()), Ok(5));
    assert_eq!(drv.read_file_all(&f), Ok(b"abc".to_vec()));
}

#[test]
fn directories_and_files_are_told_apart() {
    let mut drv = match NtfsDriver::mount(fresh_volume()) {
        Ok(d) => d,
        Err(e) => panic!("mount failed: {:?}", e),
    };
    let root = drv.root_directory().unwrap();
    let sub = drv.create_file(&root, "sub", CreateOptions { is_directory: true, data: Vec::new() }).unwrap();
    assert_eq!(drv.is_directory(&sub), Ok(true));
    let inner = drv.create_file(&sub, "a.txt", CreateOptions { is_directory: false, data: b"abc".to_vec() }).unwrap();
    assert_ne!(inner.record_number(), sub.record_number());
    assert_eq!(drv.read_file_all(&sub), Err(NtfsError::NotAFile));
    assert_eq!(drv.list_directory(&inner), Err(NtfsError::NotADirectory));
    assert_eq!(drv.find_in_directory(&inner, "x"), Err(NtfsError::NotADirectory));
    assert_eq!(
        drv.create_file(&inner, "b", CreateOptions { is_directory: false, data: Vec::new() }).map(|x| x.record_number()),
        Err(NtfsError::NotADirectory)
    );
}

#[test]
fn error_messages_and_conversions() {
    assert_eq!(NtfsError::InvalidMftRecord.message(), "invalid MFT record");
    assert_eq!(NtfsError::FileNotFound.name(), "FileNotFound");
    let e: NtfsFsError = NtfsError::FileNotFound.into();
    assert_eq!(e, NtfsFsError::Ntfs(NtfsError::FileNotFound));
    assert_eq!(e.message(), "NTFS error: FileNotFound");
    assert_eq!(e.into_string(), "file not found");
    let b: NtfsFsError = BlockError::Timeout.into();
    assert_eq!(b.message(), "Block error: timeout");
    assert_eq!(b.into_string(), "timeout");
    assert_eq!(NtfsFsError::NotFound.message(), "file not found");
    assert_eq!(NtfsFsError::NotFound.into_string(), "not found");
    assert_eq!(NtfsFsError::DriverInit.message(), "driver init");
    assert_eq!(format!("{:?}", NtfsError::NotAFile), NtfsError::NotAFile.name());
}

#[test]
fn rewritten_data_over_a_sector_end_reads_back() {
    let mut drv = match NtfsDriver::mount(fresh_volume()) {
        Ok(d) => d,
        Err(e) => panic!("mount failed: {:?}", e),
    };
    let root = drv.root_directory().unwrap();
    let f = drv
        .create_file(&root, "big.bin", CreateOptions { is_directory: false, data: vec![1u8; 700] })
        .unwrap();
    let new: Vec<u8> = (0..700).map(|i| (i % 251) as u8).collect();
    drv.write_file(&f, &new).unwrap();
    assert_eq!(drv.read_file_all(&f), Ok(new.clone()));
    // A second rewrite reads back too: the array keeps the sector-end bytes.
    let newer: Vec<u8> = new.iter().map(|b| b ^ 0x5A).collect();
    drv.write_file(&f, &newer).unwrap();
    assert_eq!(drv.read_file_all(&f), Ok(newer));
}

#[test]
fn reapply_saves_sector_ends_for_apply() {
    let mut r = vec![0u8; 1024];
    r[0..4].copy_from_slice(b"FILE");
    r[4..6].copy_from_slice(&48u16.to_le_bytes());
    r[6..8].copy_from_slice(&3u16.to_le_bytes());
    r[48..50].copy_from_slice(&7u16.to_le_bytes());
    r[510] = 0xAB;
    r[511] = 0xCD;
    r[1022] = 0x12;
    r[1023] = 0x34;
    kstorage::ntfs::write::reapply_fixups(&mut r).unwrap();
    assert_eq!(&r[50..54], &[0xAB, 0xCD, 0x12, 0x34]);
    assert_eq!(&r[510..512], &[7, 0]);
    assert_eq!(&r[1022..1024], &[7, 0]);
}

#[test]
fn record_bytes_decode_with_their_errors() {
    let rec = record_with_fixups();
    let out = record_result(rec.clone()).unwrap();
    assert_eq!(&out[510..512], &[0xAA, 0xBB]);
    assert_eq!(&out[1022..1024], &[0xCC, 0xDD]);
    let mut bad = rec.clone();
    bad[0] = b'X';
    assert_eq!(record_result(bad), Err(NtfsError::InvalidMftRecord));
    let mut torn = rec.clone();
    torn[1023] = 0x77;
    assert_eq!(record_result(torn), Err(NtfsError::CorruptedFilesystem));
    let boot = BootSector::from_bytes(&boot_sector_bytes()).unwrap();
    let mut bad2 = rec;
    bad2[2] = 0;
    assert!(matches!(stat_from_raw(bad2, &boot), Err(NtfsError::InvalidMftRecord)));
    let dir = create_mft_record(1024, 1, 5, ".", 5, true, &[]).unwrap();
    let st = stat_from_raw(dir, &boot).unwrap();
    assert!(st.is_directory);
    assert_eq!(list_from_stat(&st), Ok(Vec::<String>::new()));
    assert_eq!(find_in_stat(&st, "x"), Err(NtfsError::FileNotFound));
    let file = create_mft_record(1024, 1, 16, "a.txt", 5, false, b"abc").unwrap();
    let fst = stat_from_raw(file, &boot).unwrap();
    assert_eq!(list_from_stat(&fst), Err(NtfsError::NotADirectory));
    assert_eq!(find_in_stat(&fst, "x"), Err(NtfsError::NotADirectory));
}

#[test]
fn fill_from_copies_what_fits() {
    let mut buf = [9u8; 5];
    assert_eq!(fill_from(b"abc", &mut buf), 3);
    assert_eq!(&buf, &[b'a', b'b', b'c', 9, 9]);
    let mut small = [0u8; 2];
    assert_eq!(fill_from(b"xyz", &mut small), 2);
    assert_eq!(&small, b"xy");
}

#[test]
fn changed_sector_ends_survive_reapply_and_apply() {
    let mut r = record_with_fixups();
    apply_fixups(&mut r).unwrap();
    r[510] = 0x11;
    r[1023] = 0x22;
    let before = r.clone();
    reapply_fixups(&mut r).unwrap();
    apply_fixups(&mut r).unwrap();
    // Every byte but the array entries is back; the entries hold the new ends.
    assert_eq!(&r[510..512], &before[510..512]);
    assert_eq!(&r[1022..1024], &before[1022..1024]);
    assert_eq!(&r[50..54], &[0x11, 0xBB, 0xCC, 0x22]);
    assert_eq!(&r[..50], &before[..50]);
    assert_eq!(&r[54..], &before[54..]);
}

fn record_with_streams() -> Vec<u8> {
    let mut r = vec![0u8; RECORD_SIZE];
    r[0..4].copy_from_slice(b"FILE");
    r[20..22].copy_from_slice(&56u16.to_le_bytes());
    // Unnamed resident $DATA holding "abc".
    let a = 56;
    r[a..a + 4].copy_from_slice(&0x80u32.to_le_bytes());
    r[a + 4..a + 8].copy_from_slice(&32u32.to_le_bytes());
    r[a + 10..a + 12].copy_from_slice(&24u16.to_le_bytes());
    r[a + 16..a + 20].copy_from_slice(&3u32.to_le_bytes());
    r[a + 20..a + 22].copy_from_slice(&24u16.to_le_bytes());
    r[a + 24..a + 27].copy_from_slice(b"abc");
    // Named resident $DATA "ads" holding "xy".
    let b = 88;
    r[b..b + 4].copy_from_slice(&0x80u32.to_le_bytes());
    r[b + 4..b + 8].copy_from_slice(&40u32.to_le_bytes());
    r[b + 9] = 3;
    r[b + 10..b + 12].copy_from_slice(&24u16.to_le_bytes());
    r[b + 16..b + 20].copy_from_slice(&2u32.to_le_bytes());
    r[b + 20..b + 22].copy_from_slice(&32u16.to_le_bytes());
    for (i, c) in "ads".encode_utf16().enumerate() {
        r[b + 24 + 2 * i..b + 26 + 2 * i].copy_from_slice(&c.to_le_bytes());
    }
    r[b + 32..b + 34].copy_from_slice(b"xy");
    // Resident $INDEX_ROOT whose value starts at 24.
    let c = 128;
    r[c..c + 4].copy_from_slice(&0x90u32.to_le_bytes());
    r[c + 4..c + 8].copy_from_slice(&48u32.to_le_bytes());
    r[c + 20..c + 22].copy_from_slice(&24u16.to_le_bytes());
    r[c + 24] = 0x30;
    r[176..180].copy_from_slice(&0xFFFF_FFFFu32.to_le_bytes());
    r
}

#[test]
fn named_data_streams_are_kept_apart() {
    let boot = BootSector::from_bytes(&boot_sector_bytes()).unwrap();
    let st = match parse_stat_with_streams(&record_with_streams(), &boot) {
        Ok(st) => st,
        Err(e) => panic!("parse failed: {:?}", e),
    };
    assert!(st.is_directory);
    assert_eq!(st.size, 3);
    assert_eq!(st.data_runs.len(), 1);
    assert!(matches!(&st.data_runs[0], kstorage::ntfs::DataRun::Resident { data } if data == b"abc"));
    assert_eq!(st.alternate_data_streams.len(), 1);
    assert_eq!(st.alternate_data_streams[0].name, "ads");
    assert_eq!(st.alternate_data_streams[0].size, 2);
    assert!(matches!(&st.alternate_data_streams[0].data, kstorage::ntfs::DataRun::Resident { data } if data == b"xy"));
    let root = st.index_root.unwrap();
    assert_eq!(root.len(), 24);
    assert_eq!(root[0], 0x30);
}
