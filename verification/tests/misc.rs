use std::cell::RefCell;

use kstorage::ahci::{command_header_flags, first_implemented_port, h2d_fis, port_base, port_busy, prdt_byte_count, task_file_error};
use kstorage::bytes::{read_u16_le, read_u32_le, read_u64_le, write_u16_le, write_u32_le, write_u64_le};
use kstorage::hal::acpi::AcpiError;
use kstorage::hal::addr::PhysAddr;
use kstorage::hal::block::BlockError as HalBlockError;
use kstorage::hal::display::Color;
use kstorage::hal::fs::File as HalFile;
use kstorage::hal::io::{IoError, Read, Seek, SeekFrom};
use kstorage::hal::pci::ecam::{config_address, init_ecam, is_ready};
use kstorage::disk::{mkntfs_script, mkntfs_script_with_tool, wsl_path_fallback, PARTITION_BYTE_OFFSET, PARTITION_BYTE_SIZE, PARTITION_START_LBA};
use kstorage::storage::{next_attempt, Attempt, StorageKind};
use kstorage::hal::pci::{enumerate, FunctionConfig, CONFIG_FUNCTIONS, decode_bar, device_info, function_count, function_present, has_bars, extract16, extract8, merge16, merge8, Bar, PciAddress, PciDeviceInfo};
use kstorage::ntfs::AttributeType;
use kstorage::pci::{assign_bar64, pci_read_bar_io, probe_function, scan, PciConfig};
use kstorage::text::{normalize_path, split_path};
use kstorage::vfs::{DirectoryEntry, File, FileHandle, FsError, Inode, InodeType, Metadata, OpenFlags, Path};
use kstorage::virtio::{
    block_request, complete_request, features_accepted, poll_step, publish_slot, queue_size_for, request_chain, split_phys,
    PollStep, VirtqDesc,
};

#[test]
fn little_endian_round_trips() {
    let mut buf = [0u8; 16];
    write_u16_le(&mut buf, 1, 0xBEEF);
    write_u32_le(&mut buf, 3, 0xDEAD_BEEF);
    write_u64_le(&mut buf, 8, 0x0102_0304_0506_0708);
    assert_eq!(&buf[1..3], &[0xEF, 0xBE]);
    assert_eq!(read_u16_le(&buf, 1), 0xBEEF);
    assert_eq!(read_u32_le(&buf, 3), 0xDEAD_BEEF);
    assert_eq!(read_u64_le(&buf, 8), 0x0102_0304_0506_0708);
    assert_eq!(buf[8], 0x08);
}

#[test]
fn paths_split_on_slashes() {
    assert_eq!(split_path("/a//b/c/"), vec!["a", "b", "c"]);
    assert_eq!(split_path(""), Vec::<String>::new());
    assert_eq!(split_path("///"), Vec::<String>::new());
}

#[test]
fn path_parses_and_prints() {
    let p = Path::new("/usr//lib/x").unwrap();
    assert!(p.is_absolute());
    assert_eq!(p.components(), &["usr".to_string(), "lib".to_string(), "x".to_string()]);
    assert_eq!(p.filename(), Some("x"));
    assert_eq!(p.to_string(), "/usr/lib/x");
    let parent = p.parent().unwrap();
    assert_eq!(parent.to_string(), "/usr/lib");
    let rel = Path::new("a/b").unwrap();
    assert!(!rel.is_absolute());
    assert_eq!(rel.to_string(), "a/b");
    let root = Path::new("/").unwrap();
    assert_eq!(root.to_string(), "/");
    assert!(root.parent().is_none());
    assert_eq!(root.filename(), None);
    assert!(matches!(Path::new(""), Err(FsError::InvalidPath)));
}

#[test]
fn path_text_parses_back_to_same_path() {
    for s in ["/a/b", "x//y/", "/", "/one"] {
        let p = Path::new(s).unwrap();
        let q = Path::new(&p.to_string()).unwrap();
        assert_eq!(q.components(), p.components());
        assert_eq!(q.is_absolute(), p.is_absolute());
    }
}

#[test]
fn open_flags_behave_as_sets() {
    let rw = OpenFlags::READ().union(OpenFlags::WRITE());
    assert_eq!(rw.bits(), 3);
    assert!(rw.contains(OpenFlags::READ()));
    assert!(!rw.contains(OpenFlags::APPEND()));
    assert!(rw.intersects(OpenFlags::WRITE()));
    assert_eq!(rw.difference(OpenFlags::READ()).bits(), 2);
    assert_eq!(rw.intersection(OpenFlags::WRITE()).bits(), 2);
    assert_eq!(OpenFlags::from_bits(0x40), None);
    assert_eq!(OpenFlags::from_bits(0x11).map(|f| f.bits()), Some(0x11));
    assert_eq!(OpenFlags::from_bits_truncate(0xFF).bits(), 31);
    assert_eq!(OpenFlags::all().bits(), 31);
    assert!(OpenFlags::empty().is_empty());
    let mut f = OpenFlags::empty();
    f.insert(OpenFlags::CREATE());
    f.insert(OpenFlags::TRUNC());
    assert_eq!(f.bits(), 20);
    f.remove(OpenFlags::CREATE());
    assert_eq!(f.bits(), 16);
}

/// An in-memory file inode.
struct MemInode {
    data: RefCell<Vec<u8>>,
}

impl Inode for MemInode {
    fn metadata(&self) -> Metadata {
        Metadata {
            inode_num: 1,
            size: self.data.borrow().len() as u64,
            typ: InodeType::File,
            permissions: 0o644,
            created: 0,
            modified: 0,
            accessed: 0,
            links: 1,
        }
    }

    fn lookup(&self, _name: &str) -> Result<Self, FsError> {
        Err(FsError::NotDir)
    }

    fn readlink(&self) -> Result<String, FsError> {
        Err(FsError::NotImplemented)
    }

    fn read_at(&self, offset: u64, buf: &mut [u8]) -> Result<usize, FsError> {
        let data = self.data.borrow();
        let start = (offset as usize).min(data.len());
        let n = buf.len().min(data.len() - start);
        buf[..n].copy_from_slice(&data[start..start + n]);
        Ok(n)
    }

    fn write_at(&self, offset: u64, buf: &[u8]) -> Result<usize, FsError> {
        let mut data = self.data.borrow_mut();
        let end = offset as usize + buf.len();
        if data.len() < end {
            data.resize(end, 0);
        }
        data[offset as usize..end].copy_from_slice(buf);
        Ok(buf.len())
    }

    fn readdir(&self) -> Result<Vec<DirectoryEntry>, FsError> {
        Err(FsError::NotDir)
    }

    fn inode_type(&self) -> InodeType {
        InodeType::File
    }
}

#[test]
fn file_reads_and_writes_through_its_offset() {
    let inode = MemInode { data: RefCell::new(b"hello".to_vec()) };
    let mut f = File::new(inode, OpenFlags::READ().union(OpenFlags::WRITE()));
    let mut buf = [0u8; 3];
    assert_eq!(f.read(&mut buf), Ok(3));
    assert_eq!(&buf, b"hel");
    assert_eq!(f.write(b"LO!"), Ok(3));
    assert_eq!(f.metadata().size, 6);
    f.seek(0);
    let mut all = [0u8; 10];
    assert_eq!(f.read(&mut all), Ok(6));
    assert_eq!(&all[..6], b"helLO!");
}

#[test]
fn file_permissions_are_checked() {
    let mut ro = File::new(MemInode { data: RefCell::new(b"abc".to_vec()) }, OpenFlags::READ());
    assert_eq!(ro.write(b"x"), Err(FsError::PermissionDenied));
    let mut wo = File::new(MemInode { data: RefCell::new(b"abc".to_vec()) }, OpenFlags::WRITE());
    let mut buf = [0u8; 2];
    assert_eq!(wo.read(&mut buf), Err(FsError::PermissionDenied));
}

#[test]
fn append_writes_at_the_end() {
    let mut f = File::new(
        MemInode { data: RefCell::new(b"abc".to_vec()) },
        OpenFlags::WRITE().union(OpenFlags::APPEND()).union(OpenFlags::READ()),
    );
    assert_eq!(f.write(b"de"), Ok(2));
    f.seek(0);
    let mut buf = [0u8; 8];
    assert_eq!(f.read(&mut buf), Ok(5));
    assert_eq!(&buf[..5], b"abcde");
}

/// A file over a byte vector.
struct VecFile {
    data: Vec<u8>,
    pos: usize,
}

impl Read for VecFile {
    fn read(&mut self, buf: &mut [u8]) -> Result<usize, IoError> {
        let n = buf.len().min(self.data.len() - self.pos);
        buf[..n].copy_from_slice(&self.data[self.pos..self.pos + n]);
        self.pos += n;
        Ok(n)
    }
}

impl Seek for VecFile {
    fn seek(&mut self, pos: SeekFrom) -> Result<u64, IoError> {
        match pos {
            SeekFrom::Start(p) => self.pos = p as usize,
            SeekFrom::Current(d) => self.pos = (self.pos as i64 + d) as usize,
            SeekFrom::End(d) => self.pos = (self.data.len() as i64 + d) as usize,
        }
        Ok(self.pos as u64)
    }
}

impl HalFile for VecFile {
    fn size(&self) -> u64 {
        self.data.len() as u64
    }

    fn path(&self) -> &str {
        "/mem"
    }
}

#[test]
fn file_handle_reads_and_refuses_writes() {
    let mut h = FileHandle::new(VecFile { data: b"xyz".to_vec(), pos: 0 });
    let mut buf = [0u8; 2];
    assert_eq!(h.read(&mut buf), Ok(2));
    assert_eq!(&buf, b"xy");
    assert_eq!(h.write(b"q"), Err(IoError::Other));
}

#[test]
fn stream_read_exact_reports_eof() {
    let mut f = VecFile { data: b"abc".to_vec(), pos: 0 };
    let mut buf = [0u8; 5];
    assert_eq!(f.read_exact(&mut buf), Err(IoError::UnexpectedEof));
    assert_eq!(f.stream_position(), Ok(3));
}

#[test]
fn error_messages() {
    assert_eq!(IoError::UnexpectedEof.as_str(), "unexpected EOF");
    assert_eq!(IoError::Other.as_str(), "other");
    assert_eq!(HalBlockError::OutOfBounds.as_str(), "out of bounds");
    assert_eq!(AcpiError::NoMcfg.as_str(), "no MCFG table found — not a Q35/PCIe machine?");
    assert_eq!(IoError::from(HalBlockError::OutOfBounds), IoError::InvalidInput);
    assert_eq!(FsError::from(IoError::NotFound), FsError::IoError);
}

#[test]
fn colors_pack_and_unpack() {
    let c = Color::new(0x12, 0x34, 0x56);
    assert_eq!(c.to_rgb32(), 0x0012_3456);
    assert_eq!(c.to_bgr32(), 0x0056_3412);
    assert_eq!(Color::from_rgb32(0xFF12_3456), c);
    assert_eq!(Color::from_rgb32(c.to_rgb32()), c);
}

#[test]
fn physical_address_halves() {
    let a = PhysAddr::new(0x1234_5678_9ABC_DEF0);
    assert_eq!(a.as_u64(), 0x1234_5678_9ABC_DEF0);
    assert_eq!(a.low_u32(), 0x9ABC_DEF0);
    assert_eq!(a.high_u32(), 0x1234_5678);
}

#[test]
fn bars_decode_from_probe_values() {
    assert_eq!(decode_bar(0, 0, 0, 0), (Bar::Empty, 1));
    let (io, n) = decode_bar(0xC001, 0, 0xFFFF_FFE1, 0);
    assert_eq!(n, 1);
    assert_eq!(io.io_port(), Some(0xC000));
    assert_eq!(io.size(), 32);
    let (mem, n) = decode_bar(0xFEBD_0000, 0, 0xFFFF_F000, 0);
    assert_eq!(n, 1);
    assert_eq!(mem.mmio_phys(), Some(PhysAddr(0xFEBD_0000)));
    assert_eq!(mem.size(), 4096);
    let (mem64, n) = decode_bar(0x0000_000C, 0x1, 0xFFFF_C00C, 0xFFFF_FFFF);
    assert_eq!(n, 2);
    assert_eq!(mem64.mmio_phys(), Some(PhysAddr(0x1_0000_0000)));
    assert_eq!(mem64.size(), 0x4000);
    let info = PciDeviceInfo {
        address: PciAddress { bus: 0, device: 3, function: 0 },
        vendor_id: 0x1AF4,
        device_id: 0x1042,
        class: 1,
        subclass: 0,
        prog_if: 0,
        revision: 1,
        bars: [io, mem, Bar::Empty, Bar::Empty, Bar::Empty, Bar::Empty],
        irq_line: None,
    };
    assert_eq!(info.bar_io(0), Some(0xC000));
    assert_eq!(info.bar_mmio(1), Some(PhysAddr(0xFEBD_0000)));
    assert_eq!(info.bar_mmio(0), None);
    assert_eq!(info.bar_mmio(9), None);
    assert_eq!(info.enable_bus_master(0x0003), 0x0007);
    assert_eq!(info.enable_mmio(0x0004), 0x0006);
}

#[test]
fn config_registers_merge_and_extract() {
    let w = 0x1122_3344u32;
    assert_eq!(extract16(w, 0), 0x3344);
    assert_eq!(extract16(w, 2), 0x1122);
    assert_eq!(extract8(w, 1), 0x33);
    assert_eq!(merge16(w, 2, 0xABCD), 0xABCD_3344);
    assert_eq!(merge8(w, 3, 0xEE), 0xEE22_3344);
    assert_eq!(extract16(merge16(w, 0, 0x5555), 0), 0x5555);
}

/// A configuration space of 64 dwords for a function.
fn config(vendor: u16, device: u16, class: u8, subclass: u8) -> Vec<u32> {
    let mut regs = vec![0u32; 64];
    regs[0] = (vendor as u32) | ((device as u32) << 16);
    regs[2] = ((class as u32) << 24) | ((subclass as u32) << 16);
    regs
}

#[test]
fn probe_picks_the_first_memory_bar() {
    let mut regs = config(0x8086, 0x2922, 1, 6);
    regs[4] = 0xC001;
    regs[5] = 0xFEBD_1000;
    let d = probe_function(0, 31, 2, &regs);
    assert_eq!(d.vendor_id, 0x8086);
    assert_eq!(d.class, 1);
    assert_eq!(d.subclass, 6);
    assert_eq!(d.bar0_phys, Some(0xFEBD_1000));
    assert_eq!(d.bar0_io, Some(0xC000));
}

#[test]
fn probe_follows_the_virtio_capability() {
    let mut regs = config(0x1AF4, 0x1042, 1, 0);
    regs[1] = 0x0010_0000;
    regs[13] = 0x40;
    // capability at 0x40: vendor-specific (9), next 0x50, common config (type 1).
    regs[0x40 / 4] = 0x0100_5009;
    regs[0x44 / 4] = 4;
    regs[4] = 0xFEBD_0000;
    regs[8] = 0xFE00_000C;
    regs[9] = 0x0000_0001;
    let d = probe_function(0, 4, 0, &regs);
    assert_eq!(d.bar0_phys, Some(0x1_FE00_0000));
    assert_eq!(d.bar0_io, None);
}

#[test]
fn scan_skips_absent_functions() {
    let present = config(0x1AF4, 0x1001, 1, 0);
    let absent = vec![0xFFFF_FFFFu32];
    let fns = vec![
        PciConfig { bus: 0, device: 0, func: 0, regs: absent },
        PciConfig { bus: 0, device: 1, func: 0, regs: present },
    ];
    let found = scan(&fns);
    assert_eq!(found.len(), 1);
    assert_eq!(found[0].device, 1);
    assert_eq!(found[0].device_id, 0x1001);
}

#[test]
fn bar64_programming_values() {
    let w = assign_bar64(0x0007, 0x0000_000C, 0x1_2345_6000);
    assert_eq!(w.disable_cmd, 0x0005);
    assert_eq!(w.bar_lo, 0x2345_600C);
    assert_eq!(w.bar_hi, 1);
    assert_eq!(w.enable_cmd, 0x0007);
    assert_eq!(pci_read_bar_io(0xC0A1), Some(0xC0A0));
    assert_eq!(pci_read_bar_io(0xC0A0), None);
}

#[test]
fn virtio_request_chain() {
    let req = block_request(99, true);
    assert_eq!((req.type_, req.reserved, req.sector), (1, 0, 99));
    assert_eq!(block_request(5, false).type_, 0);
    let c = request_chain(0x1000, 0x2000, 512, false);
    assert_eq!(c[0], VirtqDesc { addr: 0x1000, len: 16, flags: 1, next: 1 });
    assert_eq!(c[1], VirtqDesc { addr: 0x1040, len: 512, flags: 3, next: 2 });
    assert_eq!(c[2], VirtqDesc { addr: 0x2000, len: 1, flags: 2, next: 0 });
    assert_eq!(request_chain(0x1000, 0x2000, 512, true)[1].flags, 1);
}

#[test]
fn virtio_ring_bookkeeping() {
    assert_eq!(publish_slot(70, 64), (6, 71));
    assert_eq!(publish_slot(u16::MAX, 64), (63, 0));
    assert_eq!(poll_step(3, 2, 10), PollStep::Complete);
    assert_eq!(poll_step(2, 2, 10), PollStep::Wait(9));
    assert_eq!(poll_step(2, 2, 1), PollStep::TimedOut);
    assert_eq!(complete_request(4, 0), (5, Ok(())));
    assert_eq!(complete_request(u16::MAX, 1), (0, Err(kstorage::blockdev::BlockError::DeviceError)));
    assert_eq!(queue_size_for(256), 64);
    assert_eq!(queue_size_for(16), 16);
    assert!(features_accepted(0x0B));
    assert!(!features_accepted(0x03));
    assert_eq!(split_phys(0x1_2345_6789), (0x2345_6789, 1));
}

#[test]
fn ahci_command_layout() {
    assert_eq!(port_base(0xFEB0_0000, 2), 0xFEB0_0200);
    assert_eq!(first_implemented_port(0b1010_0000), Some(5));
    assert_eq!(first_implemented_port(0), None);
    assert_eq!(command_header_flags(false), 4);
    assert_eq!(command_header_flags(true), 0x44);
    let fis = h2d_fis(0x20, 0x0000_1234_5678_9ABC, 1);
    assert_eq!(fis.fis_type, 0x27);
    assert_eq!(fis.pmport, 0x80);
    assert_eq!(fis.command, 0x20);
    assert_eq!((fis.lba0, fis.lba1, fis.lba2, fis.lba3, fis.lba4, fis.lba5), (0xBC, 0x9A, 0x78, 0x56, 0x34, 0x12));
    assert_eq!(fis.device, 0x46);
    assert_eq!((fis.countl, fis.counth), (1, 0));
    assert_eq!(prdt_byte_count(1), 511);
    assert!(port_busy(0x80));
    assert!(!port_busy(0x50));
    assert!(task_file_error(0x51));
}

#[test]
fn attribute_type_codes() {
    assert_eq!(AttributeType::Data.type_code(), 0x80);
    assert_eq!(AttributeType::from_code(0x30), Some(AttributeType::FileName));
    assert_eq!(AttributeType::from_code(0x31), None);
}

fn pci_device(vendor_id: u16, device_id: u16, class: u8, subclass: u8, bar0_phys: Option<u64>) -> kstorage::pci::PciDevice {
    kstorage::pci::PciDevice { bus: 0, device: 0, func: 0, vendor_id, device_id, class, subclass, bar0_phys, bar0_io: None }
}

#[test]
fn storage_attempts_follow_scan_order() {
    let devs = [
        pci_device(0x8086, 0x2922, 0x01, 0x06, Some(0x1000)),
        pci_device(0x1AF4, 0x1001, 0x01, 0x00, None),
        pci_device(0x1AF4, 0x1001, 0x01, 0x00, Some(0x2000)),
        pci_device(0x1AF4, 0x1042, 0x01, 0x00, Some(0x3000)),
        pci_device(0x10EC, 0x8139, 0x02, 0x00, Some(0x4000)),
    ];
    assert_eq!(next_attempt(&devs, 0x10, 0), Some(Attempt { slot: 1, kind: StorageKind::Ahci, virt: 0x1010 }));
    assert_eq!(next_attempt(&devs, 0x10, 2), Some(Attempt { slot: 4, kind: StorageKind::Virtio, virt: 0x2010 }));
    assert_eq!(next_attempt(&devs, 0x10, 5), Some(Attempt { slot: 6, kind: StorageKind::Virtio, virt: 0x3010 }));
    assert_eq!(next_attempt(&devs, 0x10, 7), None);
    assert_eq!(next_attempt(&[], 0, 0), None);
}

#[test]
fn ecam_addresses() {
    let ecam = init_ecam(0xE000_0000, 0xFFFF_8000_0000_0000);
    assert!(is_ready(&ecam));
    assert!(kstorage::hal::pci::is_ready(&ecam));
    assert_eq!(config_address(&ecam, 1, 2, 3, 0x13), 0xFFFF_8000_E011_3010);
    assert_eq!(config_address(&ecam, 0, 0, 0, 0xFFF), 0xFFFF_8000_E000_0FFC);
    let none = init_ecam(0, 5);
    assert!(!is_ready(&none));
    assert!(!kstorage::hal::pci::is_ready(&none));
}

#[test]
fn physical_to_virtual() {
    assert_eq!(PhysAddr::new(0x1000).as_virt(0xFFFF_8000_0000_0000), 0xFFFF_8000_0000_1000);
    assert_eq!(PhysAddr::new(0).as_virt(0), 0);
}

#[test]
fn legacy_config_addresses() {
    assert_eq!(kstorage::pci::config_address(0, 3, 0, 0x10), 0x8000_1810);
    assert_eq!(kstorage::pci::config_address(1, 31, 7, 0xFF), 0x8001_FFFC);
    assert_eq!(kstorage::pci::config_address(0xFF, 0, 0, 0x03), 0x80FF_0000);
    assert_eq!(kstorage::pci::CONFIG_ADDRESS, 0xCF8);
    assert_eq!(kstorage::pci::CONFIG_DATA, 0xCFC);
}

#[test]
fn paths_normalize() {
    assert_eq!(normalize_path(""), "/");
    assert_eq!(normalize_path("/"), "/");
    assert_eq!(normalize_path("///"), "/");
    assert_eq!(normalize_path("//a///b/"), "/a/b");
    assert_eq!(normalize_path("a/b"), "a/b");
    assert_eq!(normalize_path("a//"), "a");
    assert_eq!(normalize_path("/über//ß/"), "/über/ß");
    for p in ["", "/", "//x//y//", "a///", "/$MFT"] {
        let once = normalize_path(p);
        assert_eq!(normalize_path(&once), once);
    }
}

#[test]
fn enumeration_reads_identification_registers() {
    assert_eq!(function_count(0x80), 8);
    assert_eq!(function_count(0x00), 1);
    assert_eq!(function_count(0x81), 8);
    assert!(function_present(0x1001_1AF4));
    assert!(!function_present(0xFFFF_FFFF));
    assert!(!function_present(0x1234_FFFF));
    assert!(has_bars(0x80));
    assert!(has_bars(0x00));
    assert!(!has_bars(0x01));
    let addr = PciAddress { bus: 0, device: 3, function: 0 };
    let info = device_info(addr, 0x1001_1AF4, 0x0100_0002, 11, [Bar::Empty; 6]);
    assert_eq!(info.vendor_id, 0x1AF4);
    assert_eq!(info.device_id, 0x1001);
    assert_eq!(info.class, 0x01);
    assert_eq!(info.subclass, 0x00);
    assert_eq!(info.prog_if, 0x00);
    assert_eq!(info.revision, 0x02);
    assert_eq!(info.irq_line, Some(11));
    assert_eq!(device_info(addr, 0x2922_8086, 0x0106_0102, 0xFF, [Bar::Empty; 6]).irq_line, None);
    assert_eq!(device_info(addr, 0x2922_8086, 0x0106_0102, 0xFF, [Bar::Empty; 6]).prog_if, 0x01);
}

#[test]
fn decimal_text() {
    let mut s = String::from("n=");
    kstorage::text::push_decimal(&mut s, 0);
    assert_eq!(s, "n=0");
    let mut s = String::new();
    kstorage::text::push_decimal(&mut s, 67074560);
    assert_eq!(s, "67074560");
    let mut s = String::new();
    kstorage::text::push_decimal(&mut s, u64::MAX);
    assert_eq!(s, u64::MAX.to_string());
}

#[test]
fn format_script_text() {
    let img = "/tmp/disk.img";
    let sudo = "sudo";
    let tool = "mkfs.ntfs";
    let expected = format!(
        r#"set -euo pipefail
IMG="{img}"
OFFSET={PARTITION_BYTE_OFFSET}
SIZE={PARTITION_BYTE_SIZE}
PART_START={PARTITION_START_LBA}

[ -f "$IMG" ] || {{ echo "ERROR: $IMG not found" >&2; exit 1; }}

echo "[ntfs] setting up loop device..."
LOOP=$({sudo} losetup -f --show --offset="$OFFSET" --sizelimit="$SIZE" "$IMG")
echo "[ntfs] loop: $LOOP"

cleanup() {{ {sudo} losetup -d "$LOOP" 2>/dev/null || true; }}
trap cleanup EXIT

echo "[ntfs] formatting..."
{sudo} {tool} \
    -F \
    -L KRNLDISK \
    -s 512 \
    -c 512  \
    -p "$PART_START" \
    -H 255 \
    -S 63 \
    -Q \
    "$LOOP"

echo "[ntfs] done."
"#
    );
    assert_eq!(mkntfs_script_with_tool(img, sudo, tool), expected);
    assert!(mkntfs_script(img, "").contains("\n mkntfs \\\n"));
    assert!(mkntfs_script(img, "").contains("OFFSET=17408\nSIZE=67074560\nPART_START=34\n"));
}

#[test]
fn windows_paths_to_wsl() {
    assert_eq!(wsl_path_fallback(r"C:\Users\me\disk.img"), Some("/mnt/c/Users/me/disk.img".to_string()));
    assert_eq!(wsl_path_fallback(r"\\?\D:\work\k.img"), Some("/mnt/d/work/k.img".to_string()));
    assert_eq!(wsl_path_fallback("e:"), Some("/mnt/e".to_string()));
    assert_eq!(wsl_path_fallback("/home/me/disk.img"), None);
    assert_eq!(wsl_path_fallback("C"), None);
    assert_eq!(wsl_path_fallback(r"\\server\share"), None);
    // A two-byte drive character: the path goes on from its third byte.
    assert_eq!(wsl_path_fallback(r"É:\x"), Some("/mnt/É:/x".to_string()));
}

#[test]
fn image_boot_sector_summary() {
    let mut sector = [0u8; 512];
    assert_eq!(kstorage::disk::read_image_info(&sector), None);
    sector[3..11].copy_from_slice(b"NTFS    ");
    sector[0x0B..0x0D].copy_from_slice(&512u16.to_le_bytes());
    sector[0x0D] = 1;
    sector[0x30..0x38].copy_from_slice(&4u64.to_le_bytes());
    sector[0x48..0x50].copy_from_slice(&0x1122_3344_5566_7788u64.to_le_bytes());
    let info = kstorage::disk::read_image_info(&sector).unwrap();
    assert_eq!(info.bytes_per_sector, 512);
    assert_eq!(info.sectors_per_cluster, 1);
    assert_eq!(info.mft_lcn, 4);
    assert_eq!(info.serial, 0x1122_3344_5566_7788);
    assert_eq!(kstorage::disk::mft_disk_offset(&info), 17408 + 4 * 512);
    sector[10] = b'X';
    assert_eq!(kstorage::disk::read_image_info(&sector), None);
}

/// A source whose every read fails.
struct BrokenSource;

impl Read for BrokenSource {
    fn read(&mut self, _buf: &mut [u8]) -> Result<usize, IoError> {
        Err(IoError::Other)
    }
}

#[test]
fn read_exact_of_nothing_needs_no_read() {
    let mut src = BrokenSource;
    let mut empty: [u8; 0] = [];
    assert_eq!(src.read_exact(&mut empty), Ok(()));
    let mut one = [0u8; 1];
    assert_eq!(src.read_exact(&mut one), Err(IoError::Other));
}

#[test]
fn block_error_messages_are_distinct_and_non_empty() {
    let all = [
        HalBlockError::DeviceNotReady,
        HalBlockError::DeviceError,
        HalBlockError::Timeout,
        HalBlockError::NoMemory,
        HalBlockError::OutOfBounds,
        HalBlockError::BadSector,
        HalBlockError::ReadError,
        HalBlockError::WriteError,
        HalBlockError::InvalidGeometry,
        HalBlockError::UnsupportedSectorSize,
        HalBlockError::Other,
        HalBlockError::InvalidRequest,
        HalBlockError::DeviceBusy,
        HalBlockError::InvalidBuffer,
    ];
    for (i, a) in all.iter().enumerate() {
        assert!(!a.as_str().is_empty());
        for b in all.iter().skip(i + 1) {
            assert_ne!(a.as_str(), b.as_str());
        }
    }
    assert_eq!(HalBlockError::OutOfBounds.as_str(), "out of bounds");
}

#[test]
fn cloned_path_prints_the_same() {
    let p = Path::new("//a///b/").unwrap();
    let q = p.clone();
    assert_eq!(q.to_string(), "/a/b");
    assert_eq!(q.components(), p.components());
    assert_eq!(Path::new(&q.to_string()).unwrap().components(), p.components());
}

#[test]
fn enumerate_walks_present_functions_in_order() {
    let absent = FunctionConfig { id_dword: 0xFFFF_FFFF, class_dword: 0, header_type: 0, irq_line: 0xFF, bars: [Bar::Empty; 6] };
    let mut space = vec![absent; CONFIG_FUNCTIONS];
    let io = Bar::Io { port: 0xC000, size: 32 };
    // Bus 0, device 1: multi-function, functions 0 and 2 present.
    space[8] = FunctionConfig { id_dword: 0x1001_8086, class_dword: 0x0106_0102, header_type: 0x80, irq_line: 11, bars: [io; 6] };
    space[10] = FunctionConfig { id_dword: 0x1002_8086, class_dword: 0x0C03_0000, header_type: 0x01, irq_line: 0xFF, bars: [io; 6] };
    // Bus 0, device 3: single function; function 1 is not looked at.
    space[24] = FunctionConfig { id_dword: 0x1AF4_1AF4, class_dword: 0x0100_0000, header_type: 0x00, irq_line: 5, bars: [io; 6] };
    space[25] = FunctionConfig { id_dword: 0x1234_5678, class_dword: 0, header_type: 0, irq_line: 0, bars: [io; 6] };
    // Bus 2, device 31, function 0.
    space[2 * 256 + 31 * 8] = FunctionConfig { id_dword: 0x0001_0002, class_dword: 0, header_type: 0, irq_line: 0, bars: [Bar::Empty; 6] };
    let found = enumerate(&space);
    let addrs: Vec<(u8, u8, u8)> = found.iter().map(|d| (d.address.bus, d.address.device, d.address.function)).collect();
    assert_eq!(addrs, vec![(0, 1, 0), (0, 1, 2), (0, 3, 0), (2, 31, 0)]);
    assert_eq!(found[0].vendor_id, 0x8086);
    assert_eq!(found[0].device_id, 0x1001);
    assert_eq!(found[0].class, 0x01);
    assert_eq!(found[0].subclass, 0x06);
    assert_eq!(found[0].prog_if, 0x01);
    assert_eq!(found[0].revision, 0x02);
    assert_eq!(found[0].irq_line, Some(11));
    assert_eq!(found[0].bars[0], io);
    assert_eq!(found[1].bars[0], Bar::Empty);
    assert_eq!(found[1].irq_line, None);
}
