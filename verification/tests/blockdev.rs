use kstorage::blockdev::partition::Partition;
use kstorage::blockdev::sectors::{SectorRead, SectorWrite, WriteStep};
use kstorage::blockdev::stream::BlockStream;
use kstorage::blockdev::{read_clusters, BlockDevice, BlockError, IoErrorKind, Read, Seek, SeekFrom};
use kstorage::hal::block::BlockError as HalBlockError;
use kstorage::hal::io::IoError;

struct RamDisk {
    data: Vec<u8>,
    sector: usize,
}

impl BlockDevice for RamDisk {
    fn contents(&self) -> vstd::seq::Seq<u8> {
        unreachable!()
    }

    fn sector_bytes(&self) -> usize {
        unreachable!()
    }

    fn size_view(&self) -> u64 {
        unreachable!()
    }

    fn read_at(&mut self, offset: u64, buf: &mut [u8]) -> Result<(), BlockError> {
        let off = offset as usize;
        if off + buf.len() > self.data.len() {
            return Err(BlockError::OutOfBounds);
        }
        buf.copy_from_slice(&self.data[off..off + buf.len()]);
        Ok(())
    }

    fn write_at(&mut self, offset: u64, buf: &[u8]) -> Result<(), BlockError> {
        let off = offset as usize;
        if off + buf.len() > self.data.len() {
            return Err(BlockError::OutOfBounds);
        }
        self.data[off..off + buf.len()].copy_from_slice(buf);
        Ok(())
    }

    fn size(&self) -> u64 {
        self.data.len() as u64
    }

    fn sector_size(&self) -> usize {
        self.sector
    }
}

fn patterned(n: usize) -> Vec<u8> {
    (0..n).map(|i| (i * 7 + 3) as u8).collect()
}

#[test]
fn partition_reads_from_its_start() {
    let mut p = Partition { inner: RamDisk { data: patterned(4096), sector: 512 }, start_offset: 1024, size: 2048 };
    let mut buf = [0u8; 16];
    p.read_at(10, &mut buf).unwrap();
    assert_eq!(&buf[..], &patterned(4096)[1034..1050]);
    assert_eq!(p.size(), 2048);
    assert_eq!(p.sector_size(), 512);
}

#[test]
fn partition_write_stays_inside() {
    let mut p = Partition { inner: RamDisk { data: vec![0u8; 4096], sector: 512 }, start_offset: 1024, size: 2048 };
    p.write_at(2040, &[1, 2, 3, 4, 5, 6, 7, 8]).unwrap();
    assert_eq!(&p.inner.data[3064..3072], &[1, 2, 3, 4, 5, 6, 7, 8]);
    assert_eq!(p.write_at(2045, &[9, 9, 9, 9]), Err(BlockError::OutOfBounds));
    assert_eq!(p.inner.data[3069], 6);
}

#[test]
fn block_errors_have_messages() {
    assert_eq!(BlockError::OutOfBounds.message(), "access out of bounds");
    assert_eq!(BlockError::DeviceError.message(), "device error");
    assert_eq!(kstorage::blockdev::IoError::new(IoErrorKind::InvalidInput).kind, IoErrorKind::InvalidInput);
}

#[test]
fn clusters_are_read_by_number() {
    let mut d = RamDisk { data: patterned(8192), sector: 512 };
    let v = read_clusters(&mut d, 2, 1, 1024).unwrap();
    assert_eq!(v, patterned(8192)[2048..3072].to_vec());
    assert_eq!(read_clusters(&mut d, 7, 2, 1024), Err(BlockError::OutOfBounds));
}

#[test]
fn checked_cluster_read_refuses_overflow() {
    let mut d = HalDisk { data: patterned(8192), fail: None };
    let v = kstorage::blockdev::cluster::read_clusters(&mut d, 1, 2, 512).unwrap();
    assert_eq!(v, patterned(8192)[512..1536].to_vec());
    assert_eq!(kstorage::blockdev::cluster::read_clusters(&mut d, 0, u64::MAX, 2), Err(IoError::InvalidInput));
    assert_eq!(kstorage::blockdev::cluster::read_clusters(&mut d, 100, 1, 512), Err(IoError::InvalidInput));
    let mut t = HalDisk { data: patterned(8192), fail: Some(HalBlockError::Timeout) };
    assert_eq!(kstorage::blockdev::cluster::read_clusters(&mut t, 0, 1, 512), Err(IoError::TimedOut));
    let mut b = HalDisk { data: patterned(8192), fail: Some(HalBlockError::BadSector) };
    assert_eq!(kstorage::blockdev::cluster::read_clusters(&mut b, 0, 1, 512), Err(IoError::InvalidData));
    let mut o = HalDisk { data: patterned(8192), fail: Some(HalBlockError::DeviceBusy) };
    assert_eq!(kstorage::blockdev::cluster::read_clusters(&mut o, 0, 1, 512), Err(IoError::Other));
}

/// A byte-addressed disk of the hardware layer, failing every read with
/// `fail` when it is set.
struct HalDisk {
    data: Vec<u8>,
    fail: Option<HalBlockError>,
}

impl kstorage::hal::block::BlockDevice for HalDisk {
    fn bytes(&self) -> vstd::seq::Seq<u8> {
        unreachable!()
    }

    fn block_size_view(&self) -> usize {
        unreachable!()
    }

    fn block_count_view(&self) -> u64 {
        unreachable!()
    }

    fn read_blocks(&mut self, lba: u64, buf: &mut [u8]) -> Result<(), HalBlockError> {
        if let Some(e) = self.fail {
            return Err(e);
        }
        let off = lba as usize;
        if off + buf.len() > self.data.len() {
            return Err(HalBlockError::OutOfBounds);
        }
        buf.copy_from_slice(&self.data[off..off + buf.len()]);
        Ok(())
    }

    fn write_blocks(&mut self, _lba: u64, _buf: &[u8]) -> Result<(), HalBlockError> {
        Err(HalBlockError::WriteError)
    }

    fn block_size(&self) -> usize {
        512
    }

    fn block_count(&self) -> u64 {
        (self.data.len() / 512) as u64
    }
}

#[test]
fn stream_reads_across_sectors_and_seeks() {
    let data = patterned(3072);
    let mut s = BlockStream::new(RamDisk { data: data.clone(), sector: 512 });
    assert_eq!(s.size(), 3072);
    let mut buf = vec![0u8; 700];
    assert_eq!(s.read(&mut buf), Ok(700));
    assert_eq!(&buf[..], &data[..700]);
    assert_eq!(s.seek(SeekFrom::Start(3062)), Ok(3062));
    let mut tail = vec![0u8; 100];
    assert_eq!(s.read(&mut tail), Ok(10));
    assert_eq!(&tail[..10], &data[3062..3072]);
    assert_eq!(s.read(&mut tail), Ok(0));
    assert_eq!(s.seek(SeekFrom::End(-100)), Ok(2972));
    assert_eq!(s.seek(SeekFrom::Current(50)), Ok(3022));
    assert!(s.seek(SeekFrom::Current(-5000)).is_err());
    assert_eq!(s.stream_position(), Ok(3022));
    let mut all = vec![0u8; 50];
    s.read_exact(&mut all).unwrap();
    assert_eq!(&all[..], &data[3022..3072]);
    let d = s.into_device();
    assert_eq!(d.data, data);
}

#[test]
fn stream_reports_device_errors_as_other() {
    let mut s = BlockStream::new(RamDisk { data: patterned(1000), sector: 512 });
    let mut buf = vec![0u8; 1000];
    assert_eq!(s.read(&mut buf), Err(kstorage::blockdev::IoError::new(IoErrorKind::Other)));
}

/// Run a sector read against `disk` the way a driver does.
fn drive_read(disk: &[u8], offset: u64, len: usize) -> Result<Vec<u8>, BlockError> {
    let mut r = SectorRead::start(offset, len, disk.len() as u64)?;
    while let Some(lba) = r.next_sector() {
        let at = lba as usize * 512;
        r.feed(&disk[at..at + 512]);
    }
    Ok(r.finish())
}

/// Run a sector write against `disk` the way a driver does.
fn drive_write(disk: &mut Vec<u8>, offset: u64, buf: &[u8]) -> Result<(), BlockError> {
    let mut w = SectorWrite::start(offset, buf, disk.len() as u64)?;
    loop {
        match w.step() {
            WriteStep::Done => return Ok(()),
            WriteStep::Whole { lba, bytes } => {
                let at = lba as usize * 512;
                disk[at..at + 512].copy_from_slice(&bytes);
                w.whole_written();
            },
            WriteStep::Partial { lba } => {
                let at = lba as usize * 512;
                let merged = w.patch(&disk[at..at + 512]);
                disk[at..at + 512].copy_from_slice(&merged);
            },
        }
    }
}

#[test]
fn sector_reads_gather_any_range() {
    let disk = patterned(4096);
    for &(off, len) in &[(0u64, 512usize), (100, 50), (500, 30), (300, 1500), (0, 0), (4000, 96)] {
        let got = drive_read(&disk, off, len).unwrap();
        assert_eq!(got, disk[off as usize..off as usize + len].to_vec());
    }
    assert_eq!(drive_read(&disk, 4000, 97), Err(BlockError::OutOfBounds));
}

#[test]
fn sector_writes_replace_exactly_the_range() {
    for &(off, len) in &[(0u64, 512usize), (100, 50), (500, 30), (300, 1500), (1024, 1024)] {
        let mut disk = patterned(4096);
        let src: Vec<u8> = (0..len).map(|i| (255 - (i % 200)) as u8).collect();
        drive_write(&mut disk, off, &src).unwrap();
        let mut expected = patterned(4096);
        expected[off as usize..off as usize + len].copy_from_slice(&src);
        assert_eq!(disk, expected);
    }
    let mut disk = patterned(1024);
    assert_eq!(drive_write(&mut disk, 1000, &[0u8; 25]), Err(BlockError::OutOfBounds));
    assert_eq!(disk, patterned(1024));
}

#[test]
fn aligned_write_uses_whole_sectors() {
    let w = SectorWrite::start(512, &[7u8; 600], 4096).unwrap();
    match w.step() {
        WriteStep::Whole { lba, bytes } => {
            assert_eq!(lba, 1);
            assert_eq!(bytes, vec![7u8; 512]);
        },
        _ => panic!("expected a whole-sector write"),
    }
}

#[test]
fn stream_serves_the_buffered_sector_without_the_device() {
    let data = patterned(2048);
    let mut s = BlockStream::new(RamDisk { data: data.clone(), sector: 512 });
    let mut buf = vec![0u8; 10];
    assert_eq!(s.read(&mut buf), Ok(10));
    // From now on every device read fails.
    s.device().data.clear();
    assert_eq!(s.read(&mut buf), Ok(10));
    assert_eq!(&buf[..], &data[10..20]);
    let mut empty: Vec<u8> = Vec::new();
    assert_eq!(s.read(&mut empty), Ok(0));
    let mut more = vec![0u8; 600];
    assert!(s.read(&mut more).is_err());
}

#[test]
fn partition_refuses_ranges_past_its_end() {
    let mut p = Partition { inner: RamDisk { data: patterned(4096), sector: 512 }, start_offset: 1024, size: 100 };
    assert_eq!(p.write_at(90, &[1u8; 20]), Err(BlockError::OutOfBounds));
    let mut q = Partition { inner: RamDisk { data: patterned(4096), sector: 512 }, start_offset: u64::MAX, size: 100 };
    let mut buf = [0u8; 4];
    assert_eq!(q.read_at(1, &mut buf), Err(BlockError::OutOfBounds));
}

#[test]
fn stream_over_a_zero_sector_device() {
    let data = patterned(100);
    let mut s = BlockStream::new(RamDisk { data: data.clone(), sector: 0 });
    assert_eq!(s.size(), 100);
    let mut empty: Vec<u8> = Vec::new();
    assert_eq!(s.read(&mut empty), Ok(0));
    let mut buf = vec![0u8; 4];
    assert_eq!(s.read(&mut buf), Err(kstorage::blockdev::IoError::new(IoErrorKind::Other)));
    assert_eq!(buf, vec![0u8; 4]);
    let d = s.into_device();
    assert_eq!(d.data, data);
}
