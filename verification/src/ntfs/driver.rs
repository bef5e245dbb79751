//! The NTFS driver: mounting a volume and reading records, files and
//! directories from it.

use vstd::prelude::*;
use crate::blockdev::{read_clusters, splice, unchanged_outside, BlockDevice};
use crate::bytes::{le16, read_u16_le};
use crate::ntfs::{CreateOptions, DataRun, NtfsError, NtfsFile, NtfsStat, RunView, StatView, VolumeInfo};
use crate::ntfs::attr::{find_attribute_offset, find_attr_from, first_attr_offset, update_resident_data, update_resident_data_ok, value_length, value_offset};
use crate::ntfs::runs::read_all;
use crate::ntfs::write::{create_mft_record, encode_utf16, entry_inserted, index_entry_len, insert_entry_bytes, new_record_fits,
    new_record_image, reapply_fixups, stamp_fixups_ok, stamped, utf16_units};
use crate::bytes::{le32, read_u32_le};
use crate::ntfs::readback::lemma_created_record_parses;
use crate::ntfs::index::{find_in_directory_with_index, index_find, index_names, list_from_index, names_view};
use crate::text::{path_components, split_path, strings_view};
use crate::ntfs::attr::{fixups_enabled, reapply_fixups_spec, parse_stat, parse_stat_ok, sector_end, stat_spec, usa_count, usa_offset};
use crate::ntfs::boot::{is_ntfs_boot_sector, parsed_from, BootSector};

verus! {

/// The NTFS driver over a block device. Handles own no parsed data: every
/// operation reads the records it needs afresh.
pub struct NtfsDriver<D: BlockDevice> {
    pub(crate) device: D,
    pub(crate) boot: BootSector,
    pub(crate) mft_record_size: usize,
}

/// The signature every MFT record starts with: `"FILE"`.
pub open spec fn file_signature() -> Seq<u8> {
    seq![0x46u8, 0x49u8, 0x4Cu8, 0x45u8]
}

/// A device whose boot sector, if it is there, gives a record size that a
/// shift can compute.
pub open spec fn mount_ok(c: Seq<u8>) -> bool {
    c.len() >= 512 ==> ((c[0x40] as i8) > 0 || -(c[0x40] as i8) < usize::BITS)
}

/// Restoring sector ends strictly, sector `i` onwards: a sector end outside
/// the record, or one that does not carry `seq`, is corruption.
pub open spec fn strict_fixups_from(s: Seq<u8>, uso: int, usc: int, seq: int, i: int) -> Result<Seq<u8>, NtfsError>
    decreases usc - i,
{
    if i < 1 || i >= usc {
        Ok(s)
    } else if sector_end(i) + 2 > s.len() || le16(s, sector_end(i)) != seq {
        Err(NtfsError::CorruptedFilesystem)
    } else {
        let e = sector_end(i);
        strict_fixups_from(
            s.update(e, s[uso + 2 * i]).update(e + 1, s[uso + 2 * i + 1]),
            uso,
            usc,
            seq,
            i + 1,
        )
    }
}

/// The record after strict fixups: the update sequence array must lie in
/// the record and every sector end must match.
pub open spec fn strict_fixups(s: Seq<u8>) -> Result<Seq<u8>, NtfsError> {
    if !fixups_enabled(s) {
        Ok(s)
    } else if usa_offset(s) + 2 * usa_count(s) > s.len() {
        Err(NtfsError::CorruptedFilesystem)
    } else {
        strict_fixups_from(s, usa_offset(s), usa_count(s), le16(s, usa_offset(s)), 1)
    }
}

/// The record held in the raw bytes of an MFT slot.
pub open spec fn record_from_raw(raw: Seq<u8>) -> Result<Seq<u8>, NtfsError> {
    if raw.subrange(0, 4) != file_signature() {
        Err(NtfsError::InvalidMftRecord)
    } else {
        strict_fixups(raw)
    }
}

proof fn lemma_strict_errors(s: Seq<u8>, uso: int, usc: int, seq: int, i: int)
    ensures
        strict_fixups_from(s, uso, usc, seq, i) matches Err(e) ==> e == NtfsError::CorruptedFilesystem,
    decreases usc - i,
{
    if 1 <= i < usc && !(sector_end(i) + 2 > s.len() || le16(s, sector_end(i)) != seq) {
        let e = sector_end(i);
        lemma_strict_errors(s.update(e, s[uso + 2 * i]).update(e + 1, s[uso + 2 * i + 1]), uso, usc, seq, i + 1);
    }
}

/// Reading a record fails only on a bad signature or bad fixups.
pub proof fn lemma_record_errors(raw: Seq<u8>)
    ensures
        record_from_raw(raw) matches Err(e) ==> e == NtfsError::InvalidMftRecord || e == NtfsError::CorruptedFilesystem,
        record_from_raw(raw) == Err::<Seq<u8>, NtfsError>(NtfsError::InvalidMftRecord) <==> raw.subrange(0, 4) != file_signature(),
{
    if fixups_enabled(raw) {
        lemma_strict_errors(raw, usa_offset(raw), usa_count(raw), le16(raw, usa_offset(raw)), 1);
    }
}

/// Strict fixups in place.
fn apply_fixups_strict(buf: &mut [u8]) -> (r: Result<(), NtfsError>)
    requires
        old(buf)@.len() >= 8,
    ensures
        final(buf)@.len() == old(buf)@.len(),
        r is Ok <==> strict_fixups(old(buf)@) is Ok,
        r is Ok ==> strict_fixups(old(buf)@) == Ok::<Seq<u8>, NtfsError>(final(buf)@),
        r matches Err(e) ==> strict_fixups(old(buf)@) == Err::<Seq<u8>, NtfsError>(e),
{
    let len = buf.len();
    let uso = read_u16_le(buf, 4) as usize;
    let usc = read_u16_le(buf, 6) as usize;
    if uso < 48 || usc == 0 {
        return Ok(());
    }
    if uso > len || usc > (len - uso) / 2 {
        return Err(NtfsError::CorruptedFilesystem);
    }
    let seq = read_u16_le(buf, uso);
    let ghost s0 = buf@;
    let mut i: usize = 1;
    while i < usc
        invariant
            1 <= i <= usc,
            usc <= 65535,
            uso + 2 * usc <= len,
            uso == usa_offset(s0),
            usc == usa_count(s0),
            seq == le16(s0, uso as int),
            len == buf@.len(),
            len == s0.len(),
            s0 == old(buf)@,
            fixups_enabled(s0),
            strict_fixups_from(buf@, uso as int, usc as int, seq as int, i as int)
                == strict_fixups(s0),
        decreases usc - i,
    {
        let end = i * 512 - 2;
        if end > len || len - end < 2 {
            return Err(NtfsError::CorruptedFilesystem);
        }
        let found = read_u16_le(buf, end);
        if found != seq {
            return Err(NtfsError::CorruptedFilesystem);
        }
        let rep = uso + i * 2;
        let lo = buf[rep];
        let hi = buf[rep + 1];
        buf[end] = lo;
        buf[end + 1] = hi;
        i = i + 1;
    }
    Ok(())
}

/// The record held in the raw bytes of an MFT slot: `InvalidMftRecord`
/// without the `FILE` signature, `CorruptedFilesystem` when the update
/// sequence array does not fit or a sector end does not carry the sequence
/// number, else the bytes with their sector ends restored.
pub fn record_result(raw: Vec<u8>) -> (r: Result<Vec<u8>, NtfsError>)
    requires
        raw@.len() >= 8,
    ensures
        match r {
            Ok(v) => record_from_raw(raw@) == Ok::<Seq<u8>, NtfsError>(v@),
            Err(e) => record_from_raw(raw@) == Err::<Seq<u8>, NtfsError>(e),
        },
        r matches Ok(v) ==> v@.len() == raw@.len(),
{
    let mut buf = raw;
    if !(buf[0] == 0x46 && buf[1] == 0x49 && buf[2] == 0x4C && buf[3] == 0x45) {
        proof {
            if buf@.subrange(0, 4) == file_signature() {
                assert(buf@.subrange(0, 4)[0] == file_signature()[0]);
                assert(buf@.subrange(0, 4)[1] == file_signature()[1]);
                assert(buf@.subrange(0, 4)[2] == file_signature()[2]);
                assert(buf@.subrange(0, 4)[3] == file_signature()[3]);
            }
        }
        return Err(NtfsError::InvalidMftRecord);
    }
    assert(buf@.subrange(0, 4) =~= file_signature());
    match apply_fixups_strict(buf.as_mut_slice()) {
        Ok(()) => Ok(buf),
        Err(e) => Err(e),
    }
}

/// The metadata held in the raw bytes of an MFT slot: the record's errors
/// as `record_result` gives them, else what `parse_stat` makes of it.
pub fn stat_from_raw(raw: Vec<u8>, boot: &BootSector) -> (r: Result<NtfsStat, NtfsError>)
    requires
        raw@.len() >= 8,
        record_from_raw(raw@) matches Ok(rec) ==> parse_stat_ok(rec, boot.cluster_bytes()),
    ensures
        match r {
            Ok(st) => record_from_raw(raw@) matches Ok(rec) && stat_spec(rec, boot.cluster_bytes()) == Ok::<StatView, NtfsError>(st@),
            Err(e) => match record_from_raw(raw@) {
                Ok(rec) => stat_spec(rec, boot.cluster_bytes()) == Err::<StatView, NtfsError>(e),
                Err(e2) => e == e2,
            },
        },
{
    match record_result(raw) {
        Ok(rec) => parse_stat(rec.as_slice(), boot),
        Err(e) => Err(e),
    }
}

/// The names in the index of a file's metadata: `NotADirectory` when it
/// has no index root, else every name of the index in order.
pub fn list_from_stat(stat: &NtfsStat) -> (r: Result<Vec<String>, NtfsError>)
    ensures
        stat@.index_root is None <==> r == Err::<Vec<String>, NtfsError>(NtfsError::NotADirectory),
        stat@.index_root is Some <==> r is Ok,
        r matches Ok(v) ==> stat@.index_root matches Some(ix) && names_view(v@) == index_names(ix),
{
    match &stat.index_root {
        Some(ix) => list_from_index(ix.as_slice()),
        None => Err(NtfsError::NotADirectory),
    }
}

/// The record number that the index of a file's metadata gives `name`:
/// `NotADirectory` without an index root, `FileNotFound` when the index
/// has no such entry.
pub fn find_in_stat(stat: &NtfsStat, name: &str) -> (r: Result<u64, NtfsError>)
    ensures
        stat@.index_root is None ==> r == Err::<u64, NtfsError>(NtfsError::NotADirectory),
        stat@.index_root matches Some(ix) ==> match index_find(ix, name@) {
            Some(n) => r == Ok::<u64, NtfsError>(n),
            None => r == Err::<u64, NtfsError>(NtfsError::FileNotFound),
        },
{
    match &stat.index_root {
        Some(ix) => find_in_directory_with_index(ix.as_slice(), name),
        None => Err(NtfsError::NotADirectory),
    }
}

/// Copy the start of `data` into `buf`, as much as fits; the count copied.
pub fn fill_from(data: &[u8], buf: &mut [u8]) -> (n: usize)
    ensures
        n == if old(buf)@.len() < data@.len() { old(buf)@.len() } else { data@.len() },
        final(buf)@ == data@.subrange(0, n as int) + old(buf)@.subrange(n as int, old(buf)@.len() as int),
{
    let n = if buf.len() < data.len() { buf.len() } else { data.len() };
    let mut i: usize = 0;
    while i < n
        invariant
            i <= n,
            n <= buf@.len(),
            n <= data@.len(),
            buf@.len() == old(buf)@.len(),
            forall|k: int| 0 <= k < i ==> buf@[k] == data@[k],
            forall|k: int| i <= k < buf@.len() ==> buf@[k] == old(buf)@[k],
        decreases n - i,
    {
        buf[i] = data[i];
        i = i + 1;
    }
    assert(buf@ =~= data@.subrange(0, n as int) + old(buf)@.subrange(n as int, old(buf)@.len() as int));
    n
}

impl<D: BlockDevice> NtfsDriver<D> {
    /// The device the driver reads.
    pub closed spec fn dev(&self) -> D {
        self.device
    }

    /// The boot sector the volume was mounted with.
    pub closed spec fn boot_sector(&self) -> BootSector {
        self.boot
    }

    /// Size of one MFT record.
    pub closed spec fn record_size(&self) -> usize {
        self.mft_record_size
    }

    /// The record size is the one the boot sector gives.
    pub open spec fn wf(&self) -> bool {
        &&& self.boot_sector().record_size_ok()
        &&& self.record_size() == self.boot_sector().record_bytes()
    }

    /// Byte offset of MFT record `n`.
    pub open spec fn record_offset(&self, n: u64) -> int {
        self.boot_sector().mft_offset() + n * self.record_size()
    }

    /// Record `n` can be addressed: it holds a header and its offset fits in
    /// 64 bits.
    pub open spec fn addressable(&self, n: u64) -> bool {
        &&& self.record_size() >= 8
        &&& self.boot_sector().mft_offset() <= u64::MAX
        &&& n * self.record_size() <= u64::MAX
        &&& self.record_offset(n) <= u64::MAX
    }

    /// The raw bytes of MFT slot `n` on the device.
    pub open spec fn raw_record(&self, n: u64) -> Seq<u8> {
        self.dev().contents().subrange(self.record_offset(n), self.record_offset(n) + self.record_size())
    }

    /// Slot `n` lies within the device.
    pub open spec fn record_on_device(&self, n: u64) -> bool {
        self.record_offset(n) + self.record_size() <= self.dev().contents().len()
    }

    /// The record in slot `n`, after the signature check and fixups.
    pub open spec fn record(&self, n: u64) -> Result<Seq<u8>, NtfsError> {
        record_from_raw(self.raw_record(n))
    }

    /// Bytes per cluster of the volume.
    pub open spec fn cluster_size(&self) -> int {
        self.boot_sector().cluster_bytes()
    }

    /// The metadata of record `n`.
    pub open spec fn stat_of(&self, n: u64) -> Result<StatView, NtfsError> {
        match self.record(n) {
            Ok(rec) => stat_spec(rec, self.cluster_size()),
            Err(e) => Err(e),
        }
    }

    /// Record `n` can be parsed without running out of bounds.
    pub open spec fn stat_ok(&self, n: u64) -> bool {
        self.record(n) matches Ok(rec) ==> parse_stat_ok(rec, self.cluster_size())
    }

    /// Mount a volume: read and check its boot sector.
    pub fn mount(device: D) -> (r: Result<Self, NtfsError>)
        requires
            mount_ok(device.contents()),
        ensures
            r matches Ok(drv) ==> {
                &&& drv.dev().contents() == device.contents()
                &&& device.contents().len() >= 512
                &&& is_ntfs_boot_sector(device.contents().subrange(0, 512))
                &&& parsed_from(drv.boot_sector(), device.contents().subrange(0, 512))
                &&& drv.wf()
            },
            r matches Err(e) ==> e == NtfsError::IoError || e == NtfsError::InvalidBootSector,
            r == Err::<Self, NtfsError>(NtfsError::InvalidBootSector) ==> device.contents().len() >= 512
                && !is_ntfs_boot_sector(device.contents().subrange(0, 512)),
    {
        let mut device = device;
        let ghost c = device.contents();
        let mut sector: Vec<u8> = vec![0u8; 512];
        match device.read_at(0, sector.as_mut_slice()) {
            Ok(()) => {},
            Err(_) => return Err(NtfsError::IoError),
        }
        let mut boot_buf = [0u8; 512];
        let mut i: usize = 0;
        while i < 512
            invariant
                i <= 512,
                sector@.len() == 512,
                boot_buf@.len() == 512,
                forall|k: int| 0 <= k < i ==> boot_buf@[k] == sector@[k],
            decreases 512 - i,
        {
            boot_buf[i] = sector[i];
            i = i + 1;
        }
        assert(boot_buf@ =~= sector@);
        let boot = match BootSector::from_bytes(&boot_buf) {
            Ok(b) => b,
            Err(e) => return Err(e),
        };
        assert(boot_buf@ == c.subrange(0, 512));
        let mft_record_size = boot.mft_record_size();
        Ok(Self { device, boot, mft_record_size })
    }
}


impl<D: BlockDevice> NtfsDriver<D> {
    /// The same volume, seen before and after an operation that writes
    /// nothing: same bytes, same boot sector, same record size.
    pub open spec fn same_volume(&self, other: &Self) -> bool {
        &&& self.dev().contents() == other.dev().contents()
        &&& self.dev().size_view() == other.dev().size_view()
        &&& self.dev().sector_bytes() == other.dev().sector_bytes()
        &&& forall|o: int, l: int| #[trigger] self.dev().read_may_fail(o, l) == other.dev().read_may_fail(o, l)
        &&& self.boot_sector() == other.boot_sector()
        &&& self.record_size() == other.record_size()
    }

    /// Give the device back.
    pub fn unmount(self) -> (r: D)
        ensures
            r == self.dev(),
    {
        self.device
    }

    /// Read MFT record `n`, check its signature and apply fixups.
    fn read_mft_record(&mut self, n: u64) -> (r: Result<Vec<u8>, NtfsError>)
        requires
            old(self).addressable(n),
        ensures
            final(self).same_volume(old(self)),
            r matches Ok(rec) ==> old(self).record_on_device(n) && old(self).record(n) == Ok::<Seq<u8>, NtfsError>(rec@)
                && rec@.len() == old(self).record_size(),
            r matches Err(e) ==> e == NtfsError::IoError
                || (old(self).record_on_device(n) && old(self).record(n) == Err::<Seq<u8>, NtfsError>(e)),
    {
        let raw = match self.read_raw_record(n) {
            Ok(raw) => raw,
            Err(e) => return Err(e),
        };
        record_result(raw)
    }

    /// Read the raw bytes of MFT slot `n` from the device.
    fn read_raw_record(&mut self, n: u64) -> (r: Result<Vec<u8>, NtfsError>)
        requires
            old(self).addressable(n),
        ensures
            final(self).same_volume(old(self)),
            r matches Ok(raw) ==> old(self).record_on_device(n) && raw@ == old(self).raw_record(n)
                && raw@.len() == old(self).record_size(),
            r matches Err(e) ==> e == NtfsError::IoError,
    {
        let rs = self.mft_record_size;
        let offset = self.boot.mft_byte_offset() + n * (rs as u64);
        let mut buf: Vec<u8> = vec![0u8; rs];
        match self.device.read_at(offset, buf.as_mut_slice()) {
            Ok(()) => {},
            Err(_) => return Err(NtfsError::IoError),
        }
        assert(buf@ == self.raw_record(n));
        Ok(buf)
    }

    /// Open an MFT record by number, checking that it is a valid FILE record.
    pub fn open_file(&mut self, record_number: u64) -> (r: Result<NtfsFile, NtfsError>)
        requires
            old(self).addressable(record_number),
        ensures
            final(self).same_volume(old(self)),
            r matches Ok(f) ==> f.number() == record_number && old(self).record(record_number) is Ok,
            r matches Err(e) ==> e == NtfsError::IoError || old(self).record(record_number) == Err::<Seq<u8>, NtfsError>(e),
    {
        match self.read_mft_record(record_number) {
            Ok(_) => Ok(NtfsFile { record_number }),
            Err(e) => Err(e),
        }
    }

    /// A handle to the root directory (MFT record 5).
    pub fn root_directory(&mut self) -> (r: Result<NtfsFile, NtfsError>)
        requires
            old(self).addressable(5),
        ensures
            final(self).same_volume(old(self)),
            r matches Ok(f) ==> f.number() == 5 && old(self).record(5) is Ok,
            r matches Err(e) ==> e == NtfsError::IoError || old(self).record(5) == Err::<Seq<u8>, NtfsError>(e),
    {
        self.open_file(5)
    }

    /// The metadata of a file, read afresh from its record.
    pub fn stat(&mut self, file: &NtfsFile) -> (r: Result<NtfsStat, NtfsError>)
        requires
            old(self).addressable(file.number()),
            old(self).stat_ok(file.number()),
        ensures
            final(self).same_volume(old(self)),
            r matches Ok(st) ==> old(self).stat_of(file.number()) == Ok::<StatView, NtfsError>(st@)
                && old(self).record_on_device(file.number()),
            r matches Err(e) ==> e == NtfsError::IoError || old(self).stat_of(file.number()) == Err::<StatView, NtfsError>(e),
    {
        let raw = match self.read_raw_record(file.record_number) {
            Ok(raw) => raw,
            Err(e) => return Err(e),
        };
        stat_from_raw(raw, &self.boot)
    }

    /// Whether a handle is a directory.
    pub fn is_directory(&mut self, file: &NtfsFile) -> (r: Result<bool, NtfsError>)
        requires
            old(self).addressable(file.number()),
            old(self).stat_ok(file.number()),
        ensures
            final(self).same_volume(old(self)),
            r matches Ok(b) ==> old(self).stat_of(file.number()) matches Ok(st) && b == st.is_directory
                && old(self).record_on_device(file.number()),
            r matches Err(e) ==> e == NtfsError::IoError || old(self).stat_of(file.number()) == Err::<StatView, NtfsError>(e),
    {
        match self.stat(file) {
            Ok(st) => Ok(st.is_directory),
            Err(e) => Err(e),
        }
    }

    /// Byte size of a file's data stream.
    pub fn file_size(&mut self, file: &NtfsFile) -> (r: Result<u64, NtfsError>)
        requires
            old(self).addressable(file.number()),
            old(self).stat_ok(file.number()),
        ensures
            final(self).same_volume(old(self)),
            r matches Ok(n) ==> old(self).stat_of(file.number()) matches Ok(st) && n == st.size,
            r matches Err(e) ==> e == NtfsError::IoError || old(self).stat_of(file.number()) == Err::<StatView, NtfsError>(e),
    {
        match self.stat(file) {
            Ok(st) => Ok(st.size),
            Err(e) => Err(e),
        }
    }

    /// The primary file name, if the record holds one.
    pub fn file_name(&mut self, file: &NtfsFile) -> (r: Result<Option<String>, NtfsError>)
        requires
            old(self).addressable(file.number()),
            old(self).stat_ok(file.number()),
        ensures
            final(self).same_volume(old(self)),
            r matches Ok(n) ==> old(self).stat_of(file.number()) matches Ok(st) && match n {
                Some(s) => st.name == Some(s@),
                None => st.name is None,
            },
            r matches Err(e) ==> e == NtfsError::IoError || old(self).stat_of(file.number()) == Err::<StatView, NtfsError>(e),
    {
        match self.stat(file) {
            Ok(st) => Ok(st.name),
            Err(e) => Err(e),
        }
    }

    /// Geometry of the mounted volume.
    pub fn volume_info(&self) -> (r: VolumeInfo)
        requires
            self.boot_sector().mft_offset() <= u64::MAX,
        ensures
            r.sector_size == self.boot_sector().bytes_per_sector,
            r.cluster_size == self.cluster_size(),
            r.file_record_size == self.record_size() as u32,
            r.mft_position == self.boot_sector().mft_offset(),
            r.serial_number == self.boot_sector().serial_number,
    {
        let bpc = self.boot.bytes_per_cluster();
        assert(bpc <= 65535 * 255) by (nonlinear_arith)
            requires
                bpc == self.boot.bytes_per_sector * self.boot.sectors_per_cluster,
                self.boot.bytes_per_sector <= 65535,
                self.boot.sectors_per_cluster <= 255,
        ;
        VolumeInfo {
            sector_size: self.boot.bytes_per_sector,
            cluster_size: bpc as u32,
            file_record_size: #[verifier::truncate] (self.mft_record_size as u32),
            mft_position: self.boot.mft_byte_offset(),
            serial_number: self.boot.serial_number,
        }
    }
}


/// The bytes of one `(start_cluster, cluster_count)` run on the device.
pub open spec fn run_bytes(c: Seq<u8>, run: (u64, u64), bpc: int) -> Seq<u8> {
    c.subrange(run.0 * bpc, run.0 * bpc + run.1 * bpc)
}

/// A run can be read: its byte offset fits in 64 bits, its length in a
/// buffer, and it lies on the device.
pub open spec fn run_readable(c: Seq<u8>, run: (u64, u64), bpc: int) -> bool {
    &&& run.0 * bpc <= u64::MAX
    &&& run.1 * bpc <= usize::MAX
}

/// The bytes of a list of runs, one after another.
pub open spec fn runs_content(c: Seq<u8>, runs: Seq<(u64, u64)>, bpc: int) -> Seq<u8>
    decreases runs.len(),
{
    if runs.len() == 0 {
        Seq::empty()
    } else {
        runs_content(c, runs.drop_last(), bpc) + run_bytes(c, runs.last(), bpc)
    }
}

/// The bytes a data run stands for.
pub open spec fn data_run_content(c: Seq<u8>, run: RunView, bpc: int) -> Seq<u8> {
    match run {
        RunView::Resident(d) => d,
        RunView::NonResident(runs) => runs_content(c, runs, bpc),
    }
}

/// The content of a file: its data runs' bytes, one after another.
pub open spec fn file_content(c: Seq<u8>, runs: Seq<RunView>, bpc: int) -> Seq<u8>
    decreases runs.len(),
{
    if runs.len() == 0 {
        Seq::empty()
    } else {
        file_content(c, runs.drop_last(), bpc) + data_run_content(c, runs.last(), bpc)
    }
}

/// Every cluster run of a data run can be read.
pub open spec fn data_run_readable(c: Seq<u8>, run: RunView, bpc: int) -> bool {
    match run {
        RunView::Resident(_) => true,
        RunView::NonResident(rs) => forall|j: int| 0 <= j < rs.len() ==> run_readable(c, #[trigger] rs[j], bpc),
    }
}

/// Every non-resident run of a file can be read.
pub open spec fn runs_readable(c: Seq<u8>, runs: Seq<RunView>, bpc: int) -> bool {
    forall|i: int| 0 <= i < runs.len() ==> data_run_readable(c, #[trigger] runs[i], bpc)
}

/// The child a directory's metadata gives for `name`.
pub open spec fn child_of(st: StatView, name: Seq<char>) -> Result<u64, NtfsError> {
    if !st.is_directory {
        Err(NtfsError::NotADirectory)
    } else {
        match st.index_root {
            None => Err(NtfsError::NotADirectory),
            Some(ix) => match index_find(ix, name) {
                None => Err(NtfsError::FileNotFound),
                Some(c) => Ok(c),
            },
        }
    }
}

pub(crate) proof fn lemma_nonresident_readable(c: Seq<u8>, rs: Seq<(u64, u64)>, bpc: int, j: int)
    requires
        data_run_readable(c, RunView::NonResident(rs), bpc),
        0 <= j < rs.len(),
    ensures
        run_readable(c, rs[j], bpc),
{
    let v = RunView::NonResident(rs);
    assert(v is NonResident);
    assert(v->NonResident_0 == rs);
    assert(data_run_readable(c, v, bpc));
    assert(forall|jj: int| 0 <= jj < rs.len() ==> run_readable(c, #[trigger] rs[jj], bpc));
}

pub(crate) fn append_bytes(dst: &mut Vec<u8>, src: &[u8])
    ensures
        final(dst)@ == old(dst)@ + src@,
{
    let mut i: usize = 0;
    while i < src.len()
        invariant
            i <= src@.len(),
            dst@ == old(dst)@ + src@.subrange(0, i as int),
        decreases src@.len() - i,
    {
        dst.push(src[i]);
        i = i + 1;
        assert(dst@ =~= old(dst)@ + src@.subrange(0, i as int));
    }
    assert(src@.subrange(0, i as int) =~= src@);
}

impl<D: BlockDevice> NtfsDriver<D> {
    /// Following `comps[i..]` from record `cur`: each step looks the next
    /// name up in the current directory's index and opens the child.
    pub open spec fn walk(&self, comps: Seq<Seq<char>>, i: nat, cur: u64) -> Result<u64, NtfsError>
        decreases comps.len() - i,
    {
        if i >= comps.len() {
            Ok(cur)
        } else {
            match self.stat_of(cur) {
                Err(e) => Err(e),
                Ok(st) => match child_of(st, comps[i as int]) {
                    Err(e) => Err(e),
                    Ok(c) => match self.record(c) {
                        Err(e) => Err(e),
                        Ok(_) => self.walk(comps, i + 1, c),
                    },
                },
            }
        }
    }

    /// Every record the walk reaches can be addressed and parsed.
    pub open spec fn walk_ok(&self, comps: Seq<Seq<char>>, i: nat, cur: u64) -> bool
        decreases comps.len() - i,
    {
        i >= comps.len() || {
            &&& self.addressable(cur)
            &&& self.stat_ok(cur)
            &&& match self.stat_of(cur) {
                Ok(st) => match child_of(st, comps[i as int]) {
                    Ok(c) => self.addressable(c) && (self.record(c) is Ok ==> self.walk_ok(comps, i + 1, c)),
                    Err(_) => true,
                },
                Err(_) => true,
            }
        }
    }

    /// The record a path names: the root directory, then one directory
    /// lookup per non-empty component.
    pub open spec fn lookup(&self, path: Seq<char>) -> Result<u64, NtfsError> {
        match self.record(5) {
            Err(e) => Err(e),
            Ok(_) => self.walk(path_components(path), 0, 5),
        }
    }

    /// A handle to the file or directory at `path`.
    pub fn open(&mut self, path: &str) -> (r: Result<NtfsFile, NtfsError>)
        requires
            old(self).addressable(5),
            old(self).walk_ok(path_components(path@), 0, 5),
        ensures
            final(self).same_volume(old(self)),
            r matches Ok(f) ==> old(self).lookup(path@) == Ok::<u64, NtfsError>(f.number()),
            r matches Err(e) ==> e == NtfsError::IoError || old(self).lookup(path@) == Err::<u64, NtfsError>(e),
    {
        let ghost v0 = *self;
        let comps = split_path(path);
        let ghost cs = path_components(path@);
        let mut current = match self.root_directory() {
            Ok(f) => f,
            Err(e) => return Err(e),
        };
        let mut i: usize = 0;
        while i < comps.len()
            invariant
                i <= comps@.len(),
                strings_view(comps@) == cs,
                cs == path_components(path@),
                self.same_volume(&v0),
                v0 == *old(self),
                v0.record(5) is Ok,
                v0.walk(cs, i as nat, current.number()) == v0.lookup(path@),
                v0.walk_ok(cs, i as nat, current.number()),
            decreases comps@.len() - i,
        {
            let ghost cur = current.number();
            assert(cs[i as int] == comps@[i as int]@);
            let stat = match self.stat(&current) {
                Ok(st) => st,
                Err(e) => return Err(e),
            };
            if !stat.is_directory {
                return Err(NtfsError::NotADirectory);
            }
            let child = match &stat.index_root {
                Some(ix) => match find_in_directory_with_index(ix.as_slice(), comps[i].as_str()) {
                    Ok(c) => c,
                    Err(e) => return Err(e),
                },
                None => return Err(NtfsError::NotADirectory),
            };
            current = match self.open_file(child) {
                Ok(f) => f,
                Err(e) => return Err(e),
            };
            i = i + 1;
        }
        Ok(current)
    }

    /// The entire content of a file.
    pub fn read_file_all(&mut self, file: &NtfsFile) -> (r: Result<Vec<u8>, NtfsError>)
        requires
            old(self).addressable(file.number()),
            old(self).stat_ok(file.number()),
            old(self).stat_of(file.number()) matches Ok(st)
                ==> runs_readable(old(self).dev().contents(), st.data_runs, old(self).cluster_size()),
        ensures
            final(self).same_volume(old(self)),
            r matches Ok(v) ==> old(self).stat_of(file.number()) matches Ok(st) && !st.is_directory
                && v@ == file_content(old(self).dev().contents(), st.data_runs, old(self).cluster_size()),
            r matches Err(e) ==> e == NtfsError::IoError
                || old(self).stat_of(file.number()) == Err::<StatView, NtfsError>(e)
                || (old(self).stat_of(file.number()) matches Ok(st) && st.is_directory && e == NtfsError::NotAFile),
    {
        let ghost v0 = *self;
        let ghost c = self.device.contents();
        let bpc = self.boot.bytes_per_cluster();
        let stat = match self.stat(file) {
            Ok(st) => st,
            Err(e) => return Err(e),
        };
        if stat.is_directory {
            return Err(NtfsError::NotAFile);
        }
        read_all(&mut self.device, stat.data_runs.as_slice(), &self.boot)
    }

    /// Read up to `buf.len()` bytes of a file into `buf`; returns the count.
    pub fn read_file(&mut self, file: &NtfsFile, buf: &mut [u8]) -> (r: Result<usize, NtfsError>)
        requires
            old(self).addressable(file.number()),
            old(self).stat_ok(file.number()),
            old(self).stat_of(file.number()) matches Ok(st)
                ==> runs_readable(old(self).dev().contents(), st.data_runs, old(self).cluster_size()),
        ensures
            final(self).same_volume(old(self)),
            final(buf)@.len() == old(buf)@.len(),
            r matches Ok(n) ==> old(self).stat_of(file.number()) matches Ok(st) && !st.is_directory && {
                let data = file_content(old(self).dev().contents(), st.data_runs, old(self).cluster_size());
                &&& n == if old(buf)@.len() < data.len() { old(buf)@.len() as int } else { data.len() as int }
                &&& final(buf)@ == data.subrange(0, n as int) + old(buf)@.subrange(n as int, old(buf)@.len() as int)
            },
            r is Err ==> final(buf)@ == old(buf)@,
            r matches Err(e) ==> e == NtfsError::IoError
                || old(self).stat_of(file.number()) == Err::<StatView, NtfsError>(e)
                || (old(self).stat_of(file.number()) matches Ok(st) && st.is_directory && e == NtfsError::NotAFile),
    {
        let data = match self.read_file_all(file) {
            Ok(d) => d,
            Err(e) => return Err(e),
        };
        Ok(fill_from(data.as_slice(), buf))
    }

    /// Names of all entries in a directory's index.
    pub fn list_directory(&mut self, dir: &NtfsFile) -> (r: Result<Vec<String>, NtfsError>)
        requires
            old(self).addressable(dir.number()),
            old(self).stat_ok(dir.number()),
        ensures
            final(self).same_volume(old(self)),
            r matches Ok(v) ==> old(self).stat_of(dir.number()) matches Ok(st)
                && st.index_root matches Some(ix) && names_view(v@) == index_names(ix),
            r matches Err(e) ==> e == NtfsError::IoError
                || old(self).stat_of(dir.number()) == Err::<StatView, NtfsError>(e)
                || (old(self).stat_of(dir.number()) matches Ok(st) && st.index_root is None && e == NtfsError::NotADirectory),
    {
        let stat = match self.stat(dir) {
            Ok(st) => st,
            Err(e) => return Err(e),
        };
        list_from_stat(&stat)
    }

    /// Find an entry of a directory by name, returning its MFT record number.
    pub fn find_in_directory(&mut self, dir: &NtfsFile, name: &str) -> (r: Result<u64, NtfsError>)
        requires
            old(self).addressable(dir.number()),
            old(self).stat_ok(dir.number()),
        ensures
            final(self).same_volume(old(self)),
            r matches Ok(n) ==> old(self).stat_of(dir.number()) matches Ok(st)
                && st.index_root matches Some(ix) && index_find(ix, name@) == Some(n),
            r matches Err(e) ==> e == NtfsError::IoError
                || old(self).stat_of(dir.number()) == Err::<StatView, NtfsError>(e)
                || (old(self).stat_of(dir.number()) matches Ok(st) && st.index_root is None && e == NtfsError::NotADirectory)
                || (old(self).stat_of(dir.number()) matches Ok(st)
                    && st.index_root matches Some(ix) && index_find(ix, name@) is None && e == NtfsError::FileNotFound),
    {
        let stat = match self.stat(dir) {
            Ok(st) => st,
            Err(e) => return Err(e),
        };
        find_in_stat(&stat, name)
    }
}


/// The signature of a record marked bad: `"BAAD"`.
pub open spec fn bad_signature() -> Seq<u8> {
    seq![0x42u8, 0x41u8, 0x41u8, 0x44u8]
}

/// An MFT slot that holds no record: neither `FILE` nor `BAAD`.
pub open spec fn slot_free(raw: Seq<u8>) -> bool {
    raw.subrange(0, 4) != file_signature() && raw.subrange(0, 4) != bad_signature()
}

/// The offset of a record's first `$DATA` attribute, when the walk finds one.
pub open spec fn data_attr_offset(rec: Seq<u8>) -> Option<int> {
    find_attr_from(rec, first_attr_offset(rec), 0x80)
}

/// The record with `data` written over the value of its first `$DATA`
/// attribute.
pub open spec fn with_data(rec: Seq<u8>, data: Seq<u8>) -> Seq<u8> {
    let off = data_attr_offset(rec).unwrap();
    splice(rec, off + value_offset(rec, off), data)
}

/// The metadata says the file's first data run is resident and as long as
/// `n` bytes.
pub open spec fn first_run_resident_of_len(st: StatView, n: int) -> bool {
    &&& st.data_runs.len() > 0
    &&& st.data_runs[0] matches RunView::Resident(d) && d.len() == n
}

/// A record whose data can be overwritten with `n` bytes without running out
/// of bounds: a header, a value that lies in the record when its length
/// matches, and fixups that can be stamped afterwards.
pub open spec fn overwrite_ok(rec: Seq<u8>, data: Seq<u8>) -> bool {
    &&& rec.len() >= 22
    &&& data_attr_offset(rec) matches Some(off) ==> {
        &&& update_resident_data_ok(rec, off, data.len() as int)
        &&& data.len() == value_length(rec, off) ==> stamp_fixups_ok(with_data(rec, data))
    }
}

impl<D: BlockDevice> NtfsDriver<D> {
    /// Slot `n` is passed over when a free one is sought: it holds a record
    /// (it starts with `FILE` or `BAAD`), or reading it may fail.
    pub open spec fn slot_passed_over(&self, n: u64) -> bool {
        ||| self.dev().read_may_fail(self.record_offset(n), self.record_size() as int)
        ||| (self.record_on_device(n) && !slot_free(self.raw_record(n)))
    }

    /// Find a free MFT slot among records 16 to 999 (the first 16 are the
    /// system files): the first one, skipping slots that cannot be read.
    fn allocate_mft_record(&mut self) -> (r: Result<u64, NtfsError>)
        requires
            forall|n: u64| 16 <= n < 1000 ==> old(self).addressable(n),
        ensures
            final(self).same_volume(old(self)),
            r matches Ok(n) ==> 16 <= n < 1000 && old(self).record_on_device(n) && slot_free(old(self).raw_record(n)),
            r matches Ok(n) ==> forall|k: u64| 16 <= k < n ==> #[trigger] old(self).slot_passed_over(k),
            r matches Err(e) ==> e == NtfsError::IoError && forall|k: u64| 16 <= k < 1000 ==> #[trigger] old(self).slot_passed_over(k),
    {
        let ghost v0 = *self;
        let rs = self.mft_record_size;
        let mut num: u64 = 16;
        while num < 1000
            invariant
                16 <= num <= 1000,
                rs == v0.record_size(),
                v0 == *old(self),
                self.same_volume(&v0),
                forall|n: u64| 16 <= n < 1000 ==> v0.addressable(n),
                forall|o: int, l: int| #[trigger] self.dev().read_may_fail(o, l) == v0.dev().read_may_fail(o, l),
                forall|k: u64| 16 <= k < num ==> #[trigger] v0.slot_passed_over(k),
            decreases 1000 - num,
        {
            assert(v0.addressable(num));
            let offset = self.boot.mft_byte_offset() + num * (rs as u64);
            let mut buf: Vec<u8> = vec![0u8; rs];
            let ghost d0 = self.device;
            let read = self.device.read_at(offset, buf.as_mut_slice());
            proof {
                if read is Err {
                    assert(d0.read_may_fail(offset as int, rs as int));
                    assert(v0.dev().read_may_fail(v0.record_offset(num), v0.record_size() as int));
                }
            }
            match read {
                Ok(()) => {
                    assert(buf@ == v0.raw_record(num));
                    let is_file = buf[0] == 0x46 && buf[1] == 0x49 && buf[2] == 0x4C && buf[3] == 0x45;
                    let is_bad = buf[0] == 0x42 && buf[1] == 0x41 && buf[2] == 0x41 && buf[3] == 0x44;
                    if !is_file && !is_bad {
                        proof {
                            if buf@.subrange(0, 4) == file_signature() || buf@.subrange(0, 4) == bad_signature() {
                                assert(buf@.subrange(0, 4)[0] == buf@[0]);
                                assert(buf@.subrange(0, 4)[1] == buf@[1]);
                                assert(buf@.subrange(0, 4)[2] == buf@[2]);
                                assert(buf@.subrange(0, 4)[3] == buf@[3]);
                            }
                        }
                        return Ok(num);
                    }
                    proof {
                        if is_file {
                            assert(buf@.subrange(0, 4) =~= file_signature());
                        } else {
                            assert(buf@.subrange(0, 4) =~= bad_signature());
                        }
                        assert(v0.slot_passed_over(num));
                    }
                },
                Err(_) => {},
            }
            num = num + 1;
        }
        Err(NtfsError::IoError)
    }

    /// Overwrite the content of a resident file in place. The first data
    /// run must be resident and exactly as long as `data` (no resizing);
    /// otherwise `InvalidAttribute`. The record is rewritten with its
    /// sequence number stamped on every sector end.
    pub fn write_file(&mut self, file: &NtfsFile, data: &[u8]) -> (r: Result<(), NtfsError>)
        requires
            old(self).addressable(file.number()),
            old(self).stat_ok(file.number()),
            old(self).record(file.number()) matches Ok(rec) ==> overwrite_ok(rec, data@),
        ensures
            final(self).boot_sector() == old(self).boot_sector(),
            final(self).record_size() == old(self).record_size(),
            final(self).dev().contents().len() == old(self).dev().contents().len(),
            r is Ok ==> ({
                &&& (old(self).stat_of(file.number()) matches Ok(st) && first_run_resident_of_len(st, data@.len() as int))
                &&& (old(self).record(file.number()) matches Ok(rec) && data_attr_offset(rec) is Some
                    && data@.len() == value_length(rec, data_attr_offset(rec).unwrap())
                    && final(self).dev().contents() == splice(old(self).dev().contents(),
                        old(self).record_offset(file.number()), reapply_fixups_spec(with_data(rec, data@))))
            }),
            r matches Err(e) ==> e == NtfsError::IoError || e == NtfsError::InvalidAttribute
                || old(self).stat_of(file.number()) == Err::<StatView, NtfsError>(e),
            r matches Err(e) && e != NtfsError::IoError ==> final(self).same_volume(old(self)),
            r == Err::<(), NtfsError>(NtfsError::InvalidAttribute) ==> {
                ||| old(self).stat_of(file.number()) == Err::<StatView, NtfsError>(NtfsError::InvalidAttribute)
                ||| (old(self).stat_of(file.number()) matches Ok(st) && !first_run_resident_of_len(st, data@.len() as int))
                ||| (old(self).record(file.number()) matches Ok(rec) && (data_attr_offset(rec) is None
                    || data@.len() != value_length(rec, data_attr_offset(rec).unwrap())))
            },
    {
        let ghost v0 = *self;
        let n = file.record_number;
        let stat = match self.stat(file) {
            Ok(st) => st,
            Err(e) => return Err(e),
        };
        if stat.data_runs.len() == 0 {
            return Err(NtfsError::InvalidAttribute);
        }
        match &stat.data_runs[0] {
            DataRun::Resident { data: existing } => {
                if data.len() != existing.len() {
                    return Err(NtfsError::InvalidAttribute);
                }
            },
            DataRun::NonResident(_) => {
                return Err(NtfsError::InvalidAttribute);
            },
        }
        assert(stat@.data_runs[0] == stat.data_runs@[0]@);
        let mut record = match self.read_mft_record(n) {
            Ok(rec) => rec,
            Err(e) => return Err(e),
        };
        let ghost rec0 = record@;
        let off = match find_attribute_offset(record.as_slice(), 0x80) {
            Ok(o) => o,
            Err(e) => return Err(e),
        };
        match update_resident_data(record.as_mut_slice(), off, data) {
            Ok(()) => {},
            Err(e) => return Err(e),
        }
        assert(record@ == with_data(rec0, data@));
        match reapply_fixups(record.as_mut_slice()) {
            Ok(()) => {},
            Err(e) => return Err(e),
        }
        let mft_offset = self.boot.mft_byte_offset() + n * (self.mft_record_size as u64);
        match self.device.write_at(mft_offset, record.as_slice()) {
            Ok(()) => Ok(()),
            Err(_) => Err(NtfsError::IoError),
        }
    }
}


impl<D: BlockDevice> NtfsDriver<D> {
    /// What creating `name` in `parent` needs: the parent can be read and
    /// parsed, every candidate slot addressed, and the new record holds all
    /// it is given.
    pub open spec fn create_ok(&self, parent: u64, name: Seq<char>, is_dir: bool, data_len: int) -> bool {
        &&& self.addressable(parent)
        &&& self.stat_ok(parent)
        &&& forall|n: u64| 16 <= n < 1000 ==> self.addressable(n)
        &&& new_record_fits(self.record_size() as int, utf16_units(name).len() as int, is_dir, data_len)
    }

    /// The device after a new record was written to slot `n`: `name` under
    /// `parent`, stamped as `create_mft_record` builds it.
    pub open spec fn created_in(&self, before: Seq<u8>, n: u64, name: Seq<char>, parent: u64, is_dir: bool, data: Seq<u8>) -> bool {
        exists|img: Seq<u8>| {
            &&& new_record_image(img, self.record_size() as int, n, utf16_units(name), parent, is_dir, data,
                self.record_size() as u32, self.boot_sector().clusters_per_index_buffer)
            &&& self.dev().contents() == splice(before, self.record_offset(n), #[trigger] stamped(img, (n % 0x10000) as u16))
        }
    }

    /// Check the parent, pick a free slot, build the record and write it;
    /// returns the new record number.
    fn create_record_in(&mut self, parent: &NtfsFile, name: &str, options: &CreateOptions) -> (r: Result<u64, NtfsError>)
        requires
            old(self).create_ok(parent.number(), name@, options.is_directory, options.data@.len() as int),
        ensures
            final(self).boot_sector() == old(self).boot_sector(),
            final(self).record_size() == old(self).record_size(),
            final(self).dev().contents().len() == old(self).dev().contents().len(),
            r matches Ok(n) ==> {
                &&& 16 <= n < 1000
                &&& old(self).stat_of(parent.number()) matches Ok(st) && st.is_directory
                &&& slot_free(old(self).raw_record(n))
                &&& old(self).record_on_device(n)
                &&& old(self).record_on_device(parent.number())
                &&& final(self).created_in(old(self).dev().contents(), n, name@, parent.number(), options.is_directory, options.data@)
                &&& forall|k: u64| 16 <= k < n ==> #[trigger] old(self).slot_passed_over(k)
            },
            r matches Err(e) ==> e == NtfsError::IoError || e == NtfsError::InvalidAttribute
                || old(self).stat_of(parent.number()) == Err::<StatView, NtfsError>(e)
                || (old(self).stat_of(parent.number()) matches Ok(st) && !st.is_directory && e == NtfsError::NotADirectory)
                || (old(self).stat_of(parent.number()) matches Ok(st) && st.index_root matches Some(ix)
                    && index_find(ix, name@) is Some && e == NtfsError::FileNotFound),
            r matches Err(e) && e != NtfsError::IoError ==> final(self).same_volume(old(self)),
            r == Err::<u64, NtfsError>(NtfsError::InvalidAttribute) ==> old(self).stat_of(parent.number()) == Err::<StatView, NtfsError>(NtfsError::InvalidAttribute)
                || (!options.is_directory && options.data@.len() > 700),
            r matches Err(e) && (e == NtfsError::NotADirectory || e == NtfsError::FileNotFound || e == NtfsError::InvalidAttribute)
                ==> final(self).same_volume(old(self)),
    {
        let ghost v0 = *self;
        match self.is_directory(parent) {
            Ok(true) => {},
            Ok(false) => return Err(NtfsError::NotADirectory),
            Err(e) => return Err(e),
        }
        if self.find_in_directory(parent, name).is_ok() {
            return Err(NtfsError::FileNotFound);
        }
        assert forall|n: u64| 16 <= n < 1000 implies self.addressable(n) by {
            assert(v0.addressable(n));
        }
        let ghost v_alloc = *self;
        let num = match self.allocate_mft_record() {
            Ok(n) => n,
            Err(e) => return Err(e),
        };
        assert forall|k: u64| 16 <= k < num implies #[trigger] v0.slot_passed_over(k) by {
            assert(v_alloc.slot_passed_over(k));
        }
        let record = match create_mft_record(self.mft_record_size, self.boot.clusters_per_index_buffer, num, name,
            parent.record_number, options.is_directory, options.data.as_slice()) {
            Ok(rec) => rec,
            Err(e) => return Err(e),
        };
        assert(v0.addressable(num));
        let mft_offset = self.boot.mft_byte_offset() + num * (self.mft_record_size as u64);
        let ghost c1 = self.device.contents();
        match self.device.write_at(mft_offset, record.as_slice()) {
            Ok(()) => {},
            Err(_) => return Err(NtfsError::IoError),
        }
        proof {
            let img = choose|img: Seq<u8>| {
                &&& new_record_image(img, v0.record_size() as int, num, utf16_units(name@), parent.number(), options.is_directory,
                    options.data@, v0.record_size() as u32, v0.boot_sector().clusters_per_index_buffer)
                &&& #[trigger] stamped(img, (num % 0x10000) as u16) == record@
            };
            assert(self.dev().contents() == splice(v0.dev().contents(), self.record_offset(num), stamped(img, (num % 0x10000) as u16)));
        }
        Ok(num)
    }

    /// Create a new file or directory inside `parent` and return a handle
    /// to it. An existing entry of that name is refused with `FileNotFound`;
    /// a parent that is not a directory with `NotADirectory`.
    pub fn create_file(&mut self, parent: &NtfsFile, name: &str, options: CreateOptions) -> (r: Result<NtfsFile, NtfsError>)
        requires
            old(self).create_ok(parent.number(), name@, options.is_directory, options.data@.len() as int),
        ensures
            final(self).boot_sector() == old(self).boot_sector(),
            final(self).record_size() == old(self).record_size(),
            final(self).dev().contents().len() == old(self).dev().contents().len(),
            r matches Ok(f) ==> {
                &&& 16 <= f.number() < 1000
                &&& old(self).stat_of(parent.number()) matches Ok(st) && st.is_directory
                &&& slot_free(old(self).raw_record(f.number()))
                &&& forall|k: u64| 16 <= k < f.number() ==> #[trigger] old(self).slot_passed_over(k)
                &&& final(self).created_in(old(self).dev().contents(), f.number(), name@, parent.number(),
                    options.is_directory, options.data@)
            },
            r matches Err(e) ==> e == NtfsError::IoError || e == NtfsError::InvalidAttribute
                || (e == NtfsError::CorruptedFilesystem && old(self).record_size() < 1024)
                || old(self).stat_of(parent.number()) == Err::<StatView, NtfsError>(e)
                || (old(self).stat_of(parent.number()) matches Ok(st) && !st.is_directory && e == NtfsError::NotADirectory)
                || (old(self).stat_of(parent.number()) matches Ok(st) && st.index_root matches Some(ix)
                    && index_find(ix, name@) is Some && e == NtfsError::FileNotFound),
            r == Err::<NtfsFile, NtfsError>(NtfsError::InvalidAttribute) ==> old(self).stat_of(parent.number()) == Err::<StatView, NtfsError>(NtfsError::InvalidAttribute)
                || (!options.is_directory && options.data@.len() > 700),
            r matches Err(e) && (e == NtfsError::NotADirectory || e == NtfsError::FileNotFound || e == NtfsError::InvalidAttribute)
                ==> final(self).same_volume(old(self)),
    {
        let ghost v0 = *self;
        let num = match self.create_record_in(parent, name, &options) {
            Ok(n) => n,
            Err(e) => return Err(e),
        };
        let ghost v1 = *self;
        assert(v0.addressable(num));
        proof {
            v1.lemma_new_slot(&v0, num, parent.number(), name@, options.is_directory, options.data@);
            lemma_created_record_parses(v1, num, name@, parent.number(), options.is_directory, options.data@);
            lemma_record_errors(self.raw_record(num));
        }
        match self.open_file(num) {
            Ok(f) => {
                proof {
                    assert(self.same_volume(&v1));
                }
                Ok(f)
            },
            Err(e) => Err(e),
        }
    }
}


/// The offset of the index header inside a record's `$INDEX_ROOT`
/// attribute: after the 24-byte attribute header and the 16-byte root.
pub open spec fn index_header_offset(rec: Seq<u8>) -> int {
    find_attr_from(rec, first_attr_offset(rec), 0x90).unwrap() + 40
}

/// The record has an `$INDEX_ROOT` whose index has room for an entry of
/// `n` name units after its entries.
pub open spec fn has_room(rec: Seq<u8>, n: int) -> bool {
    &&& find_attr_from(rec, first_attr_offset(rec), 0x90) is Some
    &&& le32(rec, index_header_offset(rec) + 4) + index_entry_len(n) <= le32(rec, index_header_offset(rec) + 8)
}

/// A directory record an entry of `n` name units can be inserted into
/// without running out of bounds: the index header lies in the record, and
/// when there is room the shifted last entry does too; fixups can be stamped.
pub open spec fn insert_ok(rec: Seq<u8>, n: int) -> bool {
    &&& rec.len() >= 22
    &&& stamp_fixups_ok(rec)
    &&& find_attr_from(rec, first_attr_offset(rec), 0x90) is Some ==> {
        let ih = index_header_offset(rec);
        &&& ih + 12 <= rec.len()
        &&& le32(rec, ih + 4) + index_entry_len(n) <= le32(rec, ih + 8) ==> {
            &&& le32(rec, ih + 4) >= 16
            &&& ih + le32(rec, ih + 4) + index_entry_len(n) <= rec.len()
        }
    }
}

proof fn lemma_stamp_ok_frame(a: Seq<u8>, b: Seq<u8>)
    requires
        stamp_fixups_ok(a),
        a.len() == b.len(),
        forall|i: int| 0 <= i < 8 ==> #[trigger] b[i] == a[i],
    ensures
        stamp_fixups_ok(b),
{
    assert(b[4] == a[4] && b[5] == a[5] && b[6] == a[6] && b[7] == a[7]);
}

impl<D: BlockDevice> NtfsDriver<D> {
    /// Insert an index entry for `child_record` named `name` before the last
    /// entry of the parent's `$INDEX_ROOT`, and write the parent back. An
    /// index without room is refused with `InvalidAttribute`.
    pub(crate) fn insert_directory_entry(&mut self, parent: &NtfsFile, child_record: u64, name: &str) -> (r: Result<(), NtfsError>)
        requires
            old(self).addressable(parent.number()),
            index_entry_len(utf16_units(name@).len() as int) <= usize::MAX,
            old(self).record(parent.number()) matches Ok(rec) ==> insert_ok(rec, utf16_units(name@).len() as int),
        ensures
            final(self).boot_sector() == old(self).boot_sector(),
            final(self).record_size() == old(self).record_size(),
            final(self).dev().contents().len() == old(self).dev().contents().len(),
            unchanged_outside(final(self).dev().contents(), old(self).dev().contents(),
                old(self).record_offset(parent.number()), old(self).record_offset(parent.number()) + old(self).record_size()),
            r is Ok ==> (old(self).record(parent.number()) matches Ok(rec) && exists|n: Seq<u8>| {
                &&& entry_inserted(n, rec, index_header_offset(rec), child_record, parent.number(), utf16_units(name@))
                &&& final(self).dev().contents() == splice(old(self).dev().contents(), old(self).record_offset(parent.number()),
                    #[trigger] reapply_fixups_spec(n))
            }),
            r matches Err(e) ==> e == NtfsError::IoError || e == NtfsError::InvalidAttribute
                || old(self).record(parent.number()) == Err::<Seq<u8>, NtfsError>(e),
            r matches Err(e) && e != NtfsError::IoError ==> final(self).same_volume(old(self)),
            r is Ok ==> (old(self).record(parent.number()) matches Ok(rec) && has_room(rec, utf16_units(name@).len() as int)),
            r == Err::<(), NtfsError>(NtfsError::InvalidAttribute) ==> (old(self).record(parent.number()) matches Ok(rec)
                && !has_room(rec, utf16_units(name@).len() as int)),
    {
        let ghost v0 = *self;
        let mut record = match self.read_mft_record(parent.record_number) {
            Ok(rec) => rec,
            Err(e) => {
                proof { lemma_record_errors(v0.raw_record(parent.number())); }
                return Err(e);
            },
        };
        let ghost rec0 = record@;
        let _len = record.len();
        let index_offset = match find_attribute_offset(record.as_slice(), 0x90) {
            Ok(o) => o,
            Err(e) => return Err(e),
        };
        let ih = index_offset + 40;
        let _first_entry_off = read_u32_le(record.as_slice(), ih);
        let total = read_u32_le(record.as_slice(), ih + 4) as usize;
        let alloc_size = read_u32_le(record.as_slice(), ih + 8) as usize;
        let units = encode_utf16(name);
        let entry_len = 82 + units.len() * 2;
        if entry_len > alloc_size || total > alloc_size - entry_len {
            return Err(NtfsError::InvalidAttribute);
        }
        insert_entry_bytes(record.as_mut_slice(), ih, child_record, parent.record_number, &units);
        let ghost inserted = record@;
        proof {
            assert forall|i: int| 0 <= i < 8 implies #[trigger] inserted[i] == rec0[i] by {}
            lemma_stamp_ok_frame(rec0, inserted);
        }
        match reapply_fixups(record.as_mut_slice()) {
            Ok(()) => {},
            Err(e) => return Err(e),
        }
        let mft_offset = self.boot.mft_byte_offset() + parent.record_number * (self.mft_record_size as u64);
        assert(record@.len() == v0.record_size());
        match self.device.write_at(mft_offset, record.as_slice()) {
            Ok(()) => {},
            Err(_) => return Err(NtfsError::IoError),
        }
        assert(self.dev().contents() == splice(v0.dev().contents(), v0.record_offset(parent.number()), reapply_fixups_spec(inserted)));
        Ok(())
    }
}


proof fn lemma_slots_apart(base: int, rs: int, p: int, n: int)
    requires
        rs >= 0,
        p != n,
        p >= 0,
        n >= 0,
    ensures
        base + p * rs + rs <= base + n * rs || base + n * rs + rs <= base + p * rs,
{
    if p < n {
        assert(p * rs + rs <= n * rs) by (nonlinear_arith)
            requires p < n, rs >= 0;
    } else {
        assert(n * rs + rs <= p * rs) by (nonlinear_arith)
            requires n < p, rs >= 0;
    }
}

proof fn lemma_splice_apart(c: Seq<u8>, at: int, b: Seq<u8>, lo: int, hi: int)
    requires
        0 <= at,
        at + b.len() <= c.len(),
        0 <= lo <= hi <= c.len(),
        hi <= at || at + b.len() <= lo,
    ensures
        splice(c, at, b).subrange(lo, hi) == c.subrange(lo, hi),
{
    assert(splice(c, at, b).subrange(lo, hi) =~= c.subrange(lo, hi));
}

impl<D: BlockDevice> NtfsDriver<D> {
    /// Slot `n` holds a record built for `name` under `parent`.
    pub open spec fn holds_new_record(&self, n: u64, name: Seq<char>, parent: u64, is_dir: bool, data: Seq<u8>) -> bool {
        exists|img: Seq<u8>| {
            &&& new_record_image(img, self.record_size() as int, n, utf16_units(name), parent, is_dir, data,
                self.record_size() as u32, self.boot_sector().clusters_per_index_buffer)
            &&& self.raw_record(n) == #[trigger] stamped(img, (n % 0x10000) as u16)
        }
    }

    /// After writing a new record into slot `n` of `before`, slot `n` holds
    /// it and the parent's slot is as it was.
    proof fn lemma_new_slot(&self, before: &Self, n: u64, parent: u64, name: Seq<char>, is_dir: bool, data: Seq<u8>)
        requires
            self.boot_sector() == before.boot_sector(),
            self.record_size() == before.record_size(),
            before.addressable(n),
            before.record_on_device(n),
            before.record_on_device(parent),
            slot_free(before.raw_record(n)),
            before.record(parent) is Ok ==> before.raw_record(parent).subrange(0, 4) == file_signature(),
            self.created_in(before.dev().contents(), n, name, parent, is_dir, data),
        ensures
            self.holds_new_record(n, name, parent, is_dir, data),
            before.record(parent) is Ok ==> self.raw_record(parent) == before.raw_record(parent),
            self.record_on_device(parent),
            self.record_on_device(n),
    {
        let img = choose|img: Seq<u8>| {
            &&& new_record_image(img, self.record_size() as int, n, utf16_units(name), parent, is_dir, data,
                self.record_size() as u32, self.boot_sector().clusters_per_index_buffer)
            &&& self.dev().contents() == splice(before.dev().contents(), self.record_offset(n), #[trigger] stamped(img, (n % 0x10000) as u16))
        };
        let st = stamped(img, (n % 0x10000) as u16);
        assert(self.raw_record(n) =~= st);
        if before.record(parent) is Ok {
            assert(parent != n);
            lemma_slots_apart(before.boot_sector().mft_offset(), before.record_size() as int, parent as int, n as int);
            lemma_splice_apart(before.dev().contents(), self.record_offset(n), st,
                before.record_offset(parent), before.record_offset(parent) + before.record_size());
        }
    }

    /// A write confined to the parent's slot leaves slot `n` as it was.
    proof fn lemma_slot_kept(&self, after: &Self, n: u64, parent: u64)
        requires
            after.boot_sector() == self.boot_sector(),
            after.record_size() == self.record_size(),
            n != parent,
            self.record_on_device(n),
            unchanged_outside(after.dev().contents(), self.dev().contents(),
                self.record_offset(parent), self.record_offset(parent) + self.record_size()),
        ensures
            after.raw_record(n) == self.raw_record(n),
    {
        lemma_slots_apart(self.boot_sector().mft_offset(), self.record_size() as int, parent as int, n as int);
        let lo = self.record_offset(n);
        assert forall|i: int| 0 <= i < self.record_size() implies
            #[trigger] after.dev().contents()[lo + i] == self.dev().contents()[lo + i] by {}
        assert(after.raw_record(n) =~= self.raw_record(n));
    }

    /// Create a record as `create_file` does, then insert an entry for it
    /// into the parent's index (whatever that insertion returns) and open it.
    #[verifier::spinoff_prover]
    #[verifier::rlimit(60)]
    pub(crate) fn create_and_link(&mut self, parent: &NtfsFile, name: &str, options: CreateOptions) -> (r: Result<NtfsFile, NtfsError>)
        requires
            old(self).create_ok(parent.number(), name@, options.is_directory, options.data@.len() as int),
            index_entry_len(utf16_units(name@).len() as int) <= usize::MAX,
            old(self).record(parent.number()) matches Ok(rec) ==> insert_ok(rec, utf16_units(name@).len() as int),
        ensures
            final(self).boot_sector() == old(self).boot_sector(),
            final(self).record_size() == old(self).record_size(),
            final(self).dev().contents().len() == old(self).dev().contents().len(),
            r matches Ok(f) ==> {
                &&& 16 <= f.number() < 1000
                &&& old(self).stat_of(parent.number()) matches Ok(st) && st.is_directory
                &&& slot_free(old(self).raw_record(f.number()))
                &&& forall|k: u64| 16 <= k < f.number() ==> #[trigger] old(self).slot_passed_over(k)
                &&& final(self).holds_new_record(f.number(), name@, parent.number(), options.is_directory, options.data@)
            },
            r matches Err(e) ==> e == NtfsError::IoError || e == NtfsError::InvalidAttribute
                || (e == NtfsError::CorruptedFilesystem && old(self).record_size() < 1024)
                || old(self).stat_of(parent.number()) == Err::<StatView, NtfsError>(e)
                || (old(self).stat_of(parent.number()) matches Ok(st) && !st.is_directory && e == NtfsError::NotADirectory)
                || (old(self).stat_of(parent.number()) matches Ok(st) && st.index_root matches Some(ix)
                    && index_find(ix, name@) is Some && e == NtfsError::FileNotFound),
            r == Err::<NtfsFile, NtfsError>(NtfsError::InvalidAttribute) ==> old(self).stat_of(parent.number()) == Err::<StatView, NtfsError>(NtfsError::InvalidAttribute)
                || (!options.is_directory && options.data@.len() > 700),
            r matches Err(e) && (e == NtfsError::NotADirectory || e == NtfsError::FileNotFound || e == NtfsError::InvalidAttribute)
                ==> final(self).same_volume(old(self)),
    {
        let ghost v0 = *self;
        let num = match self.create_record_in(parent, name, &options) {
            Ok(n) => n,
            Err(e) => return Err(e),
        };
        let ghost v1 = *self;
        let ghost rs = v0.record_size() as int;
        let ghost base = v0.boot_sector().mft_offset();
        proof {
            assert(v0.addressable(num));
            v1.lemma_new_slot(&v0, num, parent.number(), name@, options.is_directory, options.data@);
        }
        let _ = self.insert_directory_entry(parent, num, name);
        proof {
            v1.lemma_slot_kept(&*self, num, parent.number());
        }
        assert(v0.addressable(num));
        proof {
            lemma_created_record_parses(*self, num, name@, parent.number(), options.is_directory, options.data@);
        }
        match self.open_file(num) {
            Ok(f) => Ok(f),
            Err(e) => {
                proof { lemma_record_errors(self.raw_record(num)); }
                Err(e)
            },
        }
    }
}

} // verus!
