//! Formatting and inspecting GPT disks.

use vstd::prelude::*;
use crate::bytes::{le16, le32, le64, write_u16_le, write_u64_le};
use crate::gpt::{entries_bytes, entry_bytes, GptEntry, GptError, GptHeader};
use crate::gpt::read::{header_at, read_gpt, table_read};
use crate::gpt::write::{gpt_fits, gpt_written, lemma_gpt_write_then_read, write_gpt};
use crate::hal::block::BlockDevice;
use crate::ntfs::write::{encode_utf16, utf16_units};
use crate::text::push_char;
use crate::ntfs::boot::{is_ntfs_boot_sector, ntfs_oem_id, parsed_from, BootSector};

verus! {

/// EFI System Partition type GUID.
pub const ESP_GUID: [u8; 16] = [
    0x28, 0x73, 0x2A, 0xC1, 0x1F, 0xF8, 0xD2, 0x11,
    0xBA, 0x4B, 0x00, 0xA0, 0xC9, 0x3E, 0xC9, 0x3B,
];

/// Basic data (NTFS) partition type GUID.
pub const NTFS_GUID: [u8; 16] = [
    0xA2, 0xA0, 0xD0, 0xEB, 0xE5, 0xB9, 0x33, 0x44,
    0x87, 0xC0, 0x68, 0xB6, 0xB7, 0x26, 0x99, 0xC7,
];

/// Size of the ESP in sectors (512 MB at 512 bytes per sector).
pub const ESP_SIZE_SECTORS: u64 = 1_048_576;

/// The bytes of the ESP type GUID.
pub open spec fn esp_guid() -> Seq<u8> {
    seq![0x28u8, 0x73u8, 0x2Au8, 0xC1u8, 0x1Fu8, 0xF8u8, 0xD2u8, 0x11u8,
        0xBAu8, 0x4Bu8, 0x00u8, 0xA0u8, 0xC9u8, 0x3Eu8, 0xC9u8, 0x3Bu8]
}

/// The bytes of the basic data type GUID.
pub open spec fn ntfs_guid() -> Seq<u8> {
    seq![0xA2u8, 0xA0u8, 0xD0u8, 0xEBu8, 0xE5u8, 0xB9u8, 0x33u8, 0x44u8,
        0x87u8, 0xC0u8, 0x68u8, 0xB6u8, 0xB7u8, 0x26u8, 0x99u8, 0xC7u8]
}

/// What a partition is used for, by its type GUID.
#[derive(Debug, Clone, Copy, PartialEq, Eq, Structural)]
pub enum PartitionKind {
    Esp,
    Ntfs,
    Unknown,
}

/// Formats and inspects GPT disks.
pub struct GptManager;

/// A decoded partition table.
pub struct GptInfo {
    pub disk_guid: String,
    pub sector_size: usize,
    pub total_sectors: u64,
    pub first_usable_lba: u64,
    pub last_usable_lba: u64,
    pub partitions: Vec<PartitionInfo>,
}

/// One decoded partition.
pub struct PartitionInfo {
    pub kind: PartitionKind,
    pub type_guid: String,
    pub unique_guid: String,
    pub start_lba: u64,
    pub end_lba: u64,
    pub size_bytes: u64,
    pub attributes: u64,
    pub name: String,
}

/// The lowercase hexadecimal digit of a nibble.
pub open spec fn hex_digit(v: int) -> char {
    if v < 10 { (48 + v) as char } else { (87 + v) as char }
}

/// A byte as two lowercase hexadecimal digits.
pub open spec fn hex_byte(b: u8) -> Seq<char> {
    seq![hex_digit((b / 16) as int), hex_digit((b % 16) as int)]
}

/// The text of a GUID: its first three fields little-endian, the rest in
/// byte order, as `xxxxxxxx-xxxx-xxxx-xxxx-xxxxxxxxxxxx`.
pub open spec fn guid_text(g: Seq<u8>) -> Seq<char> {
    hex_byte(g[3]) + hex_byte(g[2]) + hex_byte(g[1]) + hex_byte(g[0]) + seq!['-']
        + hex_byte(g[5]) + hex_byte(g[4]) + seq!['-']
        + hex_byte(g[7]) + hex_byte(g[6]) + seq!['-']
        + hex_byte(g[8]) + hex_byte(g[9]) + seq!['-']
        + hex_byte(g[10]) + hex_byte(g[11]) + hex_byte(g[12]) + hex_byte(g[13]) + hex_byte(g[14]) + hex_byte(g[15])
}

fn hex_char(v: u8) -> (c: char)
    requires
        v < 16,
    ensures
        c == hex_digit(v as int),
{
    if v < 10 { (48 + v) as char } else { (87 + v) as char }
}

fn push_hex(s: &mut String, b: u8)
    ensures
        final(s)@ == old(s)@ + hex_byte(b),
{
    let hi = hex_char(b / 16);
    let lo = hex_char(b % 16);
    push_char(s, hi);
    push_char(s, lo);
    assert(final(s)@ =~= old(s)@ + hex_byte(b));
}

/// Format a GUID in its canonical text form.
pub fn format_guid(guid: &[u8; 16]) -> (r: String)
    ensures
        r@ == guid_text(guid@),
{
    let mut s = String::new();
    push_hex(&mut s, guid[3]);
    push_hex(&mut s, guid[2]);
    push_hex(&mut s, guid[1]);
    push_hex(&mut s, guid[0]);
    push_char(&mut s, '-');
    push_hex(&mut s, guid[5]);
    push_hex(&mut s, guid[4]);
    push_char(&mut s, '-');
    push_hex(&mut s, guid[7]);
    push_hex(&mut s, guid[6]);
    push_char(&mut s, '-');
    push_hex(&mut s, guid[8]);
    push_hex(&mut s, guid[9]);
    push_char(&mut s, '-');
    push_hex(&mut s, guid[10]);
    push_hex(&mut s, guid[11]);
    push_hex(&mut s, guid[12]);
    push_hex(&mut s, guid[13]);
    push_hex(&mut s, guid[14]);
    push_hex(&mut s, guid[15]);
    assert(s@ =~= guid_text(guid@));
    s
}

/// Whether every byte of a GUID is zero (an unused entry).
pub fn is_zero_guid(guid: &[u8; 16]) -> (r: bool)
    ensures
        r == (forall|i: int| 0 <= i < 16 ==> #[trigger] guid@[i] == 0u8),
{
    let mut i: usize = 0;
    while i < 16
        invariant
            i <= 16,
            forall|k: int| 0 <= k < i ==> #[trigger] guid@[k] == 0u8,
        decreases 16 - i,
    {
        if guid[i] != 0 {
            return false;
        }
        i = i + 1;
    }
    true
}

/// The 36 name units of a partition name: its first 36 UTF-16 units, the
/// rest zero.
pub open spec fn name_array(s: Seq<char>, i: int) -> u16 {
    if i < utf16_units(s).len() { utf16_units(s)[i] } else { 0 }
}

/// Encode a partition name into 36 UTF-16 units.
pub fn str_to_utf16le(s: &str) -> (r: [u16; 36])
    ensures
        forall|i: int| 0 <= i < 36 ==> #[trigger] r@[i] == name_array(s@, i),
{
    let units = encode_utf16(s);
    let mut name = [0u16; 36];
    let n = if units.len() < 36 { units.len() } else { 36 };
    let mut i: usize = 0;
    while i < n
        invariant
            i <= n,
            n <= 36,
            n <= units@.len(),
            n == if units@.len() < 36 { units@.len() as int } else { 36 },
            units@ == utf16_units(s@),
            name@.len() == 36,
            forall|k: int| 0 <= k < i ==> #[trigger] name@[k] == name_array(s@, k),
            forall|k: int| i <= k < 36 ==> #[trigger] name@[k] == 0,
        decreases n - i,
    {
        name[i] = units[i];
        i = i + 1;
    }
    name
}

/// Length of a stored name: units up to the first zero, at most 36.
pub open spec fn name_len(name: Seq<u16>, i: int) -> int
    decreases 36 - i,
{
    if i >= 36 || name[i] == 0 { i } else { name_len(name, i + 1) }
}

/// The ASCII characters of the first `n` units of a name; other units are
/// dropped.
pub open spec fn ascii_of(name: Seq<u16>, n: int) -> Seq<char>
    decreases n,
{
    if n <= 0 {
        Seq::empty()
    } else if name[n - 1] < 128 {
        ascii_of(name, n - 1).push((name[n - 1] as u8) as char)
    } else {
        ascii_of(name, n - 1)
    }
}

/// Decode a stored partition name: the units before the first zero, of
/// which only the ASCII ones are kept.
pub fn utf16le_to_str(name: &[u16; 36]) -> (r: String)
    ensures
        r@ == ascii_of(name@, name_len(name@, 0)),
{
    let mut len: usize = 0;
    while len < 36 && name[len] != 0
        invariant
            len <= 36,
            name@.len() == 36,
            name_len(name@, len as int) == name_len(name@, 0),
        decreases 36 - len,
    {
        len = len + 1;
    }
    let mut s = String::new();
    let mut i: usize = 0;
    while i < len
        invariant
            i <= len,
            len <= 36,
            name@.len() == 36,
            s@ == ascii_of(name@, i as int),
        decreases len - i,
    {
        let c = name[i];
        if c < 128 {
            push_char(&mut s, (c as u8) as char);
        }
        i = i + 1;
    }
    s
}


/// The layout `format_disk` chooses for a disk of `total` sectors: the ESP
/// at LBA 34 for 512 MB, then the NTFS partition for the requested size
/// (all the rest when the request is zero or too large).
pub open spec fn format_layout(total: u64, requested: u64) -> Option<(u64, u64, u64, u64)> {
    let last_usable = if total >= 34 { total - 34 } else { 0 };
    if total < 1_048_576 + 128 || last_usable - 34 < 1_048_576 + 1 {
        None
    } else {
        let ntfs_start = 34 + 1_048_576;
        let available = last_usable - ntfs_start;
        let size = if requested == 0 || requested > available { available } else { requested as int };
        Some((34u64, 1_048_576u64, ntfs_start as u64, size as u64))
    }
}

/// The entry `format_disk` writes for a partition.
pub open spec fn is_entry(e: GptEntry, type_guid: Seq<u8>, unique: Seq<u8>, start: u64, end: u64, name: Seq<char>) -> bool {
    &&& e.type_guid@ == type_guid
    &&& e.unique_guid@ == unique
    &&& e.start_lba == start
    &&& e.end_lba == end
    &&& e.attributes == 0
    &&& forall|i: int| 0 <= i < 36 ==> #[trigger] e.name@[i] == name_array(name, i)
}

/// A table entry at byte `off` passes `ok` for every entry of the header
/// stored at `pos`.
pub open spec fn entries_pass(bytes: Seq<u8>, pos: int, sector: int, ok: spec_fn(Seq<u8>) -> bool) -> bool {
    let raw = bytes.subrange(pos, pos + sector);
    let start = le64(raw, 72) * sector;
    forall|k: int| 0 <= k < le32(raw, 80) ==> #[trigger] ok(bytes.subrange(start + 128 * k, start + 128 * k + 128))
}

/// Either header a read can choose has only entries that pass `ok`.
pub open spec fn tables_pass<D: BlockDevice>(dev: &D, ok: spec_fn(Seq<u8>) -> bool) -> bool {
    let sector = dev.block_size_view() as int;
    &&& entries_pass(dev.bytes(), sector, sector, ok)
    &&& (dev.block_count_view() >= 1 ==> entries_pass(dev.bytes(), (dev.block_count_view() - 1) * sector, sector, ok))
}

/// An entry's byte size can be computed: unused, or its end LBA not before
/// its start and
/// its size in bytes within 64 bits.
pub open spec fn entry_size_ok(b: Seq<u8>, sector: int) -> bool {
    (forall|i: int| 0 <= i < 16 ==> #[trigger] b[i] == 0u8)
        || (le64(b, 32) <= le64(b, 40) < le64(b, 32) + u64::MAX && (le64(b, 40) - le64(b, 32) + 1) * sector <= u64::MAX)
}

/// An entry's byte offset can be computed when it has type `t`.
pub open spec fn entry_offset_ok(b: Seq<u8>, sector: int, t: Seq<u8>) -> bool {
    b.subrange(0, 16) == t ==> le64(b, 32) * sector <= u64::MAX
}

/// The check that an entry of type `t` has a computable byte offset.
pub open spec fn offset_ok_for(sector: int, t: Seq<u8>) -> spec_fn(Seq<u8>) -> bool {
    |b: Seq<u8>| entry_offset_ok(b, sector, t)
}

/// The check that an entry's byte size is computable.
pub open spec fn size_ok_for(sector: int) -> spec_fn(Seq<u8>) -> bool {
    |b: Seq<u8>| entry_size_ok(b, sector)
}

proof fn lemma_entry_pass<D: BlockDevice>(dev: &D, h: GptHeader, es: Seq<GptEntry>, ok: spec_fn(Seq<u8>) -> bool, k: int)
    requires
        tables_pass(dev, ok),
        table_read(dev, h, es),
        0 <= k < es.len(),
    ensures
        ok(dev.bytes().subrange(h.partition_entry_lba * (dev.block_size_view() as int) + 128 * k,
            h.partition_entry_lba * (dev.block_size_view() as int) + 128 * k + 128)),
        entry_bytes(dev.bytes().subrange(h.partition_entry_lba * (dev.block_size_view() as int) + 128 * k,
            h.partition_entry_lba * (dev.block_size_view() as int) + 128 * k + 128), es[k]),
{
    let sector = dev.block_size_view() as int;
    let start = h.partition_entry_lba * sector;
    let bytes = dev.bytes();
    let arr = bytes.subrange(start, start + 128 * es.len());
    assert(bytes.subrange(start + 128 * k, start + 128 * k + 128) =~= arr.subrange(128 * k, 128 * k + 128));
    assert(entry_bytes(arr.subrange(128 * k, 128 * k + 128), es[k]));
    if header_at(bytes, sector, sector, h) {
        assert(entries_pass(bytes, sector, sector, ok));
    } else {
        assert(entries_pass(bytes, (dev.block_count_view() - 1) * sector, sector, ok));
    }
}

/// A boot sector made for 512-byte sectors is one `BootSector::from_bytes`
/// accepts, and the fields it reads are the ones written: 512 bytes per
/// sector, 8 sectors per cluster, the sector count, the MFT at cluster 2
/// and the serial number.
pub proof fn lemma_made_boot_sector_accepted(b: Seq<u8>, total_sectors: u64)
    requires
        made_boot_sector(b, total_sectors, 512),
    ensures
        is_ntfs_boot_sector(b),
        forall|bs: BootSector| #[trigger] parsed_from(bs, b) ==> {
            &&& bs.bytes_per_sector == 512
            &&& bs.sectors_per_cluster == 8
            &&& bs.total_sectors == total_sectors
            &&& bs.mft_start_cluster == 2
            &&& bs.serial_number == 0x1234_5678_9ABC_DEF0u64
        },
{
    assert(b.subrange(3, 11) =~= ntfs_oem_id());
}

impl GptManager {
    /// Format a disk with a fresh GPT holding an EFI System Partition of
    /// 512 MB at LBA 34 and an NTFS partition after it; returns
    /// `(esp_start, esp_size, ntfs_start, ntfs_size)` in sectors. The
    /// partitions' unique GUIDs and the disk GUID are given.
    pub fn format_disk<D: BlockDevice>(dev: &mut D, ntfs_size_sectors: u64, esp_unique: &[u8; 16],
        ntfs_unique: &[u8; 16], disk_guid: &[u8; 16]) -> (r: Result<(u64, u64, u64, u64), GptError>)
        requires
            old(dev).block_size_view() >= 512,
            old(dev).block_size_view() + 16384 <= u64::MAX,
            old(dev).block_count_view() * old(dev).block_size_view() <= u64::MAX,
        ensures
            final(dev).bytes().len() == old(dev).bytes().len(),
            final(dev).block_size_view() == old(dev).block_size_view(),
            final(dev).block_count_view() == old(dev).block_count_view(),
            format_layout(old(dev).block_count_view(), ntfs_size_sectors) is None
                ==> r == Err::<(u64, u64, u64, u64), GptError>(GptError::NoSpace) && final(dev).bytes() == old(dev).bytes(),
            r matches Ok(t) ==> format_layout(old(dev).block_count_view(), ntfs_size_sectors) == Some(t)
                && exists|es: Seq<GptEntry>| {
                    &&& es.len() == 2
                    &&& is_entry(es[0], esp_guid(), esp_unique@, t.0, (t.0 + t.1 - 1) as u64, "EFI System"@)
                    &&& is_entry(es[1], ntfs_guid(), ntfs_unique@, t.2, (t.2 + t.3 - 1) as u64, "Userspace"@)
                    &&& #[trigger] gpt_written(final(dev).bytes(), old(dev).bytes(), es, disk_guid@,
                        old(dev).block_size_view() as int, (old(dev).block_count_view() - 1) as u64)
                },
            r matches Err(e) ==> e == GptError::NoSpace || e == GptError::IoError,
    {
        let total = dev.block_count();
        if total < ESP_SIZE_SECTORS + 128 {
            return Err(GptError::NoSpace);
        }
        let first_usable: u64 = 34;
        let last_usable = total.saturating_sub(33 + 1);
        let usable_total = last_usable - first_usable;
        if usable_total < ESP_SIZE_SECTORS + 1 {
            return Err(GptError::NoSpace);
        }
        let esp_start = first_usable;
        let esp_end = esp_start + ESP_SIZE_SECTORS - 1;
        let ntfs_start = esp_end + 1;
        let available = last_usable - ntfs_start;
        let ntfs_size = if ntfs_size_sectors == 0 || ntfs_size_sectors > available {
            available
        } else {
            ntfs_size_sectors
        };
        let ntfs_end = ntfs_start + ntfs_size - 1;
        let esp_entry = GptEntry {
            type_guid: ESP_GUID,
            unique_guid: *esp_unique,
            start_lba: esp_start,
            end_lba: esp_end,
            attributes: 0,
            name: str_to_utf16le("EFI System"),
        };
        let ntfs_entry = GptEntry {
            type_guid: NTFS_GUID,
            unique_guid: *ntfs_unique,
            start_lba: ntfs_start,
            end_lba: ntfs_end,
            attributes: 0,
            name: str_to_utf16le("Userspace"),
        };
        assert(esp_entry.type_guid@ =~= esp_guid());
        assert(ntfs_entry.type_guid@ =~= ntfs_guid());
        let entries: Vec<GptEntry> = vec![esp_entry, ntfs_entry];
        match write_gpt(dev, entries.as_slice(), disk_guid) {
            Ok(()) => {},
            Err(e) => return Err(e),
        }
        assert(is_entry(entries@[0], esp_guid(), esp_unique@, esp_start, esp_end, "EFI System"@));
        assert(is_entry(entries@[1], ntfs_guid(), ntfs_unique@, ntfs_start, ntfs_end, "Userspace"@));
        Ok((esp_start, ESP_SIZE_SECTORS, ntfs_start, ntfs_size))
    }

    /// Find the byte offset of the first partition of type `t`.
    fn find_offset_of<D: BlockDevice>(dev: &mut D, t: &[u8; 16]) -> (r: Result<u64, GptError>)
        requires
            tables_pass(&*old(dev), offset_ok_for(old(dev).block_size_view() as int, t@)),
        ensures
            final(dev).bytes() == old(dev).bytes(),
            final(dev).block_size_view() == old(dev).block_size_view(),
            final(dev).block_count_view() == old(dev).block_count_view(),
            r matches Ok(off) ==> exists|h: GptHeader, es: Seq<GptEntry>, k: int| #![trigger table_read(&*old(dev), h, es), es[k]] {
                &&& table_read(&*old(dev), h, es)
                &&& 0 <= k < es.len()
                &&& es[k].type_guid@ == t@
                &&& (forall|j: int| 0 <= j < k ==> (#[trigger] es[j]).type_guid@ != t@)
                &&& off == es[k].start_lba * (old(dev).block_size_view() as int)
            },
    {
        let ghost d0 = *dev;
        let (header, entries) = match read_gpt(dev) {
            Ok(v) => v,
            Err(e) => return Err(e),
        };
        let sector = dev.block_size() as u64;
        let mut k: usize = 0;
        while k < entries.len()
            invariant
                k <= entries@.len(),
                sector == d0.block_size_view(),
                dev.bytes() == d0.bytes(),
                dev.block_size_view() == d0.block_size_view(),
                dev.block_count_view() == d0.block_count_view(),
                table_read(&d0, header, entries@),
                tables_pass(&d0, offset_ok_for(d0.block_size_view() as int, t@)),
                d0 == *old(dev),
                forall|j: int| 0 <= j < k ==> (#[trigger] entries@[j]).type_guid@ != t@,
            decreases entries@.len() - k,
        {
            let e = &entries[k];
            let mut same = true;
            let mut i: usize = 0;
            while i < 16
                invariant
                    i <= 16,
                    same == (forall|m: int| 0 <= m < i ==> #[trigger] e.type_guid@[m] == t@[m]),
                decreases 16 - i,
            {
                if e.type_guid[i] != t[i] {
                    same = false;
                }
                i = i + 1;
            }
            if same {
                assert(e.type_guid@ =~= t@);
                proof {
                    lemma_entry_pass(&d0, header, entries@, offset_ok_for(d0.block_size_view() as int, t@), k as int);
                }
                return Ok(e.start_lba * sector);
            }
            assert(e.type_guid@ != t@);
            k = k + 1;
        }
        Err(GptError::NotFound)
    }
}


/// A partition by value.
pub struct PartitionView {
    pub kind: PartitionKind,
    pub type_guid: Seq<char>,
    pub unique_guid: Seq<char>,
    pub start_lba: u64,
    pub end_lba: u64,
    pub size_bytes: u64,
    pub attributes: u64,
    pub name: Seq<char>,
}

impl View for PartitionInfo {
    type V = PartitionView;

    open spec fn view(&self) -> PartitionView {
        PartitionView {
            kind: self.kind,
            type_guid: self.type_guid@,
            unique_guid: self.unique_guid@,
            start_lba: self.start_lba,
            end_lba: self.end_lba,
            size_bytes: self.size_bytes,
            attributes: self.attributes,
            name: self.name@,
        }
    }
}

/// The kind of a partition type GUID.
pub open spec fn kind_of(t: Seq<u8>) -> PartitionKind {
    if t == esp_guid() { PartitionKind::Esp } else if t == ntfs_guid() { PartitionKind::Ntfs } else { PartitionKind::Unknown }
}

/// Law of partition kinds: an entry is reported as an ESP exactly when its
/// type GUID is the ESP GUID, as NTFS exactly when it is the basic data
/// GUID, and as unknown for every other type GUID.
pub proof fn lemma_partition_kind_by_type(e: GptEntry, sector: int)
    ensures
        partition_of(e, sector).kind == PartitionKind::Esp <==> e.type_guid@ == esp_guid(),
        partition_of(e, sector).kind == PartitionKind::Ntfs <==> e.type_guid@ == ntfs_guid(),
        partition_of(e, sector).kind == PartitionKind::Unknown <==> (e.type_guid@ != esp_guid() && e.type_guid@ != ntfs_guid()),
{
    assert(esp_guid()[0] != ntfs_guid()[0]);
}

/// The decoded form of a used entry.
pub open spec fn partition_of(e: GptEntry, sector: int) -> PartitionView {
    PartitionView {
        kind: kind_of(e.type_guid@),
        type_guid: guid_text(e.type_guid@),
        unique_guid: guid_text(e.unique_guid@),
        start_lba: e.start_lba,
        end_lba: e.end_lba,
        size_bytes: ((e.end_lba - e.start_lba + 1) * sector) as u64,
        attributes: e.attributes,
        name: ascii_of(e.name@, name_len(e.name@, 0)),
    }
}

/// An entry whose type GUID is all zeros is unused.
pub open spec fn unused(e: GptEntry) -> bool {
    forall|i: int| 0 <= i < 16 ==> #[trigger] e.type_guid@[i] == 0u8
}

/// The used entries of a table, decoded, in table order.
pub open spec fn partitions_of(es: Seq<GptEntry>, sector: int) -> Seq<PartitionView>
    decreases es.len(),
{
    if es.len() == 0 {
        Seq::empty()
    } else if unused(es.last()) {
        partitions_of(es.drop_last(), sector)
    } else {
        partitions_of(es.drop_last(), sector).push(partition_of(es.last(), sector))
    }
}

proof fn lemma_size_ok(eb: Seq<u8>, e: GptEntry, sector: u64)
    requires
        entry_size_ok(eb, sector as int),
        entry_bytes(eb, e),
        !unused(e),
    ensures
        e.end_lba >= e.start_lba,
        e.end_lba - e.start_lba + 1 <= u64::MAX,
        (e.end_lba - e.start_lba + 1) * sector <= u64::MAX,
{
    if forall|i: int| 0 <= i < 16 ==> #[trigger] eb[i] == 0u8 {
        assert forall|i: int| 0 <= i < 16 implies #[trigger] e.type_guid@[i] == 0u8 by {
            assert(eb.subrange(0, 16)[i] == eb[i]);
        }
    }
}

fn guid_eq(a: &[u8; 16], b: &[u8; 16]) -> (r: bool)
    ensures
        r == (a@ == b@),
{
    let mut i: usize = 0;
    while i < 16
        invariant
            i <= 16,
            forall|k: int| 0 <= k < i ==> #[trigger] a@[k] == b@[k],
        decreases 16 - i,
    {
        if a[i] != b[i] {
            return false;
        }
        i = i + 1;
    }
    assert(a@ =~= b@);
    true
}

/// A `NTFS    ` boot sector made by `create_ntfs_boot_sector`: jump, OEM
/// identifier, sector size, 8 sectors per cluster, total sectors, `$MFT` at
/// cluster 2, a fixed serial number, and the boot signature.
pub open spec fn made_boot_sector(b: Seq<u8>, total_sectors: u64, sector_size: usize) -> bool {
    &&& b.len() == sector_size
    &&& b[0] == 0xEB && b[1] == 0x52 && b[2] == 0x90
    &&& b.subrange(3, 11) == seq![0x4Eu8, 0x54u8, 0x46u8, 0x53u8, 0x20u8, 0x20u8, 0x20u8, 0x20u8]
    &&& le16(b, 11) == sector_size as u16
    &&& b[13] == 8
    &&& le64(b, 40) == total_sectors
    &&& le64(b, 48) == 2
    &&& le64(b, 72) == 0x1234_5678_9ABC_DEF0u64
    &&& b[510] == 0x55 && b[511] == 0xAA
    &&& forall|i: int| 0 <= i < b.len() && !(0 <= i < 14) && !(40 <= i < 56) && !(72 <= i < 80) && i != 510 && i != 511
        ==> #[trigger] b[i] == 0u8
}

impl GptManager {
    /// The byte offset of the first EFI System Partition.
    pub fn find_esp_offset<D: BlockDevice>(dev: &mut D) -> (r: Result<u64, GptError>)
        requires
            tables_pass(&*old(dev), offset_ok_for(old(dev).block_size_view() as int, esp_guid())),
        ensures
            final(dev).bytes() == old(dev).bytes(),
            r matches Ok(off) ==> exists|h: GptHeader, es: Seq<GptEntry>, k: int| #![trigger table_read(&*old(dev), h, es), es[k]] {
                &&& table_read(&*old(dev), h, es)
                &&& 0 <= k < es.len()
                &&& es[k].type_guid@ == esp_guid()
                &&& (forall|j: int| 0 <= j < k ==> (#[trigger] es[j]).type_guid@ != esp_guid())
                &&& off == es[k].start_lba * (old(dev).block_size_view() as int)
            },
    {
        let t = ESP_GUID;
        assert(t@ =~= esp_guid());
        Self::find_offset_of(dev, &t)
    }

    /// The byte offset of the first NTFS partition.
    pub fn find_ntfs_offset<D: BlockDevice>(dev: &mut D) -> (r: Result<u64, GptError>)
        requires
            tables_pass(&*old(dev), offset_ok_for(old(dev).block_size_view() as int, ntfs_guid())),
        ensures
            final(dev).bytes() == old(dev).bytes(),
            r matches Ok(off) ==> exists|h: GptHeader, es: Seq<GptEntry>, k: int| #![trigger table_read(&*old(dev), h, es), es[k]] {
                &&& table_read(&*old(dev), h, es)
                &&& 0 <= k < es.len()
                &&& es[k].type_guid@ == ntfs_guid()
                &&& (forall|j: int| 0 <= j < k ==> (#[trigger] es[j]).type_guid@ != ntfs_guid())
                &&& off == es[k].start_lba * (old(dev).block_size_view() as int)
            },
    {
        let t = NTFS_GUID;
        assert(t@ =~= ntfs_guid());
        Self::find_offset_of(dev, &t)
    }

    /// Read and decode the disk's GPT: its GUID, geometry, usable range and
    /// the used partitions.
    #[verifier::rlimit(40)]
    pub fn read_disk<D: BlockDevice>(dev: &mut D) -> (r: Result<GptInfo, GptError>)
        requires
            tables_pass(&*old(dev), size_ok_for(old(dev).block_size_view() as int)),
        ensures
            final(dev).bytes() == old(dev).bytes(),
            r matches Ok(info) ==> exists|h: GptHeader, es: Seq<GptEntry>| {
                &&& #[trigger] table_read(&*old(dev), h, es)
                &&& info.disk_guid@ == guid_text(h.disk_guid@)
                &&& info.sector_size == old(dev).block_size_view()
                &&& info.total_sectors == old(dev).block_count_view()
                &&& info.first_usable_lba == h.first_usable_lba
                &&& info.last_usable_lba == h.last_usable_lba
                &&& info.partitions@.map_values(|p: PartitionInfo| p@) == partitions_of(es, old(dev).block_size_view() as int)
            },
    {
        let ghost d0 = *dev;
        let (header, entries) = match read_gpt(dev) {
            Ok(v) => v,
            Err(e) => return Err(e),
        };
        let sector_size = dev.block_size();
        let sector = sector_size as u64;
        let mut partitions: Vec<PartitionInfo> = Vec::new();
        let mut k: usize = 0;
        while k < entries.len()
            invariant
                k <= entries@.len(),
                sector == d0.block_size_view(),
                table_read(&d0, header, entries@),
                tables_pass(&d0, size_ok_for(d0.block_size_view() as int)),
                partitions@.map_values(|p: PartitionInfo| p@) == partitions_of(entries@.take(k as int), sector as int),
            decreases entries@.len() - k,
        {
            assert(entries@.take(k + 1).drop_last() =~= entries@.take(k as int));
            let e = &entries[k];
            let zero = is_zero_guid(&e.type_guid);
            if !zero {
                proof {
                    lemma_entry_pass(&d0, header, entries@, size_ok_for(d0.block_size_view() as int), k as int);
                    let start = header.partition_entry_lba * (sector as int);
                    lemma_size_ok(d0.bytes().subrange(start + 128 * k, start + 128 * k + 128), *e, sector);
                }
                let size_bytes = (e.end_lba - e.start_lba + 1) * sector;
                let kind = if guid_eq(&e.type_guid, &ESP_GUID) {
                    PartitionKind::Esp
                } else if guid_eq(&e.type_guid, &NTFS_GUID) {
                    PartitionKind::Ntfs
                } else {
                    PartitionKind::Unknown
                };
                proof {
                    assert(ESP_GUID@ =~= esp_guid());
                    assert(NTFS_GUID@ =~= ntfs_guid());
                }
                let info = PartitionInfo {
                    kind,
                    type_guid: format_guid(&e.type_guid),
                    unique_guid: format_guid(&e.unique_guid),
                    start_lba: e.start_lba,
                    end_lba: e.end_lba,
                    size_bytes,
                    attributes: e.attributes,
                    name: utf16le_to_str(&e.name),
                };
                let ghost before = partitions@;
                partitions.push(info);
                assert(partitions@.map_values(|p: PartitionInfo| p@) =~= before.map_values(|p: PartitionInfo| p@).push(info@));
            }
            k = k + 1;
        }
        assert(entries@.take(k as int) =~= entries@);
        Ok(GptInfo {
            disk_guid: format_guid(&header.disk_guid),
            sector_size,
            total_sectors: dev.block_count(),
            first_usable_lba: header.first_usable_lba,
            last_usable_lba: header.last_usable_lba,
            partitions,
        })
    }

    /// A minimal NTFS boot sector for a partition of `total_sectors`;
    /// sectors smaller than 512 bytes are refused with `InvalidHeaderSize`.
    pub fn create_ntfs_boot_sector(total_sectors: u64, sector_size: usize) -> (r: Result<Vec<u8>, GptError>)
        ensures
            r is Err <==> sector_size < 512,
            r matches Err(e) ==> e == GptError::InvalidHeaderSize,
            r matches Ok(b) ==> made_boot_sector(b@, total_sectors, sector_size),
    {
        if sector_size < 512 {
            return Err(GptError::InvalidHeaderSize);
        }
        let mut boot: Vec<u8> = vec![0u8; sector_size];
        boot.set(0, 0xEB);
        boot.set(1, 0x52);
        boot.set(2, 0x90);
        boot.set(3, 0x4E);
        boot.set(4, 0x54);
        boot.set(5, 0x46);
        boot.set(6, 0x53);
        boot.set(7, 0x20);
        boot.set(8, 0x20);
        boot.set(9, 0x20);
        boot.set(10, 0x20);
        write_u16_le(boot.as_mut_slice(), 11, #[verifier::truncate] (sector_size as u16));
        boot.set(13, 8);
        write_u64_le(boot.as_mut_slice(), 40, total_sectors);
        write_u64_le(boot.as_mut_slice(), 48, 2);
        write_u64_le(boot.as_mut_slice(), 72, 0x1234_5678_9ABC_DEF0);
        boot.set(510, 0x55);
        boot.set(511, 0xAA);
        proof {
            let b = boot@;
            assert(b.subrange(3, 11) =~= seq![0x4Eu8, 0x54u8, 0x46u8, 0x53u8, 0x20u8, 0x20u8, 0x20u8, 0x20u8]);
        }
        Ok(boot)
    }
}

/// A formatted disk shows its partitions where `format_disk` made them: a
/// table read from it holds the ESP entry first and the NTFS entry second,
/// starting at the sectors `format_disk` returned, so the first NTFS entry
/// found is the one it made. The two type GUIDs differ.
pub proof fn lemma_formatted_partitions_found<D: BlockDevice>(dev: &D, before: Seq<u8>, requested: u64,
    t: (u64, u64, u64, u64), es: Seq<GptEntry>, esp_unique: Seq<u8>, ntfs_unique: Seq<u8>, guid: Seq<u8>,
    h: GptHeader, found: Seq<GptEntry>)
    requires
        dev.block_size_view() >= 512,
        dev.block_count_view() * dev.block_size_view() <= before.len(),
        format_layout(dev.block_count_view(), requested) == Some(t),
        es.len() == 2,
        is_entry(es[0], esp_guid(), esp_unique, t.0, (t.0 + t.1 - 1) as u64, "EFI System"@),
        is_entry(es[1], ntfs_guid(), ntfs_unique, t.2, (t.2 + t.3 - 1) as u64, "Userspace"@),
        gpt_written(dev.bytes(), before, es, guid, dev.block_size_view() as int, (dev.block_count_view() - 1) as u64),
        table_read(dev, h, found),
    ensures
        found.len() == 2,
        found[0].type_guid@ == esp_guid(),
        found[0].start_lba == t.0,
        found[1].type_guid@ == ntfs_guid(),
        found[1].start_lba == t.2,
        esp_guid() != ntfs_guid(),
        h.disk_guid@ == guid,
{
    let sector = dev.block_size_view() as int;
    let last = dev.block_count_view() - 1;
    assert((2 * 128 + sector - 1) / sector <= 1) by (nonlinear_arith)
        requires sector >= 512;
    assert(gpt_fits(2, sector, last));
    lemma_gpt_write_then_read(dev, before, es, guid, h, found);
    assert(esp_guid()[0] != ntfs_guid()[0]);
}

} // verus!
