//! Building MFT records and writing files: attribute writers, record
//! creation, and the write and create operations of the driver.

use vstd::prelude::*;
use crate::blockdev::BlockDevice;
use crate::ntfs::driver::file_signature;
use crate::bytes::{le16, le32, le64, read_u16_le, read_u32_le, write_u16_le, write_u32_le, write_u64_le};
use crate::ntfs::{CreateOptions, NtfsError, NtfsFile, StatView};
use crate::ntfs::driver::{data_attr_offset, first_run_resident_of_len, insert_ok, overwrite_ok, slot_free, with_data, NtfsDriver};
use crate::ntfs::index::index_find;
use crate::blockdev::splice;
use crate::ntfs::attr::{value_length, fixups_enabled, lemma_reapply_len, reapply_fixups_ok, reapply_fixups_spec, sector_end, usa_count, usa_offset};

verus! {

/// The 24-byte header of a resident attribute at `off`: type code, total
/// length, resident and unnamed, value of `data_len` bytes right after the
/// header.
pub open spec fn resident_header_at(r: Seq<u8>, off: int, code: int, attr_len: int, data_len: int) -> bool {
    &&& le32(r, off) == code
    &&& le32(r, off + 4) == attr_len
    &&& r[off + 8] == 0
    &&& r[off + 9] == 0
    &&& le16(r, off + 10) == 0
    &&& le16(r, off + 12) == 0
    &&& le16(r, off + 14) == 0
    &&& le32(r, off + 16) == data_len
    &&& le16(r, off + 20) == 24
    &&& r[off + 22] == 0
    &&& r[off + 23] == 0
}

/// `a` and `b` agree outside `[lo, hi)`.
pub open spec fn same_outside(a: Seq<u8>, b: Seq<u8>, lo: int, hi: int) -> bool {
    &&& a.len() == b.len()
    &&& forall|i: int| 0 <= i < a.len() && !(lo <= i < hi) ==> #[trigger] a[i] == b[i]
}

/// The UTF-16 code units of one character.
pub open spec fn char_units(c: char) -> Seq<u16> {
    let v = c as u32;
    if v < 0x10000 {
        seq![v as u16]
    } else {
        let w = v - 0x10000;
        seq![(0xD800 + w / 1024) as u16, (0xDC00 + w % 1024) as u16]
    }
}

/// The UTF-16 encoding of a string.
pub open spec fn utf16_units(s: Seq<char>) -> Seq<u16>
    decreases s.len(),
{
    if s.len() == 0 {
        Seq::empty()
    } else {
        utf16_units(s.drop_last()) + char_units(s.last())
    }
}

/// Length of an attribute with a value of `data_len` bytes, rounded up to a
/// multiple of 8.
pub open spec fn aligned_attr_len(data_len: int) -> int {
    ((24 + data_len + 7) / 8) * 8
}

/// Encode a string as UTF-16 code units.
pub fn encode_utf16(s: &str) -> (r: Vec<u16>)
    ensures
        r@ == utf16_units(s@),
{
    let n = s.unicode_len();
    let mut out: Vec<u16> = Vec::new();
    let mut i: usize = 0;
    while i < n
        invariant
            i <= n,
            n == s@.len(),
            out@ == utf16_units(s@.subrange(0, i as int)),
        decreases n - i,
    {
        let c = s.get_char(i);
        let v = c as u32;
        let ghost before = out@;
        if v < 0x10000 {
            out.push(v as u16);
        } else {
            let w = v - 0x10000;
            out.push((0xD800 + w / 1024) as u16);
            out.push((0xDC00 + w % 1024) as u16);
        }
        proof {
            assert(s@.subrange(0, i + 1).drop_last() =~= s@.subrange(0, i as int));
            assert(s@.subrange(0, i + 1).last() == c);
            assert(out@ =~= before + char_units(c));
        }
        i = i + 1;
    }
    assert(s@.subrange(0, n as int) =~= s@);
    out
}

proof fn lemma_align8(y: usize)
    ensures
        y & !7usize == (y / 8) * 8,
{
    assert(y & !7usize == (y / 8) * 8) by (bit_vector);
}

/// Write the header of a resident attribute.
fn write_resident_header(record: &mut [u8], offset: usize, code: u32, attr_len: u32, data_len: u32)
    requires
        offset + 24 <= old(record)@.len(),
    ensures
        resident_header_at(final(record)@, offset as int, code as int, attr_len as int, data_len as int),
        same_outside(final(record)@, old(record)@, offset as int, offset + 24),
{
    let _len = record.len();
    write_u32_le(record, offset, code);
    write_u32_le(record, offset + 4, attr_len);
    record[offset + 8] = 0;
    record[offset + 9] = 0;
    write_u16_le(record, offset + 10, 0);
    write_u16_le(record, offset + 12, 0);
    write_u16_le(record, offset + 14, 0);
    write_u32_le(record, offset + 16, data_len);
    write_u16_le(record, offset + 20, 24);
    record[offset + 22] = 0;
    record[offset + 23] = 0;
}

/// Write a `$STANDARD_INFORMATION` attribute with zero times and the
/// directory or archive flag; returns the offset after it.
pub fn write_standard_info_attr(record: &mut [u8], offset: usize, is_directory: bool) -> (r: Result<usize, NtfsError>)
    requires
        offset + 80 <= old(record)@.len(),
    ensures
        r == Ok::<usize, NtfsError>((offset + 80) as usize),
        resident_header_at(final(record)@, offset as int, 0x10, 80, 56),
        le64(final(record)@, offset + 24) == 0,
        le64(final(record)@, offset + 32) == 0,
        le64(final(record)@, offset + 40) == 0,
        le64(final(record)@, offset + 48) == 0,
        le32(final(record)@, offset + 56) == if is_directory { 0x10int } else { 0x20int },
        same_outside(final(record)@, old(record)@, offset as int, offset + 60),
{
    let _len = record.len();
    write_resident_header(record, offset, 0x10, 80, 56);
    let d = offset + 24;
    let flags: u32 = if is_directory { 0x10 } else { 0x20 };
    write_u64_le(record, d, 0);
    write_u64_le(record, d + 8, 0);
    write_u64_le(record, d + 16, 0);
    write_u64_le(record, d + 24, 0);
    write_u32_le(record, d + 32, flags);
    Ok(offset + 80)
}


/// The value length of a `$FILE_NAME` attribute for a name of `n` units.
pub open spec fn filename_value_len(n: int) -> int {
    66 + 2 * n
}

/// A `$FILE_NAME` value at `d`: parent reference, name length and the name's
/// code units.
pub open spec fn filename_value_at(r: Seq<u8>, d: int, parent: u64, units: Seq<u16>) -> bool {
    &&& le64(r, d) == parent
    &&& r[d + 64] == units.len() as u8
    &&& r[d + 65] == 0
    &&& forall|i: int| 0 <= i < units.len() ==> le16(r, d + 66 + 2 * i) == #[trigger] units[i]
}

/// Write a `$FILE_NAME` attribute for `name` under `parent_record`; returns
/// the offset after it (its length rounded up to 8). The times, sizes and
/// flags of the value are left as they are.
pub fn write_filename_attr(record: &mut [u8], offset: usize, name: &str, parent_record: u64) -> (r: Result<usize, NtfsError>)
    requires
        offset + 24 + filename_value_len(utf16_units(name@).len() as int) + 7 <= old(record)@.len(),
    ensures
        ({
            let units = utf16_units(name@);
            let dl = filename_value_len(units.len() as int);
            &&& r == Ok::<usize, NtfsError>((offset + aligned_attr_len(dl)) as usize)
            &&& resident_header_at(final(record)@, offset as int, 0x30, aligned_attr_len(dl) as u32 as int, dl as u32 as int)
            &&& filename_value_at(final(record)@, offset + 24, parent_record, units)
            &&& same_outside(final(record)@, old(record)@, offset as int, offset + 24 + dl)
            &&& forall|i: int| offset + 32 <= i < offset + 88 ==> #[trigger] final(record)@[i] == old(record)@[i]
        }),
{
    let _len = record.len();
    let utf16 = encode_utf16(name);
    let ghost units = utf16@;
    let name_len = utf16.len();
    let data_len = 66 + name_len * 2;
    let attr_len = (24 + data_len + 7) & !7usize;
    proof { lemma_align8((24 + data_len + 7) as usize); }
    write_resident_header(record, offset, 0x30, #[verifier::truncate] (attr_len as u32), #[verifier::truncate] (data_len as u32));
    let d = offset + 24;
    write_u64_le(record, d, parent_record);
    record[d + 64] = #[verifier::truncate] (name_len as u8);
    record[d + 65] = 0;
    let ghost base = record@;
    let mut i: usize = 0;
    while i < name_len
        invariant
            i <= name_len,
            name_len == units.len(),
            utf16@ == units,
            d + 66 + 2 * name_len <= record@.len(),
            _len == record@.len(),
            record@.len() == base.len(),
            forall|k: int| 0 <= k < i ==> le16(record@, d + 66 + 2 * k) == #[trigger] units[k],
            forall|k: int| 0 <= k < record@.len() && !(d + 66 <= k < d + 66 + 2 * i) ==> #[trigger] record@[k] == base[k],
        decreases name_len - i,
    {
        let pos = d + 66 + i * 2;
        write_u16_le(record, pos, utf16[i]);
        proof {
            assert forall|k: int| 0 <= k < i + 1 implies le16(record@, d + 66 + 2 * k) == #[trigger] units[k] by {
                if k < i {
                    assert(record@[d + 66 + 2 * k] == base[d + 66 + 2 * k] || d + 66 + 2 * k >= pos || true);
                }
            }
        }
        i = i + 1;
    }
    Ok(offset + attr_len)
}

/// Write a resident `$DATA` attribute holding `data`; values over 700 bytes
/// are refused with `InvalidAttribute` and the record is left as it was.
pub fn write_data_attr(record: &mut [u8], offset: usize, data: &[u8]) -> (r: Result<usize, NtfsError>)
    requires
        data@.len() <= 700 ==> offset + 24 + data@.len() + 7 <= old(record)@.len(),
    ensures
        data@.len() > 700 ==> r == Err::<usize, NtfsError>(NtfsError::InvalidAttribute) && final(record)@ == old(record)@,
        data@.len() <= 700 ==> {
            &&& r == Ok::<usize, NtfsError>((offset + aligned_attr_len(data@.len() as int)) as usize)
            &&& resident_header_at(final(record)@, offset as int, 0x80, aligned_attr_len(data@.len() as int), data@.len() as int)
            &&& final(record)@.subrange(offset + 24, offset + 24 + data@.len()) == data@
            &&& same_outside(final(record)@, old(record)@, offset as int, offset + 24 + data@.len())
        },
{
    let _len = record.len();
    if data.len() > 700 {
        return Err(NtfsError::InvalidAttribute);
    }
    let data_len = data.len();
    let attr_len = (24 + data_len + 7) & !7usize;
    proof { lemma_align8((24 + data_len + 7) as usize); }
    write_resident_header(record, offset, 0x80, attr_len as u32, data_len as u32);
    let ghost base = record@;
    let mut i: usize = 0;
    while i < data_len
        invariant
            i <= data_len,
            data_len == data@.len(),
            offset + 24 + data_len <= record@.len(),
            _len == record@.len(),
            record@.len() == base.len(),
            forall|k: int| 0 <= k < i ==> record@[offset + 24 + k] == #[trigger] data@[k],
            forall|k: int| 0 <= k < record@.len() && !(offset + 24 <= k < offset + 24 + i) ==> #[trigger] record@[k] == base[k],
        decreases data_len - i,
    {
        record[offset + 24 + i] = data[i];
        i = i + 1;
    }
    assert(record@.subrange(offset + 24, offset + 24 + data@.len()) =~= data@);
    Ok(offset + attr_len)
}

/// A minimal `$INDEX_ROOT` value at `d`: indexing file names, one index
/// block of `block_size` bytes, and a header whose only entry is the
/// LAST_ENTRY marker.
pub open spec fn index_root_value_at(r: Seq<u8>, d: int, block_size: u32, clusters_per_block: i8) -> bool {
    &&& le32(r, d) == 0x30
    &&& le32(r, d + 4) == 1
    &&& le32(r, d + 8) == block_size
    &&& r[d + 12] == clusters_per_block as u8
    &&& le32(r, d + 16) == 16
    &&& le32(r, d + 20) == 32
    &&& le32(r, d + 24) == 32
    &&& r[d + 28] == 0
    &&& le16(r, d + 40) == 16
    &&& le16(r, d + 42) == 0
    &&& le16(r, d + 44) == 2
}

fn write_index_root_header(record: &mut [u8], d: usize, block_size: u32, clusters_per_block: i8)
    requires
        d + 29 <= old(record)@.len(),
    ensures
        le32(final(record)@, d as int) == 0x30,
        le32(final(record)@, d + 4) == 1,
        le32(final(record)@, d + 8) == block_size,
        final(record)@[d + 12] == clusters_per_block as u8,
        le32(final(record)@, d + 16) == 16,
        le32(final(record)@, d + 20) == 32,
        le32(final(record)@, d + 24) == 32,
        final(record)@[d + 28] == 0,
        same_outside(final(record)@, old(record)@, d as int, d + 29),
{
    let _len = record.len();
    write_u32_le(record, d, 0x30);
    write_u32_le(record, d + 4, 0x01);
    write_u32_le(record, d + 8, block_size);
    record[d + 12] = #[verifier::truncate] (clusters_per_block as u8);
    write_u32_le(record, d + 16, 16);
    write_u32_le(record, d + 20, 32);
    write_u32_le(record, d + 24, 32);
    record[d + 28] = 0;
}

fn write_last_entry(record: &mut [u8], le: usize)
    requires
        le + 14 <= old(record)@.len(),
    ensures
        le64(final(record)@, le as int) == 0,
        le16(final(record)@, le + 8) == 16,
        le16(final(record)@, le + 10) == 0,
        le16(final(record)@, le + 12) == 2,
        same_outside(final(record)@, old(record)@, le as int, le + 14),
{
    let _len = record.len();
    write_u64_le(record, le, 0);
    write_u16_le(record, le + 8, 16);
    write_u16_le(record, le + 10, 0);
    write_u16_le(record, le + 12, 0x0002);
}

/// Write a minimal `$INDEX_ROOT` attribute for an empty directory; returns
/// the offset after its 56 bytes. (Its last-entry marker runs 14 bytes past
/// that offset.)
pub fn write_index_root_attr(record: &mut [u8], offset: usize, block_size: u32, clusters_per_block: i8) -> (r: Result<usize, NtfsError>)
    requires
        offset + 70 <= old(record)@.len(),
    ensures
        r == Ok::<usize, NtfsError>((offset + 56) as usize),
        resident_header_at(final(record)@, offset as int, 0x90, 56, 32),
        index_root_value_at(final(record)@, offset + 24, block_size, clusters_per_block),
        le64(final(record)@, offset + 56) == 0,
        same_outside(final(record)@, old(record)@, offset as int, offset + 70),
{
    let _len = record.len();
    write_resident_header(record, offset, 0x90, 56, 32);
    let ghost r1 = record@;
    let d = offset + 24;
    write_index_root_header(record, d, block_size, clusters_per_block);
    let ghost r2 = record@;
    write_last_entry(record, d + 32);
    let ghost r3 = record@;
    assert(resident_header_at(r2, offset as int, 0x90, 56, 32));
    assert(index_root_value_at(r3, d as int, block_size, clusters_per_block));
    Ok(offset + 56)
}


/// Stamping `lo, hi` on the sector ends of sectors `i..usc`.
pub open spec fn stamp_from(s: Seq<u8>, usc: int, lo: u8, hi: u8, i: int) -> Seq<u8>
    decreases usc - i,
{
    if i < 1 || i >= usc {
        s
    } else {
        let e = sector_end(i);
        stamp_from(s.update(e, lo).update(e + 1, hi), usc, lo, hi, i + 1)
    }
}

/// The record with its sequence number stamped on every sector end.
pub open spec fn stamp_fixups(s: Seq<u8>) -> Seq<u8> {
    if !fixups_enabled(s) {
        s
    } else {
        let seq = le16(s, usa_offset(s));
        stamp_from(s, usa_count(s), (seq % 256) as u8, (seq / 256) as u8, 1)
    }
}

/// The records `reapply_fixups` can run on: a header, and when fixups are on,
/// every sector end the array covers and every array entry inside the record.
pub open spec fn stamp_fixups_ok(s: Seq<u8>) -> bool {
    &&& s.len() >= 8
    &&& fixups_enabled(s) ==> {
        &&& usa_offset(s) + 2 <= s.len()
        &&& (usa_count(s) - 1) * 512 <= s.len()
    }
    &&& reapply_fixups_ok(s)
}

/// Re-apply fixups before writing, the complement of `apply_fixups`: the
/// last two bytes of every sector are saved into the update sequence array
/// and the sequence number is written in their place.
pub fn reapply_fixups(buf: &mut [u8]) -> (r: Result<(), NtfsError>)
    requires
        stamp_fixups_ok(old(buf)@),
    ensures
        r is Ok,
        final(buf)@ == reapply_fixups_spec(old(buf)@),
        final(buf)@.len() == old(buf)@.len(),
{
    proof {
        lemma_reapply_len(buf@);
    }
    crate::ntfs::attr::reapply_fixups(buf)
}


/// The header of a new MFT record: `FILE`, update sequence array at 48 with
/// 3 entries (the two replacement slots zero), first attribute at 56, in use.
pub open spec fn record_header_at(r: Seq<u8>, rs: int, number: u64, seq: u16) -> bool {
    &&& r.subrange(0, 4) == file_signature()
    &&& le16(r, 4) == 48
    &&& le16(r, 6) == 3
    &&& le64(r, 8) == 0
    &&& le16(r, 16) == number as u16
    &&& le16(r, 18) == 1
    &&& le16(r, 20) == 56
    &&& le16(r, 22) == 1
    &&& le32(r, 24) == rs as u32
    &&& le32(r, 28) == rs as u32
    &&& le16(r, 48) == seq
    &&& le16(r, 50) == 0
    &&& le16(r, 52) == 0
}

/// Offset just past the `$FILE_NAME` attribute of a new record.
pub open spec fn after_filename(n_units: int) -> int {
    136 + aligned_attr_len(filename_value_len(n_units))
}

/// The record `create_mft_record` builds, before the sequence number is
/// stamped on its sector ends: header, `$STANDARD_INFORMATION` at 56,
/// `$FILE_NAME` at 136, then an empty `$INDEX_ROOT` or a resident `$DATA`,
/// then the end marker.
pub open spec fn new_record_image(img: Seq<u8>, rs: int, number: u64, units: Seq<u16>, parent: u64,
    is_dir: bool, data: Seq<u8>, block_size: u32, clusters_per_block: i8) -> bool {
    let off2 = after_filename(units.len() as int);
    let dl = filename_value_len(units.len() as int);
    &&& img.len() == rs
    &&& record_header_at(img, rs, number, (number % 0x10000) as u16)
    &&& resident_header_at(img, 56, 0x10, 80, 56)
    &&& le32(img, 112) == if is_dir { 0x10int } else { 0x20int }
    &&& resident_header_at(img, 136, 0x30, aligned_attr_len(dl) as u32 as int, dl as u32 as int)
    &&& filename_value_at(img, 160, parent, units)
    &&& if is_dir {
        &&& resident_header_at(img, off2, 0x90, 56, 32)
        &&& index_root_value_at(img, off2 + 24, block_size, clusters_per_block)
        &&& le32(img, off2 + 56) == 0xFFFF_FFFF
    } else {
        &&& resident_header_at(img, off2, 0x80, aligned_attr_len(data.len() as int), data.len() as int)
        &&& img.subrange(off2 + 24, off2 + 24 + data.len()) == data
        &&& le32(img, off2 + aligned_attr_len(data.len() as int)) == 0xFFFF_FFFF
    }
}

/// The sequence number stamped on the ends of the first two sectors that the
/// record holds.
pub open spec fn stamped(img: Seq<u8>, seq: u16) -> Seq<u8> {
    let a = if img.len() >= 512 { img.update(510, (seq % 256) as u8).update(511, (seq / 256) as u8) } else { img };
    if img.len() >= 1024 { a.update(1022, (seq % 256) as u8).update(1023, (seq / 256) as u8) } else { a }
}

/// A new record of `rs` bytes holds everything `create_mft_record` writes.
pub open spec fn new_record_fits(rs: int, n_units: int, is_dir: bool, data_len: int) -> bool {
    &&& rs >= 56
    &&& 160 + filename_value_len(n_units) + 7 <= rs
    &&& if is_dir {
        after_filename(n_units) + 70 <= rs
    } else if data_len <= 700 {
        &&& after_filename(n_units) + aligned_attr_len(data_len) + 4 <= rs
        &&& after_filename(n_units) + 24 + data_len + 7 <= rs
    } else {
        after_filename(n_units) <= rs
    }
}

/// `a` and `b` agree on `[lo, hi)`.
pub open spec fn agree_on(a: Seq<u8>, b: Seq<u8>, lo: int, hi: int) -> bool {
    forall|i: int| lo <= i < hi ==> #[trigger] a[i] == b[i]
}

proof fn lemma_agree_from_outside(a: Seq<u8>, b: Seq<u8>, lo: int, hi: int, x: int, y: int)
    requires
        same_outside(b, a, lo, hi),
        0 <= x,
        y <= a.len(),
        y <= lo || hi <= x,
    ensures
        agree_on(a, b, x, y),
{
    assert forall|i: int| x <= i < y implies #[trigger] a[i] == b[i] by {
        assert(b[i] == a[i]);
    }
}

proof fn lemma_header_frame(a: Seq<u8>, b: Seq<u8>, rs: int, number: u64, seq: u16)
    requires
        record_header_at(a, rs, number, seq),
        agree_on(a, b, 0, 56),
        a.len() == b.len(),
        a.len() >= 56,
    ensures
        record_header_at(b, rs, number, seq),
{
    assert(a[0] == b[0] && a[1] == b[1] && a[2] == b[2] && a[3] == b[3]);
    assert(a.subrange(0, 4) =~= b.subrange(0, 4));
    assert(a[4] == b[4] && a[5] == b[5] && a[6] == b[6] && a[7] == b[7]);
    assert(a[8] == b[8] && a[9] == b[9] && a[10] == b[10] && a[11] == b[11]);
    assert(a[12] == b[12] && a[13] == b[13] && a[14] == b[14] && a[15] == b[15]);
    assert(a[16] == b[16] && a[17] == b[17] && a[18] == b[18] && a[19] == b[19]);
    assert(a[20] == b[20] && a[21] == b[21] && a[22] == b[22] && a[23] == b[23]);
    assert(a[24] == b[24] && a[25] == b[25] && a[26] == b[26] && a[27] == b[27]);
    assert(a[28] == b[28] && a[29] == b[29] && a[30] == b[30] && a[31] == b[31]);
    assert(a[48] == b[48] && a[49] == b[49] && a[50] == b[50] && a[51] == b[51]);
    assert(a[52] == b[52] && a[53] == b[53]);
}

proof fn lemma_resident_header_frame(a: Seq<u8>, b: Seq<u8>, off: int, code: int, attr_len: int, data_len: int)
    requires
        resident_header_at(a, off, code, attr_len, data_len),
        agree_on(a, b, off, off + 24),
    ensures
        resident_header_at(b, off, code, attr_len, data_len),
{
    assert(a[off] == b[off] && a[off + 1] == b[off + 1] && a[off + 2] == b[off + 2] && a[off + 3] == b[off + 3]);
    assert(a[off + 4] == b[off + 4] && a[off + 5] == b[off + 5] && a[off + 6] == b[off + 6] && a[off + 7] == b[off + 7]);
    assert(a[off + 8] == b[off + 8] && a[off + 9] == b[off + 9] && a[off + 10] == b[off + 10] && a[off + 11] == b[off + 11]);
    assert(a[off + 12] == b[off + 12] && a[off + 13] == b[off + 13] && a[off + 14] == b[off + 14] && a[off + 15] == b[off + 15]);
    assert(a[off + 16] == b[off + 16] && a[off + 17] == b[off + 17] && a[off + 18] == b[off + 18] && a[off + 19] == b[off + 19]);
    assert(a[off + 20] == b[off + 20] && a[off + 21] == b[off + 21] && a[off + 22] == b[off + 22] && a[off + 23] == b[off + 23]);
}

proof fn lemma_le32_frame(a: Seq<u8>, b: Seq<u8>, off: int)
    requires
        agree_on(a, b, off, off + 4),
    ensures
        le32(a, off) == le32(b, off),
{
    assert(a[off] == b[off] && a[off + 1] == b[off + 1] && a[off + 2] == b[off + 2] && a[off + 3] == b[off + 3]);
}

proof fn lemma_filename_value_frame(a: Seq<u8>, b: Seq<u8>, d: int, parent: u64, units: Seq<u16>)
    requires
        filename_value_at(a, d, parent, units),
        agree_on(a, b, d, d + 66 + 2 * units.len()),
    ensures
        filename_value_at(b, d, parent, units),
{
    assert(a[d] == b[d] && a[d + 1] == b[d + 1] && a[d + 2] == b[d + 2] && a[d + 3] == b[d + 3]);
    assert(a[d + 4] == b[d + 4] && a[d + 5] == b[d + 5] && a[d + 6] == b[d + 6] && a[d + 7] == b[d + 7]);
    assert(a[d + 64] == b[d + 64] && a[d + 65] == b[d + 65]);
    assert forall|i: int| 0 <= i < units.len() implies le16(b, d + 66 + 2 * i) == #[trigger] units[i] by {
        assert(a[d + 66 + 2 * i] == b[d + 66 + 2 * i]);
        assert(a[d + 66 + 2 * i + 1] == b[d + 66 + 2 * i + 1]);
    }
}

#[verifier::rlimit(60)]
proof fn lemma_new_record_image(r1: Seq<u8>, r2: Seq<u8>, r3: Seq<u8>, r4: Seq<u8>, img: Seq<u8>, rs: usize,
    clusters_per_index_buffer: i8, record_number: u64, name: Seq<char>, parent_record: u64, is_directory: bool,
    data: Seq<u8>, off: usize)
    requires
        new_record_fits(rs as int, utf16_units(name).len() as int, is_directory, data.len() as int),
        is_directory || data.len() <= 700,
        r1.len() == rs,
        record_header_at(r1, rs as int, record_number, (record_number % 0x10000) as u16),
        resident_header_at(r2, 56, 0x10, 80, 56),
        le32(r2, 112) == if is_directory { 0x10int } else { 0x20int },
        same_outside(r2, r1, 56, 116),
        resident_header_at(r3, 136, 0x30, aligned_attr_len(filename_value_len(utf16_units(name).len() as int)) as u32 as int,
            filename_value_len(utf16_units(name).len() as int) as u32 as int),
        filename_value_at(r3, 160, parent_record, utf16_units(name)),
        same_outside(r3, r2, 136, 160 + filename_value_len(utf16_units(name).len() as int)),
        is_directory ==> {
            &&& off == after_filename(utf16_units(name).len() as int) + 56
            &&& resident_header_at(r4, after_filename(utf16_units(name).len() as int), 0x90, 56, 32)
            &&& index_root_value_at(r4, after_filename(utf16_units(name).len() as int) + 24, rs as u32, clusters_per_index_buffer)
            &&& same_outside(r4, r3, after_filename(utf16_units(name).len() as int), after_filename(utf16_units(name).len() as int) + 70)
        },
        !is_directory ==> {
            &&& off == after_filename(utf16_units(name).len() as int) + aligned_attr_len(data.len() as int)
            &&& resident_header_at(r4, after_filename(utf16_units(name).len() as int), 0x80, aligned_attr_len(data.len() as int), data.len() as int)
            &&& r4.subrange(after_filename(utf16_units(name).len() as int) + 24, after_filename(utf16_units(name).len() as int) + 24 + data.len()) == data
            &&& same_outside(r4, r3, after_filename(utf16_units(name).len() as int), after_filename(utf16_units(name).len() as int) + 24 + data.len())
        },
        le32(img, off as int) == 0xFFFF_FFFF,
        same_outside(img, r4, off as int, off + 4),
    ensures
        new_record_image(img, rs as int, record_number, utf16_units(name), parent_record,
            is_directory, data, rs as u32, clusters_per_index_buffer),
{
    let seq = (record_number % 0x10000) as u16;
        let n = utf16_units(name).len() as int;
        let dl = filename_value_len(n);
        let off2 = after_filename(n);
        // header survives the attribute writes
        lemma_agree_from_outside(r1, r2, 56, 116, 0, 56);
        lemma_header_frame(r1, r2, rs as int, record_number, seq);
        lemma_agree_from_outside(r2, r3, 136, 160 + dl, 0, 136);
        lemma_header_frame(r2, r3, rs as int, record_number, seq);
        lemma_resident_header_frame(r2, r3, 56, 0x10, 80, 56);
        lemma_le32_frame(r2, r3, 112);
        let tail_end = if is_directory { off2 + 70 } else { off2 + 24 + data.len() };
        lemma_agree_from_outside(r3, r4, off2, tail_end, 0, off2);
        lemma_header_frame(r3, r4, rs as int, record_number, seq);
        lemma_resident_header_frame(r3, r4, 56, 0x10, 80, 56);
        lemma_le32_frame(r3, r4, 112);
        lemma_resident_header_frame(r3, r4, 136, 0x30, aligned_attr_len(dl) as u32 as int, dl as u32 as int);
        lemma_filename_value_frame(r3, r4, 160, parent_record, utf16_units(name));
        // the end marker lies past everything but the index root's last entry
        let end_at = off as int;
        lemma_agree_from_outside(r4, img, end_at, end_at + 4, 0, off2);
        lemma_header_frame(r4, img, rs as int, record_number, seq);
        lemma_resident_header_frame(r4, img, 56, 0x10, 80, 56);
        lemma_le32_frame(r4, img, 112);
        lemma_resident_header_frame(r4, img, 136, 0x30, aligned_attr_len(dl) as u32 as int, dl as u32 as int);
        lemma_filename_value_frame(r4, img, 160, parent_record, utf16_units(name));
        if is_directory {
            lemma_agree_from_outside(r4, img, end_at, end_at + 4, off2, off2 + 56);
            lemma_resident_header_frame(r4, img, off2, 0x90, 56, 32);
            assert(index_root_value_at(img, off2 + 24, rs as u32, clusters_per_index_buffer)) by {
                let d = off2 + 24;
                lemma_le32_frame(r4, img, d);
                lemma_le32_frame(r4, img, d + 4);
                lemma_le32_frame(r4, img, d + 8);
                lemma_le32_frame(r4, img, d + 16);
                lemma_le32_frame(r4, img, d + 20);
                lemma_le32_frame(r4, img, d + 24);
                assert(r4[d + 12] == img[d + 12] && r4[d + 28] == img[d + 28]);
                lemma_agree_from_outside(r4, img, end_at, end_at + 4, d + 40, d + 46);
                assert(r4[d + 40] == img[d + 40] && r4[d + 41] == img[d + 41]);
                assert(r4[d + 42] == img[d + 42] && r4[d + 43] == img[d + 43]);
                assert(r4[d + 44] == img[d + 44] && r4[d + 45] == img[d + 45]);
            }
        } else {
            let al = aligned_attr_len(data.len() as int);
            lemma_agree_from_outside(r4, img, end_at, end_at + 4, off2, off2 + 24 + data.len());
            lemma_resident_header_frame(r4, img, off2, 0x80, al, data.len() as int);
            assert(img.subrange(off2 + 24, off2 + 24 + data.len()) =~= r4.subrange(off2 + 24, off2 + 24 + data.len()));
        }
}

fn write_record_header(record: &mut [u8], rs: usize, record_number: u64, seq: u16)
    requires
        old(record)@.len() == rs,
        rs >= 56,
        forall|i: int| 0 <= i < rs ==> #[trigger] old(record)@[i] == 0u8,
    ensures
        record_header_at(final(record)@, rs as int, record_number, seq),
        same_outside(final(record)@, old(record)@, 0, 50),
{
    let _len = record.len();
    record[0] = 0x46;
    record[1] = 0x49;
    record[2] = 0x4C;
    record[3] = 0x45;
    write_u16_le(record, 4, 48);
    write_u16_le(record, 6, 3);
    write_u64_le(record, 8, 0);
    write_u16_le(record, 16, #[verifier::truncate] (record_number as u16));
    write_u16_le(record, 18, 1);
    write_u16_le(record, 20, 56);
    write_u16_le(record, 22, 1);
    write_u32_le(record, 24, #[verifier::truncate] (rs as u32));
    write_u32_le(record, 28, #[verifier::truncate] (rs as u32));
    write_u16_le(record, 48, seq);
    assert(record@.subrange(0, 4) =~= file_signature());
}

/// Build a new MFT record for `name` under `parent_record`: a directory
/// with an empty index, or a file with `data` resident (at most 700 bytes,
/// else `InvalidAttribute`).
/// Write the attributes of a new record after its header: standard
/// information, file name, then an empty index root or the resident data,
/// then the end marker.
#[verifier::spinoff_prover]
fn write_new_attributes(record: &mut [u8], rs: usize, clusters_per_index_buffer: i8, record_number: u64,
    name: &str, parent_record: u64, is_directory: bool, data: &[u8])
    requires
        new_record_fits(rs as int, utf16_units(name@).len() as int, is_directory, data@.len() as int),
        is_directory || data@.len() <= 700,
        old(record)@.len() == rs,
        record_header_at(old(record)@, rs as int, record_number, (record_number % 0x10000) as u16),
    ensures
        new_record_image(final(record)@, rs as int, record_number, utf16_units(name@), parent_record,
            is_directory, data@, rs as u32, clusters_per_index_buffer),
{
    let ghost r1 = record@;
    let _len = record.len();
    let _ = write_standard_info_attr(record, 56, is_directory);
    let ghost r2 = record@;
    let off = match write_filename_attr(record, 136, name, parent_record) {
        Ok(o) => o,
        Err(_) => 136,
    };
    let ghost r3 = record@;
    let off = if is_directory {
        match write_index_root_attr(record, off, #[verifier::truncate] (rs as u32), clusters_per_index_buffer) {
            Ok(o) => o,
            Err(_) => off,
        }
    } else {
        match write_data_attr(record, off, data) {
            Ok(o) => o,
            Err(_) => off,
        }
    };
    let ghost r4 = record@;
    write_u32_le(record, off, 0xFFFF_FFFF);
    proof {
        lemma_new_record_image(r1, r2, r3, r4, record@, rs, clusters_per_index_buffer, record_number, name@,
            parent_record, is_directory, data@, off);
    }
}

/// Build a new MFT record for `name` under `parent_record`: a directory
/// with an empty index, or a file with `data` resident (at most 700 bytes,
/// else `InvalidAttribute`). The sequence number is the record number's low
/// 16 bits, stamped on the ends of the first two sectors.
#[verifier::spinoff_prover]
#[verifier::rlimit(30)]
pub fn create_mft_record(rs: usize, clusters_per_index_buffer: i8, record_number: u64, name: &str,
    parent_record: u64, is_directory: bool, data: &[u8]) -> (r: Result<Vec<u8>, NtfsError>)
    requires
        new_record_fits(rs as int, utf16_units(name@).len() as int, is_directory, data@.len() as int),
    ensures
        r is Err <==> !is_directory && data@.len() > 700,
        r matches Err(e) ==> e == NtfsError::InvalidAttribute,
        r matches Ok(rec) ==> exists|img: Seq<u8>| {
            &&& new_record_image(img, rs as int, record_number, utf16_units(name@), parent_record,
                is_directory, data@, rs as u32, clusters_per_index_buffer)
            &&& #[trigger] stamped(img, (record_number % 0x10000) as u16) == rec@
        },
{
    if !is_directory && data.len() > 700 {
        return Err(NtfsError::InvalidAttribute);
    }
    let mut record: Vec<u8> = vec![0u8; rs];
    let seq = (record_number % 0x10000) as u16;
    write_record_header(record.as_mut_slice(), rs, record_number, seq);
    write_new_attributes(record.as_mut_slice(), rs, clusters_per_index_buffer, record_number, name,
        parent_record, is_directory, data);
    let ghost img = record@;
    if rs >= 512 {
        write_u16_le(record.as_mut_slice(), 510, seq);
    }
    if rs >= 1024 {
        write_u16_le(record.as_mut_slice(), 1022, seq);
    }
    assert(record@ =~= stamped(img, seq));
    Ok(record)
}


/// An index entry at `pos` for `child`: its header (entry and key lengths,
/// no flags) and a `$FILE_NAME` key naming `units` under `parent`, with zero
/// times, sizes and flags.
pub open spec fn index_entry_at(r: Seq<u8>, pos: int, child: u64, parent: u64, units: Seq<u16>) -> bool {
    let key_len = 66 + 2 * units.len();
    &&& le64(r, pos) == child
    &&& le16(r, pos + 8) == (16 + key_len) as u16
    &&& le16(r, pos + 10) == key_len as u16
    &&& le16(r, pos + 12) == 0
    &&& le16(r, pos + 14) == 0
    &&& le64(r, pos + 16) == parent
    &&& forall|i: int| pos + 24 <= i < pos + 80 ==> #[trigger] r[i] == 0u8
    &&& r[pos + 80] == units.len() as u8
    &&& r[pos + 81] == 0
    &&& forall|i: int| 0 <= i < units.len() ==> le16(r, pos + 82 + 2 * i) == #[trigger] units[i]
}

/// Write an index entry for `child` named by `units` under `parent` at `pos`.
pub fn write_index_entry(record: &mut [u8], pos: usize, child: u64, parent: u64, units: &Vec<u16>)
    requires
        pos + 82 + 2 * units@.len() <= old(record)@.len(),
    ensures
        index_entry_at(final(record)@, pos as int, child, parent, units@),
        same_outside(final(record)@, old(record)@, pos as int, pos + 82 + 2 * units@.len()),
{
    let _len = record.len();
    let n = units.len();
    let key_len = 66 + n * 2;
    let entry_len = 16 + key_len;
    write_u64_le(record, pos, child);
    write_u16_le(record, pos + 8, #[verifier::truncate] (entry_len as u16));
    write_u16_le(record, pos + 10, #[verifier::truncate] (key_len as u16));
    write_u16_le(record, pos + 12, 0);
    write_u16_le(record, pos + 14, 0);
    write_u64_le(record, pos + 16, parent);
    let ghost r1 = record@;
    let mut k: usize = pos + 24;
    while k < pos + 80
        invariant
            pos + 24 <= k <= pos + 80,
            pos + 82 + 2 * n <= record@.len(),
            _len == record@.len(),
            record@.len() == r1.len(),
            forall|i: int| pos + 24 <= i < k ==> #[trigger] record@[i] == 0u8,
            forall|i: int| 0 <= i < record@.len() && !(pos + 24 <= i < k) ==> #[trigger] record@[i] == r1[i],
        decreases pos + 80 - k,
    {
        record[k] = 0;
        k = k + 1;
    }
    record[pos + 80] = #[verifier::truncate] (n as u8);
    record[pos + 81] = 0;
    let ghost r2 = record@;
    let mut i: usize = 0;
    while i < n
        invariant
            i <= n,
            n == units@.len(),
            pos + 82 + 2 * n <= record@.len(),
            _len == record@.len(),
            record@.len() == r2.len(),
            forall|j: int| 0 <= j < i ==> le16(record@, pos + 82 + 2 * j) == #[trigger] units@[j],
            forall|j: int| 0 <= j < record@.len() && !(pos + 82 <= j < pos + 82 + 2 * i) ==> #[trigger] record@[j] == r2[j],
        decreases n - i,
    {
        write_u16_le(record, pos + 82 + i * 2, units[i]);
        i = i + 1;
    }
    proof {
        assert(le64(record@, pos as int) == le64(r1, pos as int));
        assert(le16(record@, pos + 8) == le16(r1, pos + 8));
        assert(le16(record@, pos + 10) == le16(r1, pos + 10));
        assert(le16(record@, pos + 12) == le16(r1, pos + 12));
        assert(le16(record@, pos + 14) == le16(r1, pos + 14));
        assert(le64(record@, pos + 16) == le64(r1, pos + 16));
    }
}


/// Length of the index entry for a name of `n` units.
pub open spec fn index_entry_len(n: int) -> int {
    82 + 2 * n
}

/// `n` is `rec` with an entry inserted before the last entry of the index
/// whose header is at `ih`: the 16-byte last entry moves up by the new
/// entry's length, the entry takes its place, and the index's total size
/// grows by the same length. (When the index is smaller than 24 bytes the
/// pieces overlap its header and only the new size is certain.)
pub open spec fn entry_inserted(n: Seq<u8>, rec: Seq<u8>, ih: int, child: u64, parent: u64, units: Seq<u16>) -> bool {
    let total = le32(rec, ih + 4);
    let last = ih + total - 16;
    let el = index_entry_len(units.len() as int);
    &&& n.len() == rec.len()
    &&& le32(n, ih + 4) == (total + el) as u32
    &&& forall|i: int| 0 <= i < ih ==> #[trigger] n[i] == rec[i]
    &&& total >= 24 ==> {
        &&& index_entry_at(n, last, child, parent, units)
        &&& n.subrange(last + el, last + el + 16) == rec.subrange(last, last + 16)
        &&& forall|i: int| 0 <= i < n.len() && !(last <= i < last + el + 16) && !(ih + 4 <= i < ih + 8)
            ==> #[trigger] n[i] == rec[i]
    }
}

/// Insert the bytes of a new index entry before the last entry.
pub fn insert_entry_bytes(record: &mut [u8], ih: usize, child: u64, parent: u64, units: &Vec<u16>)
    requires
        ih + 8 <= old(record)@.len(),
        le32(old(record)@, ih + 4) >= 16,
        ih + le32(old(record)@, ih + 4) + index_entry_len(units@.len() as int) <= old(record)@.len(),
    ensures
        entry_inserted(final(record)@, old(record)@, ih as int, child, parent, units@),
{
    let ghost r0 = record@;
    let len = record.len();
    let total = read_u32_le(record, ih + 4) as usize;
    let n = units.len();
    let entry_len = 82 + n * 2;
    let last = ih + total - 16;
    let mut k: usize = 0;
    while k < 16
        invariant
            k <= 16,
            len == record@.len(),
            len == r0.len(),
            last + entry_len + 16 <= len,
            entry_len >= 82,
            forall|i: int| 0 <= i < k ==> #[trigger] record@[last + entry_len + i] == r0[last + i],
            forall|i: int| 0 <= i < len && !(last + entry_len <= i < last + entry_len + k) ==> #[trigger] record@[i] == r0[i],
        decreases 16 - k,
    {
        let b = record[last + k];
        record[last + entry_len + k] = b;
        k = k + 1;
    }
    let ghost r1 = record@;
    assert forall|j: int| 0 <= j < 16 implies
        #[trigger] r1.subrange(last + entry_len, last + entry_len + 16)[j] == r0.subrange(last as int, last + 16)[j] by {
        assert(r1[last + entry_len + j] == r0[last + j]);
    }
    assert(r1.subrange(last + entry_len, last + entry_len + 16) =~= r0.subrange(last as int, last + 16));
    write_index_entry(record, last, child, parent, units);
    let ghost r2 = record@;
    write_u32_le(record, ih + 4, #[verifier::truncate] ((total + entry_len) as u32));
    proof {
        assert forall|i: int| 0 <= i < ih implies #[trigger] record@[i] == r0[i] by {
            assert(record@[i] == r2[i]);
            assert(r2[i] == r1[i]);
            assert(r1[i] == r0[i]);
        }
        if total >= 24 {
            assert forall|i: int| 0 <= i < record@.len() && !(last <= i < last + entry_len + 16) && !(ih + 4 <= i < ih + 8)
                implies #[trigger] record@[i] == r0[i] by {
                assert(record@[i] == r2[i]);
                assert(r2[i] == r1[i]);
                assert(r1[i] == r0[i]);
            }
            assert(r2.subrange(last + entry_len, last + entry_len + 16) =~= r1.subrange(last + entry_len, last + entry_len + 16));
            assert(record@.subrange(last + entry_len, last + entry_len + 16) =~= r2.subrange(last + entry_len, last + entry_len + 16));
            assert(index_entry_at(record@, last as int, child, parent, units@)) by {
                assert forall|i: int| last <= i < last + entry_len implies #[trigger] record@[i] == r2[i] by {}
                assert(le64(record@, last as int) == le64(r2, last as int));
                assert(le16(record@, last + 8) == le16(r2, last + 8));
                assert(le16(record@, last + 10) == le16(r2, last + 10));
                assert(le16(record@, last + 12) == le16(r2, last + 12));
                assert(le16(record@, last + 14) == le16(r2, last + 14));
                assert(le64(record@, last + 16) == le64(r2, last + 16));
                assert(record@[last + 80] == r2[last + 80]);
                assert(record@[last + 81] == r2[last + 81]);
                assert forall|j: int| 0 <= j < units@.len() implies le16(record@, last + 82 + 2 * j) == #[trigger] units@[j] by {
                    assert(record@[last + 82 + 2 * j] == r2[last + 82 + 2 * j]);
                    assert(record@[last + 82 + 2 * j + 1] == r2[last + 82 + 2 * j + 1]);
                }
            }
        }
    }
}


/// Overwrite the content of a resident file in place (see
/// `NtfsDriver::write_file`).
pub fn write_file<D: BlockDevice>(driver: &mut NtfsDriver<D>, file: &NtfsFile, data: &[u8]) -> (r: Result<(), NtfsError>)
    requires
        old(driver).addressable(file.number()),
        old(driver).stat_ok(file.number()),
        old(driver).record(file.number()) matches Ok(rec) ==> overwrite_ok(rec, data@),
    ensures
        final(driver).boot_sector() == old(driver).boot_sector(),
        final(driver).record_size() == old(driver).record_size(),
        final(driver).dev().contents().len() == old(driver).dev().contents().len(),
        r is Ok ==> ({
            &&& (old(driver).stat_of(file.number()) matches Ok(st) && first_run_resident_of_len(st, data@.len() as int))
            &&& (old(driver).record(file.number()) matches Ok(rec) && data_attr_offset(rec) is Some
                && final(driver).dev().contents() == splice(old(driver).dev().contents(),
                    old(driver).record_offset(file.number()), reapply_fixups_spec(with_data(rec, data@))))
        }),
        r matches Err(e) ==> e == NtfsError::IoError || e == NtfsError::InvalidAttribute
            || old(driver).stat_of(file.number()) == Err::<StatView, NtfsError>(e),
        r matches Err(e) && e != NtfsError::IoError ==> final(driver).same_volume(old(driver)),
        r == Err::<(), NtfsError>(NtfsError::InvalidAttribute) ==> {
            ||| old(driver).stat_of(file.number()) == Err::<StatView, NtfsError>(NtfsError::InvalidAttribute)
            ||| (old(driver).stat_of(file.number()) matches Ok(st) && !first_run_resident_of_len(st, data@.len() as int))
            ||| (old(driver).record(file.number()) matches Ok(rec) && (data_attr_offset(rec) is None
                || data@.len() != value_length(rec, data_attr_offset(rec).unwrap())))
        },
{
    driver.write_file(file, data)
}

/// Create a new file or directory inside `parent`, insert an entry for it
/// into the parent's index (an insertion that fails is ignored), and return
/// a handle to it.
pub fn create_file<D: BlockDevice>(driver: &mut NtfsDriver<D>, parent: &NtfsFile, name: &str, options: CreateOptions) -> (r: Result<NtfsFile, NtfsError>)
    requires
        old(driver).create_ok(parent.number(), name@, options.is_directory, options.data@.len() as int),
        index_entry_len(utf16_units(name@).len() as int) <= usize::MAX,
        old(driver).record(parent.number()) matches Ok(rec) ==> insert_ok(rec, utf16_units(name@).len() as int),
    ensures
        final(driver).boot_sector() == old(driver).boot_sector(),
        final(driver).record_size() == old(driver).record_size(),
        final(driver).dev().contents().len() == old(driver).dev().contents().len(),
        r matches Ok(f) ==> {
            &&& 16 <= f.number() < 1000
            &&& old(driver).stat_of(parent.number()) matches Ok(st) && st.is_directory
            &&& slot_free(old(driver).raw_record(f.number()))
            &&& forall|k: u64| 16 <= k < f.number() ==> #[trigger] old(driver).slot_passed_over(k)
            &&& final(driver).holds_new_record(f.number(), name@, parent.number(), options.is_directory, options.data@)
        },
        r matches Err(e) ==> e == NtfsError::IoError || e == NtfsError::InvalidAttribute
            || (e == NtfsError::CorruptedFilesystem && old(driver).record_size() < 1024)
            || old(driver).stat_of(parent.number()) == Err::<StatView, NtfsError>(e)
            || (old(driver).stat_of(parent.number()) matches Ok(st) && !st.is_directory && e == NtfsError::NotADirectory)
            || (old(driver).stat_of(parent.number()) matches Ok(st) && st.index_root matches Some(ix)
                && index_find(ix, name@) is Some && e == NtfsError::FileNotFound),
        r == Err::<NtfsFile, NtfsError>(NtfsError::InvalidAttribute) ==> old(driver).stat_of(parent.number()) == Err::<StatView, NtfsError>(NtfsError::InvalidAttribute)
            || (!options.is_directory && options.data@.len() > 700),
        r matches Err(e) && (e == NtfsError::NotADirectory || e == NtfsError::FileNotFound || e == NtfsError::InvalidAttribute)
            ==> final(driver).same_volume(old(driver)),
{
    driver.create_and_link(parent, name, options)
}

} // verus!
