//! Writing a GPT.

use vstd::prelude::*;
use crate::bytes::{le16, le32, le64, write_u32_le, write_u64_le};
use crate::gpt::{crc32, crc32_spec, entries_bytes, entry_bytes, gpt_signature, serialize_entries, GptEntry, GptError, GptHeader};
use crate::gpt::read::{crc_input, header_at, header_crc_ok, header_fields, table_read, verify_header_spec};
use crate::hal::block::{overwrite, BlockDevice};

verus! {

/// The bytes `h` hold a header as `build_header` lays it out, checksum
/// field still zero: signature, revision 1.0, size 92, the LBAs, first
/// usable LBA 34, the disk GUID, entry LBA, count and size 128, the entry
/// array checksum, and zeros after the 92 header bytes.
pub open spec fn header_image(h: Seq<u8>, my_lba: u64, alternate_lba: u64, entry_lba: u64, entry_crc: u32,
    last_usable: u64, guid: Seq<u8>, num_entries: u32) -> bool {
    &&& h.len() >= 92
    &&& h.subrange(0, 8) == gpt_signature()
    &&& h.subrange(8, 12) == seq![0u8, 0u8, 1u8, 0u8]
    &&& le32(h, 12) == 92
    &&& le32(h, 20) == 0
    &&& le64(h, 24) == my_lba
    &&& le64(h, 32) == alternate_lba
    &&& le64(h, 40) == 34
    &&& le64(h, 48) == last_usable
    &&& h.subrange(56, 72) == guid
    &&& le64(h, 72) == entry_lba
    &&& le32(h, 80) == num_entries
    &&& le32(h, 84) == 128
    &&& le32(h, 88) == entry_crc
    &&& forall|i: int| 92 <= i < h.len() ==> #[trigger] h[i] == 0u8
}

/// `last_lba` minus the 33 reserved sectors, floored at zero.
pub open spec fn last_usable_of(last_lba: u64) -> u64 {
    if last_lba >= 33 { (last_lba - 33) as u64 } else { 0 }
}

/// Lay out a GPT header of `sector` bytes, checksum field zero; sectors
/// smaller than the 92-byte header are refused with `InvalidHeaderSize`.
pub fn build_header(my_lba: u64, alternate_lba: u64, partition_entry_lba: u64, entry_array_crc: u32, last_lba: u64,
    sector: u64, disk_guid: &[u8; 16], num_entries: u32) -> (r: Result<Vec<u8>, GptError>)
    requires
        sector <= usize::MAX,
    ensures
        r is Err <==> sector < 92,
        r matches Err(e) ==> e == GptError::InvalidHeaderSize,
        r matches Ok(h) ==> h@.len() == sector && le32(h@, 16) == 0 && header_image(h@, my_lba, alternate_lba,
            partition_entry_lba, entry_array_crc, last_usable_of(last_lba), disk_guid@, num_entries),
{
    if sector < 92 {
        return Err(GptError::InvalidHeaderSize);
    }
    let last_usable = last_lba.saturating_sub(33);
    let mut h: Vec<u8> = vec![0u8; sector as usize];
    let ghost z = h@;
    let sig: [u8; 8] = [0x45, 0x46, 0x49, 0x20, 0x50, 0x41, 0x52, 0x54];
    let mut i: usize = 0;
    while i < 8
        invariant
            i <= 8,
            h@.len() == sector,
            sector >= 92,
            sig@ == gpt_signature(),
            forall|k: int| 0 <= k < i ==> #[trigger] h@[k] == sig@[k],
            forall|k: int| 8 <= k < h@.len() ==> #[trigger] h@[k] == 0u8,
        decreases 8 - i,
    {
        h.set(i, sig[i]);
        i = i + 1;
    }
    h.set(8, 0);
    h.set(9, 0);
    h.set(10, 1);
    h.set(11, 0);
    write_u32_le(h.as_mut_slice(), 12, 92);
    write_u64_le(h.as_mut_slice(), 24, my_lba);
    write_u64_le(h.as_mut_slice(), 32, alternate_lba);
    write_u64_le(h.as_mut_slice(), 40, 34);
    write_u64_le(h.as_mut_slice(), 48, last_usable);
    let ghost h1 = h@;
    let mut j: usize = 0;
    while j < 16
        invariant
            j <= 16,
            h@.len() == sector,
            sector >= 92,
            forall|k: int| 0 <= k < j ==> #[trigger] h@[56 + k] == disk_guid@[k],
            forall|k: int| 0 <= k < h@.len() && !(56 <= k < 56 + j) ==> #[trigger] h@[k] == h1[k],
        decreases 16 - j,
    {
        h.set(56 + j, disk_guid[j]);
        j = j + 1;
    }
    let ghost h2 = h@;
    write_u64_le(h.as_mut_slice(), 72, partition_entry_lba);
    write_u32_le(h.as_mut_slice(), 80, num_entries);
    write_u32_le(h.as_mut_slice(), 84, 128);
    write_u32_le(h.as_mut_slice(), 88, entry_array_crc);
    proof {
        let f = h@;
        assert forall|k: int| 0 <= k < 72 implies #[trigger] f[k] == h2[k] by {}
        assert forall|k: int| 0 <= k < 56 implies #[trigger] h2[k] == h1[k] by {}
        assert(f.subrange(0, 8) =~= gpt_signature());
        assert(f.subrange(8, 12) =~= seq![0u8, 0u8, 1u8, 0u8]);
        assert forall|k: int| 0 <= k < 16 implies #[trigger] f.subrange(56, 72)[k] == disk_guid@[k] by {
            assert(f[56 + k] == h2[56 + k]);
        }
        assert(f.subrange(56, 72) =~= disk_guid@);
        assert(le32(f, 12) == le32(h1, 12));
        assert(le32(f, 16) == le32(h1, 16));
        assert(le32(f, 20) == le32(h1, 20));
        assert(le64(f, 24) == le64(h1, 24));
        assert(le64(f, 32) == le64(h1, 32));
        assert(le64(f, 40) == le64(h1, 40));
        assert(le64(f, 48) == le64(h1, 48));
    }
    Ok(h)
}

/// Store the header checksum: computed over the 92 header bytes with the
/// checksum field zeroed.
pub fn finalize_header_crc(header: &mut Vec<u8>)
    requires
        old(header)@.len() >= 92,
    ensures
        final(header)@.len() == old(header)@.len(),
        le32(final(header)@, 16) == crc32_spec(crc_input(old(header)@)),
        forall|i: int| 0 <= i < old(header)@.len() && !(16 <= i < 20) ==> #[trigger] final(header)@[i] == old(header)@[i],
{
    header.set(16, 0);
    header.set(17, 0);
    header.set(18, 0);
    header.set(19, 0);
    assert(header@.subrange(0, 92) =~= crc_input(old(header)@));
    let crc = crc32(&header.as_slice()[0..92]);
    write_u32_le(header.as_mut_slice(), 16, crc);
}

/// A header laid out by `build_header` and finalized passes every check of
/// `parse_and_verify_header`.
pub proof fn lemma_finalized_header_verifies(built: Seq<u8>, fin: Seq<u8>, my_lba: u64, alternate_lba: u64,
    entry_lba: u64, entry_crc: u32, last_usable: u64, guid: Seq<u8>, num_entries: u32)
    requires
        header_image(built, my_lba, alternate_lba, entry_lba, entry_crc, last_usable, guid, num_entries),
        fin.len() == built.len(),
        le32(fin, 16) == crc32_spec(crc_input(built)),
        forall|i: int| 0 <= i < built.len() && !(16 <= i < 20) ==> #[trigger] fin[i] == built[i],
    ensures
        verify_header_spec(fin) is Ok,
        header_image(fin, my_lba, alternate_lba, entry_lba, entry_crc, last_usable, guid, num_entries),
{
    assert(crc_input(fin) =~= crc_input(built));
    assert(fin.subrange(0, 8) =~= built.subrange(0, 8));
    assert(fin.subrange(8, 12) =~= built.subrange(8, 12));
    assert(fin.subrange(56, 72) =~= built.subrange(56, 72));
    assert(le32(fin, 12) == le32(built, 12));
    assert(le32(fin, 20) == le32(built, 20));
    assert(le64(fin, 24) == le64(built, 24));
    assert(le64(fin, 32) == le64(built, 32));
    assert(le64(fin, 40) == le64(built, 40));
    assert(le64(fin, 48) == le64(built, 48));
    assert(le64(fin, 72) == le64(built, 72));
    assert(le32(fin, 80) == le32(built, 80));
    assert(le32(fin, 84) == le32(built, 84));
    assert(le32(fin, 88) == le32(built, 88));
    assert(header_crc_ok(fin));
}

/// The protective MBR: one partition of type 0xEE from LBA 1 covering
/// `size` sectors, and the boot signature.
pub open spec fn mbr_image(m: Seq<u8>, size: u32) -> bool {
    &&& m.len() >= 512
    &&& m[446] == 0 && m[447] == 0 && m[448] == 2 && m[449] == 0
    &&& m[450] == 0xEE
    &&& m[451] == 0xFF && m[452] == 0xFF && m[453] == 0xFF
    &&& le32(m, 454) == 1
    &&& le32(m, 458) == size
    &&& m[510] == 0x55 && m[511] == 0xAA
    &&& forall|i: int| 0 <= i < m.len() && !(446 <= i < 462) && i != 510 && i != 511 ==> #[trigger] m[i] == 0u8
}

/// The sector count the protective partition records: `last_lba`, capped
/// at 32 bits.
pub open spec fn mbr_size(last_lba: u64) -> u32 {
    if last_lba < 0xFFFF_FFFF { last_lba as u32 } else { 0xFFFF_FFFFu32 }
}

/// Write a protective MBR to the first sector.
pub fn write_protective_mbr<D: BlockDevice>(dev: &mut D, last_lba: u64) -> (r: Result<(), GptError>)
    requires
        old(dev).block_size_view() >= 512,
    ensures
        final(dev).bytes().len() == old(dev).bytes().len(),
        final(dev).block_size_view() == old(dev).block_size_view(),
        final(dev).block_count_view() == old(dev).block_count_view(),
        r is Ok ==> exists|m: Seq<u8>| #[trigger] mbr_image(m, mbr_size(last_lba)) && m.len() == old(dev).block_size_view()
            && final(dev).bytes() == overwrite(old(dev).bytes(), 0, m),
        r matches Err(e) ==> e == GptError::IoError,
{
    let sector = dev.block_size();
    let mut mbr: Vec<u8> = vec![0u8; sector];
    mbr.set(446, 0x00);
    mbr.set(447, 0x00);
    mbr.set(448, 0x02);
    mbr.set(449, 0x00);
    mbr.set(450, 0xEE);
    mbr.set(451, 0xFF);
    mbr.set(452, 0xFF);
    mbr.set(453, 0xFF);
    let ghost m1 = mbr@;
    write_u32_le(mbr.as_mut_slice(), 454, 1);
    let size: u32 = if last_lba < 0xFFFF_FFFF { last_lba as u32 } else { 0xFFFF_FFFF };
    write_u32_le(mbr.as_mut_slice(), 458, size);
    mbr.set(510, 0x55);
    mbr.set(511, 0xAA);
    proof {
        let m = mbr@;
        assert(le32(m, 454) == 1);
        assert forall|i: int| 0 <= i < 454 implies #[trigger] m[i] == m1[i] by {}
        assert(mbr_image(m, mbr_size(last_lba)));
    }
    match dev.write_blocks(0, mbr.as_slice()) {
        Ok(()) => Ok(()),
        Err(_) => Err(GptError::IoError),
    }
}


/// The table `write_gpt` lays out for `n` entries fits the disk: the
/// primary entries end before the backup area.
pub open spec fn gpt_fits(n: int, sector: int, last_lba: int) -> bool {
    2 + (n * 128 + sector - 1) / sector < last_usable_of(last_lba as u64)
}

/// The device bytes after `write_gpt`: the protective MBR, then the entry
/// array at LBA 2 and at the backup entry LBA, then the primary header at
/// LBA 1 and the backup header at the last LBA, each written over the
/// previous bytes in that order.
pub open spec fn gpt_written(after: Seq<u8>, before: Seq<u8>, entries: Seq<GptEntry>, guid: Seq<u8>, sector: int, last_lba: u64) -> bool {
    let backup_lba = last_lba - 32;
    exists|m: Seq<u8>, arr: Seq<u8>, ph: Seq<u8>, bh: Seq<u8>| {
        &&& #[trigger] mbr_image(m, mbr_size(last_lba)) && m.len() == sector
        &&& #[trigger] entries_bytes(arr, entries)
        &&& ph.len() == sector && verify_header_spec(ph) is Ok
        &&& #[trigger] header_image(ph, 1, last_lba, 2, crc32_spec(arr), last_usable_of(last_lba), guid, entries.len() as u32)
        &&& bh.len() == sector && verify_header_spec(bh) is Ok
        &&& #[trigger] header_image(bh, last_lba, 1, backup_lba as u64, crc32_spec(arr), last_usable_of(last_lba), guid, entries.len() as u32)
        &&& after == overwrite(overwrite(overwrite(overwrite(overwrite(before, 0, m), 2 * sector, arr),
            backup_lba * sector, arr), sector, ph), last_lba * sector, bh)
    }
}

/// Write a GPT for `entries` with disk GUID `disk_guid`: protective MBR,
/// then both entry arrays, then both headers. More than 128 entries, an
/// empty disk, or entries that would reach the backup area are refused with
/// `NoSpace` (the last after the MBR is written).
pub fn write_gpt<D: BlockDevice>(dev: &mut D, entries: &[GptEntry], disk_guid: &[u8; 16]) -> (r: Result<(), GptError>)
    requires
        old(dev).block_size_view() >= 512,
        old(dev).block_size_view() + 16384 <= u64::MAX,
        old(dev).block_count_view() * old(dev).block_size_view() <= u64::MAX,
    ensures
        final(dev).bytes().len() == old(dev).bytes().len(),
        final(dev).block_size_view() == old(dev).block_size_view(),
        final(dev).block_count_view() == old(dev).block_count_view(),
        entries@.len() > 128 ==> r == Err::<(), GptError>(GptError::NoSpace) && final(dev).bytes() == old(dev).bytes(),
        old(dev).block_count_view() == 0 ==> r == Err::<(), GptError>(GptError::NoSpace),
        r is Ok ==> {
            &&& entries@.len() <= 128
            &&& old(dev).block_count_view() >= 1
            &&& old(dev).block_count_view() * old(dev).block_size_view() <= old(dev).bytes().len()
            &&& gpt_fits(entries@.len() as int, old(dev).block_size_view() as int, old(dev).block_count_view() - 1)
            &&& gpt_written(final(dev).bytes(), old(dev).bytes(), entries@, disk_guid@, old(dev).block_size_view() as int,
                (old(dev).block_count_view() - 1) as u64)
        },
        r matches Err(e) ==> e == GptError::NoSpace || e == GptError::IoError,
{
    if entries.len() > 128 {
        return Err(GptError::NoSpace);
    }
    let sector = dev.block_size() as u64;
    let count = dev.block_count();
    if count == 0 {
        return Err(GptError::NoSpace);
    }
    let last_lba = count - 1;
    let ghost b0 = dev.bytes();
    match write_protective_mbr(dev, last_lba) {
        Ok(()) => {},
        Err(e) => return Err(e),
    }
    let ghost b1 = dev.bytes();
    let n = entries.len() as u64;
    let num = n * 128 + sector - 1;
    let q = num / sector;
    assert(q * 2 <= num) by (nonlinear_arith)
        requires q == num / sector, sector >= 512;
    let entries_end_lba = 2 + q;
    if entries_end_lba >= last_lba.saturating_sub(33) {
        return Err(GptError::NoSpace);
    }
    let entry_array = serialize_entries(entries);
    let entry_array_crc = crc32(entry_array.as_slice());
    let backup_entries_lba = last_lba - 33 + 1;
    let mut primary = match build_header(1, last_lba, 2, entry_array_crc, last_lba, sector, disk_guid, n as u32) {
        Ok(h) => h,
        Err(e) => return Err(e),
    };
    let mut backup = match build_header(last_lba, 1, backup_entries_lba, entry_array_crc, last_lba, sector, disk_guid, n as u32) {
        Ok(h) => h,
        Err(e) => return Err(e),
    };
    let ghost p0 = primary@;
    let ghost q0 = backup@;
    finalize_header_crc(&mut primary);
    finalize_header_crc(&mut backup);
    proof {
        lemma_finalized_header_verifies(p0, primary@, 1, last_lba, 2, entry_array_crc, last_usable_of(last_lba),
            disk_guid@, n as u32);
        lemma_finalized_header_verifies(q0, backup@, last_lba, 1, backup_entries_lba, entry_array_crc, last_usable_of(last_lba),
            disk_guid@, n as u32);
    }
    assert(last_lba * sector <= u64::MAX) by (nonlinear_arith)
        requires last_lba < count, count * sector <= u64::MAX;
    assert(backup_entries_lba * sector <= last_lba * sector) by (nonlinear_arith)
        requires backup_entries_lba <= last_lba;
    assert(2 * sector <= last_lba * sector) by (nonlinear_arith)
        requires 2 <= last_lba;
    match dev.write_blocks(2 * sector, entry_array.as_slice()) {
        Ok(()) => {},
        Err(_) => return Err(GptError::IoError),
    }
    match dev.write_blocks(backup_entries_lba * sector, entry_array.as_slice()) {
        Ok(()) => {},
        Err(_) => return Err(GptError::IoError),
    }
    match dev.write_blocks(sector, primary.as_slice()) {
        Ok(()) => {},
        Err(_) => return Err(GptError::IoError),
    }
    match dev.write_blocks(last_lba * sector, backup.as_slice()) {
        Ok(()) => {},
        Err(_) => return Err(GptError::IoError),
    }
    assert(count * sector == last_lba * sector + sector) by (nonlinear_arith)
        requires last_lba == count - 1;
    proof {
        let m = choose|m: Seq<u8>| #[trigger] mbr_image(m, mbr_size(last_lba)) && m.len() == sector
            && b1 == overwrite(b0, 0, m);
        assert(gpt_written(dev.bytes(), b0, entries@, disk_guid@, sector as int, last_lba)) by {
            assert(mbr_image(m, mbr_size(last_lba)));
            assert(entries_bytes(entry_array@, entries@));
            assert(header_image(primary@, 1, last_lba, 2, crc32_spec(entry_array@), last_usable_of(last_lba), disk_guid@, entries@.len() as u32));
            assert(header_image(backup@, last_lba, 1, (last_lba - 32) as u64, crc32_spec(entry_array@), last_usable_of(last_lba), disk_guid@, entries@.len() as u32));
        }
    }
    Ok(())
}

/// Two entries held by the same bytes are the same entry.
proof fn lemma_entry_bytes_determine(b: Seq<u8>, e1: GptEntry, e2: GptEntry)
    requires
        entry_bytes(b, e1),
        entry_bytes(b, e2),
    ensures
        e1 == e2,
{
    assert(e1.type_guid =~= e2.type_guid) by {
        assert forall|i: int| 0 <= i < 16 implies e1.type_guid[i] == e2.type_guid[i] by {
            assert(e1.type_guid@[i] == b.subrange(0, 16)[i]);
            assert(e2.type_guid@[i] == b.subrange(0, 16)[i]);
        }
    }
    assert(e1.unique_guid =~= e2.unique_guid) by {
        assert forall|i: int| 0 <= i < 16 implies e1.unique_guid[i] == e2.unique_guid[i] by {
            assert(e1.unique_guid@[i] == b.subrange(16, 32)[i]);
            assert(e2.unique_guid@[i] == b.subrange(16, 32)[i]);
        }
    }
    assert(e1.name =~= e2.name) by {
        assert forall|i: int| 0 <= i < 36 implies e1.name[i] == e2.name[i] by {
            assert(le16(b, 56 + 2 * i) == e1.name@[i]);
            assert(le16(b, 56 + 2 * i) == e2.name@[i]);
        }
    }
}

/// Two entry lists held by the same bytes are the same list.
proof fn lemma_entries_bytes_determine(b: Seq<u8>, es1: Seq<GptEntry>, es2: Seq<GptEntry>)
    requires
        entries_bytes(b, es1),
        entries_bytes(b, es2),
    ensures
        es1 == es2,
{
    assert forall|k: int| 0 <= k < es1.len() implies es1[k] == es2[k] by {
        lemma_entry_bytes_determine(b.subrange(128 * k, 128 * k + 128), es1[k], es2[k]);
    }
    assert(es1 =~= es2);
}

/// Bytes written over a range outside `lo..hi` leave that range as it was.
proof fn lemma_overwrite_outside(s: Seq<u8>, off: int, b: Seq<u8>, lo: int, hi: int)
    requires
        0 <= off,
        off + b.len() <= s.len(),
        0 <= lo <= hi <= s.len(),
        hi <= off || off + b.len() <= lo,
    ensures
        overwrite(s, off, b).len() == s.len(),
        overwrite(s, off, b).subrange(lo, hi) == s.subrange(lo, hi),
{
    assert(overwrite(s, off, b).subrange(lo, hi) =~= s.subrange(lo, hi));
}

/// Bytes written over a range are what the range then holds.
proof fn lemma_overwrite_inside(s: Seq<u8>, off: int, b: Seq<u8>)
    requires
        0 <= off,
        off + b.len() <= s.len(),
    ensures
        overwrite(s, off, b).len() == s.len(),
        overwrite(s, off, b).subrange(off, off + b.len()) == b,
{
    assert(overwrite(s, off, b).subrange(off, off + b.len()) =~= b);
}

/// The layout facts a written table obeys: the primary entries end before
/// the backup entries, which end where the backup header starts.
proof fn lemma_table_layout(n: int, sector: int, last_lba: int)
    requires
        sector >= 512,
        0 <= n <= 128,
        0 <= last_lba <= u64::MAX,
        gpt_fits(n, sector, last_lba),
    ensures
        last_lba >= 36,
        2 * sector + 128 * n <= (last_lba - 32) * sector,
        (last_lba - 32) * sector + 128 * n <= last_lba * sector,
        2 * sector <= (last_lba - 32) * sector,
{
    let q = (n * 128 + sector - 1) / sector;
    assert(q >= 0) by (nonlinear_arith)
        requires q == (n * 128 + sector - 1) / sector, sector > 0, n >= 0;
    assert(last_lba >= 33);
    assert(last_usable_of(last_lba as u64) == last_lba - 33);
    assert(128 * n <= q * sector) by (nonlinear_arith)
        requires q == (n * 128 + sector - 1) / sector, sector > 0, n >= 0;
    assert((2 + q) * sector <= (last_lba - 32) * sector) by (nonlinear_arith)
        requires 2 + q < last_lba - 33, sector > 0;
    assert(2 * sector + q * sector == (2 + q) * sector) by (nonlinear_arith);
    assert((last_lba - 32) * sector + 32 * sector == last_lba * sector) by (nonlinear_arith);
    assert(2 * sector <= (last_lba - 32) * sector) by (nonlinear_arith)
        requires last_lba >= 36, sector > 0;
}

/// A written table reads back: a valid header found at LBA 1 or at the last
/// LBA of bytes laid out by `write_gpt`, with the entries read from where
/// it points, gives the entries and disk GUID that were written.
#[verifier::spinoff_prover]
#[verifier::rlimit(40)]
pub proof fn lemma_written_gpt_reads_back(before: Seq<u8>, after: Seq<u8>, entries: Seq<GptEntry>, guid: Seq<u8>,
    sector: int, last_lba: u64, pos: int, h: GptHeader, es: Seq<GptEntry>)
    requires
        sector >= 512,
        entries.len() <= 128,
        (last_lba + 1) * sector <= before.len(),
        gpt_fits(entries.len() as int, sector, last_lba as int),
        gpt_written(after, before, entries, guid, sector, last_lba),
        pos == sector || pos == last_lba * sector,
        header_at(after, pos, sector, h),
        es.len() == h.num_partition_entries,
        h.partition_entry_lba * sector + 128 * es.len() <= after.len(),
        entries_bytes(after.subrange(h.partition_entry_lba * sector, h.partition_entry_lba * sector + 128 * es.len()), es),
    ensures
        es == entries,
        h.disk_guid@ == guid,
        h.num_partition_entries == entries.len(),
{
    let n = entries.len() as int;
    let bl = last_lba - 32;
    let (m, arr, ph, bh) = choose|m: Seq<u8>, arr: Seq<u8>, ph: Seq<u8>, bh: Seq<u8>| {
        &&& #[trigger] mbr_image(m, mbr_size(last_lba)) && m.len() == sector
        &&& #[trigger] entries_bytes(arr, entries)
        &&& ph.len() == sector && verify_header_spec(ph) is Ok
        &&& #[trigger] header_image(ph, 1, last_lba, 2, crc32_spec(arr), last_usable_of(last_lba), guid, entries.len() as u32)
        &&& bh.len() == sector && verify_header_spec(bh) is Ok
        &&& #[trigger] header_image(bh, last_lba, 1, bl as u64, crc32_spec(arr), last_usable_of(last_lba), guid, entries.len() as u32)
        &&& after == overwrite(overwrite(overwrite(overwrite(overwrite(before, 0, m), 2 * sector, arr),
            bl * sector, arr), sector, ph), last_lba * sector, bh)
    };
    lemma_table_layout(n, sector, last_lba as int);
    assert(last_lba * sector + sector == (last_lba + 1) * sector) by (nonlinear_arith);
    assert(sector <= last_lba * sector) by (nonlinear_arith)
        requires last_lba >= 36, sector > 0;
    let a1 = overwrite(before, 0, m);
    let a2 = overwrite(a1, 2 * sector, arr);
    let a3 = overwrite(a2, bl * sector, arr);
    let a4 = overwrite(a3, sector, ph);
    lemma_overwrite_inside(before, 0, m);
    lemma_overwrite_inside(a1, 2 * sector, arr);
    lemma_overwrite_inside(a2, bl * sector, arr);
    lemma_overwrite_inside(a3, sector, ph);
    lemma_overwrite_inside(a4, last_lba * sector, bh);
    if pos == sector {
        lemma_overwrite_outside(a4, last_lba * sector, bh, sector, 2 * sector);
        assert(after.subrange(sector, sector + sector) == ph);
        assert(h.partition_entry_lba == 2);
        assert(h.disk_guid@ == guid);
        let lo = 2 * sector;
        let hi = 2 * sector + 128 * n;
        lemma_overwrite_outside(a2, bl * sector, arr, lo, hi);
        lemma_overwrite_outside(a3, sector, ph, lo, hi);
        lemma_overwrite_outside(a4, last_lba * sector, bh, lo, hi);
        assert(after.subrange(lo, hi) == arr);
        lemma_entries_bytes_determine(arr, es, entries);
    } else {
        assert(after.subrange(pos, pos + sector) == bh);
        assert(h.partition_entry_lba == bl);
        assert(h.disk_guid@ == guid);
        let lo = bl * sector;
        let hi = bl * sector + 128 * n;
        lemma_overwrite_outside(a3, sector, ph, lo, hi);
        lemma_overwrite_outside(a4, last_lba * sector, bh, lo, hi);
        assert(after.subrange(lo, hi) == arr);
        lemma_entries_bytes_determine(arr, es, entries);
    }
}

/// What `write_gpt` wrote is what `read_gpt` reads: on a device whose bytes
/// `write_gpt` laid out from `before`, a table that `read_gpt` reports
/// holds exactly the entries and the disk GUID written.
pub proof fn lemma_gpt_write_then_read<D: BlockDevice>(dev: &D, before: Seq<u8>, entries: Seq<GptEntry>, guid: Seq<u8>,
    h: GptHeader, es: Seq<GptEntry>)
    requires
        dev.block_size_view() >= 512,
        entries.len() <= 128,
        dev.block_count_view() >= 1,
        dev.block_count_view() * dev.block_size_view() <= before.len(),
        gpt_fits(entries.len() as int, dev.block_size_view() as int, dev.block_count_view() - 1),
        gpt_written(dev.bytes(), before, entries, guid, dev.block_size_view() as int, (dev.block_count_view() - 1) as u64),
        table_read(dev, h, es),
    ensures
        es == entries,
        h.disk_guid@ == guid,
{
    let sector = dev.block_size_view() as int;
    let last_lba = (dev.block_count_view() - 1) as u64;
    let pos = if header_at(dev.bytes(), sector, sector, h) { sector } else { last_lba * sector };
    lemma_written_gpt_reads_back(before, dev.bytes(), entries, guid, sector, last_lba, pos, h, es);
}

} // verus!
