//! Reading and checking a GPT.

use vstd::prelude::*;
use crate::bytes::{le16, le32, le64, lemma_le16_bytes_eq, lemma_le64_bytes_eq, read_u16_le, read_u32_le, read_u64_le};
use crate::gpt::{crc32, crc32_spec, entries_bytes, entry_bytes, gpt_signature, serialize_entries, GptEntry, GptError, GptHeader};
use crate::hal::block::BlockDevice;

verus! {

/// The header fields `h` were read from the bytes `raw`.
pub open spec fn header_fields(raw: Seq<u8>, h: GptHeader) -> bool {
    &&& h.signature@ == raw.subrange(0, 8)
    &&& h.revision@ == raw.subrange(8, 12)
    &&& h.header_size == le32(raw, 12)
    &&& h.header_crc32 == le32(raw, 16)
    &&& h.reserved == le32(raw, 20)
    &&& h.my_lba == le64(raw, 24)
    &&& h.alternate_lba == le64(raw, 32)
    &&& h.first_usable_lba == le64(raw, 40)
    &&& h.last_usable_lba == le64(raw, 48)
    &&& h.disk_guid@ == raw.subrange(56, 72)
    &&& h.partition_entry_lba == le64(raw, 72)
    &&& h.num_partition_entries == le32(raw, 80)
    &&& h.partition_entry_size == le32(raw, 84)
    &&& h.partition_array_crc32 == le32(raw, 88)
}

/// What `validate_header` says of a header: the signature, then the header
/// size, then the entry size must be the standard ones.
pub open spec fn validate_spec(h: GptHeader) -> Result<(), GptError> {
    if h.signature@ != gpt_signature() {
        Err(GptError::InvalidSignature)
    } else if h.header_size != 92 {
        Err(GptError::InvalidHeaderSize)
    } else if h.partition_entry_size != 128 {
        Err(GptError::InvalidEntrySize)
    } else {
        Ok(())
    }
}

/// The first 92 bytes of a header with its checksum field zeroed.
pub open spec fn crc_input(raw: Seq<u8>) -> Seq<u8> {
    raw.subrange(0, 92).update(16, 0).update(17, 0).update(18, 0).update(19, 0)
}

/// The header checksum stored in `raw` matches its contents.
pub open spec fn header_crc_ok(raw: Seq<u8>) -> bool {
    crc32_spec(crc_input(raw)) == le32(raw, 16)
}

/// Read the header fields from raw bytes.
pub fn parse_header(raw: &[u8]) -> (r: Result<GptHeader, GptError>)
    ensures
        r is Err <==> raw@.len() < 92,
        r matches Err(e) ==> e == GptError::InvalidHeaderSize,
        r matches Ok(h) ==> header_fields(raw@, h),
{
    if raw.len() < 92 {
        return Err(GptError::InvalidHeaderSize);
    }
    let signature: [u8; 8] = [raw[0], raw[1], raw[2], raw[3], raw[4], raw[5], raw[6], raw[7]];
    let revision: [u8; 4] = [raw[8], raw[9], raw[10], raw[11]];
    let disk_guid: [u8; 16] = [raw[56], raw[57], raw[58], raw[59], raw[60], raw[61], raw[62], raw[63],
        raw[64], raw[65], raw[66], raw[67], raw[68], raw[69], raw[70], raw[71]];
    let h = GptHeader {
        signature,
        revision,
        header_size: read_u32_le(raw, 12),
        header_crc32: read_u32_le(raw, 16),
        reserved: read_u32_le(raw, 20),
        my_lba: read_u64_le(raw, 24),
        alternate_lba: read_u64_le(raw, 32),
        first_usable_lba: read_u64_le(raw, 40),
        last_usable_lba: read_u64_le(raw, 48),
        disk_guid,
        partition_entry_lba: read_u64_le(raw, 72),
        num_partition_entries: read_u32_le(raw, 80),
        partition_entry_size: read_u32_le(raw, 84),
        partition_array_crc32: read_u32_le(raw, 88),
    };
    assert(h.signature@ =~= raw@.subrange(0, 8));
    assert(h.revision@ =~= raw@.subrange(8, 12));
    assert(h.disk_guid@ =~= raw@.subrange(56, 72));
    Ok(h)
}

/// Check the signature, header size and entry size of a header.
pub fn validate_header(header: &GptHeader) -> (r: Result<(), GptError>)
    ensures
        r == validate_spec(*header),
{
    let s = &header.signature;
    let sig_ok = s[0] == 0x45 && s[1] == 0x46 && s[2] == 0x49 && s[3] == 0x20
        && s[4] == 0x50 && s[5] == 0x41 && s[6] == 0x52 && s[7] == 0x54;
    if !sig_ok {
        proof {
            if header.signature@ == gpt_signature() {
                assert(header.signature@[0] == gpt_signature()[0]);
                assert(header.signature@[1] == gpt_signature()[1]);
                assert(header.signature@[2] == gpt_signature()[2]);
                assert(header.signature@[3] == gpt_signature()[3]);
                assert(header.signature@[4] == gpt_signature()[4]);
                assert(header.signature@[5] == gpt_signature()[5]);
                assert(header.signature@[6] == gpt_signature()[6]);
                assert(header.signature@[7] == gpt_signature()[7]);
            }
        }
        return Err(GptError::InvalidSignature);
    }
    assert(header.signature@ =~= gpt_signature());
    if header.header_size != 92 {
        return Err(GptError::InvalidHeaderSize);
    }
    if header.partition_entry_size != 128 {
        return Err(GptError::InvalidEntrySize);
    }
    Ok(())
}

/// What `parse_and_verify_header` says of raw header bytes.
pub open spec fn verify_header_spec(raw: Seq<u8>) -> Result<(), GptError> {
    if raw.len() < 92 {
        Err(GptError::InvalidHeaderSize)
    } else if raw.subrange(0, 8) != gpt_signature() {
        Err(GptError::InvalidSignature)
    } else if le32(raw, 12) != 92 {
        Err(GptError::InvalidHeaderSize)
    } else if le32(raw, 84) != 128 {
        Err(GptError::InvalidEntrySize)
    } else if !header_crc_ok(raw) {
        Err(GptError::InvalidHeaderCrc)
    } else {
        Ok(())
    }
}

/// Parse a header, check it, and check its checksum (computed over the
/// header size with the checksum field zeroed); returns a copy of the raw
/// bytes with the header.
pub fn parse_and_verify_header(raw: &[u8]) -> (r: Result<(Vec<u8>, GptHeader), GptError>)
    ensures
        r is Ok <==> verify_header_spec(raw@) is Ok,
        r matches Err(e) ==> verify_header_spec(raw@) == Err::<(), GptError>(e),
        r matches Ok((copy, h)) ==> copy@ == raw@ && header_fields(raw@, h),
{
    if raw.len() < 92 {
        return Err(GptError::InvalidHeaderSize);
    }
    let header = match parse_header(raw) {
        Ok(h) => h,
        Err(e) => return Err(e),
    };
    match validate_header(&header) {
        Ok(()) => {},
        Err(e) => return Err(e),
    }
    let stored_crc = header.header_crc32;
    let mut crc_buf = vstd::slice::slice_to_vec(&raw[0..92]);
    crc_buf.set(16, 0);
    crc_buf.set(17, 0);
    crc_buf.set(18, 0);
    crc_buf.set(19, 0);
    assert(crc_buf@ =~= crc_input(raw@));
    if crc32(crc_buf.as_slice()) != stored_crc {
        return Err(GptError::InvalidHeaderCrc);
    }
    Ok((vstd::slice::slice_to_vec(raw), header))
}

/// Read the `sector` bytes at byte position `lba * sector`, if they can be
/// read and start with the GPT signature; sectors over 4096 bytes are
/// refused.
pub fn read_header_raw<D: BlockDevice>(dev: &mut D, lba: u64, sector: u64) -> (r: Option<Vec<u8>>)
    ensures
        final(dev).bytes() == old(dev).bytes(),
        final(dev).block_size_view() == old(dev).block_size_view(),
        final(dev).block_count_view() == old(dev).block_count_view(),
        r matches Some(v) ==> {
            &&& sector <= 4096
            &&& lba * sector <= u64::MAX
            &&& lba * sector + sector <= old(dev).bytes().len()
            &&& v@ == old(dev).bytes().subrange(lba * sector, lba * sector + sector)
            &&& v@.len() >= 8
            &&& v@.subrange(0, 8) == gpt_signature()
        },
{
    if sector > 4096 {
        return None;
    }
    let mut buf: Vec<u8> = vec![0u8; sector as usize];
    let offset = match lba.checked_mul(sector) {
        Some(o) => o,
        None => return None,
    };
    match dev.read_blocks(offset, buf.as_mut_slice()) {
        Ok(()) => {},
        Err(_) => return None,
    }
    if buf.len() < 8 {
        return None;
    }
    if buf[0] == 0x45 && buf[1] == 0x46 && buf[2] == 0x49 && buf[3] == 0x20
        && buf[4] == 0x50 && buf[5] == 0x41 && buf[6] == 0x52 && buf[7] == 0x54 {
        assert(buf@.subrange(0, 8) =~= gpt_signature());
        Some(buf)
    } else {
        None
    }
}

/// The 36 name units of an entry: the little-endian units of `data`, as
/// many as it holds up to 36, the rest zero.
pub open spec fn name_units(data: Seq<u8>, i: int) -> u16 {
    if i < 36 && 2 * i + 2 <= data.len() { le16(data, 2 * i) as u16 } else { 0 }
}

/// Decode up to 36 little-endian UTF-16 units.
pub fn parse_utf16le(data: &[u8]) -> (r: [u16; 36])
    ensures
        forall|i: int| 0 <= i < 36 ==> #[trigger] r@[i] == name_units(data@, i),
{
    let mut name = [0u16; 36];
    let pairs = data.len() / 2;
    let n = if pairs < 36 { pairs } else { 36 };
    let mut i: usize = 0;
    while i < n
        invariant
            i <= n,
            n <= 36,
            2 * n <= data@.len(),
            n == if data@.len() / 2 < 36 { data@.len() / 2 } else { 36 },
            name@.len() == 36,
            forall|k: int| 0 <= k < i ==> #[trigger] name@[k] == name_units(data@, k),
            forall|k: int| i <= k < 36 ==> #[trigger] name@[k] == 0,
        decreases n - i,
    {
        name[i] = read_u16_le(data, 2 * i);
        i = i + 1;
    }
    name
}

/// Parse one 128-byte partition entry.
pub fn parse_gpt_entry(e: &[u8]) -> (r: Result<GptEntry, GptError>)
    ensures
        r is Err <==> e@.len() < 128,
        r matches Err(err) ==> err == GptError::InvalidEntrySize,
        r matches Ok(entry) ==> entry_bytes(e@.subrange(0, 128), entry),
{
    if e.len() < 128 {
        return Err(GptError::InvalidEntrySize);
    }
    let type_guid: [u8; 16] = [e[0], e[1], e[2], e[3], e[4], e[5], e[6], e[7],
        e[8], e[9], e[10], e[11], e[12], e[13], e[14], e[15]];
    let unique_guid: [u8; 16] = [e[16], e[17], e[18], e[19], e[20], e[21], e[22], e[23],
        e[24], e[25], e[26], e[27], e[28], e[29], e[30], e[31]];
    let name = parse_utf16le(&e[56..128]);
    let entry = GptEntry {
        type_guid,
        unique_guid,
        start_lba: read_u64_le(e, 32),
        end_lba: read_u64_le(e, 40),
        attributes: read_u64_le(e, 48),
        name,
    };
    proof {
        let b = e@.subrange(0, 128);
        assert(b.subrange(0, 16) =~= entry.type_guid@);
        assert(b.subrange(16, 32) =~= entry.unique_guid@);
        assert forall|i: int| 0 <= i < 36 implies le16(b, 56 + 2 * i) == #[trigger] entry.name@[i] by {
            assert(entry.name@[i] == name_units(e@.subrange(56, 128), i));
        }
    }
    Ok(entry)
}

/// Check the stored checksum of an entry array.
pub fn verify_entries_crc(entries: &[GptEntry], stored: u32) -> (r: Result<(), GptError>)
    requires
        128 * entries@.len() <= usize::MAX,
    ensures
        r is Ok <==> (forall|b: Seq<u8>| #[trigger] entries_bytes(b, entries@) ==> crc32_spec(b) == stored),
        r matches Err(e) ==> e == GptError::InvalidEntriesCrc,
{
    let raw = serialize_entries(entries);
    proof { lemma_entries_bytes_unique(raw@, entries@); }
    if crc32(raw.as_slice()) == stored {
        Ok(())
    } else {
        Err(GptError::InvalidEntriesCrc)
    }
}

/// An entry is held by exactly one byte string.
pub proof fn lemma_entry_bytes_unique(a: Seq<u8>, b: Seq<u8>, e: GptEntry)
    requires
        entry_bytes(a, e),
        entry_bytes(b, e),
    ensures
        a == b,
{
    assert forall|i: int| 0 <= i < 128 implies #[trigger] a[i] == b[i] by {
        if i < 16 {
            assert(a.subrange(0, 16)[i] == b.subrange(0, 16)[i]);
        } else if i < 32 {
            assert(a.subrange(16, 32)[i - 16] == b.subrange(16, 32)[i - 16]);
        } else if i < 56 {
            lemma_le64_bytes_eq(a, b, 32, 32);
            lemma_le64_bytes_eq(a, b, 40, 40);
            lemma_le64_bytes_eq(a, b, 48, 48);
            if i < 40 {
                assert(a[32 + (i - 32)] == b[32 + (i - 32)]);
            } else if i < 48 {
                assert(a[40 + (i - 40)] == b[40 + (i - 40)]);
            } else {
                assert(a[48 + (i - 48)] == b[48 + (i - 48)]);
            }
        } else {
            let k = (i - 56) / 2;
            assert(le16(a, 56 + 2 * k) == e.name@[k]);
            lemma_le16_bytes_eq(a, b, 56 + 2 * k, 56 + 2 * k);
        }
    }
    assert(a =~= b);
}

/// An entry array is held by exactly one byte string.
pub proof fn lemma_entries_bytes_unique(a: Seq<u8>, es: Seq<GptEntry>)
    requires
        entries_bytes(a, es),
    ensures
        forall|b: Seq<u8>| #[trigger] entries_bytes(b, es) ==> b == a,
{
    assert forall|b: Seq<u8>| #[trigger] entries_bytes(b, es) implies b == a by {
        assert forall|i: int| 0 <= i < a.len() implies #[trigger] a[i] == b[i] by {
            let k = i / 128;
            assert(0 <= k < es.len()) by (nonlinear_arith)
                requires 0 <= i < a.len(), a.len() == 128 * es.len(), k == i / 128;
            assert(128 * k <= i < 128 * k + 128) by (nonlinear_arith)
                requires k == i / 128, 0 <= i;
            lemma_entry_bytes_unique(a.subrange(128 * k, 128 * k + 128), b.subrange(128 * k, 128 * k + 128), es[k]);
            assert(a.subrange(128 * k, 128 * k + 128)[i - 128 * k] == b.subrange(128 * k, 128 * k + 128)[i - 128 * k]);
        }
        assert(a =~= b);
    }
}


/// Read the entry array a header points to: at most 512 entries of 128
/// bytes, at byte position `partition_entry_lba * sector`.
pub fn read_entries<D: BlockDevice>(dev: &mut D, sector: u64, h: &GptHeader) -> (r: Result<Vec<GptEntry>, GptError>)
    ensures
        final(dev).bytes() == old(dev).bytes(),
        final(dev).block_size_view() == old(dev).block_size_view(),
        final(dev).block_count_view() == old(dev).block_count_view(),
        h.partition_entry_size != 128 ==> r == Err::<Vec<GptEntry>, GptError>(GptError::InvalidEntrySize),
        h.partition_entry_size == 128 && h.num_partition_entries > 512
            ==> r == Err::<Vec<GptEntry>, GptError>(GptError::InvalidHeaderSize),
        h.partition_entry_size == 128 && h.num_partition_entries <= 512 && h.partition_entry_lba * sector > u64::MAX
            ==> r == Err::<Vec<GptEntry>, GptError>(GptError::Overflow),
        r matches Ok(es) ==> {
            &&& h.partition_entry_size == 128
            &&& es@.len() == h.num_partition_entries
            &&& h.partition_entry_lba * sector + 128 * es@.len() <= old(dev).bytes().len()
            &&& entries_bytes(old(dev).bytes().subrange(h.partition_entry_lba * sector,
                    h.partition_entry_lba * sector + 128 * es@.len()), es@)
        },
        r matches Err(e) ==> e == GptError::InvalidEntrySize || e == GptError::InvalidHeaderSize
            || e == GptError::Overflow || e == GptError::IoError,
{
    if h.partition_entry_size != 128 {
        return Err(GptError::InvalidEntrySize);
    }
    if h.num_partition_entries > 512 {
        return Err(GptError::InvalidHeaderSize);
    }
    let n = h.num_partition_entries as usize;
    let total = n * 128;
    let mut buf: Vec<u8> = vec![0u8; total];
    let offset = match h.partition_entry_lba.checked_mul(sector) {
        Some(o) => o,
        None => return Err(GptError::Overflow),
    };
    match dev.read_blocks(offset, buf.as_mut_slice()) {
        Ok(()) => {},
        Err(_) => return Err(GptError::IoError),
    }
    let ghost b = buf@;
    let mut entries: Vec<GptEntry> = Vec::new();
    let mut k: usize = 0;
    while k < n
        invariant
            k <= n,
            n <= 512,
            buf@ == b,
            b.len() == 128 * n,
            entries@.len() == k,
            forall|j: int| 0 <= j < k ==> entry_bytes(#[trigger] b.subrange(128 * j, 128 * j + 128), entries@[j]),
        decreases n - k,
    {
        let chunk = &buf[128 * k..128 * k + 128];
        let e = match parse_gpt_entry(chunk) {
            Ok(e) => e,
            Err(err) => return Err(err),
        };
        assert(chunk@.subrange(0, 128) =~= b.subrange(128 * k, 128 * k + 128));
        entries.push(e);
        k = k + 1;
    }
    Ok(entries)
}

/// A valid GPT header is stored in the `sector` bytes at `pos`, and `h`
/// holds its fields.
pub open spec fn header_at(bytes: Seq<u8>, pos: int, sector: int, h: GptHeader) -> bool {
    let raw = bytes.subrange(pos, pos + sector);
    &&& 0 <= pos
    &&& pos + sector <= bytes.len()
    &&& verify_header_spec(raw) is Ok
    &&& header_fields(raw, h)
}

/// What a successful read of a GPT found on `dev`: a valid header, primary
/// or backup, and the entries and checksum of the array it points to.
pub open spec fn table_read<D: BlockDevice>(dev: &D, h: GptHeader, es: Seq<GptEntry>) -> bool {
    let sector = dev.block_size_view() as int;
    let bytes = dev.bytes();
    &&& (header_at(bytes, sector, sector, h)
        || (dev.block_count_view() >= 1 && header_at(bytes, (dev.block_count_view() - 1) * sector, sector, h)))
    &&& es.len() == h.num_partition_entries
    &&& h.partition_entry_lba * sector + 128 * es.len() <= bytes.len()
    &&& entries_bytes(bytes.subrange(h.partition_entry_lba * sector, h.partition_entry_lba * sector + 128 * es.len()), es)
    &&& crc32_spec(bytes.subrange(h.partition_entry_lba * sector, h.partition_entry_lba * sector + 128 * es.len()))
        == h.partition_array_crc32
}

/// Read and check a GPT: the primary header at LBA 1, else the backup at
/// the last LBA; then its entry array, whose checksum must match.
pub fn read_gpt<D: BlockDevice>(dev: &mut D) -> (r: Result<(GptHeader, Vec<GptEntry>), GptError>)
    ensures
        final(dev).bytes() == old(dev).bytes(),
        final(dev).block_size_view() == old(dev).block_size_view(),
        final(dev).block_count_view() == old(dev).block_count_view(),
        r matches Ok((h, es)) ==> table_read(&*old(dev), h, es@),
{
    let sector = dev.block_size() as u64;
    let ghost bytes = dev.bytes();
    let primary = match read_header_raw(dev, 1, sector) {
        Some(raw) => match parse_and_verify_header(raw.as_slice()) {
            Ok((copy, _)) => {
                assert(copy@ == bytes.subrange(sector as int, sector + sector));
                Some(copy)
            },
            Err(_) => None,
        },
        None => None,
    };
    assert(primary matches Some(v) ==> v@ == bytes.subrange(sector as int, sector + sector)
        && verify_header_spec(v@) is Ok && sector + sector <= bytes.len());
    let ghost mut pos: int = sector as int;
    let header_raw = match primary {
        Some(raw) => raw,
        None => {
            let count = dev.block_count();
            if count == 0 {
                return Err(GptError::InvalidSignature);
            }
            let last_lba = count - 1;
            let raw = match read_header_raw(dev, last_lba, sector) {
                Some(raw) => raw,
                None => return Err(GptError::InvalidSignature),
            };
            proof { pos = last_lba * sector; }
            match parse_and_verify_header(raw.as_slice()) {
                Ok((copy, _)) => {
                    assert(copy@ == bytes.subrange(pos, pos + sector));
                    copy
                },
                Err(e) => return Err(e),
            }
        },
    };
    let header = match parse_header(header_raw.as_slice()) {
        Ok(h) => h,
        Err(e) => return Err(e),
    };
    match validate_header(&header) {
        Ok(()) => {},
        Err(e) => return Err(e),
    }
    assert(header_raw@ == bytes.subrange(pos, pos + sector));
    assert(header_at(bytes, pos, sector as int, header));
    let entries = match read_entries(dev, sector, &header) {
        Ok(es) => es,
        Err(e) => return Err(e),
    };
    proof {
        lemma_entries_bytes_unique(dev.bytes().subrange(header.partition_entry_lba * sector,
            header.partition_entry_lba * sector + 128 * entries@.len()), entries@);
    }
    match verify_entries_crc(entries.as_slice(), header.partition_array_crc32) {
        Ok(()) => {},
        Err(e) => return Err(e),
    }
    Ok((header, entries))
}

} // verus!
