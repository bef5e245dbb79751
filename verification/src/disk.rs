//! The disk image the kernel boots from: a 64 MiB disk of 512-byte sectors
//! holding one data partition in a GPT, laid out here byte for byte.

use vstd::prelude::*;
use crate::gpt::{crc32, crc32_spec, entries_bytes, serialize_entries, GptEntry};
use crate::gpt::read::verify_header_spec;
use crate::gpt::write::{build_header, finalize_header_crc, header_image, lemma_finalized_header_verifies, mbr_image};
use crate::bytes::{le16, le32, le64, read_u16_le, read_u64_le, write_u32_le};
use crate::text::{decimal_text, push_char, push_decimal};
use crate::ntfs::boot::ntfs_oem_id;
use crate::vfs::mount::{begins, begins_with};

verus! {

pub const SECTOR_SIZE: u64 = 512;
pub const DISK_SIZE_MB: u64 = 64;
pub const DISK_SIZE_BYTES: u64 = 67108864;
pub const TOTAL_SECTORS: u64 = 131072;
pub const PARTITION_START_LBA: u64 = 34;
pub const PARTITION_END_LBA: u64 = 131038;
pub const PARTITION_BYTE_OFFSET: u64 = 17408;
pub const PARTITION_BYTE_SIZE: u64 = 67074560;

/// The disk GUID of the image.
pub const IMAGE_DISK_GUID: [u8; 16] = [0xA1, 0xB2, 0xC3, 0xD4, 0xE5, 0xF6, 0x47, 0x18, 0x89, 0x9A, 0xAB, 0xCD, 0xEF, 0x01, 0x23, 0x45];

/// Microsoft basic data partition type, {EBD0A0A2-B9E5-4433-87C0-68B6B72699C7}.
pub const BASIC_DATA_GUID: [u8; 16] = [0xA2, 0xA0, 0xD0, 0xEB, 0xE5, 0xB9, 0x33, 0x44, 0x87, 0xC0, 0x68, 0xB6, 0xB7, 0x26, 0x99, 0xC7];

/// The unique GUID of the data partition.
pub const IMAGE_PARTITION_GUID: [u8; 16] = [0x11, 0x22, 0x33, 0x44, 0x55, 0x66, 0x47, 0x78, 0x99, 0xAA, 0xBB, 0xCC, 0xDD, 0xEE, 0xFF, 0x00];

/// The partition name "KRNLDISK" in UTF-16 units, zero-padded.
pub const IMAGE_PARTITION_NAME: [u16; 36] = [0x4B, 0x52, 0x4E, 0x4C, 0x44, 0x49, 0x53, 0x4B, 0, 0, 0, 0, 0, 0, 0, 0, 0, 0,
    0, 0, 0, 0, 0, 0, 0, 0, 0, 0, 0, 0, 0, 0, 0, 0, 0, 0];

/// An all-zero GUID.
pub const ZERO_GUID: [u8; 16] = [0, 0, 0, 0, 0, 0, 0, 0, 0, 0, 0, 0, 0, 0, 0, 0];

/// An empty partition name.
pub const EMPTY_NAME: [u16; 36] = [0, 0, 0, 0, 0, 0, 0, 0, 0, 0, 0, 0, 0, 0, 0, 0, 0, 0, 0, 0, 0, 0, 0, 0, 0, 0, 0, 0, 0, 0, 0, 0, 0, 0, 0, 0];

/// The last LBA of the disk.
pub open spec fn image_last_lba() -> u64 {
    (TOTAL_SECTORS - 1) as u64
}

/// The data partition's entry.
pub open spec fn image_entry() -> GptEntry {
    GptEntry {
        type_guid: BASIC_DATA_GUID,
        unique_guid: IMAGE_PARTITION_GUID,
        start_lba: PARTITION_START_LBA,
        end_lba: PARTITION_END_LBA,
        attributes: 0,
        name: IMAGE_PARTITION_NAME,
    }
}

/// An unused entry: all zeros.
pub open spec fn zero_entry() -> GptEntry {
    GptEntry { type_guid: ZERO_GUID, unique_guid: ZERO_GUID, start_lba: 0, end_lba: 0, attributes: 0, name: EMPTY_NAME }
}

/// The 128 entries of the image: the data partition, then unused entries.
pub open spec fn image_entries() -> Seq<GptEntry> {
    Seq::new(128, |i: int| if i == 0 { image_entry() } else { zero_entry() })
}

/// The image's protective MBR: a jump-to-self stub in its first three
/// bytes, the rest as any protective MBR covering the disk past LBA 0.
pub open spec fn image_mbr(m: Seq<u8>) -> bool {
    &&& m.len() == 512
    &&& m[0] == 0xEB && m[1] == 0xFE && m[2] == 0x90
    &&& mbr_image(m.update(0, 0u8).update(1, 0u8).update(2, 0u8), (TOTAL_SECTORS - 1) as u32)
}

/// The bytes of the image's GPT, each to be written at its own place:
/// the MBR at LBA 0, the primary header at LBA 1, the entry array at LBA 2
/// and at LBA `TOTAL_SECTORS - 33`, the backup header at the last LBA.
pub struct ImageGpt {
    pub mbr: Vec<u8>,
    pub entries: Vec<u8>,
    pub primary: Vec<u8>,
    pub secondary: Vec<u8>,
}

/// A GPT header of the image: at `my_lba`, its twin at `alt_lba`, entries
/// at `entries_lba` with checksum `entries_crc`; usable space from LBA 34
/// to `TOTAL_SECTORS - 34`, 128 entries of 128 bytes, the image's disk
/// GUID, and its own checksum in place.
pub fn gpt_header(my_lba: u64, alt_lba: u64, entries_lba: u64, entries_crc: u32) -> (h: Vec<u8>)
    ensures
        h@.len() == 512,
        header_image(h@, my_lba, alt_lba, entries_lba, entries_crc, (TOTAL_SECTORS - 34) as u64, IMAGE_DISK_GUID@, 128),
        verify_header_spec(h@) is Ok,
{
    let guid = IMAGE_DISK_GUID;
    let built = build_header(my_lba, alt_lba, entries_lba, entries_crc, TOTAL_SECTORS - 1, 512, &guid, 128);
    let mut h = match built {
        Ok(h) => h,
        Err(_) => {
            return Vec::new();
        },
    };
    let ghost h0 = h@;
    finalize_header_crc(&mut h);
    proof {
        lemma_finalized_header_verifies(h0, h@, my_lba, alt_lba, entries_lba, entries_crc, (TOTAL_SECTORS - 34) as u64,
            IMAGE_DISK_GUID@, 128);
    }
    h
}

/// The image's protective MBR.
pub fn image_mbr_bytes() -> (m: Vec<u8>)
    ensures
        image_mbr(m@),
{
    let mut m: Vec<u8> = vec![0u8; 512];
    m.set(446, 0x00);
    m.set(447, 0x00);
    m.set(448, 0x02);
    m.set(449, 0x00);
    m.set(450, 0xEE);
    m.set(451, 0xFF);
    m.set(452, 0xFF);
    m.set(453, 0xFF);
    let ghost m1 = m@;
    write_u32_le(m.as_mut_slice(), 454, 1);
    write_u32_le(m.as_mut_slice(), 458, (TOTAL_SECTORS - 1) as u32);
    m.set(510, 0x55);
    m.set(511, 0xAA);
    let ghost m2 = m@;
    m.set(0, 0xEB);
    m.set(1, 0xFE);
    m.set(2, 0x90);
    proof {
        let z = m@.update(0, 0u8).update(1, 0u8).update(2, 0u8);
        assert(z =~= m2);
        assert forall|i: int| 0 <= i < 454 implies #[trigger] m2[i] == m1[i] by {}
        assert(le32(m2, 454) == 1);
        assert(mbr_image(m2, (TOTAL_SECTORS - 1) as u32));
    }
    m
}

/// The image's entry array.
pub fn image_entry_array() -> (arr: Vec<u8>)
    ensures
        entries_bytes(arr@, image_entries()),
{
    let mut list: Vec<GptEntry> = Vec::new();
    list.push(GptEntry {
        type_guid: BASIC_DATA_GUID,
        unique_guid: IMAGE_PARTITION_GUID,
        start_lba: PARTITION_START_LBA,
        end_lba: PARTITION_END_LBA,
        attributes: 0,
        name: IMAGE_PARTITION_NAME,
    });
    let mut k: usize = 1;
    while k < 128
        invariant
            1 <= k <= 128,
            list@.len() == k,
            forall|i: int| 0 <= i < k ==> #[trigger] list@[i] == image_entries()[i],
        decreases 128 - k,
    {
        list.push(GptEntry { type_guid: ZERO_GUID, unique_guid: ZERO_GUID, start_lba: 0, end_lba: 0, attributes: 0, name: EMPTY_NAME });
        k = k + 1;
    }
    assert(list@ =~= image_entries());
    serialize_entries(list.as_slice())
}

/// Lay out the image's GPT: MBR, entry array, and the two headers that
/// point at each other and carry the entry array's checksum.
pub fn image_gpt() -> (g: ImageGpt)
    ensures
        image_mbr(g.mbr@),
        entries_bytes(g.entries@, image_entries()),
        g.primary@.len() == 512 && verify_header_spec(g.primary@) is Ok,
        header_image(g.primary@, 1, image_last_lba(), 2, crc32_spec(g.entries@), (TOTAL_SECTORS - 34) as u64,
            IMAGE_DISK_GUID@, 128),
        g.secondary@.len() == 512 && verify_header_spec(g.secondary@) is Ok,
        header_image(g.secondary@, image_last_lba(), 1, (image_last_lba() - 32) as u64, crc32_spec(g.entries@),
            (TOTAL_SECTORS - 34) as u64, IMAGE_DISK_GUID@, 128),
{
    let mbr = image_mbr_bytes();
    let entries = image_entry_array();
    let crc = crc32(entries.as_slice());
    let last_lba = TOTAL_SECTORS - 1;
    let primary = gpt_header(1, last_lba, 2, crc);
    let secondary = gpt_header(last_lba, 1, last_lba - 32, crc);
    ImageGpt { mbr, entries, primary, secondary }
}

/// The script that formats the image's partition with `mkntfs`, in the
/// pieces that stand between the image path, the partition figures, the
/// privilege command and the formatting tool.
pub const SCRIPT_HEAD: &'static str = "set -euo pipefail\nIMG=\"";
pub const SCRIPT_OFFSET: &'static str = "\"\nOFFSET=";
pub const SCRIPT_SIZE: &'static str = "\nSIZE=";
pub const SCRIPT_START: &'static str = "\nPART_START=";
pub const SCRIPT_LOOP: &'static str = "\n\n[ -f \"$IMG\" ] || { echo \"ERROR: $IMG not found\" >&2; exit 1; }\n\necho \"[ntfs] setting up loop device...\"\nLOOP=$(";
pub const SCRIPT_CLEANUP: &'static str = " losetup -f --show --offset=\"$OFFSET\" --sizelimit=\"$SIZE\" \"$IMG\")\necho \"[ntfs] loop: $LOOP\"\n\ncleanup() { ";
pub const SCRIPT_FORMAT: &'static str = " losetup -d \"$LOOP\" 2>/dev/null || true; }\ntrap cleanup EXIT\n\necho \"[ntfs] formatting...\"\n";
pub const SCRIPT_SPACE: &'static str = " ";
pub const SCRIPT_TAIL: &'static str = " \\\n    -F \\\n    -L KRNLDISK \\\n    -s 512 \\\n    -c 512  \\\n    -p \"$PART_START\" \\\n    -H 255 \\\n    -S 63 \\\n    -Q \\\n    \"$LOOP\"\n\necho \"[ntfs] done.\"\n";

/// The formatting script for the image at `img`, run with the privilege
/// command `sudo` (empty when none is needed) and the tool `tool`.
pub open spec fn mkntfs_script_text(img: Seq<char>, sudo: Seq<char>, tool: Seq<char>) -> Seq<char> {
    SCRIPT_HEAD@ + img + SCRIPT_OFFSET@ + decimal_text(PARTITION_BYTE_OFFSET as nat) + SCRIPT_SIZE@
        + decimal_text(PARTITION_BYTE_SIZE as nat) + SCRIPT_START@ + decimal_text(PARTITION_START_LBA as nat)
        + SCRIPT_LOOP@ + sudo + SCRIPT_CLEANUP@ + sudo + SCRIPT_FORMAT@ + sudo + SCRIPT_SPACE@ + tool + SCRIPT_TAIL@
}

/// The shell script that attaches the partition region of the image at
/// `img` to a loop device and formats it with `tool`.
pub fn mkntfs_script_with_tool(img: &str, sudo: &str, tool: &str) -> (r: String)
    ensures
        r@ == mkntfs_script_text(img@, sudo@, tool@),
{
    let mut s = String::from_str(SCRIPT_HEAD);
    s.append(img);
    s.append(SCRIPT_OFFSET);
    push_decimal(&mut s, PARTITION_BYTE_OFFSET);
    s.append(SCRIPT_SIZE);
    push_decimal(&mut s, PARTITION_BYTE_SIZE);
    s.append(SCRIPT_START);
    push_decimal(&mut s, PARTITION_START_LBA);
    s.append(SCRIPT_LOOP);
    s.append(sudo);
    s.append(SCRIPT_CLEANUP);
    s.append(sudo);
    s.append(SCRIPT_FORMAT);
    s.append(sudo);
    s.append(SCRIPT_SPACE);
    s.append(tool);
    s.append(SCRIPT_TAIL);
    s
}

/// The formatting script with the `mkntfs` tool.
pub fn mkntfs_script(img: &str, sudo: &str) -> (r: String)
    ensures
        r@ == mkntfs_script_text(img@, sudo@, "mkntfs"@),
{
    mkntfs_script_with_tool(img, sudo, "mkntfs")
}

/// The prefix of a Windows extended-length path, `\\?\`.
pub open spec fn long_path_prefix() -> Seq<char> {
    seq!['\\', '\\', '?', '\\']
}

/// How many bytes `c` takes in UTF-8.
pub open spec fn utf8_len(c: char) -> int {
    if (c as u32) < 0x80 { 1 } else if (c as u32) < 0x800 { 2 } else if (c as u32) < 0x10000 { 3 } else { 4 }
}

/// `c` with an ASCII capital letter made small.
pub open spec fn ascii_lower(c: char) -> char {
    if 'A' <= c && c <= 'Z' { ((c as u32) + 32) as char } else { c }
}

/// `s` with every `\` turned into `/`.
pub open spec fn forward_slashes(s: Seq<char>) -> Seq<char> {
    s.map_values(|c: char| if c == '\\' { '/' } else { c })
}

/// `s` without its extended-length prefix, if it has one.
pub open spec fn without_long_prefix(s: Seq<char>) -> Seq<char> {
    if begins(long_path_prefix(), s) { s.subrange(4, s.len() as int) } else { s }
}

/// A path whose second character is `:` starts with a drive letter.
pub open spec fn has_drive(t: Seq<char>) -> bool {
    t.len() >= 2 && t[1] == ':'
}

/// The WSL path of a Windows path: `C:\a\b` is `/mnt/c/a/b`. What follows
/// the drive starts at the path's third byte.
pub open spec fn wsl_path_of(s: Seq<char>) -> Option<Seq<char>> {
    let t = without_long_prefix(s);
    if has_drive(t) {
        let rest = if utf8_len(t[0]) == 1 { t.subrange(2, t.len() as int) } else { t.subrange(1, t.len() as int) };
        Some(seq!['/', 'm', 'n', 't', '/'] + seq![ascii_lower(t[0])] + forward_slashes(rest))
    } else {
        None
    }
}

/// The WSL path of a Windows path given as a drive letter, a colon and
/// the rest, after an extended-length prefix if there is one; `None` for
/// a path without a drive. A drive character of three or more UTF-8 bytes
/// splits no path.
pub fn wsl_path_fallback(path: &str) -> (r: Option<String>)
    requires
        has_drive(without_long_prefix(path@)) ==> utf8_len(without_long_prefix(path@)[0]) <= 2,
    ensures
        r is None <==> wsl_path_of(path@) is None,
        r matches Some(w) ==> wsl_path_of(path@) == Some(w@),
{
    let n = path.unicode_len();
    proof {
        reveal_strlit("\\\\?\\");
    }
    assert("\\\\?\\"@ =~= long_path_prefix());
    let start: usize = if begins_with(path, "\\\\?\\") { 4 } else { 0 };
    let ghost t = without_long_prefix(path@);
    assert(t =~= path@.subrange(start as int, n as int));
    if n - start < 2 || path.get_char(start + 1) != ':' {
        return None;
    }
    let c0 = path.get_char(start);
    let code = c0 as u32;
    let lower = if 'A' <= c0 && c0 <= 'Z' { ((code + 32) as u8) as char } else { c0 };
    let from = if code < 0x80 { start + 2 } else { start + 1 };
    let mut w = String::new();
    push_char(&mut w, '/');
    push_char(&mut w, 'm');
    push_char(&mut w, 'n');
    push_char(&mut w, 't');
    push_char(&mut w, '/');
    push_char(&mut w, lower);
    let ghost head = w@;
    let mut i = from;
    while i < n
        invariant
            from <= i <= n,
            n == path@.len(),
            w@ == head + forward_slashes(path@.subrange(from as int, i as int)),
        decreases n - i,
    {
        let c = path.get_char(i);
        push_char(&mut w, if c == '\\' { '/' } else { c });
        assert(path@.subrange(from as int, i as int + 1) =~= path@.subrange(from as int, i as int).push(c));
        assert(forward_slashes(path@.subrange(from as int, i as int + 1))
            =~= forward_slashes(path@.subrange(from as int, i as int)).push(if c == '\\' { '/' } else { c }));
        i = i + 1;
    }
    proof {
        let rest = if utf8_len(t[0]) == 1 { t.subrange(2, t.len() as int) } else { t.subrange(1, t.len() as int) };
        assert(rest =~= path@.subrange(from as int, n as int));
        assert(head =~= seq!['/', 'm', 'n', 't', '/'] + seq![ascii_lower(t[0])]);
    }
    Some(w)
}

/// What the formatted image's boot sector says of the file system.
#[derive(Debug, Clone, Copy, PartialEq, Eq, Structural)]
pub struct ImageNtfsInfo {
    pub bytes_per_sector: u16,
    pub sectors_per_cluster: u8,
    pub mft_lcn: u64,
    pub serial: u64,
}

/// Read the boot sector of the image's partition: `None` unless it carries
/// the NTFS OEM ID at byte 3, else its sector size (byte 0x0B), cluster size
/// in sectors (byte 0x0D), MFT cluster (byte 0x30) and serial number
/// (byte 0x48).
pub fn read_image_info(sector: &[u8]) -> (r: Option<ImageNtfsInfo>)
    requires
        sector@.len() >= 512,
    ensures
        r is Some <==> sector@.subrange(3, 11) == ntfs_oem_id(),
        r matches Some(i) ==> {
            &&& i.bytes_per_sector == le16(sector@, 0x0B)
            &&& i.sectors_per_cluster == sector@[0x0D]
            &&& i.mft_lcn == le64(sector@, 0x30)
            &&& i.serial == le64(sector@, 0x48)
        },
{
    let oem: [u8; 8] = [0x4E, 0x54, 0x46, 0x53, 0x20, 0x20, 0x20, 0x20];
    let mut i: usize = 0;
    while i < 8
        invariant
            i <= 8,
            sector@.len() >= 512,
            oem@ == ntfs_oem_id(),
            forall|j: int| 0 <= j < i ==> sector@[3 + j] == oem@[j],
        decreases 8 - i,
    {
        if sector[3 + i] != oem[i] {
            assert(sector@.subrange(3, 11)[i as int] != ntfs_oem_id()[i as int]);
            return None;
        }
        i = i + 1;
    }
    assert(sector@.subrange(3, 11) =~= ntfs_oem_id());
    Some(ImageNtfsInfo {
        bytes_per_sector: read_u16_le(sector, 0x0B),
        sectors_per_cluster: sector[0x0D],
        mft_lcn: read_u64_le(sector, 0x30),
        serial: read_u64_le(sector, 0x48),
    })
}

/// The byte of the disk image at which the MFT starts.
pub fn mft_disk_offset(info: &ImageNtfsInfo) -> (r: u64)
    requires
        PARTITION_BYTE_OFFSET + info.mft_lcn * info.bytes_per_sector * info.sectors_per_cluster <= u64::MAX,
    ensures
        r == PARTITION_BYTE_OFFSET + info.mft_lcn * info.bytes_per_sector * info.sectors_per_cluster,
{
    let a = info.mft_lcn;
    let b = info.bytes_per_sector as u64;
    let c = info.sectors_per_cluster as u64;
    proof {
        if c > 0 {
            assert(a * b <= a * b * c) by (nonlinear_arith)
                requires c >= 1, a >= 0, b >= 0;
        } else {
            assert(a * b * c == 0) by (nonlinear_arith)
                requires c == 0;
        }
    }
    let ab = if c == 0 { 0 } else { a * b };
    assert(ab * c == a * b * c) by (nonlinear_arith)
        requires ab == (if c == 0 { 0 } else { a * b });
    PARTITION_BYTE_OFFSET + ab * c
}

} // verus!
