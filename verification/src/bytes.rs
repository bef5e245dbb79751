//! Little-endian integer codecs over byte buffers.

use vstd::prelude::*;

verus! {

/// The value of the little-endian 16-bit integer stored at `off`.
pub open spec fn le16(s: Seq<u8>, off: int) -> int {
    s[off] + 256 * s[off + 1]
}

/// The value of the little-endian 32-bit integer stored at `off`.
pub open spec fn le32(s: Seq<u8>, off: int) -> int {
    le16(s, off) + 65536 * le16(s, off + 2)
}

/// The value of the little-endian 64-bit integer stored at `off`.
pub open spec fn le64(s: Seq<u8>, off: int) -> int {
    le32(s, off) + 4294967296 * le32(s, off + 4)
}

pub fn read_u16_le(buf: &[u8], off: usize) -> (r: u16)
    requires
        off + 2 <= buf@.len(),
    ensures
        r == le16(buf@, off as int),
{
    buf[off] as u16 + (buf[off + 1] as u16) * 256
}

pub fn read_u32_le(buf: &[u8], off: usize) -> (r: u32)
    requires
        off + 4 <= buf@.len(),
    ensures
        r == le32(buf@, off as int),
{
    let _len = buf.len();
    let lo = read_u16_le(buf, off);
    let hi = read_u16_le(buf, off + 2);
    lo as u32 + (hi as u32) * 65536
}

pub fn read_u64_le(buf: &[u8], off: usize) -> (r: u64)
    requires
        off + 8 <= buf@.len(),
    ensures
        r == le64(buf@, off as int),
{
    let _len = buf.len();
    let lo = read_u32_le(buf, off);
    let hi = read_u32_le(buf, off + 4);
    lo as u64 + (hi as u64) * 4294967296
}

pub fn write_u16_le(buf: &mut [u8], off: usize, v: u16)
    requires
        off + 2 <= old(buf)@.len(),
    ensures
        final(buf)@.len() == old(buf)@.len(),
        le16(final(buf)@, off as int) == v,
        forall|i: int| 0 <= i < final(buf)@.len() && !(off <= i < off + 2) ==> final(buf)@[i] == old(buf)@[i],
{
    buf[off] = (v % 256) as u8;
    buf[off + 1] = (v / 256) as u8;
}

pub fn write_u32_le(buf: &mut [u8], off: usize, v: u32)
    requires
        off + 4 <= old(buf)@.len(),
    ensures
        final(buf)@.len() == old(buf)@.len(),
        le32(final(buf)@, off as int) == v,
        forall|i: int| 0 <= i < final(buf)@.len() && !(off <= i < off + 4) ==> final(buf)@[i] == old(buf)@[i],
{
    let _len = buf.len();
    write_u16_le(buf, off, (v % 65536) as u16);
    write_u16_le(buf, off + 2, (v / 65536) as u16);
}

pub fn write_u64_le(buf: &mut [u8], off: usize, v: u64)
    requires
        off + 8 <= old(buf)@.len(),
    ensures
        final(buf)@.len() == old(buf)@.len(),
        le64(final(buf)@, off as int) == v,
        forall|i: int| 0 <= i < final(buf)@.len() && !(off <= i < off + 8) ==> final(buf)@[i] == old(buf)@[i],
{
    let _len = buf.len();
    write_u32_le(buf, off, (v % 4294967296) as u32);
    write_u32_le(buf, off + 4, (v / 4294967296) as u32);
}


/// Equal 16-bit values are stored in equal bytes.
pub proof fn lemma_le16_bytes_eq(a: Seq<u8>, b: Seq<u8>, oa: int, ob: int)
    requires
        le16(a, oa) == le16(b, ob),
    ensures
        a[oa] == b[ob],
        a[oa + 1] == b[ob + 1],
{
}

/// Equal 32-bit values are stored in equal bytes.
pub proof fn lemma_le32_bytes_eq(a: Seq<u8>, b: Seq<u8>, oa: int, ob: int)
    requires
        le32(a, oa) == le32(b, ob),
    ensures
        a[oa] == b[ob],
        a[oa + 1] == b[ob + 1],
        a[oa + 2] == b[ob + 2],
        a[oa + 3] == b[ob + 3],
{
    let (x0, x1, y0, y1) = (le16(a, oa), le16(a, oa + 2), le16(b, ob), le16(b, ob + 2));
    assert(x0 == y0 && x1 == y1) by (nonlinear_arith)
        requires
            0 <= x0 < 65536, 0 <= x1 < 65536, 0 <= y0 < 65536, 0 <= y1 < 65536,
            x0 + 65536 * x1 == y0 + 65536 * y1;
    lemma_le16_bytes_eq(a, b, oa, ob);
    lemma_le16_bytes_eq(a, b, oa + 2, ob + 2);
}

/// Equal 64-bit values are stored in equal bytes.
pub proof fn lemma_le64_bytes_eq(a: Seq<u8>, b: Seq<u8>, oa: int, ob: int)
    requires
        le64(a, oa) == le64(b, ob),
    ensures
        forall|k: int| 0 <= k < 8 ==> #[trigger] a[oa + k] == b[ob + k],
{
    let (x0, x1, y0, y1) = (le32(a, oa), le32(a, oa + 4), le32(b, ob), le32(b, ob + 4));
    assert(x0 == y0 && x1 == y1) by (nonlinear_arith)
        requires
            0 <= x0 < 4294967296, 0 <= x1 < 4294967296, 0 <= y0 < 4294967296, 0 <= y1 < 4294967296,
            x0 + 4294967296 * x1 == y0 + 4294967296 * y1;
    lemma_le32_bytes_eq(a, b, oa, ob);
    lemma_le32_bytes_eq(a, b, oa + 4, ob + 4);
    assert forall|k: int| 0 <= k < 8 implies #[trigger] a[oa + k] == b[ob + k] by {
        if k == 4 { assert(a[oa + 4] == b[ob + 4]); }
        if k == 5 { assert(a[(oa + 4) + 1] == b[(ob + 4) + 1]); }
        if k == 6 { assert(a[(oa + 4) + 2] == b[(ob + 4) + 2]); }
        if k == 7 { assert(a[(oa + 4) + 3] == b[(ob + 4) + 3]); }
    }
}

} // verus!
