//! Parsing of MFT records: update-sequence fixups, attributes, file names.

use vstd::prelude::*;
use crate::bytes::{le16, le32, le64, read_u16_le, read_u32_le, read_u64_le};
use crate::ntfs::{attribute_type_of, AttributeType, DataRun, NtfsError, NtfsStat, RunView, StatView};
use crate::ntfs::boot::BootSector;
use crate::ntfs::runs::{data_runs_spec, parse_data_runs, runs_decode};
use crate::text::push_char;

verus! {

/// Offset of the last two bytes of the `i`-th 512-byte sector of a record.
pub open spec fn sector_end(i: int) -> int {
    i * 512 - 2
}

/// Update sequence offset stored in the record header.
pub open spec fn usa_offset(s: Seq<u8>) -> int {
    le16(s, 4)
}

/// Update sequence count stored in the record header.
pub open spec fn usa_count(s: Seq<u8>) -> int {
    le16(s, 6)
}

/// Whether the header asks for fixups at all.
pub open spec fn fixups_enabled(s: Seq<u8>) -> bool {
    usa_offset(s) >= 48 && usa_count(s) != 0
}

/// Restoring sector ends from the update sequence array, sector `i` onwards.
/// Returns the resulting bytes and whether every sector end carried `seq`.
pub open spec fn apply_from(s: Seq<u8>, uso: int, usc: int, seq: int, i: int) -> (Seq<u8>, bool)
    decreases usc - i,
{
    if i < 1 || i >= usc || sector_end(i) + 2 > s.len() {
        (s, true)
    } else if le16(s, sector_end(i)) != seq {
        (s, false)
    } else {
        let e = sector_end(i);
        apply_from(
            s.update(e, s[uso + 2 * i]).update(e + 1, s[uso + 2 * i + 1]),
            uso,
            usc,
            seq,
            i + 1,
        )
    }
}

/// Every update sequence entry that restoring reads lies inside the record.
pub open spec fn apply_in_bounds(s: Seq<u8>, uso: int, usc: int, seq: int, i: int) -> bool
    decreases usc - i,
{
    if i < 1 || i >= usc || sector_end(i) + 2 > s.len() {
        true
    } else if le16(s, sector_end(i)) != seq {
        true
    } else {
        let e = sector_end(i);
        &&& uso + 2 * i + 2 <= s.len()
        &&& apply_in_bounds(
            s.update(e, s[uso + 2 * i]).update(e + 1, s[uso + 2 * i + 1]),
            uso,
            usc,
            seq,
            i + 1,
        )
    }
}

/// The inputs on which `apply_fixups` can run: a header, and every byte it reads.
pub open spec fn apply_fixups_ok(s: Seq<u8>) -> bool {
    &&& s.len() >= 8
    &&& fixups_enabled(s) ==> {
        &&& usa_offset(s) + 2 <= s.len()
        &&& apply_in_bounds(s, usa_offset(s), usa_count(s), le16(s, usa_offset(s)), 1)
    }
}

/// The record after `apply_fixups`, and whether it succeeded.
pub open spec fn apply_fixups_spec(s: Seq<u8>) -> (Seq<u8>, bool) {
    if !fixups_enabled(s) {
        (s, true)
    } else {
        apply_from(s, usa_offset(s), usa_count(s), le16(s, usa_offset(s)), 1)
    }
}

proof fn lemma_le16_eq_bytes(a: u8, b: u8, c: u8, d: u8)
    ensures
        (a + 256 * b == c + 256 * d) <==> (a == c && b == d),
{
}

/// Apply fixups to an MFT record after reading it from disk: every sector end
/// must carry the sequence number, and is replaced by the original bytes kept
/// in the update sequence array.
pub fn apply_fixups(buf: &mut [u8]) -> (r: Result<(), NtfsError>)
    requires
        apply_fixups_ok(old(buf)@),
    ensures
        final(buf)@ == apply_fixups_spec(old(buf)@).0,
        r is Ok <==> apply_fixups_spec(old(buf)@).1,
        r matches Err(e) ==> e == NtfsError::CorruptedFilesystem,
{
    let len = buf.len();
    let uso = read_u16_le(buf, 4) as usize;
    let usc = read_u16_le(buf, 6) as usize;
    if uso < 48 || usc == 0 {
        return Ok(());
    }
    let seq = read_u16_le(buf, uso);
    let seq_lo = (seq % 256) as u8;
    let seq_hi = (seq / 256) as u8;
    let ghost s0 = buf@;
    let mut i: usize = 1;
    while i < usc && i * 512 <= len
        invariant
            1 <= i <= usc,
            usc <= 65535,
            uso == usa_offset(s0),
            usc == usa_count(s0),
            seq == le16(s0, uso as int),
            seq_lo == seq % 256,
            seq_hi == seq / 256,
            len == buf@.len(),
            len == s0.len(),
            s0 == old(buf)@,
            fixups_enabled(s0),
            apply_from(buf@, uso as int, usc as int, seq as int, i as int)
                == apply_from(s0, uso as int, usc as int, seq as int, 1),
            apply_in_bounds(buf@, uso as int, usc as int, seq as int, i as int),
        decreases usc - i,
    {
        let end = i * 512 - 2;
        proof {
            lemma_le16_eq_bytes(buf@[end as int], buf@[end + 1], seq_lo, seq_hi);
        }
        if buf[end] != seq_lo || buf[end + 1] != seq_hi {
            assert(le16(buf@, end as int) != seq);
            assert(sector_end(i as int) == end);
            assert(apply_from(buf@, uso as int, usc as int, seq as int, i as int) == (buf@, false));
            return Err(NtfsError::CorruptedFilesystem);
        }
        let lo = buf[uso + i * 2];
        let hi = buf[uso + i * 2 + 1];
        buf[end] = lo;
        buf[end + 1] = hi;
        i = i + 1;
    }
    Ok(())
}


/// Sector `j` is one that the fixup loops visit in a record of `len` bytes.
pub open spec fn fixup_visits(j: int, usc: int, len: int) -> bool {
    1 <= j < usc && j * 512 <= len
}

/// Saving sector ends into the update sequence array and stamping the
/// sequence number bytes `lo`, `hi` in their place, sector `i` onwards.
pub open spec fn reapply_from(s: Seq<u8>, uso: int, usc: int, lo: u8, hi: u8, i: int) -> Seq<u8>
    decreases usc - i,
{
    if i < 1 || i >= usc || sector_end(i) + 2 > s.len() {
        s
    } else {
        let e = sector_end(i);
        reapply_from(
            s.update(uso + 2 * i, s[e]).update(uso + 2 * i + 1, s[e + 1]).update(e, lo).update(
                e + 1,
                hi,
            ),
            uso,
            usc,
            lo,
            hi,
            i + 1,
        )
    }
}

proof fn lemma_reapply_from_len(s: Seq<u8>, uso: int, usc: int, lo: u8, hi: u8, i: int)
    requires
        0 <= uso,
        forall|j: int| i <= j && fixup_visits(j, usc, s.len() as int) ==> uso + 2 * j + 2 <= s.len(),
    ensures
        reapply_from(s, uso, usc, lo, hi, i).len() == s.len(),
    decreases usc - i,
{
    if !(i < 1 || i >= usc || sector_end(i) + 2 > s.len()) {
        let e = sector_end(i);
        assert(fixup_visits(i, usc, s.len() as int));
        let s2 = s.update(uso + 2 * i, s[e]).update(uso + 2 * i + 1, s[e + 1]).update(e, lo).update(e + 1, hi);
        assert(s2.len() == s.len());
        lemma_reapply_from_len(s2, uso, usc, lo, hi, i + 1);
    }
}

/// Re-applying fixups keeps the record's length.
pub proof fn lemma_reapply_len(s: Seq<u8>)
    requires
        reapply_fixups_ok(s),
    ensures
        reapply_fixups_spec(s).len() == s.len(),
{
    if fixups_enabled(s) {
        let uso = usa_offset(s);
        lemma_reapply_from_len(s, uso, usa_count(s), s[uso], s[uso + 1], 1);
    }
}

/// The inputs on which `reapply_fixups` can run.
pub open spec fn reapply_fixups_ok(s: Seq<u8>) -> bool {
    &&& s.len() >= 8
    &&& fixups_enabled(s) ==> {
        &&& usa_offset(s) + 2 <= s.len()
        &&& forall|j: int|
            fixup_visits(j, usa_count(s), s.len() as int) ==> usa_offset(s) + 2 * j + 2 <= s.len()
    }
}

/// The record after `reapply_fixups`.
pub open spec fn reapply_fixups_spec(s: Seq<u8>) -> Seq<u8> {
    if !fixups_enabled(s) {
        s
    } else {
        let uso = usa_offset(s);
        reapply_from(s, uso, usa_count(s), s[uso], s[uso + 1], 1)
    }
}

/// Re-apply fixups before writing (the complement of `apply_fixups`): the last
/// two bytes of every sector are saved into the update sequence array and
/// replaced by the sequence number.
pub fn reapply_fixups(buf: &mut [u8]) -> (r: Result<(), NtfsError>)
    requires
        reapply_fixups_ok(old(buf)@),
    ensures
        final(buf)@ == reapply_fixups_spec(old(buf)@),
        r is Ok,
{
    let len = buf.len();
    let uso = read_u16_le(buf, 4) as usize;
    let usc = read_u16_le(buf, 6) as usize;
    if uso < 48 || usc == 0 {
        return Ok(());
    }
    let lo = buf[uso];
    let hi = buf[uso + 1];
    let ghost s0 = buf@;
    let mut i: usize = 1;
    while i < usc && i * 512 <= len
        invariant
            1 <= i <= usc,
            usc <= 65535,
            uso == usa_offset(s0),
            usc == usa_count(s0),
            lo == s0[uso as int],
            hi == s0[uso + 1],
            len == buf@.len(),
            len == s0.len(),
            s0 == old(buf)@,
            fixups_enabled(s0),
            reapply_fixups_ok(s0),
            reapply_from(buf@, uso as int, usc as int, lo, hi, i as int)
                == reapply_fixups_spec(s0),
        decreases usc - i,
    {
        let end = i * 512 - 2;
        assert(fixup_visits(i as int, usc as int, len as int));
        let a = buf[end];
        let b = buf[end + 1];
        buf[uso + i * 2] = a;
        buf[uso + i * 2 + 1] = b;
        buf[end] = lo;
        buf[end + 1] = hi;
        i = i + 1;
    }
    Ok(())
}


/// The update sequence array lies in the record header area, before the end
/// of the first sector, as in every record this driver writes.
pub open spec fn usa_disjoint(s: Seq<u8>) -> bool {
    &&& s.len() >= 8
    &&& usa_offset(s) >= 48
    &&& usa_offset(s) + 2 * usa_count(s) <= 510
}

/// Each visited entry of the update sequence array holds the bytes found at
/// the end of its sector, as after a successful `apply_fixups`.
pub open spec fn fixups_consistent(s: Seq<u8>) -> bool {
    forall|j: int|
        fixup_visits(j, usa_count(s), s.len() as int) ==> {
            &&& s[usa_offset(s) + 2 * j] == s[sector_end(j)]
            &&& s[usa_offset(s) + 2 * j + 1] == s[sector_end(j) + 1]
        }
}

pub open spec fn reapply_expect(s: Seq<u8>, uso: int, usc: int, lo: u8, hi: u8, i: int, k: int) -> u8 {
    let len = s.len() as int;
    if (k + 2) % 512 == 0 && i <= (k + 2) / 512 && fixup_visits((k + 2) / 512, usc, len) {
        lo
    } else if (k + 1) % 512 == 0 && i <= (k + 1) / 512 && fixup_visits((k + 1) / 512, usc, len) {
        hi
    } else if uso <= k < uso + 2 * usc && i <= (k - uso) / 2 && fixup_visits((k - uso) / 2, usc, len) {
        if (k - uso) % 2 == 0 {
            s[sector_end((k - uso) / 2)]
        } else {
            s[sector_end((k - uso) / 2) + 1]
        }
    } else {
        s[k]
    }
}

pub proof fn lemma_reapply_pointwise(s: Seq<u8>, uso: int, usc: int, lo: u8, hi: u8, i: int)
    requires
        1 <= i,
        48 <= uso,
        uso + 2 * usc <= 510,
    ensures
        reapply_from(s, uso, usc, lo, hi, i).len() == s.len(),
        forall|k: int|
            0 <= k < s.len() ==> #[trigger] reapply_from(s, uso, usc, lo, hi, i)[k]
                == reapply_expect(s, uso, usc, lo, hi, i, k),
    decreases usc - i,
{
    if i < 1 || i >= usc || sector_end(i) + 2 > s.len() {
        assert forall|k: int| 0 <= k < s.len() implies #[trigger] reapply_from(s, uso, usc, lo, hi, i)[k]
            == reapply_expect(s, uso, usc, lo, hi, i, k) by {
            assert(reapply_expect(s, uso, usc, lo, hi, i, k) == s[k]);
        }
    } else {
        let e = sector_end(i);
        let u = uso + 2 * i;
        let s2 = s.update(u, s[e]).update(u + 1, s[e + 1]).update(e, lo).update(e + 1, hi);
        lemma_reapply_pointwise(s2, uso, usc, lo, hi, i + 1);
        assert forall|k: int| 0 <= k < s.len() implies #[trigger] reapply_from(s, uso, usc, lo, hi, i)[k]
            == reapply_expect(s, uso, usc, lo, hi, i, k) by {
            assert(reapply_from(s2, uso, usc, lo, hi, i + 1)[k] == reapply_expect(s2, uso, usc, lo, hi, i + 1, k));
            if k == e {
                assert((k + 2) / 512 == i);
            } else if k == e + 1 {
                assert((k + 1) / 512 == i);
            } else if k == u {
                assert((k - uso) / 2 == i);
            } else if k == u + 1 {
                assert((k - uso) / 2 == i);
            } else if uso <= k < uso + 2 * usc {
                let j = (k - uso) / 2;
                if i < j && fixup_visits(j, usc, s.len() as int) {
                    assert(sector_end(j) != e && sector_end(j) != e + 1);
                    assert(sector_end(j) + 1 != e && sector_end(j) + 1 != e + 1);
                    assert(s2[sector_end(j)] == s[sector_end(j)]);
                    assert(s2[sector_end(j) + 1] == s[sector_end(j) + 1]);
                }
            }
        }
    }
}

spec fn apply_expect(t: Seq<u8>, uso: int, usc: int, i: int, k: int) -> u8 {
    let len = t.len() as int;
    if (k + 2) % 512 == 0 && i <= (k + 2) / 512 && fixup_visits((k + 2) / 512, usc, len) {
        t[uso + 2 * ((k + 2) / 512)]
    } else if (k + 1) % 512 == 0 && i <= (k + 1) / 512 && fixup_visits((k + 1) / 512, usc, len) {
        t[uso + 2 * ((k + 1) / 512) + 1]
    } else {
        t[k]
    }
}

spec fn ends_match(t: Seq<u8>, usc: int, seq: int, i: int) -> bool {
    forall|j: int| i <= j && fixup_visits(j, usc, t.len() as int) ==> le16(t, sector_end(j)) == seq
}

proof fn lemma_apply_pointwise(t: Seq<u8>, uso: int, usc: int, seq: int, i: int)
    requires
        1 <= i,
        48 <= uso,
        uso + 2 * usc <= 510,
    ensures
        apply_from(t, uso, usc, seq, i).0.len() == t.len(),
        apply_from(t, uso, usc, seq, i).1 <==> ends_match(t, usc, seq, i),
        ends_match(t, usc, seq, i) ==> forall|k: int|
            0 <= k < t.len() ==> #[trigger] apply_from(t, uso, usc, seq, i).0[k]
                == apply_expect(t, uso, usc, i, k),
    decreases usc - i,
{
    if i < 1 || i >= usc || sector_end(i) + 2 > t.len() {
        assert forall|k: int| 0 <= k < t.len() implies #[trigger] apply_from(t, uso, usc, seq, i).0[k]
            == apply_expect(t, uso, usc, i, k) by {
            assert(apply_expect(t, uso, usc, i, k) == t[k]);
        }
    } else {
        let e = sector_end(i);
        let u = uso + 2 * i;
        let t2 = t.update(e, t[u]).update(e + 1, t[u + 1]);
        assert(fixup_visits(i, usc, t.len() as int));
        if le16(t, e) != seq {
            assert(!ends_match(t, usc, seq, i));
        } else {
            lemma_apply_pointwise(t2, uso, usc, seq, i + 1);
            assert forall|j: int| i + 1 <= j && fixup_visits(j, usc, t.len() as int) implies
                le16(t2, sector_end(j)) == le16(t, sector_end(j)) by {
                assert(sector_end(j) >= e + 2);
            }
            assert(ends_match(t, usc, seq, i) <==> ends_match(t2, usc, seq, i + 1));
            if ends_match(t, usc, seq, i) {
                assert forall|k: int| 0 <= k < t.len() implies #[trigger] apply_from(t, uso, usc, seq, i).0[k]
                    == apply_expect(t, uso, usc, i, k) by {
                    assert(apply_from(t2, uso, usc, seq, i + 1).0[k] == apply_expect(t2, uso, usc, i + 1, k));
                    if k == e {
                        assert((k + 2) / 512 == i);
                    } else if k == e + 1 {
                        assert((k + 1) / 512 == i);
                    }
                }
            }
        }
    }
}

#[verifier::rlimit(40)]
proof fn lemma_law_a_point(d: Seq<u8>, r: Seq<u8>, out: Seq<u8>, uso: int, usc: int, k: int)
    requires
        48 <= uso,
        uso + 2 * usc <= 510,
        uso + 2 <= d.len(),
        r.len() == d.len(),
        out.len() == d.len(),
        0 <= k < d.len(),
        forall|k2: int| 0 <= k2 < d.len() ==> #[trigger] r[k2] == apply_expect(d, uso, usc, 1, k2),
        out[k] == reapply_expect(r, uso, usc, r[uso], r[uso + 1], 1, k),
        ends_match(d, usc, le16(d, uso), 1),
    ensures
        out[k] == d[k],
{
    assert(r[uso] == apply_expect(d, uso, usc, 1, uso));
    assert(r[uso + 1] == apply_expect(d, uso, usc, 1, uso + 1));
    assert(r[k] == apply_expect(d, uso, usc, 1, k));
    if (k + 2) % 512 == 0 && 1 <= (k + 2) / 512 && fixup_visits((k + 2) / 512, usc, d.len() as int) {
        let j = (k + 2) / 512;
        assert(sector_end(j) == k);
        assert(le16(d, sector_end(j)) == le16(d, uso));
        lemma_le16_eq_bytes(d[k], d[k + 1], d[uso], d[uso + 1]);
    } else if (k + 1) % 512 == 0 && 1 <= (k + 1) / 512 && fixup_visits((k + 1) / 512, usc, d.len() as int) {
        let j = (k + 1) / 512;
        assert(sector_end(j) + 1 == k);
        assert(le16(d, sector_end(j)) == le16(d, uso));
        lemma_le16_eq_bytes(d[k - 1], d[k], d[uso], d[uso + 1]);
    } else if uso <= k < uso + 2 * usc && 1 <= (k - uso) / 2 && fixup_visits((k - uso) / 2, usc, d.len() as int) {
        let j = (k - uso) / 2;
        let e = sector_end(j);
        assert(r[e] == apply_expect(d, uso, usc, 1, e));
        assert(r[e + 1] == apply_expect(d, uso, usc, 1, e + 1));
        assert((e + 2) / 512 == j);
        assert((e + 1 + 1) / 512 == j);
    }
}

#[verifier::rlimit(40)]
proof fn lemma_law_b_point(r: Seq<u8>, t: Seq<u8>, out: Seq<u8>, uso: int, usc: int, k: int)
    requires
        48 <= uso,
        uso + 2 * usc <= 510,
        uso + 2 <= r.len(),
        t.len() == r.len(),
        out.len() == r.len(),
        0 <= k < r.len(),
        forall|k2: int| 0 <= k2 < r.len() ==> #[trigger] t[k2] == reapply_expect(r, uso, usc, r[uso], r[uso + 1], 1, k2),
        out[k] == apply_expect(t, uso, usc, 1, k),
        forall|j: int|
            fixup_visits(j, usc, r.len() as int) ==> {
                &&& r[uso + 2 * j] == #[trigger] r[sector_end(j)]
                &&& r[uso + 2 * j + 1] == r[sector_end(j) + 1]
            },
    ensures
        out[k] == r[k],
{
    assert(t[k] == reapply_expect(r, uso, usc, r[uso], r[uso + 1], 1, k));
    if (k + 2) % 512 == 0 && 1 <= (k + 2) / 512 && fixup_visits((k + 2) / 512, usc, r.len() as int) {
        let j = (k + 2) / 512;
        assert(t[uso + 2 * j] == reapply_expect(r, uso, usc, r[uso], r[uso + 1], 1, uso + 2 * j));
        assert((uso + 2 * j - uso) / 2 == j);
        assert(sector_end(j) == k);
        assert(r[sector_end(j)] == r[uso + 2 * j]);
    } else if (k + 1) % 512 == 0 && 1 <= (k + 1) / 512 && fixup_visits((k + 1) / 512, usc, r.len() as int) {
        let j = (k + 1) / 512;
        assert(t[uso + 2 * j + 1] == reapply_expect(r, uso, usc, r[uso], r[uso + 1], 1, uso + 2 * j + 1));
        assert((uso + 2 * j + 1 - uso) / 2 == j);
        assert(sector_end(j) + 1 == k);
        assert(r[sector_end(j)] == r[uso + 2 * j]);
    } else if uso <= k < uso + 2 * usc && 1 <= (k - uso) / 2 && fixup_visits((k - uso) / 2, usc, r.len() as int) {
        let j = (k - uso) / 2;
        assert((sector_end(j) + 2) / 512 == j);
        assert(r[sector_end(j)] == r[uso + 2 * j]);
    }
}

proof fn lemma_round_trip_point(r: Seq<u8>, t: Seq<u8>, out: Seq<u8>, uso: int, usc: int, k: int)
    requires
        48 <= uso,
        uso + 2 * usc <= 510,
        uso + 2 <= r.len(),
        t.len() == r.len(),
        out.len() == r.len(),
        0 <= k < r.len(),
        forall|k2: int| 0 <= k2 < r.len() ==> #[trigger] t[k2] == reapply_expect(r, uso, usc, r[uso], r[uso + 1], 1, k2),
        out[k] == apply_expect(t, uso, usc, 1, k),
    ensures
        !(uso <= k < uso + 2 * usc && 1 <= (k - uso) / 2 && fixup_visits((k - uso) / 2, usc, r.len() as int))
            ==> out[k] == r[k],
        (uso <= k < uso + 2 * usc && 1 <= (k - uso) / 2 && fixup_visits((k - uso) / 2, usc, r.len() as int))
            ==> out[k] == (if (k - uso) % 2 == 0 { r[sector_end((k - uso) / 2)] } else { r[sector_end((k - uso) / 2) + 1] }),
{
    assert(t[k] == reapply_expect(r, uso, usc, r[uso], r[uso + 1], 1, k));
    if (k + 2) % 512 == 0 && 1 <= (k + 2) / 512 && fixup_visits((k + 2) / 512, usc, r.len() as int) {
        let j = (k + 2) / 512;
        assert(t[uso + 2 * j] == reapply_expect(r, uso, usc, r[uso], r[uso + 1], 1, uso + 2 * j));
        assert((uso + 2 * j - uso) / 2 == j);
        assert(sector_end(j) == k);
    } else if (k + 1) % 512 == 0 && 1 <= (k + 1) / 512 && fixup_visits((k + 1) / 512, usc, r.len() as int) {
        let j = (k + 1) / 512;
        assert(t[uso + 2 * j + 1] == reapply_expect(r, uso, usc, r[uso], r[uso + 1], 1, uso + 2 * j + 1));
        assert((uso + 2 * j + 1 - uso) / 2 == j);
        assert(sector_end(j) + 1 == k);
    } else if uso <= k < uso + 2 * usc && 1 <= (k - uso) / 2 && fixup_visits((k - uso) / 2, usc, r.len() as int) {
        let j = (k - uso) / 2;
        assert((sector_end(j) + 2) / 512 == j);
    }
}

/// Law: re-applying the fixups of any record whose update sequence array
/// lies in the header area, then reading it back with `apply_fixups`,
/// succeeds; every byte comes back as it was, except that each array entry
/// of a sector inside the record now holds the bytes of that sector's end.
pub proof fn lemma_apply_after_reapply(r: Seq<u8>)
    requires
        usa_disjoint(r),
        reapply_fixups_ok(r),
    ensures
        apply_fixups_spec(reapply_fixups_spec(r)).1,
        apply_fixups_spec(reapply_fixups_spec(r)).0.len() == r.len(),
        forall|k: int| 0 <= k < r.len() && !(fixups_enabled(r) && usa_offset(r) <= k < usa_offset(r) + 2 * usa_count(r)
            && 1 <= (k - usa_offset(r)) / 2 && fixup_visits((k - usa_offset(r)) / 2, usa_count(r), r.len() as int))
            ==> #[trigger] apply_fixups_spec(reapply_fixups_spec(r)).0[k] == r[k],
        forall|j: int| fixups_enabled(r) && fixup_visits(j, usa_count(r), r.len() as int) ==> {
            &&& apply_fixups_spec(reapply_fixups_spec(r)).0[usa_offset(r) + 2 * j] == #[trigger] r[sector_end(j)]
            &&& apply_fixups_spec(reapply_fixups_spec(r)).0[usa_offset(r) + 2 * j + 1] == r[sector_end(j) + 1]
        },
{
    if fixups_enabled(r) {
        let uso = usa_offset(r);
        let usc = usa_count(r);
        let lo = r[uso];
        let hi = r[uso + 1];
        lemma_reapply_pointwise(r, uso, usc, lo, hi, 1);
        let t = reapply_from(r, uso, usc, lo, hi, 1);
        assert forall|k: int| 0 <= k < t.len() && k < uso + 2 implies t[k] == r[k] by {
            assert(reapply_expect(r, uso, usc, lo, hi, 1, k) == r[k]);
        }
        assert(usa_offset(t) == uso);
        assert(usa_count(t) == usc);
        let seq = le16(t, uso);
        assert forall|j: int| 1 <= j && fixup_visits(j, usc, t.len() as int) implies
            le16(t, sector_end(j)) == seq by {
            assert(t[sector_end(j)] == reapply_expect(r, uso, usc, lo, hi, 1, sector_end(j)));
            assert(t[sector_end(j) + 1] == reapply_expect(r, uso, usc, lo, hi, 1, sector_end(j) + 1));
            assert((sector_end(j) + 2) / 512 == j);
            assert((sector_end(j) + 1 + 1) / 512 == j);
        }
        lemma_apply_pointwise(t, uso, usc, seq, 1);
        let out = apply_from(t, uso, usc, seq, 1).0;
        assert forall|k: int| 0 <= k < r.len() implies #[trigger] out[k] == (
            if uso <= k < uso + 2 * usc && 1 <= (k - uso) / 2 && fixup_visits((k - uso) / 2, usc, r.len() as int) {
                if (k - uso) % 2 == 0 { r[sector_end((k - uso) / 2)] } else { r[sector_end((k - uso) / 2) + 1] }
            } else { r[k] }) by {
            lemma_round_trip_point(r, t, out, uso, usc, k);
        }
        assert forall|j: int| fixup_visits(j, usc, r.len() as int) implies {
            &&& out[uso + 2 * j] == #[trigger] r[sector_end(j)]
            &&& out[uso + 2 * j + 1] == r[sector_end(j) + 1]
        } by {
            assert((uso + 2 * j - uso) / 2 == j);
            assert((uso + 2 * j + 1 - uso) / 2 == j);
            assert((uso + 2 * j - uso) % 2 == 0);
            assert((uso + 2 * j + 1 - uso) % 2 == 1);
            assert(out[uso + 2 * j] == r[sector_end(j)]);
            assert(out[uso + 2 * j + 1] == r[sector_end(j) + 1]);
        }
    }
}

/// Law: a record that `apply_fixups` accepted is restored byte for byte by
/// `reapply_fixups`, so writing back what was read changes nothing.
pub proof fn lemma_reapply_undoes_apply(d: Seq<u8>)
    requires
        usa_disjoint(d),
        apply_fixups_ok(d),
        apply_fixups_spec(d).1,
    ensures
        reapply_fixups_spec(apply_fixups_spec(d).0) == d,
        fixups_consistent(apply_fixups_spec(d).0),
{
    if fixups_enabled(d) {
        let uso = usa_offset(d);
        let usc = usa_count(d);
        let seq = le16(d, uso);
        lemma_apply_pointwise(d, uso, usc, seq, 1);
        let r = apply_from(d, uso, usc, seq, 1).0;
        assert forall|k: int| 0 <= k < r.len() && k < 510 implies r[k] == d[k] by {
            assert(apply_expect(d, uso, usc, 1, k) == d[k]);
        }
        assert(usa_offset(r) == uso);
        assert(usa_count(r) == usc);
        lemma_reapply_pointwise(r, uso, usc, r[uso], r[uso + 1], 1);
        let out = reapply_from(r, uso, usc, r[uso], r[uso + 1], 1);
        assert forall|k: int| 0 <= k < d.len() implies out[k] == d[k] by {
            lemma_law_a_point(d, r, out, uso, usc, k);
        }
        assert(out =~= d);
        assert forall|j: int| fixup_visits(j, usa_count(r), r.len() as int) implies {
            &&& r[usa_offset(r) + 2 * j] == r[sector_end(j)]
            &&& r[usa_offset(r) + 2 * j + 1] == r[sector_end(j) + 1]
        } by {
            lemma_consistent_point(d, r, uso, usc, j);
        }
    }
}

#[verifier::rlimit(40)]
proof fn lemma_consistent_point(d: Seq<u8>, r: Seq<u8>, uso: int, usc: int, j: int)
    requires
        48 <= uso,
        uso + 2 * usc <= 510,
        r.len() == d.len(),
        fixup_visits(j, usc, d.len() as int),
        forall|k2: int| 0 <= k2 < d.len() ==> #[trigger] r[k2] == apply_expect(d, uso, usc, 1, k2),
    ensures
        r[uso + 2 * j] == r[sector_end(j)],
        r[uso + 2 * j + 1] == r[sector_end(j) + 1],
{
    assert(r[sector_end(j)] == apply_expect(d, uso, usc, 1, sector_end(j)));
    assert(r[sector_end(j) + 1] == apply_expect(d, uso, usc, 1, sector_end(j) + 1));
    assert((sector_end(j) + 2) / 512 == j);
    assert((sector_end(j) + 1 + 1) / 512 == j);
    assert(r[uso + 2 * j] == apply_expect(d, uso, usc, 1, uso + 2 * j));
    assert(r[uso + 2 * j + 1] == apply_expect(d, uso, usc, 1, uso + 2 * j + 1));
}

/// Law: stamping a consistent record with `reapply_fixups` and reading it back
/// with `apply_fixups` succeeds and gives the same record.
pub proof fn lemma_apply_undoes_reapply(r: Seq<u8>)
    requires
        usa_disjoint(r),
        reapply_fixups_ok(r),
        fixups_consistent(r),
    ensures
        apply_fixups_spec(reapply_fixups_spec(r)) == (r, true),
{
    if fixups_enabled(r) {
        let uso = usa_offset(r);
        let usc = usa_count(r);
        let lo = r[uso];
        let hi = r[uso + 1];
        lemma_reapply_pointwise(r, uso, usc, lo, hi, 1);
        let t = reapply_from(r, uso, usc, lo, hi, 1);
        assert forall|k: int| 0 <= k < t.len() && k < uso + 2 implies t[k] == r[k] by {
            assert(reapply_expect(r, uso, usc, lo, hi, 1, k) == r[k]);
        }
        assert(usa_offset(t) == uso);
        assert(usa_count(t) == usc);
        let seq = le16(t, uso);
        assert forall|j: int| 1 <= j && fixup_visits(j, usc, t.len() as int) implies
            le16(t, sector_end(j)) == seq by {
            assert(t[sector_end(j)] == reapply_expect(r, uso, usc, lo, hi, 1, sector_end(j)));
            assert(t[sector_end(j) + 1] == reapply_expect(r, uso, usc, lo, hi, 1, sector_end(j) + 1));
            assert((sector_end(j) + 2) / 512 == j);
            assert((sector_end(j) + 1 + 1) / 512 == j);
        }
        lemma_apply_pointwise(t, uso, usc, seq, 1);
        let out = apply_from(t, uso, usc, seq, 1).0;
        assert forall|k: int| 0 <= k < r.len() implies out[k] == r[k] by {
            lemma_law_b_point(r, t, out, uso, usc, k);
        }
        assert(out =~= r);
    }
}


/// The attributes of a record from `offset` on, as `(type, bytes, resident)`:
/// the walk stops at the end marker, at a zero or overlong length, at an
/// unknown type code, or when no full attribute header is left.
pub open spec fn attrs_from(r: Seq<u8>, offset: int) -> Seq<(AttributeType, Seq<u8>, bool)>
    decreases r.len() - offset,
{
    if offset < 0 || offset + 8 > r.len() || le32(r, offset) == 0xFFFF_FFFF {
        Seq::empty()
    } else {
        let rl = le32(r, offset + 4);
        if rl == 0 || offset + rl > r.len() {
            Seq::empty()
        } else {
            match attribute_type_of(le32(r, offset)) {
                None => Seq::empty(),
                Some(t) => seq![(t, r.subrange(offset, offset + rl), r[offset + 8] == 0)]
                    + attrs_from(r, offset + rl),
            }
        }
    }
}

/// The residency byte of every attribute the walk yields lies in the record.
pub open spec fn attrs_in_bounds(r: Seq<u8>, offset: int) -> bool
    decreases r.len() - offset,
{
    if offset < 0 || offset + 8 > r.len() || le32(r, offset) == 0xFFFF_FFFF {
        true
    } else {
        let rl = le32(r, offset + 4);
        if rl == 0 || offset + rl > r.len() {
            true
        } else {
            &&& offset + 8 < r.len()
            &&& match attribute_type_of(le32(r, offset)) {
                None => true,
                Some(t) => attrs_in_bounds(r, offset + rl),
            }
        }
    }
}

/// Offset of the first attribute, from the record header.
pub open spec fn first_attr_offset(r: Seq<u8>) -> int {
    le16(r, 20)
}

/// The attributes of an MFT record.
pub open spec fn attributes_spec(r: Seq<u8>) -> Seq<(AttributeType, Seq<u8>, bool)> {
    attrs_from(r, first_attr_offset(r))
}

/// The records `parse_attributes` can walk.
pub open spec fn parse_attributes_ok(r: Seq<u8>) -> bool {
    r.len() >= 22 && attrs_in_bounds(r, first_attr_offset(r))
}

/// The `(type, bytes, resident)` triples a walk returned, by value.
pub open spec fn attr_views(v: Seq<(AttributeType, &[u8], bool)>) -> Seq<(AttributeType, Seq<u8>, bool)> {
    v.map_values(|x: (AttributeType, &[u8], bool)| (x.0, x.1@, x.2))
}

/// Yields `(AttributeType, raw_attr_slice, is_resident)` for every attribute
/// in the record until the end marker or a malformed entry.
pub fn parse_attributes(record: &[u8]) -> (r: Vec<(AttributeType, &[u8], bool)>)
    requires
        parse_attributes_ok(record@),
    ensures
        attr_views(r@) == attributes_spec(record@),
{
    let len = record.len();
    let mut offset = read_u16_le(record, 20) as usize;
    let mut out: Vec<(AttributeType, &[u8], bool)> = Vec::new();
    loop
        invariant
            len == record@.len(),
            attr_views(out@) + attrs_from(record@, offset as int) == attributes_spec(record@),
            attrs_in_bounds(record@, offset as int),
        decreases len - offset,
    {
        let ghost done = attr_views(out@);
        if offset > len || len - offset < 8 {
            proof { lemma_views_done(done, record@, offset as int); }
            return out;
        }
        let type_code = read_u32_le(record, offset);
        if type_code == 0xFFFF_FFFF {
            proof { lemma_views_done(done, record@, offset as int); }
            return out;
        }
        let record_length = read_u32_le(record, offset + 4) as usize;
        if record_length == 0 || record_length > len - offset {
            proof { lemma_views_done(done, record@, offset as int); }
            return out;
        }
        let is_resident = record[offset + 8] == 0;
        let attr_type = match AttributeType::from_code(type_code) {
            Some(t) => t,
            None => {
                proof { lemma_views_done(done, record@, offset as int); }
                return out;
            },
        };
        let slice = &record[offset..offset + record_length];
        let ghost before = out@;
        out.push((attr_type, slice, is_resident));
        proof {
            assert(attr_views(out@) =~= attr_views(before).push((attr_type, slice@, is_resident)));
            assert(attrs_from(record@, offset as int) == seq![(attr_type, slice@, is_resident)]
                + attrs_from(record@, offset + record_length));
            assert(attr_views(before).push((attr_type, slice@, is_resident))
                + attrs_from(record@, offset + record_length)
                =~= attr_views(before) + attrs_from(record@, offset as int));
        }
        offset = offset + record_length;
    }
}

proof fn lemma_views_done(done: Seq<(AttributeType, Seq<u8>, bool)>, r: Seq<u8>, offset: int)
    requires
        done + attrs_from(r, offset) == attributes_spec(r),
        attrs_from(r, offset) == Seq::<(AttributeType, Seq<u8>, bool)>::empty(),
    ensures
        done == attributes_spec(r),
{
    assert(done + Seq::<(AttributeType, Seq<u8>, bool)>::empty() =~= done);
}

/// The offset of the first attribute with type code `code` from `offset` on:
/// the walk stops, with `None`, at the end marker, a zero length, or when no
/// full attribute header is left.
pub open spec fn find_attr_from(r: Seq<u8>, offset: int, code: int) -> Option<int>
    decreases r.len() - offset,
{
    if offset < 0 || offset + 8 > r.len() {
        None
    } else if le32(r, offset) == 0xFFFF_FFFF {
        None
    } else if le32(r, offset) == code {
        Some(offset)
    } else {
        let al = le32(r, offset + 4);
        if al == 0 || offset + al > r.len() {
            None
        } else {
            find_attr_from(r, offset + al, code)
        }
    }
}

/// Walk the attributes of `record` for the first one with type code `code`.
pub fn find_attribute_offset(record: &[u8], code: u32) -> (r: Result<usize, NtfsError>)
    requires
        record@.len() >= 22,
    ensures
        r matches Ok(off) ==> find_attr_from(record@, first_attr_offset(record@), code as int) == Some(off as int),
        r is Err ==> find_attr_from(record@, first_attr_offset(record@), code as int) is None,
        r matches Err(e) ==> e == NtfsError::InvalidAttribute,
{
    let len = record.len();
    let mut offset = read_u16_le(record, 20) as usize;
    loop
        invariant
            len == record@.len(),
            find_attr_from(record@, offset as int, code as int)
                == find_attr_from(record@, first_attr_offset(record@), code as int),
        decreases len - offset,
    {
        if offset > len || len - offset < 8 {
            return Err(NtfsError::InvalidAttribute);
        }
        let attr_type = read_u32_le(record, offset);
        if attr_type == 0xFFFF_FFFF {
            return Err(NtfsError::InvalidAttribute);
        }
        if attr_type == code {
            return Ok(offset);
        }
        let attr_len = read_u32_le(record, offset + 4) as usize;
        if attr_len == 0 {
            return Err(NtfsError::InvalidAttribute);
        }
        if attr_len > len - offset {
            assert(find_attr_from(record@, offset + attr_len, code as int) is None);
            return Err(NtfsError::InvalidAttribute);
        }
        offset = offset + attr_len;
    }
}

/// Find offset of $DATA attribute in MFT record.
pub fn find_data_attribute_offset(record: &[u8]) -> (r: Result<usize, NtfsError>)
    requires
        record@.len() >= 22,
    ensures
        r matches Ok(off) ==> find_attr_from(record@, first_attr_offset(record@), 0x80) == Some(off as int),
        r is Err ==> find_attr_from(record@, first_attr_offset(record@), 0x80) is None,
        r matches Err(e) ==> e == NtfsError::InvalidAttribute,
{
    find_attribute_offset(record, 0x80)
}

/// Offset of the value of a resident attribute, relative to the attribute.
pub open spec fn value_offset(r: Seq<u8>, attr: int) -> int {
    le16(r, attr + 20)
}

/// Length of the value of a resident attribute.
pub open spec fn value_length(r: Seq<u8>, attr: int) -> int {
    le32(r, attr + 16)
}

/// The inputs on which `update_resident_data` can run: a full resident header,
/// and a value that lies in the record when its length matches.
pub open spec fn update_resident_data_ok(r: Seq<u8>, attr: int, n: int) -> bool {
    &&& attr + 22 <= r.len()
    &&& n == value_length(r, attr) ==> attr + value_offset(r, attr) + n <= r.len()
}

/// Update resident data in place (used by `write_file`).
pub fn update_resident_data(record: &mut [u8], attr_offset: usize, data: &[u8]) -> (r: Result<(), NtfsError>)
    requires
        update_resident_data_ok(old(record)@, attr_offset as int, data@.len() as int),
    ensures
        r is Ok <==> data@.len() == value_length(old(record)@, attr_offset as int),
        r is Ok ==> final(record)@ == old(record)@.subrange(0, attr_offset + value_offset(old(record)@, attr_offset as int))
            + data@ + old(record)@.subrange(attr_offset + value_offset(old(record)@, attr_offset as int) + data@.len(), old(record)@.len() as int),
        r is Err ==> final(record)@ == old(record)@,
        r matches Err(e) ==> e == NtfsError::InvalidAttribute,
{
    let _rlen = record.len();
    let value_offset = read_u16_le(record, attr_offset + 20) as usize;
    let value_length = read_u32_le(record, attr_offset + 16) as usize;
    if data.len() != value_length {
        return Err(NtfsError::InvalidAttribute);
    }
    let start = attr_offset + value_offset;
    let ghost r0 = record@;
    let mut i: usize = 0;
    while i < data.len()
        invariant
            i <= data@.len(),
            start + data@.len() <= r0.len(),
            record@.len() == r0.len(),
            _rlen == r0.len(),
            forall|k: int| 0 <= k < r0.len() && !(start <= k < start + i) ==> record@[k] == r0[k],
            forall|k: int| start <= k < start + i ==> record@[k] == data@[k - start],
        decreases data@.len() - i,
    {
        record[start + i] = data[i];
        i = i + 1;
    }
    assert(record@ =~= r0.subrange(0, start as int) + data@ + r0.subrange(start + data@.len(), r0.len() as int));
    Ok(())
}

/// The character a UTF-16 code unit of a name stands for: ASCII as is,
/// anything else as `?`.
pub open spec fn name_char(unit: int) -> char {
    if unit < 128 {
        unit as char
    } else {
        '?'
    }
}

/// The name held in the `n` UTF-16 units at `start`, up to the first zero unit.
pub open spec fn decode_name(s: Seq<u8>, start: int, n: nat) -> Seq<char>
    decreases n,
{
    if n == 0 || le16(s, start) == 0 {
        Seq::empty()
    } else {
        seq![name_char(le16(s, start))] + decode_name(s, start + 2, (n - 1) as nat)
    }
}

/// The name stored in a `$FILE_NAME` value at `start`, with its parent record
/// number, when the value holds the whole name.
pub open spec fn filename_at(s: Seq<u8>, start: int) -> Option<(Seq<char>, u64)> {
    if start + 0x42 > s.len() || start + 0x42 + 2 * s[start + 0x40] > s.len() {
        None
    } else {
        Some((decode_name(s, start + 0x42, s[start + 0x40] as nat), le64(s, start) as u64))
    }
}


proof fn lemma_unit_char(c: u16)
    requires
        c < 128,
    ensures
        (c as u8) as char == name_char(c as int),
{
}

/// Decode the `n` UTF-16 units at `start` into a name.
fn decode_name_units(buf: &[u8], start: usize, n: usize) -> (name: String)
    requires
        start + 2 * n <= buf@.len(),
    ensures
        name@ == decode_name(buf@, start as int, n as nat),
{
    let len = buf.len();
    let mut name = String::new();
    let mut i: usize = 0;
    while i < n
        invariant
            i <= n,
            len == buf@.len(),
            start + 2 * n <= buf@.len(),
            name@ + decode_name(buf@, start + 2 * i, (n - i) as nat) == decode_name(buf@, start as int, n as nat),
        decreases n - i,
    {
        let c = read_u16_le(buf, start + 2 * i);
        if c == 0 {
            assert(decode_name(buf@, start + 2 * i, (n - i) as nat) == Seq::<char>::empty());
            assert(name@ + Seq::<char>::empty() =~= name@);
            return name;
        }
        let ch = if c < 128 {
            proof { lemma_unit_char(c); }
            (c as u8) as char
        } else {
            '?'
        };
        let ghost before = name@;
        push_char(&mut name, ch);
        proof {
            let rest = decode_name(buf@, start + 2 * (i + 1), (n - (i + 1)) as nat);
            assert(decode_name(buf@, start + 2 * i, (n - i) as nat) == seq![ch] + rest);
            assert(before.push(ch) + rest =~= before + (seq![ch] + rest));
        }
        i = i + 1;
    }
    assert(decode_name(buf@, start + 2 * n, 0) == Seq::<char>::empty());
    assert(name@ + Seq::<char>::empty() =~= name@);
    name
}

/// Parse a `$FILE_NAME` value held at `start` of `buf`.
fn filename_value_at(buf: &[u8], start: usize) -> (r: Option<(String, u64)>)
    requires
        start <= buf@.len(),
    ensures
        match r {
            Some((name, parent)) => filename_at(buf@, start as int) == Some((name@, parent)),
            None => filename_at(buf@, start as int) is None,
        },
{
    let len = buf.len();
    if len - start < 0x42 {
        return None;
    }
    let parent = read_u64_le(buf, start);
    let name_len = buf[start + 0x40] as usize;
    if 2 * name_len > len - start - 0x42 {
        return None;
    }
    let name = decode_name_units(buf, start + 0x42, name_len);
    Some((name, parent))
}

/// Parse a `$FILE_NAME` attribute (resident form) and return `(name,
/// parent_record_number)`; the value follows the 24-byte resident header.
pub fn parse_filename(attr_data: &[u8]) -> (r: Option<(String, u64)>)
    ensures
        match r {
            Some((name, parent)) => filename_at(attr_data@, 24) == Some((name@, parent)),
            None => filename_at(attr_data@, 24) is None,
        },
{
    if attr_data.len() < 24 {
        return None;
    }
    filename_value_at(attr_data, 24)
}

/// Parse the filename embedded in an index entry key.
pub fn parse_filename_from_key(key: &[u8]) -> (r: Option<(String, u64)>)
    ensures
        match r {
            Some((name, parent)) => filename_at(key@, 0) == Some((name@, parent)),
            None => filename_at(key@, 0) is None,
        },
{
    filename_value_at(key, 0)
}


/// Whether a record's first sector end holds original data rather than the
/// sequence number: false unless fixups are enabled, the update sequence
/// number lies inside the record, the record spans more than one sector and
/// that sector end lies inside it.
pub open spec fn fixups_applied_spec(s: Seq<u8>, sector: int) -> bool {
    if !(fixups_enabled(s) && usa_offset(s) + 2 <= s.len()) {
        false
    } else if usa_count(s) > 1 && sector <= s.len() {
        le16(s, sector - 2) != le16(s, usa_offset(s))
    } else {
        false
    }
}

/// Check whether fixups have been applied to `buf`, whose sectors are
/// `sector_size` bytes long, by comparing the first sector end with the
/// update sequence number.
pub fn fixups_applied(buf: &[u8], sector_size: usize) -> (r: Result<bool, NtfsError>)
    requires
        buf@.len() >= 8,
        fixups_enabled(buf@) && usa_offset(buf@) + 2 <= buf@.len() && usa_count(buf@) > 1 ==> sector_size >= 2,
    ensures
        r == Ok::<bool, NtfsError>(fixups_applied_spec(buf@, sector_size as int)),
{
    let uso = read_u16_le(buf, 4) as usize;
    let usc = read_u16_le(buf, 6) as usize;
    if uso < 48 || usc == 0 || uso + 2 > buf.len() {
        return Ok(false);
    }
    let seq_number = read_u16_le(buf, uso);
    if usc > 1 {
        let end = sector_size - 2;
        if end + 2 <= buf.len() {
            let bytes = read_u16_le(buf, end);
            return Ok(bytes != seq_number);
        }
    }
    Ok(false)
}

/// The `n` UTF-16 units at `start`, each ASCII unit as its character and any
/// other as `?`.
pub open spec fn attr_name_units(s: Seq<u8>, start: int, n: nat) -> Seq<char> {
    Seq::new(n, |i: int| name_char(le16(s, start + 2 * i)))
}

/// The name of an attribute whose name is `n` units long: read at the name
/// offset of the header; empty when the header or the name lies outside
/// the attribute.
pub open spec fn attr_name_spec(s: Seq<u8>, n: nat) -> Seq<char> {
    if s.len() < 12 || le16(s, 10) + 2 * n > s.len() {
        Seq::empty()
    } else {
        attr_name_units(s, le16(s, 10), n)
    }
}

/// Read the UTF-16LE name of an attribute from its header.
pub fn parse_attr_name(attr_data: &[u8], name_length: usize) -> (r: String)
    requires
        0x10000 + 2 * name_length <= usize::MAX,
    ensures
        r@ == attr_name_spec(attr_data@, name_length as nat),
{
    if attr_data.len() < 12 {
        return String::new();
    }
    let name_offset = read_u16_le(attr_data, 10) as usize;
    let byte_len = name_length * 2;
    if name_offset + byte_len > attr_data.len() {
        return String::new();
    }
    let len = attr_data.len();
    let mut name = String::new();
    let mut i: usize = 0;
    while i < name_length
        invariant
            i <= name_length,
            len == attr_data@.len(),
            name_offset == le16(attr_data@, 10),
            name_offset + 2 * name_length <= attr_data@.len(),
            name@ == attr_name_units(attr_data@, name_offset as int, i as nat),
        decreases name_length - i,
    {
        let u = read_u16_le(attr_data, name_offset + 2 * i);
        let ch = if u < 128 {
            proof { lemma_unit_char(u); }
            (u as u8) as char
        } else {
            '?'
        };
        push_char(&mut name, ch);
        assert(name@ =~= attr_name_units(attr_data@, name_offset as int, (i + 1) as nat));
        i = i + 1;
    }
    name
}

/// The name and parent record number of a `$FILE_NAME` value in `s`, the
/// name read at `name_offset`: `None` when fewer than two bytes lie there or
/// the name runs past the end.
pub open spec fn name_and_parent_spec(s: Seq<u8>, name_offset: int) -> Option<(Seq<char>, u64)> {
    if s.len() < name_offset + 2 || s.len() - name_offset < 2 * s[0x40] {
        None
    } else {
        Some((decode_name(s, name_offset, s[0x40] as nat), le64(s, 0) as u64))
    }
}

/// Parse a `$FILE_NAME` value: the parent record number in its first eight
/// bytes, the name length at 0x40, the name at `name_offset`.
pub fn parse_name_and_parent(data: &[u8], name_offset: usize) -> (r: Option<(String, u64)>)
    requires
        name_offset + 2 <= usize::MAX,
        data@.len() >= name_offset + 2 ==> data@.len() > 0x40,
    ensures
        match r {
            Some((name, parent)) => name_and_parent_spec(data@, name_offset as int) == Some((name@, parent)),
            None => name_and_parent_spec(data@, name_offset as int) is None,
        },
{
    if data.len() < name_offset + 2 {
        return None;
    }
    let parent = read_u64_le(data, 0);
    let name_len = data[0x40] as usize;
    if data.len() - name_offset < name_len * 2 {
        return None;
    }
    let name = decode_name_units(data, name_offset, name_len);
    Some((name, parent))
}

/// The metadata of a record before any attribute is read.
pub open spec fn empty_stat() -> StatView {
    StatView { is_directory: false, size: 0, name: None, data_runs: Seq::empty(), index_root: None }
}

/// Bytes covered by a list of `(start_cluster, cluster_count)` runs.
pub open spec fn runs_bytes(runs: Seq<(u64, u64)>, bpc: int) -> int
    decreases runs.len(),
{
    if runs.len() == 0 {
        0
    } else {
        runs_bytes(runs.drop_last(), bpc) + runs.last().1 * bpc
    }
}

/// Whether the value of a resident attribute lies inside the attribute.
pub open spec fn resident_value_fits(d: Seq<u8>) -> bool {
    le16(d, 20) + le32(d, 16) <= d.len()
}

/// The value of a resident attribute.
pub open spec fn resident_value(d: Seq<u8>) -> Seq<u8> {
    d.subrange(le16(d, 20), le16(d, 20) + le32(d, 16))
}

/// What one attribute adds to the metadata gathered so far: the first
/// resident file name, the data stream (resident value or decoded runs, the
/// size following the last data attribute), and the resident index root.
pub open spec fn stat_step(st: StatView, a: (AttributeType, Seq<u8>, bool), bpc: int) -> Result<StatView, NtfsError> {
    let d = a.1;
    let resident = a.2;
    match a.0 {
        AttributeType::FileName => {
            if resident && st.name is None {
                match filename_at(d, 24) {
                    Some((n, _)) => Ok(StatView { name: Some(n), ..st }),
                    None => Ok(st),
                }
            } else {
                Ok(st)
            }
        },
        AttributeType::Data => {
            if resident {
                if resident_value_fits(d) {
                    Ok(StatView {
                        size: le32(d, 16) as u64,
                        data_runs: st.data_runs.push(RunView::Resident(resident_value(d))),
                        ..st
                    })
                } else {
                    Ok(st)
                }
            } else if d.len() < 34 {
                Err(NtfsError::InvalidAttribute)
            } else {
                Ok(StatView {
                    size: runs_bytes(data_runs_spec(d), bpc) as u64,
                    data_runs: st.data_runs.push(RunView::NonResident(data_runs_spec(d))),
                    ..st
                })
            }
        },
        AttributeType::IndexRoot => {
            if resident {
                Ok(StatView {
                    is_directory: true,
                    index_root: if d.len() > 24 { Some(d.subrange(24, d.len() as int)) } else { st.index_root },
                    ..st
                })
            } else {
                Ok(st)
            }
        },
        _ => Ok(st),
    }
}

/// The metadata gathered from the first `n` attributes; the first error ends it.
pub open spec fn stat_fold(attrs: Seq<(AttributeType, Seq<u8>, bool)>, bpc: int, n: nat) -> Result<StatView, NtfsError>
    decreases n,
{
    if n == 0 {
        Ok(empty_stat())
    } else {
        match stat_fold(attrs, bpc, (n - 1) as nat) {
            Ok(st) => stat_step(st, attrs[n - 1], bpc),
            Err(e) => Err(e),
        }
    }
}

/// The metadata of an MFT record.
pub open spec fn stat_spec(record: Seq<u8>, bpc: int) -> Result<StatView, NtfsError> {
    stat_fold(attributes_spec(record), bpc, attributes_spec(record).len())
}

/// An attribute that can be read without running out of bounds or
/// overflowing: a resident data attribute holds its value header, and the
/// runs of a non-resident one decode and their byte count fits in 64 bits.
pub open spec fn step_ok(a: (AttributeType, Seq<u8>, bool), bpc: int) -> bool {
    a.0 == AttributeType::Data ==> {
        &&& a.2 ==> a.1.len() >= 22
        &&& (!a.2 && a.1.len() >= 34) ==> {
            &&& runs_decode(a.1, le16(a.1, 32), 0)
            &&& runs_bytes(data_runs_spec(a.1), bpc) <= u64::MAX
        }
    }
}

/// The records `parse_stat` reads: every attribute it reaches is readable.
pub open spec fn parse_stat_ok(record: Seq<u8>, bpc: int) -> bool {
    &&& parse_attributes_ok(record)
    &&& forall|j: int| 0 <= j < attributes_spec(record).len()
            && (#[trigger] stat_fold(attributes_spec(record), bpc, j as nat)) is Ok
            ==> step_ok(attributes_spec(record)[j], bpc)
}

proof fn lemma_runs_bytes_prefix(runs: Seq<(u64, u64)>, bpc: int, i: int)
    requires
        0 <= i <= runs.len(),
        bpc >= 0,
    ensures
        0 <= runs_bytes(runs.take(i), bpc) <= runs_bytes(runs, bpc),
    decreases runs.len(),
{
    if runs.len() > 0 {
        if i == runs.len() {
            assert(runs.take(i) =~= runs);
            lemma_runs_bytes_prefix(runs.drop_last(), bpc, i - 1);
            assert(runs.drop_last().take(i - 1) =~= runs.drop_last());
            assert(runs.last().1 * bpc >= 0) by (nonlinear_arith)
                requires bpc >= 0;
        } else {
            lemma_runs_bytes_prefix(runs.drop_last(), bpc, i);
            assert(runs.drop_last().take(i) =~= runs.take(i));
            assert(runs.last().1 * bpc >= 0) by (nonlinear_arith)
                requires bpc >= 0;
        }
    }
}

/// The byte count of decoded runs.
pub(crate) fn sum_run_bytes(runs: &Vec<(u64, u64)>, bpc: u64) -> (r: u64)
    requires
        runs_bytes(runs@, bpc as int) <= u64::MAX,
    ensures
        r == runs_bytes(runs@, bpc as int),
{
    let mut total: u64 = 0;
    let mut i: usize = 0;
    while i < runs.len()
        invariant
            i <= runs@.len(),
            runs_bytes(runs@, bpc as int) <= u64::MAX,
            total == runs_bytes(runs@.take(i as int), bpc as int),
        decreases runs@.len() - i,
    {
        proof {
            lemma_runs_bytes_prefix(runs@, bpc as int, i + 1);
            assert(runs@.take(i + 1).drop_last() =~= runs@.take(i as int));
            assert(runs@[i as int].1 * bpc >= 0) by (nonlinear_arith)
                requires bpc >= 0;
        }
        let len = runs[i].1;
        total = total + len * bpc;
        i = i + 1;
    }
    assert(runs@.take(i as int) =~= runs@);
    total
}

pub(crate) proof fn lemma_fold_err_stays(attrs: Seq<(AttributeType, Seq<u8>, bool)>, bpc: int, i: nat, n: nat)
    requires
        i <= n,
        stat_fold(attrs, bpc, i) is Err,
    ensures
        stat_fold(attrs, bpc, n) == stat_fold(attrs, bpc, i),
    decreases n - i,
{
    if i < n {
        lemma_fold_err_stays(attrs, bpc, i, (n - 1) as nat);
    }
}

/// Parse all relevant attributes from the MFT record and return them.
///
/// This is the single source of truth for every piece of file metadata.
#[verifier::rlimit(40)]
pub fn parse_stat(record: &[u8], boot: &BootSector) -> (r: Result<NtfsStat, NtfsError>)
    requires
        parse_stat_ok(record@, boot.cluster_bytes()),
    ensures
        match r {
            Ok(st) => stat_spec(record@, boot.cluster_bytes()) == Ok::<StatView, NtfsError>(st@),
            Err(e) => stat_spec(record@, boot.cluster_bytes()) == Err::<StatView, NtfsError>(e),
        },
{
    let bpc = boot.bytes_per_cluster();
    let ghost attrs = attributes_spec(record@);
    let mut stat = NtfsStat {
        is_directory: false,
        size: 0,
        name: None,
        data_runs: Vec::new(),
        index_root: None,
    };
    let list = parse_attributes(record);
    assert(attr_views(list@).len() == list@.len());
    let mut i: usize = 0;
    assert(stat@ =~= empty_stat());
    while i < list.len()
        invariant
            i <= list@.len(),
            attr_views(list@) == attrs,
            attrs == attributes_spec(record@),
            bpc == boot.cluster_bytes(),
            parse_stat_ok(record@, bpc as int),
            stat_fold(attrs, bpc as int, i as nat) == Ok::<StatView, NtfsError>(stat@),
        decreases list@.len() - i,
    {
        let (attr_type, attr_data, is_resident) = list[i];
        let ghost st0 = stat@;
        let ghost a = attrs[i as int];
        assert(a == (attr_type, attr_data@, is_resident));
        assert(stat_fold(attrs, bpc as int, (i + 1) as nat) == stat_step(st0, a, bpc as int));
        assert(step_ok(a, bpc as int));
        let ghost runs0 = stat.data_runs@;
        match attr_type {
            AttributeType::FileName => {
                if is_resident && stat.name.is_none() {
                    if let Some((name, _)) = parse_filename(attr_data) {
                        stat.name = Some(name);
                        assert(stat@ =~= StatView { name: Some(name@), ..st0 });
                    }
                }
            },
            AttributeType::Data => {
                if is_resident {
                    let value_offset = read_u16_le(attr_data, 20) as usize;
                    let value_length = read_u32_le(attr_data, 16) as usize;
                    if (value_offset as u64) + (value_length as u64) <= attr_data.len() as u64 {
                        stat.size = value_length as u64;
                        let value = vstd::slice::slice_to_vec(&attr_data[value_offset..value_offset + value_length]);
                        let run = DataRun::Resident { data: value };
                        assert(run@ == RunView::Resident(resident_value(attr_data@)));
                        stat.data_runs.push(run);
                        assert(stat.data_runs@ =~= runs0.push(run));
                        assert(stat@.data_runs =~= st0.data_runs.push(run@));
                    }
                } else {
                    let runs = match parse_data_runs(attr_data) {
                        Ok(runs) => runs,
                        Err(e) => {
                            proof { lemma_fold_err_stays(attrs, bpc as int, (i + 1) as nat, attrs.len()); }
                            return Err(e);
                        },
                    };
                    stat.size = sum_run_bytes(&runs, bpc);
                    let run = DataRun::NonResident(runs);
                    stat.data_runs.push(run);
                    assert(stat.data_runs@ =~= runs0.push(run));
                    assert(stat@.data_runs =~= st0.data_runs.push(run@));
                }
            },
            AttributeType::IndexRoot => {
                if is_resident {
                    stat.is_directory = true;
                    if attr_data.len() > 24 {
                        let root = vstd::slice::slice_to_vec(&attr_data[24..attr_data.len()]);
                        assert(root@ == attr_data@.subrange(24, attr_data@.len() as int));
                        stat.index_root = Some(root);
                    }
                }
            },
            _ => {},
        }
        assert(stat_step(st0, a, bpc as int) == Ok::<StatView, NtfsError>(stat@));
        i = i + 1;
    }
    Ok(stat)
}

} // verus!
