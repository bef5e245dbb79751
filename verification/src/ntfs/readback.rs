//! Reading back what `write_file` wrote: the record read from the slot is
//! the record with the new data, and its metadata gives the new data as
//! the file's first data run.

use vstd::prelude::*;
use crate::bytes::{le16, le32, le64};
use crate::ntfs::{attribute_type_of, AttributeType, NtfsError, RunView, StatView};
use crate::blockdev::{splice, BlockDevice};
use crate::ntfs::driver::{
    data_attr_offset, file_content, file_signature, first_run_resident_of_len, lemma_record_errors, record_from_raw,
    strict_fixups, strict_fixups_from, with_data, NtfsDriver,
};
use crate::ntfs::write::{
    after_filename, aligned_attr_len, filename_value_len, new_record_image, stamp_fixups, stamp_from, stamped, utf16_units,
};
use crate::ntfs::attr::{lemma_reapply_pointwise, reapply_expect, reapply_fixups_spec, fixup_visits};
use crate::ntfs::attr::{decode_name, filename_at, fixups_enabled, name_char, sector_end, usa_count, usa_disjoint, usa_offset};
use crate::ntfs::attr::{
    attrs_from, attrs_in_bounds, attributes_spec, value_length, value_offset, empty_stat, find_attr_from, first_attr_offset, resident_value, resident_value_fits,
    lemma_fold_err_stays, stat_fold, stat_spec, stat_step,
};

verus! {

/// No attribute of `attrs` is a data attribute.
pub open spec fn no_data(attrs: Seq<(AttributeType, Seq<u8>, bool)>) -> bool {
    forall|j: int| 0 <= j < attrs.len() ==> (#[trigger] attrs[j]).0 != AttributeType::Data
}

/// `x` between `pre` and `tail`.
pub open spec fn around(pre: Seq<(AttributeType, Seq<u8>, bool)>, x: (AttributeType, Seq<u8>, bool),
    tail: Seq<(AttributeType, Seq<u8>, bool)>) -> Seq<(AttributeType, Seq<u8>, bool)> {
    pre + seq![x] + tail
}

/// The data attribute at `off` of `r`, as the walk yields it.
pub open spec fn data_item(r: Seq<u8>, len_from: Seq<u8>, off: int) -> (AttributeType, Seq<u8>, bool) {
    (AttributeType::Data, r.subrange(off, off + le32(len_from, off + 4)), len_from[off + 8] == 0)
}

/// The walks of `r` and of `w` (which differs from `r` only inside the
/// value of the data attribute at `off`) agree: either neither reaches a
/// data attribute and they are equal, or they share what comes before and
/// after that attribute, which is read from `r` and from `w` respectively.
pub open spec fn walks_agree(ar: Seq<(AttributeType, Seq<u8>, bool)>, aw: Seq<(AttributeType, Seq<u8>, bool)>,
    r: Seq<u8>, w: Seq<u8>, off: int) -> bool {
    ||| (ar == aw && no_data(ar))
    ||| exists|pre: Seq<(AttributeType, Seq<u8>, bool)>, tail: Seq<(AttributeType, Seq<u8>, bool)>| {
        &&& no_data(pre)
        &&& ar == #[trigger] around(pre, data_item(r, r, off), tail)
        &&& aw == around(pre, data_item(w, r, off), tail)
    }
}

/// The walk from `o` reads nothing before `o`.
proof fn lemma_attrs_from_suffix(r1: Seq<u8>, r2: Seq<u8>, o: int)
    requires
        r1.len() == r2.len(),
        attrs_in_bounds(r1, o),
        forall|k: int| o <= k < r1.len() ==> #[trigger] r1[k] == r2[k],
    ensures
        attrs_from(r1, o) == attrs_from(r2, o),
    decreases r1.len() - o,
{
    if o >= 0 && o + 8 <= r1.len() {
        assert(r1[o] == r2[o] && r1[o + 1] == r2[o + 1] && r1[o + 2] == r2[o + 2] && r1[o + 3] == r2[o + 3]);
        assert(r1[o + 4] == r2[o + 4] && r1[o + 5] == r2[o + 5] && r1[o + 6] == r2[o + 6] && r1[o + 7] == r2[o + 7]);
        assert(le32(r1, o) == le32(r2, o));
        assert(le32(r1, o + 4) == le32(r2, o + 4));
        let rl = le32(r1, o + 4);
        if le32(r1, o) != 0xFFFF_FFFF && rl != 0 && o + rl <= r1.len() {
            assert(r1[o + 8] == r2[o + 8]);
            assert(r1.subrange(o, o + rl) =~= r2.subrange(o, o + rl));
            if attribute_type_of(le32(r1, o)) is Some {
                lemma_attrs_from_suffix(r1, r2, o + rl);
            }
        }
    }
}

/// A walk that finds an attribute does so at or after its start.
proof fn lemma_find_after(r: Seq<u8>, o: int, code: int)
    ensures
        find_attr_from(r, o, code) matches Some(x) ==> o <= x,
    decreases r.len() - o,
{
    if o >= 0 && o + 8 <= r.len() && le32(r, o) != 0xFFFF_FFFF && le32(r, o) != code {
        let al = le32(r, o + 4);
        if al != 0 && o + al <= r.len() {
            lemma_find_after(r, o + al, code);
        }
    }
}

/// The attribute walk of a record whose data value at `p..p + n` was
/// rewritten, that value lying in the first data attribute at `off` after
/// its header.
proof fn lemma_walks_agree(r: Seq<u8>, w: Seq<u8>, o: int, off: int, p: int, n: int)
    requires
        r.len() == w.len(),
        attrs_in_bounds(r, o),
        find_attr_from(r, o, 0x80) == Some(off),
        off + 24 <= p,
        0 <= n,
        p + n <= off + le32(r, off + 4),
        off + le32(r, off + 4) <= r.len(),
        forall|k: int| 0 <= k < r.len() && !(p <= k < p + n) ==> #[trigger] w[k] == r[k],
    ensures
        walks_agree(attrs_from(r, o), attrs_from(w, o), r, w, off),
    decreases off - o,
{
    lemma_find_after(r, o, 0x80);
    assert(o + 8 <= r.len());
    assert forall|k: int| o <= k < o + 8 implies #[trigger] w[k] == r[k] by {
        if o == off {
        } else {
        }
    }
    assert(le32(w, o) == le32(r, o)) by {
        assert(w[o] == r[o] && w[o + 1] == r[o + 1] && w[o + 2] == r[o + 2] && w[o + 3] == r[o + 3]);
    }
    assert(le32(w, o + 4) == le32(r, o + 4)) by {
        assert(w[o + 4] == r[o + 4] && w[o + 5] == r[o + 5] && w[o + 6] == r[o + 6] && w[o + 7] == r[o + 7]);
    }
    let rl = le32(r, o + 4);
    if o == off {
        if le32(r, o) != 0x80 {
            lemma_find_after(r, o + rl, 0x80);
        }
        assert(le32(r, o) == 0x80);
        assert(attribute_type_of(0x80) == Some(AttributeType::Data));
        assert(w[o + 8] == r[o + 8]);
        lemma_attrs_from_suffix(r, w, o + rl);
        let tail = attrs_from(r, o + rl);
        let pre = Seq::<(AttributeType, Seq<u8>, bool)>::empty();
        assert(attrs_from(r, o) =~= around(pre, data_item(r, r, off), tail));
        assert(attrs_from(w, o) =~= around(pre, data_item(w, r, off), tail));
    } else {
        assert(le32(r, o) != 0x80 && le32(r, o) != 0xFFFF_FFFF);
        assert(rl != 0 && o + rl <= r.len());
        lemma_find_after(r, o + rl, 0x80);
        assert(o + rl <= off);
        assert(w[o + 8] == r[o + 8]);
        assert(w.subrange(o, o + rl) =~= r.subrange(o, o + rl));
        match attribute_type_of(le32(r, o)) {
            None => {
                assert(attrs_from(r, o) =~= Seq::<(AttributeType, Seq<u8>, bool)>::empty());
                assert(attrs_from(w, o) =~= Seq::<(AttributeType, Seq<u8>, bool)>::empty());
            },
            Some(t) => {
                assert(t != AttributeType::Data);
                lemma_walks_agree(r, w, o + rl, off, p, n);
                let head = seq![(t, r.subrange(o, o + rl), r[o + 8] == 0)];
                let ar = attrs_from(r, o + rl);
                let aw = attrs_from(w, o + rl);
                assert(attrs_from(r, o) == head + ar);
                assert(attrs_from(w, o) == head + aw);
                if ar == aw && no_data(ar) {
                    assert(no_data(head + ar)) by {
                        assert forall|j: int| 0 <= j < (head + ar).len() implies (#[trigger] (head + ar)[j]).0 != AttributeType::Data by {
                            if j > 0 {
                                assert((head + ar)[j] == ar[j - 1]);
                            }
                        }
                    }
                } else {
                    let (pre, tail) = choose|pre: Seq<(AttributeType, Seq<u8>, bool)>, tail: Seq<(AttributeType, Seq<u8>, bool)>| {
                        &&& no_data(pre)
                        &&& ar == #[trigger] around(pre, data_item(r, r, off), tail)
                        &&& aw == around(pre, data_item(w, r, off), tail)
                    };
                    let pre2 = head + pre;
                    assert(no_data(pre2)) by {
                        assert forall|j: int| 0 <= j < pre2.len() implies (#[trigger] pre2[j]).0 != AttributeType::Data by {
                            if j > 0 {
                                assert(pre2[j] == pre[j - 1]);
                            }
                        }
                    }
                    assert(attrs_from(r, o) =~= around(pre2, data_item(r, r, off), tail));
                    assert(attrs_from(w, o) =~= around(pre2, data_item(w, r, off), tail));
                }
            },
        }
    }
}

/// Two metadata records that agree but for the first data run, which is the
/// resident `d` in the first.
pub open spec fn stat_rel(a: StatView, b: StatView, d: Seq<u8>) -> bool {
    &&& a.is_directory == b.is_directory
    &&& a.size == b.size
    &&& a.name == b.name
    &&& a.index_root == b.index_root
    &&& a.data_runs.len() == b.data_runs.len()
    &&& a.data_runs.len() > 0
    &&& a.data_runs[0] == RunView::Resident(d)
    &&& forall|i: int| 1 <= i < a.data_runs.len() ==> #[trigger] a.data_runs[i] == b.data_runs[i]
}

/// Gathering metadata reads only the attributes it has passed.
proof fn lemma_fold_prefix(a1: Seq<(AttributeType, Seq<u8>, bool)>, a2: Seq<(AttributeType, Seq<u8>, bool)>, bpc: int, n: nat)
    requires
        n <= a1.len(),
        n <= a2.len(),
        forall|j: int| 0 <= j < n ==> #[trigger] a1[j] == a2[j],
    ensures
        stat_fold(a1, bpc, n) == stat_fold(a2, bpc, n),
    decreases n,
{
    if n > 0 {
        lemma_fold_prefix(a1, a2, bpc, (n - 1) as nat);
        assert(a1[n - 1] == a2[n - 1]);
    }
}

/// Before any data attribute, no data run is gathered.
proof fn lemma_fold_no_data(a: Seq<(AttributeType, Seq<u8>, bool)>, bpc: int, n: nat)
    requires
        n <= a.len(),
        forall|j: int| 0 <= j < n ==> (#[trigger] a[j]).0 != AttributeType::Data,
    ensures
        stat_fold(a, bpc, n) matches Ok(st) ==> st.data_runs.len() == 0,
    decreases n,
{
    if n > 0 {
        lemma_fold_no_data(a, bpc, (n - 1) as nat);
        assert(a[n - 1].0 != AttributeType::Data);
    }
}

/// One more attribute keeps related metadata related.
proof fn lemma_step_rel(a: StatView, b: StatView, d: Seq<u8>, x: (AttributeType, Seq<u8>, bool), bpc: int)
    requires
        stat_rel(a, b, d),
    ensures
        stat_step(a, x, bpc) is Ok <==> stat_step(b, x, bpc) is Ok,
        stat_step(a, x, bpc) matches Err(e) ==> stat_step(b, x, bpc) == Err::<StatView, NtfsError>(e),
        stat_step(a, x, bpc) matches Ok(a2) ==> (stat_step(b, x, bpc) matches Ok(b2) && stat_rel(a2, b2, d)),
{
    match (stat_step(a, x, bpc), stat_step(b, x, bpc)) {
        (Ok(a2), Ok(b2)) => {
            assert forall|i: int| 1 <= i < a2.data_runs.len() implies #[trigger] a2.data_runs[i] == b2.data_runs[i] by {
                if i < a.data_runs.len() {
                    assert(a2.data_runs[i] == a.data_runs[i]);
                    assert(b2.data_runs[i] == b.data_runs[i]);
                }
            }
        },
        _ => {},
    }
}

/// A non-resident first data attribute gives a non-resident first run that
/// later attributes keep.
proof fn lemma_first_run_kept(a: Seq<(AttributeType, Seq<u8>, bool)>, m: int, bpc: int, n: nat)
    requires
        0 <= m < n <= a.len(),
        stat_fold(a, bpc, m as nat) matches Ok(s0) && s0.data_runs.len() == 0,
        a[m].0 == AttributeType::Data,
        !a[m].2,
    ensures
        stat_fold(a, bpc, n) matches Ok(st) ==> st.data_runs.len() > 0 && st.data_runs[0] is NonResident,
    decreases n,
{
    if n > m + 1 {
        lemma_first_run_kept(a, m, bpc, (n - 1) as nat);
        match stat_fold(a, bpc, (n - 1) as nat) {
            Ok(st) => {
                match stat_step(st, a[n - 1], bpc) {
                    Ok(st2) => {
                        assert(st2.data_runs.len() >= st.data_runs.len());
                        assert(st2.data_runs[0] == st.data_runs[0]);
                    },
                    Err(_) => {},
                }
            },
            Err(_) => {},
        }
    }
}

/// Related from step `n` on: after the data attribute at index `m`, the
/// metadata of the two walks stays related.
proof fn lemma_fold_rel(aw: Seq<(AttributeType, Seq<u8>, bool)>, ar: Seq<(AttributeType, Seq<u8>, bool)>, m: int,
    d: Seq<u8>, bpc: int, n: nat)
    requires
        aw.len() == ar.len(),
        0 <= m < n <= ar.len(),
        forall|j: int| 0 <= j < ar.len() && j != m ==> #[trigger] aw[j] == ar[j],
        stat_fold(aw, bpc, (m + 1) as nat) matches Ok(a) ==> (stat_fold(ar, bpc, (m + 1) as nat) matches Ok(b) && stat_rel(a, b, d)),
        stat_fold(aw, bpc, (m + 1) as nat) is Ok <==> stat_fold(ar, bpc, (m + 1) as nat) is Ok,
        stat_fold(aw, bpc, (m + 1) as nat) matches Err(e) ==> stat_fold(ar, bpc, (m + 1) as nat) == Err::<StatView, NtfsError>(e),
    ensures
        stat_fold(aw, bpc, n) is Ok <==> stat_fold(ar, bpc, n) is Ok,
        stat_fold(aw, bpc, n) matches Err(e) ==> stat_fold(ar, bpc, n) == Err::<StatView, NtfsError>(e),
        stat_fold(aw, bpc, n) matches Ok(a) ==> (stat_fold(ar, bpc, n) matches Ok(b) && stat_rel(a, b, d)),
    decreases n,
{
    if n > m + 1 {
        lemma_fold_rel(aw, ar, m, d, bpc, (n - 1) as nat);
        assert(aw[n - 1] == ar[n - 1]);
        match (stat_fold(aw, bpc, (n - 1) as nat), stat_fold(ar, bpc, (n - 1) as nat)) {
            (Ok(a), Ok(b)) => {
                lemma_step_rel(a, b, d, ar[n - 1], bpc);
            },
            _ => {},
        }
    }
}

/// The metadata of a record whose first data attribute's resident value was
/// rewritten with `data` (of the same length, the value lying in the
/// attribute after its header) is that of the record, but for the first
/// data run, which is `data`.
pub proof fn lemma_stat_after_rewrite(r: Seq<u8>, w: Seq<u8>, off: int, data: Seq<u8>, bpc: int)
    requires
        r.len() == w.len(),
        attrs_in_bounds(r, first_attr_offset(r)),
        find_attr_from(r, first_attr_offset(r), 0x80) == Some(off),
        24 <= le16(r, off + 20),
        data.len() == le32(r, off + 16),
        off + le16(r, off + 20) + data.len() <= off + le32(r, off + 4),
        off + le32(r, off + 4) <= r.len(),
        forall|k: int| 0 <= k < r.len() && !(off + le16(r, off + 20) <= k < off + le16(r, off + 20) + data.len())
            ==> #[trigger] w[k] == r[k],
        forall|k: int| 0 <= k < data.len() ==> #[trigger] w[off + le16(r, off + 20) + k] == data[k],
        stat_spec(r, bpc) matches Ok(st) && st.data_runs.len() > 0 && st.data_runs[0] is Resident,
    ensures
        stat_spec(w, bpc) matches Ok(st2) && stat_spec(r, bpc) matches Ok(st) && stat_rel(st2, st, data),
{
    let first = first_attr_offset(r);
    let vo = le16(r, off + 20);
    let p = off + vo;
    let n = data.len() as int;
    lemma_find_after(r, first, 0x80);
    assert(w[20] == r[20] && w[21] == r[21]);
    assert(first_attr_offset(w) == first);
    lemma_walks_agree(r, w, first, off, p, n);
    let ar = attrs_from(r, first);
    let aw = attrs_from(w, first);
    let st = stat_spec(r, bpc)->Ok_0;
    if ar == aw && no_data(ar) {
        lemma_fold_no_data(ar, bpc, ar.len());
        assert(false);
    } else {
        let (pre, tail) = choose|pre: Seq<(AttributeType, Seq<u8>, bool)>, tail: Seq<(AttributeType, Seq<u8>, bool)>| {
            &&& no_data(pre)
            &&& ar == #[trigger] around(pre, data_item(r, r, off), tail)
            &&& aw == around(pre, data_item(w, r, off), tail)
        };
        let m = pre.len() as int;
        let xr = data_item(r, r, off);
        let xw = data_item(w, r, off);
        assert(ar[m] == xr);
        assert(aw[m] == xw);
        assert forall|j: int| 0 <= j < ar.len() && j != m implies #[trigger] aw[j] == ar[j] by {
            if j < m {
                assert(aw[j] == pre[j] && ar[j] == pre[j]);
            } else {
                assert(aw[j] == tail[j - m - 1] && ar[j] == tail[j - m - 1]);
            }
        }
        lemma_fold_prefix(aw, ar, bpc, m as nat);
        assert forall|j: int| 0 <= j < m implies (#[trigger] ar[j]).0 != AttributeType::Data by {
            assert(ar[j] == pre[j]);
        }
        lemma_fold_no_data(ar, bpc, m as nat);
        let rl = le32(r, off + 4);
        let dr = r.subrange(off, off + rl);
        let dw = w.subrange(off, off + rl);
        assert(le16(dw, 20) == le16(dr, 20)) by {
            assert(dw[20] == w[off + 20] && dr[20] == r[off + 20]);
            assert(dw[21] == w[off + 21] && dr[21] == r[off + 21]);
        }
        assert(le32(dw, 16) == le32(dr, 16)) by {
            assert(dw[16] == w[off + 16] && dw[17] == w[off + 17] && dw[18] == w[off + 18] && dw[19] == w[off + 19]);
        }
        assert(resident_value_fits(dr));
        assert(resident_value(dw) =~= data) by {
            assert forall|k: int| 0 <= k < n implies #[trigger] resident_value(dw)[k] == data[k] by {
                assert(resident_value(dw)[k] == w[off + vo + k]);
            }
        }
        // The data attribute decides the first run.
        match stat_fold(ar, bpc, m as nat) {
            Ok(s0) => {
                if !(r[off + 8] == 0) {
                    // A non-resident first data attribute makes the first run non-resident.
                    lemma_first_run_kept(ar, m, bpc, ar.len());
                    assert(false);
                }
                assert(stat_fold(aw, bpc, (m + 1) as nat) == stat_step(s0, xw, bpc));
                assert(stat_fold(ar, bpc, (m + 1) as nat) == stat_step(s0, xr, bpc));
                lemma_fold_rel(aw, ar, m, data, bpc, ar.len());
            },
            Err(_) => {
                lemma_fold_err_stays(ar, bpc, m as nat, ar.len());
                assert(false);
            },
        }
    }
}

/// The fixups of `w` can be stamped and then restored to give `w` back:
/// the update sequence array lies in the header area and in the record,
/// every sector end it covers lies in the record, and each holds the bytes
/// its array entry keeps.
pub open spec fn restorable(w: Seq<u8>) -> bool {
    &&& w.len() >= 8
    &&& fixups_enabled(w) ==> {
        &&& usa_disjoint(w)
        &&& usa_offset(w) + 2 * usa_count(w) <= w.len()
        &&& (usa_count(w) - 1) * 512 <= w.len()
        &&& forall|j: int| 1 <= j < usa_count(w) ==> {
            &&& w[usa_offset(w) + 2 * j] == #[trigger] w[sector_end(j)]
            &&& w[usa_offset(w) + 2 * j + 1] == w[sector_end(j) + 1]
        }
    }
}

/// Byte `k` of `s` after stamping `lo`, `hi` on the ends of sectors `i`
/// to `usc - 1`.
pub open spec fn stamp_expect(s: Seq<u8>, usc: int, lo: u8, hi: u8, i: int, k: int) -> u8 {
    if (k + 2) % 512 == 0 && i <= (k + 2) / 512 < usc {
        lo
    } else if (k + 1) % 512 == 0 && i <= (k + 1) / 512 < usc {
        hi
    } else {
        s[k]
    }
}

proof fn lemma_stamp_point(s: Seq<u8>, usc: int, lo: u8, hi: u8, i: int)
    requires
        1 <= i,
        (usc - 1) * 512 <= s.len(),
    ensures
        stamp_from(s, usc, lo, hi, i).len() == s.len(),
        forall|k: int| 0 <= k < s.len() ==> #[trigger] stamp_from(s, usc, lo, hi, i)[k] == stamp_expect(s, usc, lo, hi, i, k),
    decreases usc - i,
{
    if i < usc {
        let e = sector_end(i);
        assert(i * 512 <= (usc - 1) * 512) by (nonlinear_arith)
            requires i <= usc - 1;
        let s2 = s.update(e, lo).update(e + 1, hi);
        lemma_stamp_point(s2, usc, lo, hi, i + 1);
        assert forall|k: int| 0 <= k < s.len() implies #[trigger] stamp_from(s, usc, lo, hi, i)[k] == stamp_expect(s, usc, lo, hi, i, k) by {
            assert(stamp_from(s, usc, lo, hi, i)[k] == stamp_expect(s2, usc, lo, hi, i + 1, k));
            if k == e {
                assert((k + 2) % 512 == 0 && (k + 2) / 512 == i);
                assert((k + 1) % 512 != 0);
            } else if k == e + 1 {
                assert((k + 2) % 512 != 0);
                assert((k + 1) % 512 == 0 && (k + 1) / 512 == i);
            } else {
                assert((k + 2) % 512 == 0 ==> (k + 2) / 512 != i);
                assert((k + 1) % 512 == 0 ==> (k + 1) / 512 != i);
            }
        }
    }
}

/// Which sector end, if any, byte `k` is.
proof fn lemma_end_index(k: int, j: int)
    requires
        j >= 1,
    ensures
        (k == sector_end(j)) <==> ((k + 2) % 512 == 0 && (k + 2) / 512 == j),
        (k == sector_end(j) + 1) <==> ((k + 1) % 512 == 0 && (k + 1) / 512 == j),
{
    assert((k == j * 512 - 2) <==> ((k + 2) % 512 == 0 && (k + 2) / 512 == j)) by (nonlinear_arith);
    assert((k == j * 512 - 1) <==> ((k + 1) % 512 == 0 && (k + 1) / 512 == j)) by (nonlinear_arith);
}

proof fn lemma_strict_stamped(w: Seq<u8>, i: int)
    requires
        restorable(w),
        fixups_enabled(w),
        1 <= i <= usa_count(w),
    ensures
        ({
            let seq = le16(w, usa_offset(w));
            strict_fixups_from(stamp_from(w, usa_count(w), (seq % 256) as u8, (seq / 256) as u8, i), usa_offset(w), usa_count(w), seq, i)
                == Ok::<Seq<u8>, NtfsError>(w)
        }),
    decreases usa_count(w) - i,
{
    let uso = usa_offset(w);
    let usc = usa_count(w);
    let seq = le16(w, uso);
    let lo = (seq % 256) as u8;
    let hi = (seq / 256) as u8;
    let t = stamp_from(w, usc, lo, hi, i);
    lemma_stamp_point(w, usc, lo, hi, i);
    if i < usc {
        let e = sector_end(i);
        assert(i * 512 <= (usc - 1) * 512) by (nonlinear_arith)
            requires i <= usc - 1;
        lemma_end_index(e, i);
        lemma_end_index(e + 1, i);
        assert(t[e] == lo);
        assert(t[e + 1] == hi) by {
            assert((e + 1 + 2) % 512 == 0 ==> e + 1 == sector_end((e + 1 + 2) / 512));
        }
        assert(le16(t, e) == seq);
        let a = uso + 2 * i;
        assert(t[a] == w[a]);
        assert(t[a + 1] == w[a + 1]);
        let t2 = t.update(e, t[a]).update(e + 1, t[a + 1]);
        lemma_stamp_point(w, usc, lo, hi, i + 1);
        assert(t2 =~= stamp_from(w, usc, lo, hi, i + 1)) by {
            assert forall|k: int| 0 <= k < t2.len() implies #[trigger] t2[k] == stamp_from(w, usc, lo, hi, i + 1)[k] by {
                lemma_end_index(k, i);
                assert(stamp_from(w, usc, lo, hi, i + 1)[k] == stamp_expect(w, usc, lo, hi, i + 1, k));
                if k == e {
                    assert((k + 1) % 512 != 0);
                    assert(w[uso + 2 * i] == w[sector_end(i)]);
                    assert(stamp_expect(w, usc, lo, hi, i + 1, k) == w[k]);
                } else if k == e + 1 {
                    assert((k + 2) % 512 != 0);
                    assert(w[uso + 2 * i] == w[sector_end(i)]);
                    assert(stamp_expect(w, usc, lo, hi, i + 1, k) == w[k]);
                } else {
                    assert(t2[k] == t[k]);
                    assert(t[k] == stamp_expect(w, usc, lo, hi, i, k));
                }
            }
        }
        lemma_strict_stamped(w, i + 1);
    } else {
        assert(t =~= w);
    }
}

/// On a record whose array entries already hold its sector ends, saving
/// them again changes nothing: re-applying fixups only stamps.
pub proof fn lemma_reapply_is_stamp(w: Seq<u8>)
    requires
        restorable(w),
    ensures
        reapply_fixups_spec(w) == stamp_fixups(w),
{
    if fixups_enabled(w) {
        let uso = usa_offset(w);
        let usc = usa_count(w);
        let lo = w[uso];
        let hi = w[uso + 1];
        let seq = le16(w, uso);
        assert((seq % 256) as u8 == lo && (seq / 256) as u8 == hi);
        lemma_reapply_pointwise(w, uso, usc, lo, hi, 1);
        lemma_stamp_point(w, usc, lo, hi, 1);
        let a = reapply_fixups_spec(w);
        let b = stamp_fixups(w);
        assert forall|k: int| 0 <= k < w.len() implies #[trigger] a[k] == b[k] by {
            assert(a[k] == reapply_expect(w, uso, usc, lo, hi, 1, k));
            assert(b[k] == stamp_expect(w, usc, lo, hi, 1, k));
            if (k + 2) % 512 == 0 && 1 <= (k + 2) / 512 < usc {
                let j = (k + 2) / 512;
                assert(j * 512 <= (usc - 1) * 512) by (nonlinear_arith) requires j <= usc - 1;
                assert(fixup_visits(j, usc, w.len() as int));
            } else if (k + 1) % 512 == 0 && 1 <= (k + 1) / 512 < usc {
                let j = (k + 1) / 512;
                assert(j * 512 <= (usc - 1) * 512) by (nonlinear_arith) requires j <= usc - 1;
                assert(fixup_visits(j, usc, w.len() as int));
            } else if uso <= k < uso + 2 * usc && 1 <= (k - uso) / 2 && fixup_visits((k - uso) / 2, usc, w.len() as int) {
                let j = (k - uso) / 2;
                assert(w[uso + 2 * j] == w[sector_end(j)]);
                assert(w[uso + 2 * j + 1] == w[sector_end(j) + 1]);
                if (k - uso) % 2 == 0 {
                    assert(k == uso + 2 * j);
                } else {
                    assert(k == uso + 2 * j + 1);
                }
            }
        }
        assert(a =~= b);
    }
}

/// Stamping the fixups of a restorable record and reading it back gives
/// the record.
pub proof fn lemma_restore_stamped(w: Seq<u8>)
    requires
        restorable(w),
        w.subrange(0, 4) == file_signature(),
    ensures
        record_from_raw(stamp_fixups(w)) == Ok::<Seq<u8>, NtfsError>(w),
{
    if fixups_enabled(w) {
        let uso = usa_offset(w);
        let usc = usa_count(w);
        let seq = le16(w, uso);
        let t = stamp_fixups(w);
        lemma_stamp_point(w, usc, (seq % 256) as u8, (seq / 256) as u8, 1);
        assert forall|k: int| 0 <= k < 510 && k < w.len() implies #[trigger] t[k] == w[k] by {}
        assert(t.subrange(0, 4) =~= w.subrange(0, 4));
        assert(usa_offset(t) == uso);
        assert(usa_count(t) == usc);
        assert(le16(t, uso) == seq);
        lemma_strict_stamped(w, 1);
    }
}

/// What strict fixups of `s` from sector `i` on gives, byte by byte: each
/// visited sector end takes its array entry, every other byte stays.
proof fn lemma_strict_point(s: Seq<u8>, uso: int, usc: int, seq: int, i: int, rec: Seq<u8>)
    requires
        1 <= i,
        48 <= uso,
        uso + 2 * usc <= 510,
        strict_fixups_from(s, uso, usc, seq, i) == Ok::<Seq<u8>, NtfsError>(rec),
    ensures
        rec.len() == s.len(),
        forall|j: int| i <= j < usc ==> #[trigger] sector_end(j) + 2 <= s.len(),
        forall|j: int| i <= j < usc ==> rec[#[trigger] sector_end(j)] == s[uso + 2 * j] && rec[sector_end(j) + 1] == s[uso + 2 * j + 1],
        forall|k: int| 0 <= k < s.len() && !((k + 2) % 512 == 0 && i <= (k + 2) / 512 < usc)
            && !((k + 1) % 512 == 0 && i <= (k + 1) / 512 < usc) ==> #[trigger] rec[k] == s[k],
    decreases usc - i,
{
    if i < usc {
        let e = sector_end(i);
        let s2 = s.update(e, s[uso + 2 * i]).update(e + 1, s[uso + 2 * i + 1]);
        assert(e >= 510);
        lemma_strict_point(s2, uso, usc, seq, i + 1, rec);
        lemma_end_index(e, i);
        lemma_end_index(e + 1, i);
        assert(rec[e] == s2[e]) by {
            assert((e + 1) % 512 != 0);
        }
        assert(rec[e + 1] == s2[e + 1]) by {
            assert((e + 1 + 2) % 512 != 0);
        }
        assert forall|j: int| i <= j < usc implies rec[#[trigger] sector_end(j)] == s[uso + 2 * j]
            && rec[sector_end(j) + 1] == s[uso + 2 * j + 1] by {
            if j != i {
                assert(s2[uso + 2 * j] == s[uso + 2 * j]);
                assert(s2[uso + 2 * j + 1] == s[uso + 2 * j + 1]);
            }
        }
        assert forall|k: int| 0 <= k < s.len() && !((k + 2) % 512 == 0 && i <= (k + 2) / 512 < usc)
            && !((k + 1) % 512 == 0 && i <= (k + 1) / 512 < usc) implies #[trigger] rec[k] == s[k] by {
            lemma_end_index(k, i);
        }
    }
}

/// A record read from a slot whose update sequence array lies in the
/// header area holds, at every sector end the array covers, the bytes
/// its entry keeps.
pub proof fn lemma_read_record_restorable(raw: Seq<u8>, rec: Seq<u8>)
    requires
        record_from_raw(raw) == Ok::<Seq<u8>, NtfsError>(rec),
        raw.len() >= 8,
        fixups_enabled(raw) ==> usa_disjoint(raw),
    ensures
        restorable(rec),
        rec.len() == raw.len(),
        rec.subrange(0, 4) == file_signature(),
{
    assert(raw.subrange(0, 4) == file_signature());
    if fixups_enabled(raw) {
        let uso = usa_offset(raw);
        let usc = usa_count(raw);
        lemma_strict_point(raw, uso, usc, le16(raw, uso), 1, rec);
        assert(rec.subrange(0, 4) =~= raw.subrange(0, 4));
        assert(usa_offset(rec) == uso && usa_count(rec) == usc);
        if usc > 1 {
            assert(sector_end(usc - 1) + 2 <= raw.len());
        }
        assert forall|k: int| 0 <= k < 510 && k < raw.len() implies #[trigger] rec[k] == raw[k] by {
            assert((k + 2) / 512 == 0 || (k + 2) % 512 != 0);
            assert((k + 1) / 512 == 0);
        }
        assert forall|j: int| 1 <= j < usa_count(rec) implies {
            &&& rec[usa_offset(rec) + 2 * j] == #[trigger] rec[sector_end(j)]
            &&& rec[usa_offset(rec) + 2 * j + 1] == rec[sector_end(j) + 1]
        } by {
            assert(rec[sector_end(j)] == raw[uso + 2 * j]);
            assert(rec[uso + 2 * j] == raw[uso + 2 * j]);
            assert(rec[uso + 2 * j + 1] == raw[uso + 2 * j + 1]);
        }
    } else {
        assert(rec == raw);
    }
}

/// Where the first data attribute's value lies: after the attribute's
/// 24-byte header and inside the attribute, which lies in the record; and
/// rewriting `n` bytes of it touches neither the update sequence array nor
/// a sector end the fixups cover.
pub open spec fn data_value_placed(rec: Seq<u8>, n: int) -> bool {
    let off = data_attr_offset(rec).unwrap();
    let p = off + value_offset(rec, off);
    &&& data_attr_offset(rec) is Some
    &&& 24 <= value_offset(rec, off)
    &&& p + n <= off + le32(rec, off + 4)
    &&& off + le32(rec, off + 4) <= rec.len()
    &&& fixups_enabled(rec) ==> {
        &&& usa_offset(rec) + 2 * usa_count(rec) <= p
        &&& forall|j: int| 1 <= j < usa_count(rec) ==> p + n <= #[trigger] sector_end(j) || sector_end(j) + 2 <= p
    }
}

/// Rewriting the data value keeps a record restorable, and changes only
/// the value's bytes.
proof fn lemma_rewrite_restorable(rec: Seq<u8>, data: Seq<u8>)
    requires
        restorable(rec),
        rec.subrange(0, 4) == file_signature(),
        data_value_placed(rec, data.len() as int),
    ensures
        restorable(with_data(rec, data)),
        with_data(rec, data).subrange(0, 4) == file_signature(),
        with_data(rec, data).len() == rec.len(),
        ({
            let off = data_attr_offset(rec).unwrap();
            let p = off + le16(rec, off + 20);
            &&& 0 <= off
            &&& forall|k: int| 0 <= k < rec.len() && !(p <= k < p + data.len()) ==> #[trigger] with_data(rec, data)[k] == rec[k]
            &&& forall|k: int| 0 <= k < data.len() ==> #[trigger] with_data(rec, data)[p + k] == data[k]
        }),
{
    let off = data_attr_offset(rec).unwrap();
    lemma_find_after(rec, first_attr_offset(rec), 0x80);
    let p = off + value_offset(rec, off);
    let w = with_data(rec, data);
    let n = data.len() as int;
    assert(w =~= rec.subrange(0, p) + data + rec.subrange(p + n, rec.len() as int));
    assert(w.len() == rec.len());
    assert forall|k: int| 0 <= k < rec.len() && !(p <= k < p + n) implies #[trigger] w[k] == rec[k] by {
        if k < p {
            assert(w[k] == rec.subrange(0, p)[k]);
        } else {
            assert(w[k] == rec.subrange(p + n, rec.len() as int)[k - p - n]);
        }
    }
    assert forall|k: int| 0 <= k < n implies #[trigger] w[p + k] == data[k] by {
        assert(w[p + k] == (rec.subrange(0, p) + data)[p + k]);
    }
    assert(w.subrange(0, 4) =~= rec.subrange(0, 4));
    assert(w[4] == rec[4] && w[5] == rec[5] && w[6] == rec[6] && w[7] == rec[7]);
    if fixups_enabled(rec) {
        let uso = usa_offset(rec);
        let usc = usa_count(rec);
        assert(usa_offset(w) == uso && usa_count(w) == usc);
        assert forall|j: int| 1 <= j < usa_count(w) implies {
            &&& w[usa_offset(w) + 2 * j] == #[trigger] w[sector_end(j)]
            &&& w[usa_offset(w) + 2 * j + 1] == w[sector_end(j) + 1]
        } by {
            assert(rec[uso + 2 * j] == rec[sector_end(j)]);
            assert(p + n <= sector_end(j) || sector_end(j) + 2 <= p);
            assert(w[uso + 2 * j] == rec[uso + 2 * j]);
            assert(w[uso + 2 * j + 1] == rec[uso + 2 * j + 1]);
            assert(w[sector_end(j)] == rec[sector_end(j)]);
            assert(w[sector_end(j) + 1] == rec[sector_end(j) + 1]);
        }
    }
}

/// What `write_file` writes, reading gives back: after a write of `data`
/// that succeeded (the device as its contract describes it), the record
/// read from the file's slot is the record with `data` as the value of its
/// first data attribute, and the file's metadata is what it was but for
/// its first data run, which is `data`. A file with one data run reads
/// back as `data`. This holds when the slot's update sequence array lies
/// in the header area and the value lies after its attribute's header,
/// inside the attribute, away from the update sequence array and from the
/// sector ends that the fixups stamp (over a sector end, the array's entry
/// takes the new bytes too, so the record read back differs from the
/// rewritten one in the array; that case is not stated here).
pub proof fn lemma_write_file_reads_back<D: BlockDevice>(before: NtfsDriver<D>, after: NtfsDriver<D>, file_number: u64,
    data: Seq<u8>)
    requires
        before.addressable(file_number),
        before.record_on_device(file_number),
        before.stat_ok(file_number),
        fixups_enabled(before.raw_record(file_number)) ==> usa_disjoint(before.raw_record(file_number)),
        before.record(file_number) matches Ok(rec) && data_value_placed(rec, data.len() as int)
            && data.len() == value_length(rec, data_attr_offset(rec).unwrap())
            && after.dev().contents() == splice(before.dev().contents(), before.record_offset(file_number),
                reapply_fixups_spec(with_data(rec, data))),
        before.stat_of(file_number) matches Ok(st) && first_run_resident_of_len(st, data.len() as int),
        after.boot_sector() == before.boot_sector(),
        after.record_size() == before.record_size(),
    ensures
        before.record(file_number) matches Ok(rec) && after.record(file_number) == Ok::<Seq<u8>, NtfsError>(with_data(rec, data)),
        after.stat_of(file_number) matches Ok(st2) && before.stat_of(file_number) matches Ok(st) && stat_rel(st2, st, data),
        after.stat_of(file_number) matches Ok(st2) && (st2.data_runs.len() == 1
            ==> file_content(after.dev().contents(), st2.data_runs, after.cluster_size()) == data),
{
    let raw = before.raw_record(file_number);
    let rec = before.record(file_number)->Ok_0;
    let w = with_data(rec, data);
    let ro = before.record_offset(file_number);
    let rs = before.record_size() as int;
    assert(raw.len() == rs);
    assert(raw.len() >= 8);
    lemma_read_record_restorable(raw, rec);
    lemma_rewrite_restorable(rec, data);
    lemma_restore_stamped(w);
    lemma_reapply_is_stamp(w);
    let t = stamp_fixups(w);
    if fixups_enabled(w) {
        let seq = le16(w, usa_offset(w));
        lemma_stamp_point(w, usa_count(w), (seq % 256) as u8, (seq / 256) as u8, 1);
    }
    assert(t.len() == rs);
    let c = before.dev().contents();
    assert(after.record_offset(file_number) == ro);
    assert(after.raw_record(file_number) =~= t) by {
        assert(after.dev().contents() == c.subrange(0, ro) + t + c.subrange(ro + t.len(), c.len() as int));
    }
    assert(after.record(file_number) == Ok::<Seq<u8>, NtfsError>(w));
    let off = data_attr_offset(rec).unwrap();
    let bpc = before.cluster_size();
    assert(after.cluster_size() == bpc);
    lemma_stat_after_rewrite(rec, w, off, data, bpc);
    let st2 = stat_spec(w, bpc)->Ok_0;
    if st2.data_runs.len() == 1 {
        let cc = after.dev().contents();
        assert(st2.data_runs.drop_last() =~= Seq::<RunView>::empty());
        assert(file_content(cc, st2.data_runs, bpc) == file_content(cc, Seq::<RunView>::empty(), bpc) + data);
        assert(file_content(cc, Seq::<RunView>::empty(), bpc) + data =~= data);
    }
}

/// The name the driver reads from UTF-16 units: each ASCII unit as its
/// character and any other as `?`, up to the first zero unit.
pub open spec fn name_of_units(units: Seq<u16>) -> Seq<char>
    decreases units.len(),
{
    if units.len() == 0 || units[0] == 0 {
        Seq::empty()
    } else {
        seq![name_char(units[0] as int)] + name_of_units(units.drop_first())
    }
}

proof fn lemma_decode_units(s: Seq<u8>, start: int, units: Seq<u16>)
    requires
        forall|i: int| 0 <= i < units.len() ==> le16(s, start + 2 * i) == #[trigger] units[i],
    ensures
        decode_name(s, start, units.len()) == name_of_units(units),
    decreases units.len(),
{
    if units.len() > 0 {
        assert(le16(s, start) == units[0]);
        let rest = units.drop_first();
        assert forall|i: int| 0 <= i < rest.len() implies le16(s, start + 2 + 2 * i) == #[trigger] rest[i] by {
            assert(le16(s, start + 2 * (i + 1)) == units[i + 1]);
            assert(start + 2 * (i + 1) == start + 2 + 2 * i);
        }
        lemma_decode_units(s, start + 2, rest);
    }
}

/// A name of ASCII characters other than NUL reads back as itself.
pub proof fn lemma_ascii_name_reads_back(name: Seq<char>)
    requires
        forall|i: int| 0 <= i < name.len() ==> 0 < (#[trigger] name[i]) as u32 && (name[i] as u32) < 128,
    ensures
        name_of_units(utf16_units(name)) == name,
    decreases name.len(),
{
    if name.len() > 0 {
        let c = name[0];
        let rest = name.drop_first();
        assert forall|i: int| 0 <= i < rest.len() implies 0 < (#[trigger] rest[i]) as u32 && (rest[i] as u32) < 128 by {
            assert(rest[i] == name[i + 1]);
        }
        lemma_ascii_name_reads_back(rest);
        lemma_utf16_front(c, rest);
        assert(name =~= seq![c] + rest);
        let u = utf16_units(name);
        let v = c as u32;
        assert(u[0] == v as u16);
        assert(u.drop_first() =~= utf16_units(rest));
        assert((v as u16) as int == v as int);
        vstd::utf8::char_u32_cast(c, v);
        assert((v as char) == c);
        assert((v as int) as char == c);
        assert(name_char(v as u16 as int) == c);
    }
}

/// The encoding of a string starting with `c` starts with `c`'s units.
proof fn lemma_utf16_front(c: char, rest: Seq<char>)
    requires
        (c as u32) < 0x10000,
    ensures
        utf16_units(seq![c] + rest) == seq![(c as u32) as u16] + utf16_units(rest),
    decreases rest.len(),
{
    let s = seq![c] + rest;
    if rest.len() == 0 {
        assert(s.drop_last() =~= Seq::<char>::empty());
        assert(utf16_units(s) == utf16_units(Seq::<char>::empty()) + crate::ntfs::write::char_units(c));
        assert(utf16_units(s) =~= seq![(c as u32) as u16] + utf16_units(rest));
    } else {
        lemma_utf16_front(c, rest.drop_last());
        assert(s.drop_last() =~= seq![c] + rest.drop_last());
        assert(s.last() == rest.last());
        assert(utf16_units(s) =~= seq![(c as u32) as u16] + utf16_units(rest));
    }
}

/// The metadata of a new file record: not a directory, the name, and the
/// data as its one resident run.
pub open spec fn created_file_stat(units: Seq<u16>, data: Seq<u8>) -> StatView {
    StatView {
        is_directory: false,
        size: data.len() as u64,
        name: Some(name_of_units(units)),
        data_runs: seq![RunView::Resident(data)],
        index_root: None,
    }
}

/// A new record read back from its slot: the stamped sector ends of the
/// first two sectors take the zeros its update sequence array keeps.
proof fn lemma_new_record_read(img: Seq<u8>, rs: int, n: u64)
    requires
        img.len() == rs,
        rs >= 1024,
        crate::ntfs::write::record_header_at(img, rs, n, (n % 0x10000) as u16),
    ensures
        record_from_raw(stamped(img, (n % 0x10000) as u16))
            == Ok::<Seq<u8>, NtfsError>(img.update(510, 0u8).update(511, 0u8).update(1022, 0u8).update(1023, 0u8)),
{
    let seq = (n % 0x10000) as u16;
    let st = stamped(img, seq);
    let img0 = img.update(510, 0u8).update(511, 0u8).update(1022, 0u8).update(1023, 0u8);
    assert forall|k: int| 0 <= k < 510 implies #[trigger] st[k] == img[k] by {}
    assert(st.subrange(0, 4) =~= img.subrange(0, 4));
    assert(fixups_enabled(st));
    assert(usa_offset(st) == 48 && usa_count(st) == 3);
    assert(le16(st, 48) == seq);
    assert(le16(st, 510) == seq);
    assert(le16(st, 1022) == seq);
    let s1 = st.update(510, st[50]).update(511, st[51]);
    assert(le16(s1, 1022) == seq);
    let s2 = s1.update(1022, s1[52]).update(1023, s1[53]);
    assert(img[50] == 0 && img[51] == 0 && img[52] == 0 && img[53] == 0);
    assert(s2 =~= img0);
    assert(strict_fixups_from(s2, 48, 3, seq as int, 3) == Ok::<Seq<u8>, NtfsError>(s2));
    assert(strict_fixups_from(s1, 48, 3, seq as int, 2) == Ok::<Seq<u8>, NtfsError>(s2));
    assert(strict_fixups_from(st, 48, 3, seq as int, 1) == Ok::<Seq<u8>, NtfsError>(s2));
}

/// A record just created in slot `n` reads back: its signature is always
/// intact, and for records of at least 1024 bytes (the two sectors its
/// update sequence array covers) its fixups check out.
pub proof fn lemma_created_record_parses<D: BlockDevice>(drv: NtfsDriver<D>, n: u64, name: Seq<char>,
    parent: u64, is_dir: bool, data: Seq<u8>)
    requires
        drv.holds_new_record(n, name, parent, is_dir, data),
    ensures
        drv.record(n) != Err::<Seq<u8>, NtfsError>(NtfsError::InvalidMftRecord),
        drv.record_size() >= 1024 ==> drv.record(n) is Ok,
{
    let rs = drv.record_size() as int;
    let seq = (n % 0x10000) as u16;
    let img = choose|img: Seq<u8>| {
        &&& new_record_image(img, rs, n, utf16_units(name), parent, is_dir, data, rs as u32,
            drv.boot_sector().clusters_per_index_buffer)
        &&& drv.raw_record(n) == #[trigger] stamped(img, seq)
    };
    let st = stamped(img, seq);
    assert(st.subrange(0, 4) =~= img.subrange(0, 4));
    lemma_record_errors(st);
    if rs >= 1024 {
        lemma_new_record_read(img, rs, n);
    }
}

/// The attributes of a new file record whose attributes end before byte
/// 510, read after the fixups.
proof fn lemma_new_file_attributes(img: Seq<u8>, img0: Seq<u8>, rs: int, n: u64, units: Seq<u16>, parent: u64,
    data: Seq<u8>, cpb: i8)
    requires
        new_record_image(img, rs, n, units, parent, false, data, rs as u32, cpb),
        rs >= 1024,
        units.len() < 256,
        data.len() <= 700,
        after_filename(units.len() as int) + aligned_attr_len(data.len() as int) + 4 <= 510,
        img0 == img.update(510, 0u8).update(511, 0u8).update(1022, 0u8).update(1023, 0u8),
    ensures
        ({
            let u = units.len() as int;
            let off2 = after_filename(u);
            let a1 = aligned_attr_len(filename_value_len(u));
            let a2 = aligned_attr_len(data.len() as int);
            attributes_spec(img0) == seq![
                (AttributeType::StandardInformation, img0.subrange(56, 136), true),
                (AttributeType::FileName, img0.subrange(136, 136 + a1), true),
                (AttributeType::Data, img0.subrange(off2, off2 + a2), true)]
        }),
{
    let u = units.len() as int;
    let dl = filename_value_len(u);
    let a1 = aligned_attr_len(dl);
    let off2 = after_filename(u);
    let a2 = aligned_attr_len(data.len() as int);
    assert forall|k: int| 0 <= k < 510 implies #[trigger] img0[k] == img[k] by {}
    assert(first_attr_offset(img0) == 56);
    assert(le32(img0, 56) == 0x10 && le32(img0, 60) == 80 && img0[64] == 0);
    assert(le32(img0, 136) == 0x30 && le32(img0, 140) == a1 && img0[144] == 0);
    assert(le32(img0, off2) == 0x80 && le32(img0, off2 + 4) == a2 && img0[off2 + 8] == 0);
    assert(le32(img0, off2 + a2) == 0xFFFF_FFFF);
    let d0 = img0.subrange(56, 136);
    let d1 = img0.subrange(136, 136 + a1);
    let d2 = img0.subrange(off2, off2 + a2);
    assert(attrs_from(img0, off2 + a2) =~= Seq::<(AttributeType, Seq<u8>, bool)>::empty());
    assert(attrs_from(img0, off2) =~= seq![(AttributeType::Data, d2, true)]);
    assert(attrs_from(img0, 136) =~= seq![(AttributeType::FileName, d1, true), (AttributeType::Data, d2, true)]);
    assert(attrs_from(img0, 56) =~= seq![(AttributeType::StandardInformation, d0, true),
        (AttributeType::FileName, d1, true), (AttributeType::Data, d2, true)]);
}

/// A new file reads back what it was created with: after `create_file`
/// wrote the record of `name` holding `data` to slot `n` (as `created_in`
/// describes the device), the slot's record parses to the name, as the
/// driver decodes it, and `data` as its only, resident, data run. This
/// holds for records of at least 1024 bytes whose attributes end before
/// the end of the first sector (the record's update sequence array keeps
/// zeros, so attribute bytes stamped at a sector end read back as zeros)
/// and for names under 256 code units (the name length is one byte).
#[verifier::rlimit(40)]
pub proof fn lemma_created_file_reads_back<D: BlockDevice>(drv: NtfsDriver<D>, before: Seq<u8>, n: u64, name: Seq<char>,
    parent: u64, data: Seq<u8>)
    requires
        drv.created_in(before, n, name, parent, false, data),
        drv.record_size() >= 1024,
        0 <= drv.record_offset(n),
        drv.record_offset(n) + drv.record_size() <= before.len(),
        utf16_units(name).len() < 256,
        data.len() <= 700,
        after_filename(utf16_units(name).len() as int) + aligned_attr_len(data.len() as int) + 4 <= 510,
    ensures
        drv.stat_of(n) == Ok::<StatView, NtfsError>(created_file_stat(utf16_units(name), data)),
{
    let units = utf16_units(name);
    let rs = drv.record_size() as int;
    let seq = (n % 0x10000) as u16;
    let cpb = drv.boot_sector().clusters_per_index_buffer;
    let img = choose|img: Seq<u8>| {
        &&& new_record_image(img, rs, n, units, parent, false, data, rs as u32, cpb)
        &&& drv.dev().contents() == splice(before, drv.record_offset(n), #[trigger] stamped(img, seq))
    };
    let st = stamped(img, seq);
    let ro = drv.record_offset(n);
    assert(st.len() == rs);
    assert(drv.raw_record(n) =~= st) by {
        assert(drv.dev().contents() == before.subrange(0, ro) + st + before.subrange(ro + st.len(), before.len() as int));
    }
    let img0 = img.update(510, 0u8).update(511, 0u8).update(1022, 0u8).update(1023, 0u8);
    lemma_new_record_read(img, rs, n);
    assert(drv.record(n) == Ok::<Seq<u8>, NtfsError>(img0));
    lemma_new_file_attributes(img, img0, rs, n, units, parent, data, cpb);
    let u = units.len() as int;
    let off2 = after_filename(u);
    let a1 = aligned_attr_len(filename_value_len(u));
    let a2 = aligned_attr_len(data.len() as int);
    let d1 = img0.subrange(136, 136 + a1);
    let d2 = img0.subrange(off2, off2 + a2);
    let attrs = attributes_spec(img0);
    assert forall|k: int| 0 <= k < 510 implies #[trigger] img0[k] == img[k] by {}
    // The name.
    assert(d1[24int + 0x40] == u);
    assert(filename_at(d1, 24) == Some((decode_name(d1, 24int + 0x42, u as nat), le64(d1, 24) as u64)));
    assert forall|i: int| 0 <= i < units.len() implies le16(d1, 24int + 0x42 + 2 * i) == #[trigger] units[i] by {
        assert(le16(img, 160 + 66 + 2 * i) == units[i]);
        assert(d1[24 + 0x42 + 2 * i] == img0[136 + 24 + 0x42 + 2 * i]);
        assert(d1[24 + 0x42 + 2 * i + 1] == img0[136 + 24 + 0x42 + 2 * i + 1]);
    }
    lemma_decode_units(d1, 24int + 0x42, units);
    // The data.
    assert(le16(d2, 20) == 24 && le32(d2, 16) == data.len());
    assert(resident_value(d2) =~= data) by {
        assert(img.subrange(off2 + 24, off2 + 24 + data.len()) == data);
        assert forall|k: int| 0 <= k < data.len() implies #[trigger] resident_value(d2)[k] == data[k] by {
            assert(resident_value(d2)[k] == img0[off2 + 24 + k]);
            assert(img.subrange(off2 + 24, off2 + 24 + data.len())[k] == img[off2 + 24 + k]);
        }
    }
    let bpc = drv.cluster_size();
    assert(stat_fold(attrs, bpc, 0) == Ok::<StatView, NtfsError>(empty_stat()));
    assert(stat_fold(attrs, bpc, 1) == Ok::<StatView, NtfsError>(empty_stat()));
    let named = StatView { name: Some(name_of_units(units)), ..empty_stat() };
    assert(stat_fold(attrs, bpc, 2) == Ok::<StatView, NtfsError>(named));
    assert(stat_fold(attrs, bpc, 3) =~= Ok::<StatView, NtfsError>(created_file_stat(units, data)));
}
} // verus!
