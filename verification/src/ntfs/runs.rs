//! Data runs: the compressed cluster map of a non-resident attribute.

use vstd::prelude::*;
use crate::bytes::{le16, read_u16_le};
use crate::ntfs::{DataRun, NtfsError, RunView};
use crate::ntfs::boot::BootSector;
use crate::ntfs::driver::{append_bytes, data_run_readable, file_content, lemma_nonresident_readable, run_readable, runs_content, runs_readable};
use crate::blockdev::BlockDevice;
use crate::blockdev::read_clusters;

verus! {

/// `256` to the power `n`.
pub open spec fn pow256(n: nat) -> int
    decreases n,
{
    if n == 0 {
        1
    } else {
        256 * pow256((n - 1) as nat)
    }
}

/// The unsigned little-endian integer held in the `n` bytes at `start`.
pub open spec fn le_bytes(s: Seq<u8>, start: int, n: nat) -> int
    decreases n,
{
    if n == 0 {
        0
    } else {
        le_bytes(s, start, (n - 1) as nat) + s[start + n - 1] * pow256((n - 1) as nat)
    }
}

/// The two's complement little-endian integer held in the `n` bytes at `start`.
pub open spec fn signed_le_bytes(s: Seq<u8>, start: int, n: nat) -> int {
    if n > 0 && s[start + n - 1] >= 128 {
        le_bytes(s, start, n) - pow256(n)
    } else {
        le_bytes(s, start, n)
    }
}

pub open spec fn u64_modulus() -> int {
    18446744073709551616
}

/// Header byte of the run at `offset`: count of length bytes (low nibble).
pub open spec fn run_len_bytes(a: Seq<u8>, offset: int) -> int {
    (a[offset] % 16) as int
}

/// Header byte of the run at `offset`: count of offset bytes (high nibble).
pub open spec fn run_off_bytes(a: Seq<u8>, offset: int) -> int {
    (a[offset] / 16) as int
}

/// Whether a run starts at `offset` and fits in the attribute.
pub open spec fn run_present(a: Seq<u8>, offset: int) -> bool {
    &&& 0 <= offset < a.len()
    &&& a[offset] != 0
    &&& offset + 1 + run_len_bytes(a, offset) + run_off_bytes(a, offset) <= a.len()
}

/// The starting cluster of a run whose relative offset is `delta`, after a run
/// that started at cluster `prev` (arithmetic on 64-bit cluster numbers).
pub open spec fn next_cluster(prev: int, delta: int) -> int {
    (prev + delta) % u64_modulus()
}

/// The `(start_cluster, cluster_count)` pairs decoded from `offset` onwards.
pub open spec fn runs_from(a: Seq<u8>, offset: int, prev: int) -> Seq<(u64, u64)>
    decreases a.len() - offset,
{
    if !run_present(a, offset) {
        Seq::empty()
    } else {
        let lb = run_len_bytes(a, offset);
        let ob = run_off_bytes(a, offset);
        let len = le_bytes(a, offset + 1, lb as nat);
        let c = next_cluster(prev, signed_le_bytes(a, offset + 1 + lb, ob as nat));
        seq![(c as u64, len as u64)] + runs_from(a, offset + 1 + lb + ob, c)
    }
}

/// One run decodes without an overflow: at most eight length bytes, an offset
/// that fits a signed 64-bit integer, and a start cluster in range.
pub open spec fn run_decodes(a: Seq<u8>, offset: int, prev: int) -> bool {
    let lb = run_len_bytes(a, offset);
    let ob = run_off_bytes(a, offset);
    let delta = signed_le_bytes(a, offset + 1 + lb, ob as nat);
    &&& lb <= 8
    &&& ob <= 8
    &&& !(ob == 8 && a[offset + lb + ob] >= 128)
    &&& delta >= 0 ==> prev + delta < u64_modulus()
    &&& delta < 0 ==> (if prev < 0x8000_0000_0000_0000 { prev } else { prev - u64_modulus() })
        + delta >= -0x8000_0000_0000_0000
}

/// Every run from `offset` onwards decodes without an overflow.
pub open spec fn runs_decode(a: Seq<u8>, offset: int, prev: int) -> bool
    decreases a.len() - offset,
{
    if !run_present(a, offset) {
        true
    } else {
        let lb = run_len_bytes(a, offset);
        let ob = run_off_bytes(a, offset);
        &&& run_decodes(a, offset, prev)
        &&& runs_decode(
            a,
            offset + 1 + lb + ob,
            next_cluster(prev, signed_le_bytes(a, offset + 1 + lb, ob as nat)),
        )
    }
}

/// The runs of a non-resident attribute, whose mapping pairs start at the
/// offset stored at byte 32 of its header.
pub open spec fn data_runs_spec(a: Seq<u8>) -> Seq<(u64, u64)> {
    runs_from(a, le16(a, 32), 0)
}

proof fn lemma_le_bytes_bound(s: Seq<u8>, start: int, n: nat)
    ensures
        0 <= le_bytes(s, start, n) < pow256(n),
        pow256(n) >= 1,
    decreases n,
{
    if n > 0 {
        lemma_le_bytes_bound(s, start, (n - 1) as nat);
        let p = pow256((n - 1) as nat);
        let b = s[start + n - 1] as int;
        assert(0 <= b * p <= 255 * p) by (nonlinear_arith)
            requires
                0 <= b <= 255,
                p >= 1,
        ;
    }
}

proof fn lemma_pow256_8()
    ensures
        pow256(8) == u64_modulus(),
        pow256(7) == 0x100_0000_0000_0000,
{
    reveal_with_fuel(pow256, 9);
}

proof fn lemma_pow256_pos(n: nat)
    ensures
        pow256(n) >= 1,
    decreases n,
{
    if n > 0 {
        lemma_pow256_pos((n - 1) as nat);
    }
}

proof fn lemma_pow256_mono(a: nat, b: nat)
    requires
        a <= b,
    ensures
        pow256(a) <= pow256(b),
    decreases b,
{
    if a < b {
        lemma_pow256_mono(a, (b - 1) as nat);
        lemma_pow256_pos((b - 1) as nat);
    }
}

/// The unsigned little-endian integer held in `n` bytes at `start`.
fn read_le_unsigned(a: &[u8], start: usize, n: usize) -> (r: u64)
    requires
        n <= 8,
        start + n <= a@.len(),
    ensures
        r == le_bytes(a@, start as int, n as nat),
{
    let _alen = a.len();
    let mut acc: u128 = 0;
    let mut mult: u128 = 1;
    let mut i: usize = 0;
    proof {
        lemma_pow256_8();
    }
    while i < n
        invariant
            i <= n,
            n <= 8,
            start + n <= a@.len(),
            _alen == a@.len(),
            acc == le_bytes(a@, start as int, i as nat),
            mult == pow256(i as nat),
            pow256(8) == u64_modulus(),
        decreases n - i,
    {
        proof {
            lemma_le_bytes_bound(a@, start as int, i as nat);
            lemma_pow256_mono(i as nat, 7);
            lemma_pow256_mono((i + 1) as nat, 8);
        }
        let b = a[start + i] as u128;
        assert(b * mult <= 255 * mult) by (nonlinear_arith)
            requires
                b <= 255,
        ;
        acc = acc + b * mult;
        mult = mult * 256;
        i = i + 1;
    }
    proof {
        lemma_le_bytes_bound(a@, start as int, n as nat);
        lemma_pow256_mono(n as nat, 8);
    }
    acc as u64
}

/// The two's complement little-endian integer held in `n` bytes at `start`.
fn read_le_signed(a: &[u8], start: usize, n: usize) -> (r: i64)
    requires
        n <= 8,
        start + n <= a@.len(),
        !(n == 8 && a@[start + 7] >= 128),
    ensures
        r == signed_le_bytes(a@, start as int, n as nat),
{
    let _alen = a.len();
    let u = read_le_unsigned(a, start, n);
    proof {
        lemma_le_bytes_bound(a@, start as int, n as nat);
        lemma_pow256_8();
        lemma_pow256_mono(n as nat, 8);
    }
    if n > 0 && a[start + n - 1] >= 128 {
        proof {
            lemma_pow256_mono(n as nat, 7);
            reveal_with_fuel(le_bytes, 2);
            lemma_le_bytes_bound(a@, start as int, (n - 1) as nat);
            let p = pow256((n - 1) as nat);
            assert(a@[start + n - 1] * p >= 128 * p) by (nonlinear_arith)
                requires
                    a@[start + n - 1] >= 128,
                    p >= 1,
            ;
        }
        let mut pow: u128 = 1;
        let mut k: usize = 0;
        while k < n
            invariant
                k <= n,
                n <= 7,
                pow == pow256(k as nat),
                pow256(7) == 0x100_0000_0000_0000,
            decreases n - k,
        {
            proof {
                lemma_pow256_mono((k + 1) as nat, 7);
            }
            pow = pow * 256;
            k = k + 1;
        }
        (u as i128 - pow as i128) as i64
    } else {
        proof {
            if n == 8 {
                reveal_with_fuel(le_bytes, 2);
                lemma_le_bytes_bound(a@, start as int, 7);
                assert(pow256(7) == 0x100_0000_0000_0000);
                assert(a@[start + 7] * pow256(7) <= 127 * pow256(7)) by (nonlinear_arith)
                    requires
                        a@[start + 7] <= 127,
                        pow256(7) >= 1,
                ;
            } else {
                lemma_pow256_mono(n as nat, 7);
            }
        }
        u as i64
    }
}

/// Parse the data runs of a non-resident attribute header into
/// `(start_cluster, cluster_count)` pairs.
pub fn parse_data_runs(attr_data: &[u8]) -> (r: Result<Vec<(u64, u64)>, NtfsError>)
    requires
        attr_data@.len() >= 34 ==> runs_decode(attr_data@, le16(attr_data@, 32), 0),
    ensures
        r is Err <==> attr_data@.len() < 34,
        r matches Err(e) ==> e == NtfsError::InvalidAttribute,
        r matches Ok(runs) ==> runs@ == data_runs_spec(attr_data@),
{
    let len = attr_data.len();
    if len < 34 {
        return Err(NtfsError::InvalidAttribute);
    }
    let pairs_offset = read_u16_le(attr_data, 32) as usize;
    let mut runs: Vec<(u64, u64)> = Vec::new();
    let mut offset = pairs_offset;
    let mut prev: u64 = 0;
    let ghost a = attr_data@;
    while offset < len && attr_data[offset] != 0
        invariant
            len == a.len(),
            len >= 34,
            a == attr_data@,
            runs@ + runs_from(a, offset as int, prev as int) == data_runs_spec(a),
            runs_decode(a, offset as int, prev as int),
        decreases len - offset,
    {
        let header = attr_data[offset];
        let len_bytes = (header % 16) as usize;
        let off_bytes = (header / 16) as usize;
        if 1 + len_bytes + off_bytes > len - offset {
            assert(!run_present(a, offset as int));
            assert(runs_from(a, offset as int, prev as int) == Seq::<(u64, u64)>::empty());
            assert(runs@ == data_runs_spec(a));
            return Ok(runs);
        }
        assert(run_present(a, offset as int));
        assert(run_decodes(a, offset as int, prev as int));
        let run_len = read_le_unsigned(attr_data, offset + 1, len_bytes);
        let run_off = read_le_signed(attr_data, offset + 1 + len_bytes, off_bytes);
        let sum: i128 = prev as i128 + run_off as i128;
        let cluster: u64 = if sum < 0 {
            (sum + 18446744073709551616i128) as u64
        } else {
            sum as u64
        };
        assert(cluster == next_cluster(prev as int, run_off as int));
        let ghost old_runs = runs@;
        let ghost next = offset + 1 + len_bytes + off_bytes;
        assert(runs_from(a, offset as int, prev as int) == seq![(cluster, run_len)] + runs_from(a, next as int, cluster as int));
        runs.push((cluster, run_len));
        assert(runs@ == old_runs + seq![(cluster, run_len)]);
        assert(runs@ + runs_from(a, next as int, cluster as int) == data_runs_spec(a));
        prev = cluster;
        offset = offset + 1 + len_bytes + off_bytes;
    }
    assert(!run_present(a, offset as int));
    assert(runs@ + Seq::<(u64, u64)>::empty() == runs@);
    Ok(runs)
}


/// Read all the data of a file's runs into one buffer: resident data as it
/// is, each cluster run from the device; a failed read is `IoError`.
pub fn read_all<D: BlockDevice>(device: &mut D, data_runs: &[DataRun], boot: &BootSector) -> (r: Result<Vec<u8>, NtfsError>)
    requires
        runs_readable(old(device).contents(), data_runs@.map_values(|d: DataRun| d@), boot.cluster_bytes()),
    ensures
        final(device).contents() == old(device).contents(),
        final(device).size_view() == old(device).size_view(),
        final(device).sector_bytes() == old(device).sector_bytes(),
        forall|o: int, l: int| #[trigger] final(device).read_may_fail(o, l) == old(device).read_may_fail(o, l),
        r matches Ok(v) ==> v@ == file_content(old(device).contents(), data_runs@.map_values(|d: DataRun| d@), boot.cluster_bytes()),
        r matches Err(e) ==> e == NtfsError::IoError,
{
    let ghost c = device.contents();
    let bpc = boot.bytes_per_cluster();
    let ghost runs = data_runs@.map_values(|d: DataRun| d@);
    let mut content: Vec<u8> = Vec::new();
    let mut k: usize = 0;
    while k < data_runs.len()
        invariant
            k <= data_runs@.len(),
            runs == data_runs@.map_values(|d: DataRun| d@),
            runs.len() == data_runs@.len(),
            device.contents() == c,
            device.size_view() == old(device).size_view(),
            device.sector_bytes() == old(device).sector_bytes(),
            forall|o: int, l: int| #[trigger] device.read_may_fail(o, l) == old(device).read_may_fail(o, l),
            c == old(device).contents(),
            bpc == boot.cluster_bytes(),
            runs_readable(c, runs, bpc as int),
            content@ == file_content(c, runs.take(k as int), bpc as int),
        decreases data_runs@.len() - k,
    {
        assert(runs.take(k + 1).drop_last() =~= runs.take(k as int));
        match &data_runs[k] {
            DataRun::Resident { data } => {
                append_bytes(&mut content, data.as_slice());
            },
            DataRun::NonResident(list) => {
                let ghost rs = list@;
                assert(runs[k as int] == RunView::NonResident(rs));
                let ghost start = content@;
                let mut j: usize = 0;
                while j < list.len()
                    invariant
                        j <= rs.len(),
                        rs == list@,
                        runs[k as int] == RunView::NonResident(rs),
                        k < runs.len(),
                        device.contents() == c,
                        device.size_view() == old(device).size_view(),
                        device.sector_bytes() == old(device).sector_bytes(),
                        forall|o: int, l: int| #[trigger] device.read_may_fail(o, l) == old(device).read_may_fail(o, l),
                        c == old(device).contents(),
                        bpc == boot.cluster_bytes(),
                        runs_readable(c, runs, bpc as int),
                        content@ == start + runs_content(c, rs.take(j as int), bpc as int),
                    decreases rs.len() - j,
                {
                    let (cluster, length) = list[j];
                    assert(data_run_readable(c, runs[k as int], bpc as int));
                    proof { lemma_nonresident_readable(c, rs, bpc as int, j as int); }
                    let bytes = match read_clusters(device, cluster, length, bpc) {
                        Ok(b) => b,
                        Err(_) => return Err(NtfsError::IoError),
                    };
                    append_bytes(&mut content, bytes.as_slice());
                    assert(rs.take(j + 1).drop_last() =~= rs.take(j as int));
                    assert(content@ =~= start + runs_content(c, rs.take(j + 1), bpc as int));
                    j = j + 1;
                }
                assert(rs.take(j as int) =~= rs);
            },
        }
        assert(content@ =~= file_content(c, runs.take(k + 1), bpc as int));
        k = k + 1;
    }
    assert(runs.take(k as int) =~= runs);
    Ok(content)
}

} // verus!
