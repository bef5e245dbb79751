//! Byte-range transfers on a disk of 512-byte sectors, one whole sector at
//! a time: the decisions of a sector driver's `read_at` and `write_at`,
//! with the sector commands left to the driver.

use vstd::prelude::*;
use crate::blockdev::{splice, BlockError};

verus! {

/// The sector size of the disks these transfers run on.
pub const SECTOR_SIZE: u64 = 512;

/// How many bytes of the range still to go lie in the sector holding `next`.
pub open spec fn chunk_len(next: int, end: int) -> int {
    if 512 - next % 512 <= end - next { 512 - next % 512 } else { end - next }
}

/// The sector at `lba` of the disk bytes `d`.
pub open spec fn sector_of(d: Seq<u8>, lba: int) -> Seq<u8> {
    d.subrange(lba * 512, lba * 512 + 512)
}

/// A read of the bytes from `start` to `end`, gathered up to `next`.
pub struct SectorRead {
    start: u64,
    next: u64,
    end: u64,
    data: Vec<u8>,
}

impl SectorRead {
    pub closed spec fn start_pos(&self) -> u64 {
        self.start
    }

    pub closed spec fn next_pos(&self) -> u64 {
        self.next
    }

    pub closed spec fn end_pos(&self) -> u64 {
        self.end
    }

    /// The bytes gathered so far.
    pub closed spec fn gathered(&self) -> Seq<u8> {
        self.data@
    }

    /// The positions are in order and the bytes gathered span `start..next`.
    pub open spec fn wf(&self) -> bool {
        &&& self.start_pos() <= self.next_pos() <= self.end_pos()
        &&& self.gathered().len() == self.next_pos() - self.start_pos()
    }

    /// Begin reading `len` bytes at `offset` of a disk of `disk_size` bytes;
    /// a range past the end is refused with `OutOfBounds`.
    pub fn start(offset: u64, len: usize, disk_size: u64) -> (r: Result<SectorRead, BlockError>)
        requires
            offset + len <= u64::MAX,
        ensures
            r is Err <==> offset + len > disk_size,
            r matches Err(e) ==> e == BlockError::OutOfBounds,
            r matches Ok(s) ==> s.wf() && s.start_pos() == offset && s.next_pos() == offset
                && s.end_pos() == offset + len && s.gathered().len() == 0,
    {
        if offset + len as u64 > disk_size {
            return Err(BlockError::OutOfBounds);
        }
        Ok(SectorRead { start: offset, next: offset, end: offset + len as u64, data: Vec::new() })
    }

    /// The sector to read next; `None` once the range is gathered.
    pub fn next_sector(&self) -> (r: Option<u64>)
        requires
            self.wf(),
        ensures
            r is None <==> self.next_pos() == self.end_pos(),
            r matches Some(lba) ==> lba == self.next_pos() / 512,
    {
        if self.next == self.end {
            None
        } else {
            Some(self.next / SECTOR_SIZE)
        }
    }

    /// Take the part of the range that lies in `sector`, the sector holding
    /// the next position.
    pub fn feed(&mut self, sector: &[u8])
        requires
            old(self).wf(),
            old(self).next_pos() < old(self).end_pos(),
            sector@.len() == 512,
        ensures
            final(self).wf(),
            final(self).start_pos() == old(self).start_pos(),
            final(self).end_pos() == old(self).end_pos(),
            final(self).next_pos() == old(self).next_pos() + chunk_len(old(self).next_pos() as int, old(self).end_pos() as int),
            final(self).gathered() == old(self).gathered() + sector@.subrange((old(self).next_pos() % 512) as int,
                old(self).next_pos() % 512 + chunk_len(old(self).next_pos() as int, old(self).end_pos() as int)),
    {
        let off = (self.next % SECTOR_SIZE) as usize;
        let room = 512 - off;
        let rest = self.end - self.next;
        let can: usize = if (room as u64) <= rest { room } else { rest as usize };
        let ghost before = self.data@;
        let ghost s0 = self.start;
        let ghost n0 = self.next;
        let ghost e0 = self.end;
        let mut k: usize = 0;
        while k < can
            invariant
                k <= can,
                off + can <= 512,
                sector@.len() == 512,
                self.start == s0,
                self.next == n0,
                self.end == e0,
                self.data@ == before + sector@.subrange(off as int, off + k),
            decreases can - k,
        {
            self.data.push(sector[off + k]);
            assert(sector@.subrange(off as int, off + k + 1) =~= sector@.subrange(off as int, off + k).push(sector@[off + k]));
            assert(self.data@ =~= before + sector@.subrange(off as int, off + k + 1));
            k = k + 1;
        }
        self.next = self.next + can as u64;
    }

    /// The bytes gathered.
    pub fn finish(self) -> (r: Vec<u8>)
        ensures
            r@ == self.gathered(),
    {
        self.data
    }
}

/// Feeding a read the sectors of a disk gathers the disk's bytes: when the
/// bytes gathered are those of `d` from `start` to `next`, and the sector fed
/// is the disk's sector holding `next`, the bytes after the step are those of
/// `d` from `start` to the new position.
pub proof fn lemma_read_step_gathers(d: Seq<u8>, start: int, next: int, end: int, gathered: Seq<u8>, sector: Seq<u8>)
    requires
        0 <= start <= next < end <= d.len(),
        gathered == d.subrange(start, next),
        (next / 512) * 512 + 512 <= d.len(),
        sector == sector_of(d, next / 512),
    ensures
        gathered + sector.subrange(next % 512, next % 512 + chunk_len(next, end)) == d.subrange(start, next + chunk_len(next, end)),
{
    let off = next % 512;
    let c = chunk_len(next, end);
    let base = (next / 512) * 512;
    assert(base + off == next);
    assert forall|i: int| 0 <= i < c implies #[trigger] sector.subrange(off, off + c)[i] == d[next + i] by {
        assert(sector[off + i] == d[base + off + i]);
    }
    assert(gathered + sector.subrange(off, off + c) =~= d.subrange(start, next + c));
}

/// On a disk of whole sectors, the sector holding any position of the disk
/// lies inside the disk.
pub proof fn lemma_sector_inside(d_len: int, next: int)
    requires
        0 <= next < d_len,
        d_len % 512 == 0,
    ensures
        (next / 512) * 512 + 512 <= d_len,
{
    assert((next / 512) * 512 + 512 <= d_len) by (nonlinear_arith)
        requires 0 <= next < d_len, d_len % 512 == 0;
}

/// What a write does next.
pub enum WriteStep {
    /// Write these 512 bytes as the whole sector `lba`.
    Whole { lba: u64, bytes: Vec<u8> },
    /// Read sector `lba` and hand it to `patch`; write back what it returns.
    Partial { lba: u64 },
    /// The range is written.
    Done,
}

/// A write of `src` at `start`, written up to `next`.
pub struct SectorWrite {
    start: u64,
    next: u64,
    end: u64,
    src: Vec<u8>,
}

impl SectorWrite {
    pub closed spec fn start_pos(&self) -> u64 {
        self.start
    }

    pub closed spec fn next_pos(&self) -> u64 {
        self.next
    }

    pub closed spec fn end_pos(&self) -> u64 {
        self.end
    }

    /// The bytes being written.
    pub closed spec fn source(&self) -> Seq<u8> {
        self.src@
    }

    /// The positions are in order and the source spans `start..end`.
    pub open spec fn wf(&self) -> bool {
        &&& self.start_pos() <= self.next_pos() <= self.end_pos()
        &&& self.source().len() == self.end_pos() - self.start_pos()
    }

    /// Whether the next step writes a whole sector: the next position
    /// starts a sector and a whole sector of the range is left.
    pub open spec fn whole_next(&self) -> bool {
        self.next_pos() % 512 == 0 && self.end_pos() - self.next_pos() >= 512
    }

    /// Begin writing `buf` at `offset` of a disk of `disk_size` bytes; a
    /// range past the end is refused with `OutOfBounds`.
    pub fn start(offset: u64, buf: &[u8], disk_size: u64) -> (r: Result<SectorWrite, BlockError>)
        requires
            offset + buf@.len() <= u64::MAX,
        ensures
            r is Err <==> offset + buf@.len() > disk_size,
            r matches Err(e) ==> e == BlockError::OutOfBounds,
            r matches Ok(s) ==> s.wf() && s.start_pos() == offset && s.next_pos() == offset
                && s.end_pos() == offset + buf@.len() && s.source() == buf@,
    {
        if offset + buf.len() as u64 > disk_size {
            return Err(BlockError::OutOfBounds);
        }
        let mut src: Vec<u8> = Vec::new();
        let n = buf.len();
        let mut i: usize = 0;
        while i < n
            invariant
                i <= n,
                n == buf@.len(),
                src@ == buf@.subrange(0, i as int),
            decreases n - i,
        {
            src.push(buf[i]);
            assert(buf@.subrange(0, i + 1) =~= buf@.subrange(0, i as int).push(buf@[i as int]));
            i = i + 1;
        }
        assert(buf@.subrange(0, n as int) =~= buf@);
        Ok(SectorWrite { start: offset, next: offset, end: offset + n as u64, src })
    }

    /// The next step.
    pub fn step(&self) -> (r: WriteStep)
        requires
            self.wf(),
        ensures
            r is Done <==> self.next_pos() == self.end_pos(),
            r matches WriteStep::Whole { lba, bytes } ==> self.whole_next() && lba == self.next_pos() / 512
                && bytes@ == self.source().subrange(self.next_pos() - self.start_pos(), self.next_pos() - self.start_pos() + 512),
            r matches WriteStep::Partial { lba } ==> !self.whole_next() && self.next_pos() < self.end_pos()
                && lba == self.next_pos() / 512,
    {
        if self.next == self.end {
            return WriteStep::Done;
        }
        let lba = self.next / SECTOR_SIZE;
        let srclen = self.src.len();
        if self.next % SECTOR_SIZE == 0 && self.end - self.next >= SECTOR_SIZE {
            let from = (self.next - self.start) as usize;
            assert(from + 512 <= srclen);
            let mut bytes: Vec<u8> = Vec::new();
            let mut k: usize = 0;
            while k < 512
                invariant
                    k <= 512,
                    srclen == self.src@.len(),
                    from + 512 <= self.src@.len(),
                    bytes@ == self.src@.subrange(from as int, from + k),
                decreases 512 - k,
            {
                bytes.push(self.src[from + k]);
                assert(self.src@.subrange(from as int, from + k + 1) =~= self.src@.subrange(from as int, from + k).push(self.src@[from + k]));
                k = k + 1;
            }
            WriteStep::Whole { lba, bytes }
        } else {
            WriteStep::Partial { lba }
        }
    }

    /// Record that the whole sector the step named was written.
    pub fn whole_written(&mut self)
        requires
            old(self).wf(),
            old(self).whole_next(),
        ensures
            final(self).wf(),
            final(self).start_pos() == old(self).start_pos(),
            final(self).end_pos() == old(self).end_pos(),
            final(self).source() == old(self).source(),
            final(self).next_pos() == old(self).next_pos() + 512,
    {
        self.next = self.next + SECTOR_SIZE;
    }

    /// Merge the part of the range that lies in `sector`, the current
    /// contents of the sector holding the next position, and move past it;
    /// the sector to write back.
    pub fn patch(&mut self, sector: &[u8]) -> (r: Vec<u8>)
        requires
            old(self).wf(),
            old(self).next_pos() < old(self).end_pos(),
            sector@.len() == 512,
        ensures
            final(self).wf(),
            final(self).start_pos() == old(self).start_pos(),
            final(self).end_pos() == old(self).end_pos(),
            final(self).source() == old(self).source(),
            final(self).next_pos() == old(self).next_pos() + chunk_len(old(self).next_pos() as int, old(self).end_pos() as int),
            r@ == splice(sector@, (old(self).next_pos() % 512) as int, old(self).source().subrange(
                old(self).next_pos() - old(self).start_pos(),
                old(self).next_pos() - old(self).start_pos() + chunk_len(old(self).next_pos() as int, old(self).end_pos() as int))),
    {
        let off = (self.next % SECTOR_SIZE) as usize;
        let room = 512 - off;
        let rest = self.end - self.next;
        let can: usize = if (room as u64) <= rest { room } else { rest as usize };
        let srclen = self.src.len();
        let from = (self.next - self.start) as usize;
        assert(from + can <= srclen);
        let ghost chunk = self.src@.subrange(from as int, from + can);
        let mut out: Vec<u8> = Vec::new();
        let mut k: usize = 0;
        while k < 512
            invariant
                k <= 512,
                off + can <= 512,
                srclen == self.src@.len(),
                from + can <= self.src@.len(),
                sector@.len() == 512,
                chunk == self.src@.subrange(from as int, from + can),
                out@.len() == k,
                forall|i: int| 0 <= i < k ==> #[trigger] out@[i] == splice(sector@, off as int, chunk)[i],
            decreases 512 - k,
        {
            let b = if off <= k && k < off + can { self.src[from + (k - off)] } else { sector[k] };
            out.push(b);
            k = k + 1;
        }
        assert(out@ =~= splice(sector@, off as int, chunk));
        self.next = self.next + can as u64;
        out
    }
}

/// Writing a whole sector moves the disk one sector further through the
/// write: when the disk holds `src` written at `start` up to `next`, and
/// the sector at `next` is written with the next 512 source bytes, the disk
/// holds `src` written up to `next + 512`.
pub proof fn lemma_write_whole_step(d0: Seq<u8>, disk: Seq<u8>, start: int, next: int, src: Seq<u8>)
    requires
        0 <= start <= next,
        next + 512 <= start + src.len(),
        start + src.len() <= d0.len(),
        next % 512 == 0,
        disk == splice(d0, start, src.subrange(0, next - start)),
    ensures
        splice(disk, next, src.subrange(next - start, next - start + 512)) == splice(d0, start, src.subrange(0, next + 512 - start)),
{
    assert(splice(disk, next, src.subrange(next - start, next - start + 512)) =~= splice(d0, start, src.subrange(0, next + 512 - start)));
}

/// Writing back a patched sector moves the disk through the write the
/// same way: the sector read at `next` with the chunk merged in and
/// written back leaves the disk holding `src` written up to the end of
/// the chunk.
pub proof fn lemma_write_patch_step(d0: Seq<u8>, disk: Seq<u8>, start: int, next: int, end: int, src: Seq<u8>)
    requires
        0 <= start <= next < end,
        end == start + src.len(),
        (next / 512) * 512 + 512 <= d0.len(),
        end <= d0.len(),
        disk == splice(d0, start, src.subrange(0, next - start)),
    ensures
        ({
            let lba = next / 512;
            let c = chunk_len(next, end);
            let block = splice(sector_of(disk, lba), next % 512, src.subrange(next - start, next - start + c));
            splice(disk, lba * 512, block) == splice(d0, start, src.subrange(0, next + c - start))
        }),
{
    let lba = next / 512;
    let c = chunk_len(next, end);
    let base = lba * 512;
    let off = next % 512;
    assert(base + off == next);
    let chunk = src.subrange(next - start, next - start + c);
    let block = splice(sector_of(disk, lba), off, chunk);
    assert(block.len() == 512);
    let lhs = splice(disk, base, block);
    let rhs = splice(d0, start, src.subrange(0, next + c - start));
    assert forall|i: int| 0 <= i < lhs.len() implies #[trigger] lhs[i] == rhs[i] by {
        if base <= i < base + 512 {
            assert(lhs[i] == block[i - base]);
            if off <= i - base < off + c {
                assert(block[i - base] == chunk[i - base - off]);
            } else {
                assert(block[i - base] == disk[i]);
            }
        }
    }
    assert(lhs =~= rhs);
}

/// The bytes a whole read gathers from `next` to `end`: the part of each
/// sector in the range, sector after sector.
pub open spec fn read_run(d: Seq<u8>, next: int, end: int) -> Seq<u8>
    decreases end - next,
{
    if next >= end || chunk_len(next, end) <= 0 {
        Seq::empty()
    } else {
        let c = chunk_len(next, end);
        sector_of(d, next / 512).subrange(next % 512, next % 512 + c) + read_run(d, next + c, end)
    }
}

/// Law of a whole read: on a disk of whole sectors, gathering the part of
/// each sector a range covers, from its start to its end, gives exactly
/// the disk's bytes in the range.
pub proof fn lemma_read_run_is_range(d: Seq<u8>, next: int, end: int)
    requires
        0 <= next <= end <= d.len(),
        d.len() % 512 == 0,
    ensures
        read_run(d, next, end) == d.subrange(next, end),
    decreases end - next,
{
    if next < end {
        let c = chunk_len(next, end);
        assert(c >= 1);
        lemma_sector_inside(d.len() as int, next);
        assert(d.subrange(next, next) =~= Seq::<u8>::empty());
        lemma_read_step_gathers(d, next, next, end, Seq::empty(), sector_of(d, next / 512));
        lemma_read_run_is_range(d, next + c, end);
        let head = sector_of(d, next / 512).subrange(next % 512, next % 512 + c);
        assert(Seq::<u8>::empty() + head =~= head);
        assert(head + d.subrange(next + c, end) =~= d.subrange(next, end));
    } else {
        assert(d.subrange(next, end) =~= Seq::<u8>::empty());
    }
}

/// The disk after a whole write of `src` at `start`, from `next` to `end`:
/// a sector the range covers whole is written with its source bytes; any
/// other is read, patched with the chunk and written back.
pub open spec fn write_run(disk: Seq<u8>, start: int, next: int, end: int, src: Seq<u8>) -> Seq<u8>
    decreases end - next,
{
    if next >= end || chunk_len(next, end) <= 0 {
        disk
    } else {
        let c = chunk_len(next, end);
        let lba = next / 512;
        let after = if next % 512 == 0 && c == 512 {
            splice(disk, next, src.subrange(next - start, next - start + 512))
        } else {
            splice(disk, lba * 512, splice(sector_of(disk, lba), next % 512, src.subrange(next - start, next - start + c)))
        };
        write_run(after, start, next + c, end, src)
    }
}

/// Law of a whole write: on a disk of whole sectors, writing `src` at
/// `start` sector by sector, whole sectors directly and the others by
/// read-patch-write, leaves the disk with `src` written at `start` and
/// every other byte as it was.
pub proof fn lemma_write_run_is_splice(d0: Seq<u8>, disk: Seq<u8>, start: int, next: int, src: Seq<u8>)
    requires
        0 <= start <= next <= start + src.len(),
        start + src.len() <= d0.len(),
        d0.len() % 512 == 0,
        disk == splice(d0, start, src.subrange(0, next - start)),
    ensures
        write_run(disk, start, next, start + src.len(), src) == splice(d0, start, src),
    decreases start + src.len() - next,
{
    let end = start + src.len();
    if next < end {
        let c = chunk_len(next, end);
        assert(c >= 1);
        lemma_sector_inside(d0.len() as int, next);
        if next % 512 == 0 && c == 512 {
            lemma_write_whole_step(d0, disk, start, next, src);
        } else {
            lemma_write_patch_step(d0, disk, start, next, end, src);
        }
        let after = if next % 512 == 0 && c == 512 {
            splice(disk, next, src.subrange(next - start, next - start + 512))
        } else {
            splice(disk, (next / 512) * 512, splice(sector_of(disk, next / 512), next % 512, src.subrange(next - start, next - start + c)))
        };
        assert(after == splice(d0, start, src.subrange(0, next + c - start)));
        lemma_write_run_is_splice(d0, after, start, next + c, src);
    } else {
        assert(src.subrange(0, next - start) =~= src);
    }
}

} // verus!
