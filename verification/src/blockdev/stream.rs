//! A buffered, seekable byte stream over a block device.

use vstd::prelude::*;
use crate::blockdev::{BlockDevice, BlockError, IoError, IoErrorKind, IoResult, Read, Seek, SeekFrom};

verus! {

/// Reads a device sector by sector, keeping the last sector read in a buffer.
pub struct BlockStream<D: BlockDevice> {
    device: D,
    position: u64,
    size: u64,
    sector_buffer: [u8; 4096],
    sector_size: usize,
    buffered_sector: Option<u64>,
}

/// The position a seek asks for, if it is representable: `Current` and
/// `End` offsets are added in signed 64-bit arithmetic.
pub open spec fn seek_target(position: u64, size: u64, pos: SeekFrom) -> Option<u64> {
    match pos {
        SeekFrom::Start(off) => Some(off),
        SeekFrom::Current(off) => {
            let s = (position as i64) + off;
            if i64::MIN <= s <= i64::MAX { Some((s as i64) as u64) } else { None }
        },
        SeekFrom::End(off) => {
            let s = (size as i64) + off;
            if i64::MIN <= s <= i64::MAX { Some((s as i64) as u64) } else { None }
        },
    }
}

/// Law of seeking: a seek from the start lands at its offset; a seek from
/// the end lands at the same place whatever the current position, namely
/// `size + off` when the size and that sum lie between 0 and `i64::MAX`,
/// as a seek to that offset from the start would; a seek from the current
/// position `p` lands at `p + off` under the same condition.
pub proof fn lemma_seek_targets(p: u64, q: u64, size: u64, off: i64)
    ensures
        seek_target(p, size, SeekFrom::Start(q)) == Some(q),
        seek_target(p, size, SeekFrom::End(off)) == seek_target(q, size, SeekFrom::End(off)),
        size <= i64::MAX && 0 <= size + off <= i64::MAX ==> seek_target(p, size, SeekFrom::End(off)) == Some((size + off) as u64)
            && seek_target(p, size, SeekFrom::End(off)) == seek_target(q, size, SeekFrom::Start((size + off) as u64)),
        p <= i64::MAX && 0 <= p + off <= i64::MAX ==> seek_target(p, size, SeekFrom::Current(off)) == Some((p + off) as u64),
{
    if size <= i64::MAX && 0 <= size + off <= i64::MAX {
        assert(((size as i64) + off) as i64 == size + off) by (bit_vector)
            requires
                size <= 0x7fff_ffff_ffff_ffffu64,
                0 <= size + off,
                size + off <= 0x7fff_ffff_ffff_ffffi64;
    }
    if p <= i64::MAX && 0 <= p + off <= i64::MAX {
        assert(((p as i64) + off) as i64 == p + off) by (bit_vector)
            requires
                p <= 0x7fff_ffff_ffff_ffffu64,
                0 <= p + off,
                p + off <= 0x7fff_ffff_ffff_ffffi64;
    }
}

impl<D: BlockDevice> BlockStream<D> {
    /// The device the stream reads.
    pub closed spec fn dev(&self) -> D {
        self.device
    }

    /// The current position.
    pub closed spec fn pos(&self) -> u64 {
        self.position
    }

    /// The stream's length, taken from the device when the stream was made.
    pub closed spec fn len(&self) -> u64 {
        self.size
    }

    /// The sector size, taken from the device when the stream was made.
    pub closed spec fn sector(&self) -> usize {
        self.sector_size
    }

    /// The byte the stream gives for device offset `k`: from the buffered
    /// sector when it covers `k`, otherwise from the device.
    pub closed spec fn byte_at(&self, k: int) -> u8 {
        match self.buffered_sector {
            Some(s) => {
                if s * self.sector_size <= k < s * self.sector_size + self.sector_size {
                    self.sector_buffer@[k - s * self.sector_size]
                } else {
                    self.device.contents()[k]
                }
            },
            None => self.device.contents()[k],
        }
    }

    /// The `count` bytes at the current position all lie in the buffered
    /// sector.
    pub closed spec fn range_buffered(&self, count: int) -> bool {
        match self.buffered_sector {
            Some(s) => s * self.sector_size <= self.position
                && self.position + count <= s * self.sector_size + self.sector_size,
            None => false,
        }
    }

    /// The buffered sector, if any, holds what the device holds there.
    pub closed spec fn coherent(&self) -> bool {
        match self.buffered_sector {
            Some(s) => {
                &&& s * self.sector_size + self.sector_size <= self.device.contents().len()
                &&& forall|j: int| 0 <= j < self.sector_size ==>
                    self.sector_buffer@[j] == #[trigger] self.device.contents()[s * self.sector_size + j]
            },
            None => true,
        }
    }

    /// The sector size is positive and fits the buffer; the position stays
    /// within the length.
    pub closed spec fn wf(&self) -> bool {
        &&& self.sector_size <= 4096
        &&& self.position <= self.size
    }

    /// A coherent stream gives the device's own bytes.
    pub proof fn lemma_coherent_bytes(&self, k: int)
        requires
            self.coherent(),
            0 <= k < self.dev().contents().len(),
        ensures
            self.byte_at(k) == self.dev().contents()[k],
    {
        if let Some(s) = self.buffered_sector {
            if s * self.sector_size <= k < s * self.sector_size + self.sector_size {
                let j = k - s * self.sector_size;
                assert(self.sector_buffer@[j] == self.device.contents()[s * self.sector_size + j]);
            }
        }
    }

    /// A stream at position 0 over the whole device.
    pub fn new(device: D) -> (r: Self)
        requires
            device.sector_bytes() <= 4096,
        ensures
            r.dev() == device,
            r.pos() == 0,
            r.len() == device.size_view(),
            r.sector() == device.sector_bytes(),
            r.coherent(),
            r.wf(),
    {
        let size = device.size();
        let sector_size = device.sector_size();
        Self {
            device,
            position: 0,
            size,
            sector_buffer: [0u8; 4096],
            sector_size,
            buffered_sector: None,
        }
    }

    pub fn into_device(self) -> (r: D)
        ensures
            r == self.dev(),
    {
        self.device
    }

    /// Mutable access to the device. What is done through it is not seen by
    /// the buffered sector.
    pub fn device(&mut self) -> (r: &mut D)
        ensures
            *r == old(self).dev(),
            final(self).dev() == *final(r),
            final(self).pos() == old(self).pos(),
            final(self).len() == old(self).len(),
            final(self).sector() == old(self).sector(),
            final(self).wf() == old(self).wf(),
    {
        &mut self.device
    }

    pub fn size(&self) -> (r: u64)
        ensures
            r == self.len(),
    {
        self.size
    }
}


/// How many bytes a read of `want` bytes at `position` gives.
pub open spec fn read_count(position: u64, size: u64, want: int) -> int {
    if position >= size {
        0
    } else if want < size - position {
        want
    } else {
        size - position
    }
}

impl<D: BlockDevice> BlockStream<D> {
    /// Read up to `buf.len()` bytes at the current position, sector by
    /// sector; a sector already buffered is not read again. When the stream
    /// is coherent the bytes are the device's own.
    fn read_internal(&mut self, buf: &mut [u8]) -> (r: Result<usize, BlockError>)
        requires
            old(self).wf(),
        ensures
            final(self).wf(),
            final(self).len() == old(self).len(),
            final(self).sector() == old(self).sector(),
            final(self).dev().contents() == old(self).dev().contents(),
            final(self).dev().size_view() == old(self).dev().size_view(),
            final(self).dev().sector_bytes() == old(self).dev().sector_bytes(),
            final(buf)@.len() == old(buf)@.len(),
            old(self).coherent() ==> final(self).coherent(),
            old(self).pos() <= final(self).pos() <= old(self).pos() + read_count(old(self).pos(), old(self).len(), old(buf)@.len() as int),
            r matches Ok(n) ==> n == read_count(old(self).pos(), old(self).len(), old(buf)@.len() as int)
                && final(self).pos() == old(self).pos() + n,
            r is Ok && old(self).coherent() ==> forall|i: int| 0 <= i < read_count(old(self).pos(), old(self).len(), old(buf)@.len() as int)
                ==> final(buf)@[i] == #[trigger] old(self).dev().contents()[old(self).pos() + i],
            read_count(old(self).pos(), old(self).len(), old(buf)@.len() as int) == 0
                ==> r == Ok::<usize, BlockError>(0) && final(self).pos() == old(self).pos() && final(buf)@ == old(buf)@,
            old(self).range_buffered(read_count(old(self).pos(), old(self).len(), old(buf)@.len() as int)) ==> r is Ok,
            read_count(old(self).pos(), old(self).len(), old(buf)@.len() as int) > 0 && old(self).sector() == 0
                ==> r == Err::<usize, BlockError>(BlockError::InvalidParameter) && *final(self) == *old(self) && final(buf)@ == old(buf)@,
            r is Ok ==> forall|i: int| read_count(old(self).pos(), old(self).len(), old(buf)@.len() as int) <= i < old(buf)@.len()
                ==> #[trigger] final(buf)@[i] == old(buf)@[i],
    {
        if self.position >= self.size {
            return Ok(0);
        }
        let avail = self.size - self.position;
        let to_read: usize = if (buf.len() as u64) < avail { buf.len() } else { avail as usize };
        if to_read == 0 {
            return Ok(0);
        }
        if self.sector_size == 0 {
            return Err(BlockError::InvalidParameter);
        }
        let ghost coh = self.coherent();
        let ghost rb = self.range_buffered(to_read as int);
        let ghost b0 = self.buffered_sector;
        let ghost c0 = self.device.contents();
        let ghost p0 = self.position;
        let ss = self.sector_size;
        let ss64 = ss as u64;
        let mut total_read: usize = 0;
        while total_read < to_read
            invariant
                self.position <= self.size,
                self.sector_size == ss,
                ss == old(self).sector(),
                ss64 == ss,
                0 < ss <= 4096,
                self.size == old(self).size,
                self.device.contents() == c0,
                self.device.size_view() == old(self).device.size_view(),
                self.device.sector_bytes() == old(self).device.sector_bytes(),
                c0 == old(self).dev().contents(),
                p0 == old(self).pos(),
                p0 < self.size,
                to_read == read_count(p0, self.size, buf@.len() as int),
                total_read <= to_read,
                self.position == p0 + total_read,
                buf@.len() == old(buf)@.len(),
                coh == old(self).coherent(),
                coh ==> self.coherent(),
                coh ==> forall|i: int| 0 <= i < total_read ==> buf@[i] == #[trigger] c0[p0 + i],
                rb == old(self).range_buffered(to_read as int),
                b0 == old(self).buffered_sector,
                forall|i: int| to_read <= i < buf@.len() ==> #[trigger] buf@[i] == old(buf)@[i],
                rb ==> self.buffered_sector == b0 && b0 is Some
                    && b0->0 * ss <= p0 && p0 + to_read <= b0->0 * ss + ss,
            decreases to_read - total_read,
        {
            let sector = self.position / ss64;
            let sector_offset = (self.position % ss64) as usize;
            proof {
                vstd::arithmetic::div_mod::lemma_fundamental_div_mod(self.position as int, ss as int);
                assert(sector * ss64 <= self.position) by (nonlinear_arith)
                    requires
                        sector * ss64 + sector_offset == self.position,
                        sector_offset >= 0;
            }
            proof {
                if rb {
                    let s0 = b0->0;
                    assert(sector == s0) by (nonlinear_arith)
                        requires
                            sector * ss64 + sector_offset == self.position,
                            0 <= sector_offset < ss64,
                            s0 * ss64 <= self.position < s0 * ss64 + ss64,
                            ss64 > 0;
                }
            }
            let remaining_in_sector = ss - sector_offset;
            let to_copy = if remaining_in_sector < to_read - total_read { remaining_in_sector } else { to_read - total_read };
            let cached = match self.buffered_sector {
                Some(s) => s == sector,
                None => false,
            };
            if !cached {
                let start = sector * ss64;
                let mut tmp: Vec<u8> = vec![0u8; ss];
                match self.device.read_at(start, tmp.as_mut_slice()) {
                    Ok(()) => {},
                    Err(e) => return Err(e),
                }
                let ghost tv = tmp@;
                assert(tv == c0.subrange(start as int, start + ss));
                assert(start as int == sector * ss);
                let mut k: usize = 0;
                while k < ss
                    invariant
                        k <= ss,
                        ss <= 4096,
                        tmp@ == tv,
                        tv.len() == ss,
                        self.device.contents() == c0,
                        self.device.size_view() == old(self).device.size_view(),
                        self.device.sector_bytes() == old(self).device.sector_bytes(),
                        self.position == p0 + total_read,
                        self.size == old(self).size,
                        self.sector_size == ss,
                        self.sector_buffer@.len() == 4096,
                        forall|j: int| 0 <= j < k ==> self.sector_buffer@[j] == tv[j],
                    decreases ss - k,
                {
                    self.sector_buffer[k] = tmp[k];
                    k = k + 1;
                }
                self.buffered_sector = Some(sector);
                proof {
                    assert forall|j: int| 0 <= j < ss implies
                        self.sector_buffer@[j] == #[trigger] self.device.contents()[sector * ss + j] by {
                        assert(self.sector_buffer@[j] == tv[j]);
                        assert(tv[j] == c0.subrange(start as int, start + ss)[j]);
                        assert(tv[j] == c0[start + j]);
                    }
                }
            }
            proof {
                if coh {
                    assert(self.coherent());
                }
            }
            let ghost before = buf@;
            let mut k: usize = 0;
            while k < to_copy
                invariant
                    k <= to_copy,
                    sector_offset + to_copy <= ss,
                    ss <= 4096,
                    total_read + to_copy <= to_read,
                    to_read <= buf@.len(),
                    buf@.len() == before.len(),
                    self.sector_buffer@.len() == 4096,
                    forall|i: int| 0 <= i < total_read ==> buf@[i] == before[i],
                    forall|i: int| total_read + k <= i < buf@.len() ==> #[trigger] buf@[i] == before[i],
                    forall|i: int| total_read <= i < total_read + k ==> #[trigger] buf@[i] == self.sector_buffer@[sector_offset + (i - total_read)],
                decreases to_copy - k,
            {
                buf[total_read + k] = self.sector_buffer[sector_offset + k];
                k = k + 1;
            }
            proof {
                if coh {
                    assert forall|i: int| 0 <= i < total_read + to_copy implies buf@[i] == #[trigger] c0[p0 + i] by {
                        if i >= total_read {
                            let j = i - total_read;
                            assert(buf@[i] == self.sector_buffer@[sector_offset + j]);
                            assert(self.sector_buffer@[sector_offset + j] == self.device.contents()[sector * ss + (sector_offset + j)]);
                        }
                    }
                }
            }
            self.position = self.position + to_copy as u64;
            total_read = total_read + to_copy;
        }
        Ok(total_read)
    }
}

impl<D: BlockDevice> Read for BlockStream<D> {
    /// Stream reads; a device error is reported as `Other`.
    fn read(&mut self, buf: &mut [u8]) -> (r: IoResult<usize>)
        ensures
            final(self).len() == old(self).len(),
            final(self).dev().contents() == old(self).dev().contents(),
            old(self).wf() ==> final(self).wf(),
            old(self).wf() && old(self).coherent() ==> final(self).coherent(),
            r matches Ok(n) ==> n == read_count(old(self).pos(), old(self).len(), old(buf)@.len() as int)
                && final(self).pos() == old(self).pos() + n,
            r is Ok && old(self).coherent() ==> forall|i: int| 0 <= i < read_count(old(self).pos(), old(self).len(), old(buf)@.len() as int)
                ==> final(buf)@[i] == #[trigger] old(self).dev().contents()[old(self).pos() + i],
            r matches Err(e) ==> e.kind == IoErrorKind::Other,
    {
        if self.sector_size > 4096 || self.position > self.size {
            // not reachable: every stream is built by `new` and kept well formed
            return Err(IoError::new(IoErrorKind::Other));
        }
        match self.read_internal(buf) {
            Ok(n) => Ok(n),
            Err(_) => Err(IoError::new(IoErrorKind::Other)),
        }
    }
}


impl<D: BlockDevice> Seek for BlockStream<D> {
    /// Move to a new position; one before 0 or past the end is refused with
    /// `InvalidInput` and leaves the position as it was.
    fn seek(&mut self, pos: SeekFrom) -> (r: IoResult<u64>)
        ensures
            final(self).dev() == old(self).dev(),
            final(self).len() == old(self).len(),
            final(self).sector() == old(self).sector(),
            old(self).wf() ==> final(self).wf(),
            old(self).coherent() ==> final(self).coherent(),
            match seek_target(old(self).pos(), old(self).len(), pos) {
                Some(p) => if p <= old(self).len() {
                    r == Ok::<u64, IoError>(p) && final(self).pos() == p
                } else {
                    r == Err::<u64, IoError>(IoError { kind: IoErrorKind::InvalidInput }) && final(self).pos() == old(self).pos()
                },
                None => r == Err::<u64, IoError>(IoError { kind: IoErrorKind::InvalidInput }) && final(self).pos() == old(self).pos(),
            },
    {
        let new_pos: Option<u64> = match pos {
            SeekFrom::Start(off) => Some(off),
            SeekFrom::Current(off) => {
                let base = #[verifier::truncate] (self.position as i64);
                match base.checked_add(off) {
                    Some(n) => Some(#[verifier::truncate] (n as u64)),
                    None => None,
                }
            },
            SeekFrom::End(off) => {
                let base = #[verifier::truncate] (self.size as i64);
                match base.checked_add(off) {
                    Some(n) => Some(#[verifier::truncate] (n as u64)),
                    None => None,
                }
            },
        };
        match new_pos {
            Some(p) => {
                if p <= self.size {
                    self.position = p;
                    Ok(self.position)
                } else {
                    Err(IoError::new(IoErrorKind::InvalidInput))
                }
            },
            None => Err(IoError::new(IoErrorKind::InvalidInput)),
        }
    }

    /// The current position.
    fn stream_position(&mut self) -> (r: IoResult<u64>)
        ensures
            r == Ok::<u64, IoError>(old(self).pos()),
            *final(self) == *old(self),
    {
        Ok(self.position)
    }
}

} // verus!
