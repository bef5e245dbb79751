//! A window onto part of a block device.

use vstd::prelude::*;
use crate::blockdev::{splice, unchanged_outside, BlockDevice, BlockError};

verus! {

/// The bytes from `start_offset` on of an inner device, of which the first
/// `size` may be written.
pub struct Partition<B: BlockDevice> {
    pub inner: B,
    pub start_offset: u64,
    pub size: u64,
}

/// The bytes of `s` from `start` on (none when `start` lies past the end).
pub open spec fn tail_from(s: Seq<u8>, start: int) -> Seq<u8> {
    if start <= s.len() {
        s.subrange(start, s.len() as int)
    } else {
        Seq::empty()
    }
}

proof fn lemma_tail_splice(s: Seq<u8>, start: int, off: int, b: Seq<u8>)
    requires
        0 <= start,
        0 <= off,
        start + off + b.len() <= s.len(),
    ensures
        tail_from(splice(s, start + off, b), start) == splice(tail_from(s, start), off, b),
{
    assert(tail_from(splice(s, start + off, b), start) =~= splice(tail_from(s, start), off, b));
}

impl<B: BlockDevice> BlockDevice for Partition<B> {
    open spec fn contents(&self) -> Seq<u8> {
        tail_from(self.inner.contents(), self.start_offset as int)
    }

    open spec fn size_view(&self) -> u64 {
        self.size
    }

    open spec fn sector_bytes(&self) -> usize {
        self.inner.sector_bytes()
    }

    /// A read may fail where its offset leaves the 64-bit range once moved
    /// to the inner device, or where the inner device's may.
    open spec fn read_may_fail(&self, offset: int, len: int) -> bool {
        self.start_offset + offset > u64::MAX || self.inner.read_may_fail(self.start_offset + offset, len)
    }

    /// Reads go to the inner device at `start_offset + offset`; an offset
    /// past the 64-bit range is out of bounds.
    fn read_at(&mut self, offset: u64, buf: &mut [u8]) -> (r: Result<(), BlockError>)
        ensures
            old(self).start_offset + offset > u64::MAX
                ==> r == Err::<(), BlockError>(BlockError::OutOfBounds) && *final(self) == *old(self) && final(buf)@ == old(buf)@,
            final(self).start_offset == old(self).start_offset,
            final(self).size == old(self).size,
    {
        let ghost s = self.inner.contents();
        let at = match self.start_offset.checked_add(offset) {
            Some(a) => a,
            None => return Err(BlockError::OutOfBounds),
        };
        let r = self.inner.read_at(at, buf);
        proof {
            if r is Ok {
                assert(tail_from(s, self.start_offset as int).subrange(offset as int, offset + buf@.len())
                    =~= s.subrange(at as int, at + buf@.len()));
            }
        }
        r
    }

    /// Writes that would end past `size` are refused with `OutOfBounds`.
    fn write_at(&mut self, offset: u64, buf: &[u8]) -> (r: Result<(), BlockError>)
        ensures
            offset + buf@.len() > old(self).size || old(self).start_offset + offset > u64::MAX
                ==> r == Err::<(), BlockError>(BlockError::OutOfBounds) && *final(self) == *old(self),
            final(self).start_offset == old(self).start_offset,
            final(self).size == old(self).size,
    {
        let ghost s = self.inner.contents();
        let len = buf.len() as u64;
        if offset > self.size || len > self.size - offset {
            return Err(BlockError::OutOfBounds);
        }
        let at = match self.start_offset.checked_add(offset) {
            Some(a) => a,
            None => return Err(BlockError::OutOfBounds),
        };
        let r = self.inner.write_at(at, buf);
        proof {
            if r is Ok {
                lemma_tail_splice(s, self.start_offset as int, offset as int, buf@);
            } else {
                let t = tail_from(self.inner.contents(), self.start_offset as int);
                let t0 = tail_from(s, self.start_offset as int);
                assert forall|i: int| 0 <= i < t.len() && !(offset <= i < offset + buf@.len()) implies #[trigger] t[i] == t0[i] by {
                    assert(self.inner.contents()[self.start_offset + i] == s[self.start_offset + i]);
                }
            }
        }
        r
    }

    fn size(&self) -> (r: u64) {
        self.size
    }

    fn sector_size(&self) -> (r: usize) {
        self.inner.sector_size()
    }
}

} // verus!
