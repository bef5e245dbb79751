//! Block devices addressed by position, and their errors.

use vstd::prelude::*;
use crate::hal::io::IoError;

verus! {

/// Errors a block device reports.
#[derive(Debug, Clone, Copy, PartialEq, Eq, Structural)]
pub enum BlockError {
    DeviceNotReady,
    DeviceError,
    Timeout,
    NoMemory,
    OutOfBounds,
    BadSector,
    ReadError,
    WriteError,
    InvalidGeometry,
    UnsupportedSectorSize,
    Other,
    InvalidRequest,
    DeviceBusy,
    InvalidBuffer,
}

/// The message of a block error.
pub open spec fn block_error_message(e: BlockError) -> Seq<char> {
    match e {
        BlockError::DeviceNotReady => "device not ready"@,
        BlockError::DeviceError => "device error"@,
        BlockError::DeviceBusy => "device busy"@,
        BlockError::Timeout => "timeout"@,
        BlockError::NoMemory => "no memory"@,
        BlockError::OutOfBounds => "out of bounds"@,
        BlockError::BadSector => "bad sector"@,
        BlockError::ReadError => "read error"@,
        BlockError::WriteError => "write error"@,
        BlockError::InvalidGeometry => "invalid geometry"@,
        BlockError::UnsupportedSectorSize => "unsupported sector size"@,
        BlockError::InvalidRequest => "invalid request"@,
        BlockError::InvalidBuffer => "invalid buffer"@,
        BlockError::Other => "other"@,
    }
}

/// The length and first character of a block error's message.
spec fn message_key(e: BlockError) -> (int, char) {
    match e {
        BlockError::DeviceNotReady => (16, 'd'),
        BlockError::DeviceError => (12, 'd'),
        BlockError::DeviceBusy => (11, 'd'),
        BlockError::Timeout => (7, 't'),
        BlockError::NoMemory => (9, 'n'),
        BlockError::OutOfBounds => (13, 'o'),
        BlockError::BadSector => (10, 'b'),
        BlockError::ReadError => (10, 'r'),
        BlockError::WriteError => (11, 'w'),
        BlockError::InvalidGeometry => (16, 'i'),
        BlockError::UnsupportedSectorSize => (23, 'u'),
        BlockError::InvalidRequest => (15, 'i'),
        BlockError::InvalidBuffer => (14, 'i'),
        BlockError::Other => (5, 'o'),
    }
}

proof fn lemma_message_key(e: BlockError)
    ensures
        block_error_message(e).len() == message_key(e).0,
        block_error_message(e).len() > 0 && block_error_message(e)[0] == message_key(e).1,
{
    match e {
        BlockError::DeviceNotReady => { reveal_strlit("device not ready"); },
        BlockError::DeviceError => { reveal_strlit("device error"); },
        BlockError::DeviceBusy => { reveal_strlit("device busy"); },
        BlockError::Timeout => { reveal_strlit("timeout"); },
        BlockError::NoMemory => { reveal_strlit("no memory"); },
        BlockError::OutOfBounds => { reveal_strlit("out of bounds"); },
        BlockError::BadSector => { reveal_strlit("bad sector"); },
        BlockError::ReadError => { reveal_strlit("read error"); },
        BlockError::WriteError => { reveal_strlit("write error"); },
        BlockError::InvalidGeometry => { reveal_strlit("invalid geometry"); },
        BlockError::UnsupportedSectorSize => { reveal_strlit("unsupported sector size"); },
        BlockError::InvalidRequest => { reveal_strlit("invalid request"); },
        BlockError::InvalidBuffer => { reveal_strlit("invalid buffer"); },
        BlockError::Other => { reveal_strlit("other"); },
    }
}

/// Every block error has a message of its own: no message is empty, and
/// two different errors never share one.
pub proof fn lemma_block_error_messages_distinct(a: BlockError, b: BlockError)
    ensures
        block_error_message(a).len() > 0,
        a != b ==> block_error_message(a) != block_error_message(b),
{
    lemma_message_key(a);
    lemma_message_key(b);
    if a != b {
        assert(message_key(a) != message_key(b));
    }
}

impl BlockError {
    /// A short description of the error.
    pub fn as_str(self) -> (r: &'static str)
        ensures
            r@ == block_error_message(self),
    {
        match self {
            BlockError::DeviceNotReady => "device not ready",
            BlockError::DeviceError => "device error",
            BlockError::DeviceBusy => "device busy",
            BlockError::Timeout => "timeout",
            BlockError::NoMemory => "no memory",
            BlockError::OutOfBounds => "out of bounds",
            BlockError::BadSector => "bad sector",
            BlockError::ReadError => "read error",
            BlockError::WriteError => "write error",
            BlockError::InvalidGeometry => "invalid geometry",
            BlockError::UnsupportedSectorSize => "unsupported sector size",
            BlockError::InvalidRequest => "invalid request",
            BlockError::InvalidBuffer => "invalid buffer",
            BlockError::Other => "other",
        }
    }
}

/// The I/O error a block error is reported as.
pub open spec fn io_error_of(e: BlockError) -> IoError {
    match e {
        BlockError::OutOfBounds => IoError::InvalidInput,
        BlockError::ReadError => IoError::UnexpectedEof,
        BlockError::Timeout => IoError::TimedOut,
        BlockError::NoMemory => IoError::OutOfMemory,
        BlockError::UnsupportedSectorSize => IoError::InvalidInput,
        BlockError::InvalidGeometry => IoError::InvalidInput,
        BlockError::BadSector => IoError::InvalidData,
        _ => IoError::Other,
    }
}

impl From<BlockError> for IoError {
    fn from(e: BlockError) -> (r: IoError) {
        match e {
            BlockError::OutOfBounds => IoError::InvalidInput,
            BlockError::ReadError => IoError::UnexpectedEof,
            BlockError::Timeout => IoError::TimedOut,
            BlockError::NoMemory => IoError::OutOfMemory,
            BlockError::UnsupportedSectorSize => IoError::InvalidInput,
            BlockError::InvalidGeometry => IoError::InvalidInput,
            BlockError::BadSector => IoError::InvalidData,
            _ => IoError::Other,
        }
    }
}

impl vstd::std_specs::convert::FromSpecImpl<BlockError> for IoError {
    open spec fn obeys_from_spec() -> bool {
        true
    }

    open spec fn from_spec(e: BlockError) -> IoError {
        io_error_of(e)
    }
}

/// `s` with the bytes of `b` written over it from `off` on.
pub open spec fn overwrite(s: Seq<u8>, off: int, b: Seq<u8>) -> Seq<u8> {
    s.subrange(0, off) + b + s.subrange(off + b.len(), s.len() as int)
}

/// A device of fixed-size blocks. The position handed to `read_blocks` and
/// `write_blocks` is the byte position on the device; a read that succeeds
/// gives back the bytes held there, a write that succeeds replaces them, a
/// write that fails touches nothing outside its range.
pub trait BlockDevice {
    /// The bytes the device holds.
    spec fn bytes(&self) -> Seq<u8>;

    /// The block size the device reports.
    spec fn block_size_view(&self) -> usize;

    /// The block count the device reports.
    spec fn block_count_view(&self) -> u64;

    /// Whether a read of `len` bytes at `lba` may fail with `e`. An
    /// implementation states how its reads fail by overriding this; the
    /// default lets any read fail with any error.
    closed spec fn read_fails_with(&self, lba: u64, len: nat, e: BlockError) -> bool {
        true
    }

    fn read_blocks(&mut self, lba: u64, buf: &mut [u8]) -> (r: Result<(), BlockError>)
        ensures
            r matches Err(e) ==> old(self).read_fails_with(lba, old(buf)@.len(), e),
            final(self).bytes() == old(self).bytes(),
            final(self).block_size_view() == old(self).block_size_view(),
            final(self).block_count_view() == old(self).block_count_view(),
            final(buf)@.len() == old(buf)@.len(),
            r is Ok ==> lba + old(buf)@.len() <= old(self).bytes().len(),
            r is Ok ==> final(buf)@ == old(self).bytes().subrange(lba as int, lba + old(buf)@.len());

    fn write_blocks(&mut self, lba: u64, buf: &[u8]) -> (r: Result<(), BlockError>)
        ensures
            final(self).bytes().len() == old(self).bytes().len(),
            final(self).block_size_view() == old(self).block_size_view(),
            final(self).block_count_view() == old(self).block_count_view(),
            r is Ok ==> lba + buf@.len() <= old(self).bytes().len(),
            r is Ok ==> final(self).bytes() == overwrite(old(self).bytes(), lba as int, buf@),
            r is Err ==> forall|i: int| 0 <= i < old(self).bytes().len() && !(lba <= i < lba + buf@.len())
                ==> #[trigger] final(self).bytes()[i] == old(self).bytes()[i];

    fn block_size(&self) -> (r: usize)
        ensures
            r == self.block_size_view();

    fn block_count(&self) -> (r: u64)
        ensures
            r == self.block_count_view();
}

} // verus!
