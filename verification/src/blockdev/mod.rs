//! Byte-addressed block devices, and the stream, partition and cluster
//! helpers built on them.

pub mod cluster;
pub mod partition;
pub mod sectors;
pub mod stream;

use vstd::prelude::*;

verus! {

/// Errors a block device reports.
#[derive(Debug, Clone, Copy, PartialEq, Eq, Structural)]
pub enum BlockError {
    DeviceError,
    NotInitialized,
    OutOfBounds,
    Timeout,
    NoMemory,
    IoError,
    InvalidParameter,
    InvalidOffset,
    NotSupported,
}

/// The message a block error is displayed with.
pub open spec fn block_error_message(e: BlockError) -> Seq<char> {
    match e {
        BlockError::OutOfBounds => "access out of bounds"@,
        BlockError::InvalidOffset => "invalid offset"@,
        BlockError::DeviceError => "device error"@,
        BlockError::NotInitialized => "device not initialized"@,
        BlockError::IoError => "I/O error"@,
        BlockError::NotSupported => "operation not supported"@,
        BlockError::Timeout => "timeout"@,
        BlockError::NoMemory => "no memory"@,
        BlockError::InvalidParameter => "invalid parameter"@,
    }
}

impl BlockError {
    /// The message this error is displayed with.
    pub fn message(&self) -> (r: &'static str)
        ensures
            r@ == block_error_message(*self),
    {
        match self {
            BlockError::OutOfBounds => "access out of bounds",
            BlockError::InvalidOffset => "invalid offset",
            BlockError::DeviceError => "device error",
            BlockError::NotInitialized => "device not initialized",
            BlockError::IoError => "I/O error",
            BlockError::NotSupported => "operation not supported",
            BlockError::Timeout => "timeout",
            BlockError::NoMemory => "no memory",
            BlockError::InvalidParameter => "invalid parameter",
        }
    }
}

/// The kinds of stream errors.
#[derive(Debug, Clone, Copy, PartialEq, Eq, Structural)]
pub enum IoErrorKind {
    UnexpectedEof,
    InvalidInput,
    Other,
}

/// A stream error.
#[derive(Debug, Clone, Copy, PartialEq, Eq, Structural)]
pub struct IoError {
    pub kind: IoErrorKind,
}

impl IoError {
    pub fn new(kind: IoErrorKind) -> (r: Self)
        ensures
            r.kind == kind,
    {
        Self { kind }
    }
}

pub type IoResult<T> = Result<T, IoError>;

/// Where a seek is measured from.
#[derive(Debug, Clone, Copy, PartialEq, Eq, Structural)]
pub enum SeekFrom {
    Start(u64),
    Current(i64),
    End(i64),
}

/// A source of bytes.
pub trait Read {
    /// Read into `buf`; the count read never exceeds `buf.len()`.
    fn read(&mut self, buf: &mut [u8]) -> (r: IoResult<usize>)
        ensures
            final(buf)@.len() == old(buf)@.len(),
            r matches Ok(n) ==> n <= old(buf)@.len();

    /// Read until `buf` is full; a read of zero bytes ends it with
    /// `UnexpectedEof`.
    fn read_exact(&mut self, buf: &mut [u8]) -> (r: IoResult<()>)
        ensures
            final(buf)@.len() == old(buf)@.len(),
            old(buf)@.len() == 0 ==> r == Ok::<(), IoError>(()) && final(buf)@ == old(buf)@,
    {
        let len = buf.len();
        let mut filled: usize = 0;
        while filled < len
            invariant
                filled <= len,
                buf@.len() == len,
                len == old(buf)@.len(),
            decreases len - filled,
        {
            let want = len - filled;
            let mut rest: Vec<u8> = vec![0u8; want];
            match self.read(rest.as_mut_slice()) {
                Ok(n) => {
                    if n == 0 {
                        return Err(IoError::new(IoErrorKind::UnexpectedEof));
                    }
                    let mut k: usize = 0;
                    while k < n
                        invariant
                            k <= n,
                            n <= rest@.len(),
                            rest@.len() == len - filled,
                            filled + n <= len,
                            buf@.len() == len,
                        decreases n - k,
                    {
                        buf[filled + k] = rest[k];
                        k = k + 1;
                    }
                    filled = filled + n;
                },
                Err(e) => return Err(e),
            }
        }
        Ok(())
    }
}

/// A seekable stream.
pub trait Seek {
    fn seek(&mut self, pos: SeekFrom) -> IoResult<u64>;

    /// The current position.
    fn stream_position(&mut self) -> IoResult<u64> {
        self.seek(SeekFrom::Current(0))
    }
}

/// `s` with the bytes of `b` written over it from `off` on.
pub open spec fn splice(s: Seq<u8>, off: int, b: Seq<u8>) -> Seq<u8> {
    s.subrange(0, off) + b + s.subrange(off + b.len(), s.len() as int)
}

/// `a` and `b` have the same length and agree outside `[lo, hi)`.
pub open spec fn unchanged_outside(a: Seq<u8>, b: Seq<u8>, lo: int, hi: int) -> bool {
    &&& a.len() == b.len()
    &&& forall|i: int| 0 <= i < a.len() && !(lo <= i < hi) ==> #[trigger] a[i] == b[i]
}

/// A byte-addressed block device. Implementors read and write ranges of
/// bytes; a read that succeeds gives back the bytes the device holds, a
/// write that succeeds replaces them.
pub trait BlockDevice {
    /// The bytes the device holds.
    spec fn contents(&self) -> Seq<u8>;

    /// The sector size the device reports.
    spec fn sector_bytes(&self) -> usize;

    /// Whether a read of `len` bytes at `offset` may fail. An implementation
    /// states where its reads can fail by overriding this; the default lets
    /// any read fail.
    closed spec fn read_may_fail(&self, offset: int, len: int) -> bool {
        true
    }

    fn read_at(&mut self, offset: u64, buf: &mut [u8]) -> (r: Result<(), BlockError>)
        ensures
            r is Err ==> old(self).read_may_fail(offset as int, old(buf)@.len() as int),
            forall|o: int, l: int| #[trigger] final(self).read_may_fail(o, l) == old(self).read_may_fail(o, l),
            final(self).contents() == old(self).contents(),
            final(self).size_view() == old(self).size_view(),
            final(self).sector_bytes() == old(self).sector_bytes(),
            final(buf)@.len() == old(buf)@.len(),
            r is Ok ==> offset + old(buf)@.len() <= old(self).contents().len(),
            r is Ok ==> final(buf)@ == old(self).contents().subrange(offset as int, offset + old(buf)@.len());

    fn write_at(&mut self, offset: u64, buf: &[u8]) -> (r: Result<(), BlockError>)
        ensures
            final(self).contents().len() == old(self).contents().len(),
            final(self).size_view() == old(self).size_view(),
            final(self).sector_bytes() == old(self).sector_bytes(),
            r is Ok ==> offset + buf@.len() <= old(self).contents().len(),
            r is Ok ==> final(self).contents() == splice(old(self).contents(), offset as int, buf@),
            r is Err ==> unchanged_outside(final(self).contents(), old(self).contents(), offset as int, offset + buf@.len());

    /// The size the device reports.
    spec fn size_view(&self) -> u64;

    fn size(&self) -> (r: u64)
        ensures
            r == self.size_view();

    fn sector_size(&self) -> (r: usize)
        ensures
            r == self.sector_bytes();
}

/// Read `length` clusters starting at cluster `cluster_number`.
pub fn read_clusters<D: BlockDevice>(device: &mut D, cluster_number: u64, length: u64, bytes_per_cluster: u64) -> (r: Result<Vec<u8>, BlockError>)
    requires
        length * bytes_per_cluster <= usize::MAX,
        cluster_number * bytes_per_cluster <= u64::MAX,
    ensures
        final(device).contents() == old(device).contents(),
        final(device).size_view() == old(device).size_view(),
        final(device).sector_bytes() == old(device).sector_bytes(),
        forall|o: int, l: int| #[trigger] final(device).read_may_fail(o, l) == old(device).read_may_fail(o, l),
        r matches Ok(v) ==> v@ == old(device).contents().subrange(
            cluster_number * bytes_per_cluster,
            cluster_number * bytes_per_cluster + length * bytes_per_cluster,
        ),
{
    let n = (length * bytes_per_cluster) as usize;
    let mut buf: Vec<u8> = vec![0u8; n];
    let offset = cluster_number * bytes_per_cluster;
    match device.read_at(offset, buf.as_mut_slice()) {
        Ok(()) => Ok(buf),
        Err(e) => Err(e),
    }
}

} // verus!
