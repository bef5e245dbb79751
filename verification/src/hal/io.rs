//! Stream errors and traits.

use vstd::prelude::*;

verus! {

/// I/O errors.
#[derive(Debug, Clone, Copy, PartialEq, Eq, Structural)]
pub enum IoError {
    UnexpectedEof,
    InvalidInput,
    InvalidData,
    TimedOut,
    Interrupted,
    NotFound,
    PermissionDenied,
    OutOfMemory,
    Unsupported,
    Other,
}

/// The message of an I/O error.
pub open spec fn io_error_message(e: IoError) -> Seq<char> {
    match e {
        IoError::UnexpectedEof => "unexpected EOF"@,
        IoError::InvalidInput => "invalid input"@,
        IoError::InvalidData => "invalid data"@,
        IoError::TimedOut => "timed out"@,
        IoError::Interrupted => "interrupted"@,
        IoError::NotFound => "not found"@,
        IoError::PermissionDenied => "permission denied"@,
        IoError::OutOfMemory => "out of memory"@,
        IoError::Unsupported => "unsupported"@,
        IoError::Other => "other"@,
    }
}

impl IoError {
    /// A short description of the error.
    pub fn as_str(self) -> (r: &'static str)
        ensures
            r@ == io_error_message(self),
    {
        match self {
            IoError::UnexpectedEof => "unexpected EOF",
            IoError::InvalidInput => "invalid input",
            IoError::InvalidData => "invalid data",
            IoError::TimedOut => "timed out",
            IoError::Interrupted => "interrupted",
            IoError::NotFound => "not found",
            IoError::PermissionDenied => "permission denied",
            IoError::OutOfMemory => "out of memory",
            IoError::Unsupported => "unsupported",
            IoError::Other => "other",
        }
    }
}

/// Where a seek is measured from.
#[derive(Debug, Clone, Copy, PartialEq, Eq, Structural)]
pub enum SeekFrom {
    Start(u64),
    Current(i64),
    End(i64),
}

/// A source of bytes.
pub trait Read {
    /// Read into `buf`; the count read never exceeds `buf.len()`.
    fn read(&mut self, buf: &mut [u8]) -> (r: Result<usize, IoError>)
        ensures
            final(buf)@.len() == old(buf)@.len(),
            r matches Ok(n) ==> n <= old(buf)@.len();

    /// Read until `buf` is full; a read of zero bytes ends it with
    /// `UnexpectedEof`.
    fn read_exact(&mut self, buf: &mut [u8]) -> (r: Result<(), IoError>)
        ensures
            final(buf)@.len() == old(buf)@.len(),
            old(buf)@.len() == 0 ==> r == Ok::<(), IoError>(()) && final(buf)@ == old(buf)@,
    {
        let len = buf.len();
        let mut filled: usize = 0;
        while filled < len
            invariant
                filled <= len,
                buf@.len() == len,
                len == old(buf)@.len(),
            decreases len - filled,
        {
            let want = len - filled;
            let mut rest: Vec<u8> = vec![0u8; want];
            match self.read(rest.as_mut_slice()) {
                Ok(n) => {
                    if n == 0 {
                        return Err(IoError::UnexpectedEof);
                    }
                    let mut k: usize = 0;
                    while k < n
                        invariant
                            k <= n,
                            n <= rest@.len(),
                            rest@.len() == len - filled,
                            filled + n <= len,
                            buf@.len() == len,
                        decreases n - k,
                    {
                        buf[filled + k] = rest[k];
                        k = k + 1;
                    }
                    filled = filled + n;
                },
                Err(e) => return Err(e),
            }
        }
        Ok(())
    }
}

/// A sink of bytes.
pub trait Write {
    fn write(&mut self, buf: &[u8]) -> (r: Result<usize, IoError>)
        ensures
            r matches Ok(n) ==> n <= buf@.len();

    fn flush(&mut self) -> Result<(), IoError>;
}

/// A seekable stream.
pub trait Seek {
    fn seek(&mut self, pos: SeekFrom) -> Result<u64, IoError>;

    /// The current position.
    fn stream_position(&mut self) -> Result<u64, IoError> {
        self.seek(SeekFrom::Current(0))
    }
}

} // verus!
