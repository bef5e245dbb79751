//! Open files.

use vstd::prelude::*;
use crate::hal::fs::File as FileTrait;
use crate::hal::io::IoError;
use crate::vfs::{FsError, OpenFlags};
use crate::vfs::inode::{Inode, Metadata};

verus! {

/// An inode opened with some flags, and the offset the next transfer starts at.
pub struct File<I: Inode> {
    inode: I,
    flags: OpenFlags,
    offset: u64,
}

impl<I: Inode> File<I> {
    /// The inode.
    pub closed spec fn inode(&self) -> I {
        self.inode
    }

    /// The flags it was opened with.
    pub closed spec fn flags(&self) -> OpenFlags {
        self.flags
    }

    /// The offset of the next transfer.
    pub closed spec fn offset(&self) -> u64 {
        self.offset
    }

    /// Open `inode` with `flags`, at offset zero.
    pub fn new(inode: I, flags: OpenFlags) -> (r: Self)
        ensures
            r.inode() == inode,
            r.flags() == flags,
            r.offset() == 0,
    {
        File { inode, flags, offset: 0 }
    }

    /// Read from the offset and move past the bytes read; `PermissionDenied`
    /// when the file was not opened for reading.
    pub fn read(&mut self, buf: &mut [u8]) -> (r: Result<usize, FsError>)
        ensures
            final(buf)@.len() == old(buf)@.len(),
            final(self).inode() == old(self).inode(),
            final(self).flags() == old(self).flags(),
            !(old(self).flags()@ & 1 == 1) ==> r == Err::<usize, FsError>(FsError::PermissionDenied)
                && final(self).offset() == old(self).offset() && final(buf)@ == old(buf)@,
            old(self).flags()@ & 1 == 1 ==> old(self).inode().read_outcome(old(self).offset(), old(buf)@, final(buf)@, r),
            r matches Ok(n) ==> n <= old(buf)@.len() && final(self).offset() == old(self).offset() + n,
            r is Err ==> final(self).offset() == old(self).offset(),
    {
        if !self.flags.contains(OpenFlags::READ()) {
            return Err(FsError::PermissionDenied);
        }
        match self.inode.read_at(self.offset, buf) {
            Ok(bytes) => {
                self.offset = self.offset + bytes as u64;
                Ok(bytes)
            },
            Err(e) => Err(e),
        }
    }

    /// Write at the offset, first moved to the end of the file when opened
    /// for appending, and move past the bytes written; `PermissionDenied`
    /// when the file was not opened for writing.
    pub fn write(&mut self, buf: &[u8]) -> (r: Result<usize, FsError>)
        ensures
            final(self).inode() == old(self).inode(),
            final(self).flags() == old(self).flags(),
            !(old(self).flags()@ & 2 == 2) ==> r == Err::<usize, FsError>(FsError::PermissionDenied)
                && final(self).offset() == old(self).offset(),
            old(self).flags()@ & 2 == 2 && !(old(self).flags()@ & 8 == 8) ==> {
                &&& old(self).inode().write_outcome(old(self).offset(), buf@, r)
                &&& r matches Ok(n) ==> final(self).offset() == old(self).offset() + n
                &&& r is Err ==> final(self).offset() == old(self).offset()
            },
            old(self).flags()@ & 2 == 2 && old(self).flags()@ & 8 == 8 ==> exists|m: Metadata| {
                &&& #[trigger] old(self).inode().metadata_outcome(m)
                &&& old(self).inode().write_outcome(m.size, buf@, r)
                &&& r matches Ok(n) ==> final(self).offset() == m.size + n
                &&& r is Err ==> final(self).offset() == m.size
            },
            r matches Ok(n) ==> n <= buf@.len(),
    {
        if !self.flags.contains(OpenFlags::WRITE()) {
            return Err(FsError::PermissionDenied);
        }
        let ghost mut reported: Option<Metadata> = None;
        if self.flags.contains(OpenFlags::APPEND()) {
            let m = self.inode.metadata();
            proof { reported = Some(m); }
            self.offset = m.size;
        }
        let r = match self.inode.write_at(self.offset, buf) {
            Ok(bytes) => {
                self.offset = self.offset + bytes as u64;
                Ok(bytes)
            },
            Err(e) => Err(e),
        };
        proof {
            if let Some(m) = reported {
                assert(old(self).inode().metadata_outcome(m));
            }
        }
        r
    }

    /// Move the offset to `pos`.
    pub fn seek(&mut self, pos: u64)
        ensures
            final(self).offset() == pos,
            final(self).inode() == old(self).inode(),
            final(self).flags() == old(self).flags(),
    {
        self.offset = pos;
    }

    /// The inode's metadata.
    pub fn metadata(&self) -> (m: Metadata)
        ensures
            self.inode().metadata_outcome(m),
    {
        self.inode.metadata()
    }
}

/// A file of a HAL file system, read through its stream.
pub struct FileHandle<F: FileTrait> {
    inner: F,
}

impl<F: FileTrait> FileHandle<F> {
    /// The file behind the handle.
    pub closed spec fn inner(&self) -> F {
        self.inner
    }

    /// Wrap `file`.
    pub fn new(file: F) -> (r: Self)
        ensures
            r.inner() == file,
    {
        FileHandle { inner: file }
    }

    /// Read through the file's stream.
    pub fn read(&mut self, buf: &mut [u8]) -> (r: Result<usize, IoError>)
        ensures
            final(buf)@.len() == old(buf)@.len(),
            r matches Ok(n) ==> n <= old(buf)@.len(),
    {
        self.inner.read(buf)
    }

    /// Handles are read-only: writing always fails with `Other`.
    pub fn write(&mut self, buf: &[u8]) -> (r: Result<usize, IoError>)
        ensures
            r == Err::<usize, IoError>(IoError::Other),
            *final(self) == *old(self),
    {
        Err(IoError::Other)
    }
}

} // verus!
