//! Inodes: the objects a file system hands the virtual file system.

use vstd::prelude::*;
use crate::vfs::FsError;

verus! {

/// What an inode is.
#[derive(Debug, Clone, Copy, PartialEq, Eq, Structural)]
pub enum InodeType {
    File,
    Directory,
    Symlink,
    BlockDevice,
    CharDevice,
    Socket,
}

/// The metadata of an inode.
#[derive(Debug, Clone)]
pub struct Metadata {
    pub inode_num: u64,
    pub size: u64,
    pub typ: InodeType,
    pub permissions: u16,
    pub created: u64,
    pub modified: u64,
    pub accessed: u64,
    pub links: u32,
}

/// One entry of a directory listing.
#[derive(Debug, Clone)]
pub struct DirectoryEntry {
    pub name: String,
    pub inode_num: u64,
    pub typ: InodeType,
}

/// An inode of a file system. Byte transfers report at most the length of
/// the buffer, and never reach past the last byte offset a `u64` holds.
pub trait Inode: Sized {
    /// Whether `m` is metadata that this inode may report. An implementation
    /// states what its `metadata` returns by overriding this; the default
    /// promises nothing.
    closed spec fn metadata_outcome(&self, m: Metadata) -> bool {
        true
    }

    /// Whether a read at `offset` into a buffer holding `before` may leave
    /// it holding `after` and return `r`. An implementation states what its
    /// reads do by overriding this; the default promises nothing.
    closed spec fn read_outcome(&self, offset: u64, before: Seq<u8>, after: Seq<u8>, r: Result<usize, FsError>) -> bool {
        true
    }

    /// Whether a write of `data` at `offset` may return `r`. An
    /// implementation states what its writes do by overriding this; the
    /// default promises nothing.
    closed spec fn write_outcome(&self, offset: u64, data: Seq<u8>, r: Result<usize, FsError>) -> bool {
        true
    }

    /// Its metadata.
    fn metadata(&self) -> (m: Metadata)
        ensures
            self.metadata_outcome(m);

    /// The entry `name` of this directory.
    fn lookup(&self, name: &str) -> Result<Self, FsError>;

    /// The target of this symbolic link.
    fn readlink(&self) -> Result<String, FsError>;

    /// Read the bytes at `offset` into `buf`; the count read.
    fn read_at(&self, offset: u64, buf: &mut [u8]) -> (r: Result<usize, FsError>)
        ensures
            final(buf)@.len() == old(buf)@.len(),
            self.read_outcome(offset, old(buf)@, final(buf)@, r),
            r matches Ok(n) ==> n <= old(buf)@.len() && offset + n <= u64::MAX;

    /// Write `buf` at `offset`; the count written.
    fn write_at(&self, offset: u64, buf: &[u8]) -> (r: Result<usize, FsError>)
        ensures
            self.write_outcome(offset, buf@, r),
            r matches Ok(n) ==> n <= buf@.len() && offset + n <= u64::MAX;

    /// The entries of this directory.
    fn readdir(&self) -> Result<Vec<DirectoryEntry>, FsError>;

    /// What this inode is.
    fn inode_type(&self) -> InodeType;
}

} // verus!
