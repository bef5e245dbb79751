//! The virtual file system layer: paths, open flags, inodes and open files.

pub mod file;
pub mod inode;
pub mod mount;
pub mod path;

use vstd::prelude::*;
use crate::hal::fs::FileSystem;
use crate::hal::io::IoError;
use crate::vfs::mount::text_of;
use crate::vfs::path::{parsed_path, path_text};

pub use file::{File, FileHandle};
pub use inode::{DirectoryEntry, Inode, InodeType, Metadata};
pub use mount::{MountPoint, MountTable};
pub use path::Path;

verus! {

/// Errors of the virtual file system.
#[derive(Debug, Clone, Copy, PartialEq, Eq, Structural)]
pub enum FsError {
    NotFound,
    NotDir,
    IsDir,
    PermissionDenied,
    BadFd,
    InvalidPath,
    MountFailed,
    IoError,
    NotImplemented,
}

/// Every stream error reaches the file system as `IoError`.
impl From<IoError> for FsError {
    fn from(err: IoError) -> (r: FsError) {
        FsError::IoError
    }
}

impl vstd::std_specs::convert::FromSpecImpl<IoError> for FsError {
    open spec fn obeys_from_spec() -> bool {
        true
    }

    open spec fn from_spec(err: IoError) -> FsError {
        FsError::IoError
    }
}

/// Space figures of a mounted file system.
#[derive(Debug, Clone, Copy)]
pub struct FsStat {
    pub total_blocks: u64,
    pub free_blocks: u64,
    pub block_size: u32,
}

/// The bits that name a flag.
pub const OPEN_FLAGS_ALL: u32 = 31;

/// How a file is opened: a set of the flags `READ`, `WRITE`, `CREATE`,
/// `APPEND` and `TRUNC`, held as bits 1, 2, 4, 8 and 16.
#[derive(Debug, Clone, Copy, PartialEq, Eq, Structural)]
pub struct OpenFlags {
    bits: u32,
}

impl View for OpenFlags {
    type V = u32;

    closed spec fn view(&self) -> u32 {
        self.bits
    }
}

impl OpenFlags {
    /// Open for reading.
    #[allow(non_snake_case)]
    pub fn READ() -> (r: OpenFlags)
        ensures
            r@ == 1,
    {
        OpenFlags { bits: 1 }
    }

    /// Open for writing.
    #[allow(non_snake_case)]
    pub fn WRITE() -> (r: OpenFlags)
        ensures
            r@ == 2,
    {
        OpenFlags { bits: 2 }
    }

    /// Create the file when missing.
    #[allow(non_snake_case)]
    pub fn CREATE() -> (r: OpenFlags)
        ensures
            r@ == 4,
    {
        OpenFlags { bits: 4 }
    }

    /// Write at the end of the file.
    #[allow(non_snake_case)]
    pub fn APPEND() -> (r: OpenFlags)
        ensures
            r@ == 8,
    {
        OpenFlags { bits: 8 }
    }

    /// Cut the file to zero length.
    #[allow(non_snake_case)]
    pub fn TRUNC() -> (r: OpenFlags)
        ensures
            r@ == 16,
    {
        OpenFlags { bits: 16 }
    }


    /// No flag.
    pub fn empty() -> (r: OpenFlags)
        ensures
            r@ == 0,
    {
        OpenFlags { bits: 0 }
    }

    /// Every flag.
    pub fn all() -> (r: OpenFlags)
        ensures
            r@ == OPEN_FLAGS_ALL,
    {
        OpenFlags { bits: OPEN_FLAGS_ALL }
    }

    /// The raw bits.
    pub fn bits(&self) -> (r: u32)
        ensures
            r == self@,
    {
        self.bits
    }

    /// The flags of `bits`, or `None` when a bit names no flag.
    pub fn from_bits(bits: u32) -> (r: Option<OpenFlags>)
        ensures
            r is Some <==> bits & !OPEN_FLAGS_ALL == 0,
            r matches Some(f) ==> f@ == bits,
    {
        if bits & !OPEN_FLAGS_ALL == 0 {
            Some(OpenFlags { bits })
        } else {
            None
        }
    }

    /// The flags of `bits`, dropping the bits that name no flag.
    pub fn from_bits_truncate(bits: u32) -> (r: OpenFlags)
        ensures
            r@ == bits & OPEN_FLAGS_ALL,
    {
        OpenFlags { bits: bits & OPEN_FLAGS_ALL }
    }

    /// Whether no flag is set.
    pub fn is_empty(&self) -> (r: bool)
        ensures
            r == (self@ == 0),
    {
        self.bits == 0
    }

    /// Whether every flag of `other` is set here.
    pub fn contains(&self, other: OpenFlags) -> (r: bool)
        ensures
            r == (self@ & other@ == other@),
    {
        self.bits & other.bits == other.bits
    }

    /// Whether some flag of `other` is set here.
    pub fn intersects(&self, other: OpenFlags) -> (r: bool)
        ensures
            r == (self@ & other@ != 0),
    {
        self.bits & other.bits != 0
    }

    /// The flags set here or in `other`.
    pub fn union(self, other: OpenFlags) -> (r: OpenFlags)
        ensures
            r@ == self@ | other@,
    {
        OpenFlags { bits: self.bits | other.bits }
    }

    /// The flags set both here and in `other`.
    pub fn intersection(self, other: OpenFlags) -> (r: OpenFlags)
        ensures
            r@ == self@ & other@,
    {
        OpenFlags { bits: self.bits & other.bits }
    }

    /// The flags set here and not in `other`.
    pub fn difference(self, other: OpenFlags) -> (r: OpenFlags)
        ensures
            r@ == self@ & !other@,
    {
        OpenFlags { bits: self.bits & !other.bits }
    }

    /// Set the flags of `other`.
    pub fn insert(&mut self, other: OpenFlags)
        ensures
            final(self)@ == old(self)@ | other@,
    {
        self.bits = self.bits | other.bits;
    }

    /// Clear the flags of `other`.
    pub fn remove(&mut self, other: OpenFlags)
        ensures
            final(self)@ == old(self)@ & !other@,
    {
        self.bits = self.bits & !other.bits;
    }
}

/// A union of two flag sets contains each of them, and the flags it
/// contains are those of one or the other.
pub proof fn lemma_union_contains(a: OpenFlags, b: OpenFlags, c: OpenFlags)
    ensures
        (a@ | b@) & a@ == a@,
        (a@ | b@) & b@ == b@,
        ((a@ | b@) & c@ == c@) <== (a@ & c@ == c@ || b@ & c@ == c@),
{
    let x = a@;
    let y = b@;
    let z = c@;
    assert((x | y) & x == x) by (bit_vector);
    assert((x | y) & y == y) by (bit_vector);
    assert((x & z == z || y & z == z) ==> (x | y) & z == z) by (bit_vector);
}

/// Removing flags and inserting them again gives the set with them added;
/// after removal none of them is left.
pub proof fn lemma_remove_then_contains(a: OpenFlags, b: OpenFlags)
    ensures
        (a@ & !b@) & b@ == 0,
        ((a@ & !b@) | b@) == a@ | b@,
{
    let x = a@;
    let y = b@;
    assert((x & !y) & y == 0) by (bit_vector);
    assert(((x & !y) | y) == x | y) by (bit_vector);
}

/// Truncating keeps a set whose bits all name flags.
pub proof fn lemma_truncate_keeps_known(bits: u32)
    ensures
        bits & !OPEN_FLAGS_ALL == 0 ==> bits & OPEN_FLAGS_ALL == bits,
        (bits & OPEN_FLAGS_ALL) & !OPEN_FLAGS_ALL == 0,
{
    assert(bits & !31u32 == 0 ==> bits & 31u32 == bits) by (bit_vector);
    assert((bits & 31u32) & !31u32 == 0) by (bit_vector);
}

/// The text a path given as `s` is looked up by: `s` parsed and written
/// out again.
pub open spec fn lookup_text(s: Seq<char>) -> Seq<char> {
    path_text(parsed_path(s).0, parsed_path(s).1)
}

/// The virtual file system: mounted file systems and the files opened
/// through it, by descriptor.
pub struct Vfs<FS: FileSystem> {
    mount_table: MountTable<FS>,
    fd_table: Vec<(u64, FileHandle<FS::Handle>)>,
    next_fd: u64,
}

impl<FS: FileSystem> Vfs<FS> {
    /// The mount table.
    pub closed spec fn mounts(&self) -> MountTable<FS> {
        self.mount_table
    }

    /// The open descriptors, in the order they were opened.
    pub closed spec fn fds(&self) -> Seq<u64> {
        self.fd_table@.map_values(|e: (u64, FileHandle<FS::Handle>)| e.0)
    }

    /// The descriptor the next open hands out.
    pub closed spec fn next(&self) -> u64 {
        self.next_fd
    }

    /// The mount table is well formed, and the open descriptors are
    /// distinct and below the next one.
    pub open spec fn wf(&self) -> bool {
        &&& self.mounts().wf()
        &&& forall|i: int| 0 <= i < self.fds().len() ==> #[trigger] self.fds()[i] < self.next()
        &&& forall|i: int, j: int| 0 <= i < j < self.fds().len() ==> self.fds()[i] != self.fds()[j]
    }

    /// No file system and no open file; descriptors start at 0.
    pub fn new() -> (r: Self)
        ensures
            r.wf(),
            r.mounts().keys().len() == 0,
            r.fds().len() == 0,
            r.next() == 0,
    {
        let r = Vfs { mount_table: MountTable::new(), fd_table: Vec::new(), next_fd: 0 };
        assert(r.fds() =~= Seq::<u64>::empty());
        r
    }

    /// Mount a file system at a path; a path already mounted is refused
    /// with `MountFailed`.
    pub fn mount(&mut self, fs: FS, mount_point: Path) -> (r: Result<(), FsError>)
        requires
            old(self).wf(),
        ensures
            final(self).wf(),
            final(self).fds() == old(self).fds(),
            final(self).next() == old(self).next(),
            r is Err <==> old(self).mounts().keys().contains(text_of(mount_point)),
            r matches Err(e) ==> e == FsError::MountFailed,
            r is Err ==> final(self).mounts().keys() == old(self).mounts().keys(),
            r is Ok ==> final(self).mounts().keys() == old(self).mounts().keys().push(text_of(mount_point)),
    {
        let r = self.mount_table.mount(fs, mount_point);
        assert(self.fds() == old(self).fds());
        r
    }

    /// The position of `fd` in the descriptor table.
    fn slot_of(&self, fd: u64) -> (r: Option<usize>)
        ensures
            r matches Some(i) ==> i < self.fds().len() && self.fds()[i as int] == fd,
            r is None ==> !self.fds().contains(fd),
    {
        let mut i: usize = 0;
        while i < self.fd_table.len()
            invariant
                i <= self.fd_table@.len(),
                forall|j: int| 0 <= j < i ==> self.fds()[j] != fd,
            decreases self.fd_table@.len() - i,
        {
            if self.fd_table[i].0 == fd {
                return Some(i);
            }
            i = i + 1;
        }
        None
    }

    /// Open the file at `path` on the file system mounted at the longest
    /// mount path that begins it, and give it the next descriptor. An empty
    /// path is `InvalidPath`; a path no mount path begins, or that the file
    /// system does not open, is `NotFound`.
    pub fn open(&mut self, path: &str, flags: OpenFlags) -> (r: Result<u64, FsError>)
        requires
            old(self).wf(),
            old(self).next() < u64::MAX,
        ensures
            final(self).wf(),
            final(self).mounts() == old(self).mounts(),
            path@.len() == 0 ==> r == Err::<u64, FsError>(FsError::InvalidPath),
            path@.len() > 0 && !old(self).mounts().covers(lookup_text(path@)) ==> r == Err::<u64, FsError>(FsError::NotFound),
            r matches Err(e) ==> e == FsError::InvalidPath || e == FsError::NotFound,
            r is Err ==> final(self).fds() == old(self).fds() && final(self).next() == old(self).next(),
            r matches Ok(fd) ==> {
                &&& path@.len() > 0 && old(self).mounts().covers(lookup_text(path@))
                &&& fd == old(self).next()
                &&& final(self).fds() == old(self).fds().push(fd)
                &&& final(self).next() == old(self).next() + 1
            },
    {
        let p = match Path::new(path) {
            Ok(p) => p,
            Err(e) => return Err(e),
        };
        assert(text_of(p) == lookup_text(path@));
        let fs = match self.mount_table.find_mount(&p) {
            Ok(fs) => fs,
            Err(e) => return Err(e),
        };
        let path_str = p.to_string();
        let file = match fs.open(path_str.as_str()) {
            Ok(f) => f,
            Err(_) => return Err(FsError::NotFound),
        };
        let fd = self.next_fd;
        self.next_fd = self.next_fd + 1;
        let ghost f0 = self.fds();
        assert(f0 == old(self).fds());
        assert forall|i: int| 0 <= i < f0.len() implies f0[i] < fd by {
            assert(old(self).fds()[i] < old(self).next());
        }
        self.fd_table.push((fd, FileHandle::new(file)));
        assert(self.fds() =~= f0.push(fd));
        assert forall|i: int| 0 <= i < self.fds().len() implies #[trigger] self.fds()[i] < self.next() by {
            if i < f0.len() {
                assert(f0[i] < fd);
            }
        }
        assert forall|i: int, j: int| 0 <= i < j < self.fds().len() implies self.fds()[i] != self.fds()[j] by {
            if j == f0.len() {
                assert(f0[i] < fd);
            }
        }
        Ok(fd)
    }

    /// Read from an open file; an unknown descriptor is `BadFd`, a failed
    /// read `IoError`.
    pub fn read(&mut self, fd: u64, buf: &mut [u8]) -> (r: Result<usize, FsError>)
        requires
            old(self).wf(),
        ensures
            final(self).wf(),
            final(self).fds() == old(self).fds(),
            final(self).next() == old(self).next(),
            final(self).mounts() == old(self).mounts(),
            final(buf)@.len() == old(buf)@.len(),
            !old(self).fds().contains(fd) ==> r == Err::<usize, FsError>(FsError::BadFd) && final(buf)@ == old(buf)@,
            r matches Ok(n) ==> old(self).fds().contains(fd) && n <= old(buf)@.len(),
            r matches Err(e) ==> e == FsError::BadFd || e == FsError::IoError,
    {
        let i = match self.slot_of(fd) {
            Some(i) => i,
            None => return Err(FsError::BadFd),
        };
        let ghost f0 = self.fds();
        let mut entry = self.fd_table.remove(i);
        let res = entry.1.read(buf);
        self.fd_table.insert(i, entry);
        assert(self.fds() =~= f0);
        match res {
            Ok(n) => Ok(n),
            Err(e) => Err(FsError::from(e)),
        }
    }

    /// Write to an open file; an unknown descriptor is `BadFd`. Files are
    /// opened read-only, so writing an open file is `IoError`.
    pub fn write(&mut self, fd: u64, buf: &[u8]) -> (r: Result<usize, FsError>)
        requires
            old(self).wf(),
        ensures
            final(self).wf(),
            final(self).fds() == old(self).fds(),
            final(self).next() == old(self).next(),
            final(self).mounts() == old(self).mounts(),
            r == Err::<usize, FsError>(if old(self).fds().contains(fd) { FsError::IoError } else { FsError::BadFd }),
    {
        let i = match self.slot_of(fd) {
            Some(i) => i,
            None => return Err(FsError::BadFd),
        };
        let ghost f0 = self.fds();
        let mut entry = self.fd_table.remove(i);
        let res = entry.1.write(buf);
        self.fd_table.insert(i, entry);
        assert(self.fds() =~= f0);
        match res {
            Ok(n) => Ok(n),
            Err(e) => Err(FsError::from(e)),
        }
    }

    /// Close an open file; an unknown descriptor is `BadFd`.
    pub fn close(&mut self, fd: u64) -> (r: Result<(), FsError>)
        requires
            old(self).wf(),
        ensures
            final(self).wf(),
            final(self).next() == old(self).next(),
            final(self).mounts() == old(self).mounts(),
            r is Err <==> !old(self).fds().contains(fd),
            r matches Err(e) ==> e == FsError::BadFd,
            r is Err ==> final(self).fds() == old(self).fds(),
            r is Ok ==> exists|i: int| 0 <= i < old(self).fds().len() && old(self).fds()[i] == fd
                && final(self).fds() == old(self).fds().remove(i),
            r is Ok ==> !final(self).fds().contains(fd),
    {
        let i = match self.slot_of(fd) {
            Some(i) => i,
            None => return Err(FsError::BadFd),
        };
        let ghost f0 = self.fds();
        let _closed = self.fd_table.remove(i);
        assert(self.fds() =~= f0.remove(i as int));
        assert forall|a: int, b: int| 0 <= a < b < self.fds().len() implies self.fds()[a] != self.fds()[b] by {
            let a0 = if a < i { a } else { a + 1 };
            let b0 = if b < i { b } else { b + 1 };
            assert(self.fds()[a] == f0[a0] && self.fds()[b] == f0[b0]);
        }
        assert forall|j: int| 0 <= j < self.fds().len() implies #[trigger] self.fds()[j] < self.next() by {
            let j0 = if j < i { j } else { j + 1 };
            assert(self.fds()[j] == f0[j0]);
        }
        assert(!self.fds().contains(fd)) by {
            if self.fds().contains(fd) {
                let j = choose|j: int| 0 <= j < self.fds().len() && self.fds()[j] == fd;
                let j0 = if j < i { j } else { j + 1 };
                assert(f0[j0] == fd && f0[i as int] == fd);
            }
        }
        Ok(())
    }
}

} // verus!
