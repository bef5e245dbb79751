//! The file system error that gathers NTFS and block device errors, and
//! the messages errors are shown with.

use vstd::prelude::*;
use crate::blockdev::{block_error_message, BlockError};
use crate::ntfs::NtfsError;

verus! {

/// The message an NTFS error is shown with.
pub open spec fn ntfs_error_message(e: NtfsError) -> Seq<char> {
    match e {
        NtfsError::InvalidBootSector => "invalid boot sector"@,
        NtfsError::InvalidMftRecord => "invalid MFT record"@,
        NtfsError::InvalidAttribute => "invalid attribute"@,
        NtfsError::FileNotFound => "file not found"@,
        NtfsError::InvalidPath => "invalid path"@,
        NtfsError::IoError => "I/O error"@,
        NtfsError::NotADirectory => "not a directory"@,
        NtfsError::NotAFile => "not a file"@,
        NtfsError::CorruptedFilesystem => "corrupted filesystem"@,
    }
}

/// The name of an NTFS error's variant, as its debug form prints it.
pub open spec fn ntfs_error_name(e: NtfsError) -> Seq<char> {
    match e {
        NtfsError::InvalidBootSector => "InvalidBootSector"@,
        NtfsError::InvalidMftRecord => "InvalidMftRecord"@,
        NtfsError::InvalidAttribute => "InvalidAttribute"@,
        NtfsError::FileNotFound => "FileNotFound"@,
        NtfsError::InvalidPath => "InvalidPath"@,
        NtfsError::IoError => "IoError"@,
        NtfsError::NotADirectory => "NotADirectory"@,
        NtfsError::NotAFile => "NotAFile"@,
        NtfsError::CorruptedFilesystem => "CorruptedFilesystem"@,
    }
}

impl NtfsError {
    /// The message this error is shown with.
    pub fn message(&self) -> (r: &'static str)
        ensures
            r@ == ntfs_error_message(*self),
    {
        match self {
            NtfsError::InvalidBootSector => "invalid boot sector",
            NtfsError::InvalidMftRecord => "invalid MFT record",
            NtfsError::InvalidAttribute => "invalid attribute",
            NtfsError::FileNotFound => "file not found",
            NtfsError::InvalidPath => "invalid path",
            NtfsError::IoError => "I/O error",
            NtfsError::NotADirectory => "not a directory",
            NtfsError::NotAFile => "not a file",
            NtfsError::CorruptedFilesystem => "corrupted filesystem",
        }
    }

    /// The name of this error's variant.
    pub fn name(&self) -> (r: &'static str)
        ensures
            r@ == ntfs_error_name(*self),
    {
        match self {
            NtfsError::InvalidBootSector => "InvalidBootSector",
            NtfsError::InvalidMftRecord => "InvalidMftRecord",
            NtfsError::InvalidAttribute => "InvalidAttribute",
            NtfsError::FileNotFound => "FileNotFound",
            NtfsError::InvalidPath => "InvalidPath",
            NtfsError::IoError => "IoError",
            NtfsError::NotADirectory => "NotADirectory",
            NtfsError::NotAFile => "NotAFile",
            NtfsError::CorruptedFilesystem => "CorruptedFilesystem",
        }
    }
}

/// Errors of file system operations, NTFS and block device errors among them.
#[derive(Debug, Clone, Copy, PartialEq, Eq, Structural)]
pub enum FsError {
    Ntfs(NtfsError),
    Block(BlockError),
    NotFound,
    InvalidPath,
    NotADirectory,
    IoError,
    CorruptedFilesystem,
    NoDevice,
    DriverInit,
}

/// An NTFS error is carried as it is.
impl From<NtfsError> for FsError {
    fn from(e: NtfsError) -> (r: FsError) {
        FsError::Ntfs(e)
    }
}

impl vstd::std_specs::convert::FromSpecImpl<NtfsError> for FsError {
    open spec fn obeys_from_spec() -> bool {
        true
    }

    open spec fn from_spec(e: NtfsError) -> FsError {
        FsError::Ntfs(e)
    }
}

/// A block device error is carried as it is.
impl From<BlockError> for FsError {
    fn from(e: BlockError) -> (r: FsError) {
        FsError::Block(e)
    }
}

impl vstd::std_specs::convert::FromSpecImpl<BlockError> for FsError {
    open spec fn obeys_from_spec() -> bool {
        true
    }

    open spec fn from_spec(e: BlockError) -> FsError {
        FsError::Block(e)
    }
}

/// The message a file system error is shown with.
pub open spec fn fs_error_message(e: FsError) -> Seq<char> {
    match e {
        FsError::Ntfs(n) => "NTFS error: "@ + ntfs_error_name(n),
        FsError::Block(b) => "Block error: "@ + block_error_message(b),
        FsError::NotFound => "file not found"@,
        FsError::InvalidPath => "invalid path"@,
        FsError::NotADirectory => "not a directory"@,
        FsError::IoError => "I/O error"@,
        FsError::CorruptedFilesystem => "corrupted filesystem"@,
        FsError::NoDevice => "no device"@,
        FsError::DriverInit => "driver init"@,
    }
}

/// The text a file system error converts to.
pub open spec fn fs_error_text(e: FsError) -> Seq<char> {
    match e {
        FsError::Ntfs(n) => ntfs_error_message(n),
        FsError::Block(b) => block_error_message(b),
        FsError::NotFound => "not found"@,
        FsError::InvalidPath => "invalid path"@,
        FsError::NotADirectory => "not a directory"@,
        FsError::IoError => "I/O error"@,
        FsError::CorruptedFilesystem => "corrupted filesystem"@,
        FsError::NoDevice => "no device"@,
        FsError::DriverInit => "driver init"@,
    }
}

impl FsError {
    /// The message this error is shown with: a wrapped NTFS error by its
    /// variant's name, a wrapped block error by its message.
    pub fn message(&self) -> (r: String)
        ensures
            r@ == fs_error_message(*self),
    {
        match self {
            FsError::Ntfs(n) => {
                let mut s = String::from_str("NTFS error: ");
                s.append(n.name());
                s
            },
            FsError::Block(b) => {
                let mut s = String::from_str("Block error: ");
                s.append(b.message());
                s
            },
            FsError::NotFound => String::from_str("file not found"),
            FsError::InvalidPath => String::from_str("invalid path"),
            FsError::NotADirectory => String::from_str("not a directory"),
            FsError::IoError => String::from_str("I/O error"),
            FsError::CorruptedFilesystem => String::from_str("corrupted filesystem"),
            FsError::NoDevice => String::from_str("no device"),
            FsError::DriverInit => String::from_str("driver init"),
        }
    }

    /// The text this error converts to: a wrapped error by its own
    /// message, the others by a short description.
    pub fn into_string(self) -> (r: String)
        ensures
            r@ == fs_error_text(self),
    {
        match self {
            FsError::Ntfs(n) => String::from_str(n.message()),
            FsError::Block(b) => String::from_str(b.message()),
            FsError::NotFound => String::from_str("not found"),
            FsError::InvalidPath => String::from_str("invalid path"),
            FsError::NotADirectory => String::from_str("not a directory"),
            FsError::IoError => String::from_str("I/O error"),
            FsError::CorruptedFilesystem => String::from_str("corrupted filesystem"),
            FsError::NoDevice => String::from_str("no device"),
            FsError::DriverInit => String::from_str("driver init"),
        }
    }
}

} // verus!
