//! File and file system traits.

use vstd::prelude::*;
use crate::hal::io::{IoError, Read, Seek};

verus! {

/// Errors of a file system.
#[derive(Debug, Clone, Copy, PartialEq, Eq, Structural)]
pub enum FsError {
    NotFound,
    NotAFile,
    NotADirectory,
    Io(IoError),
    InvalidPath,
    Corrupted,
    Other,
}

/// An open file: a seekable byte source with a size and a path.
pub trait File: Read + Seek {
    fn size(&self) -> u64;

    fn path(&self) -> &str;
}

/// A file system that opens files by path.
pub trait FileSystem {
    /// The files it hands out.
    type Handle: File;

    fn open(&self, path: &str) -> Result<Self::Handle, FsError>;

    fn path_exists(&self, path: &str) -> bool;
}

} // verus!
