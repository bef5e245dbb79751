//! NTFS on-disk structures and the driver that reads and writes them.

pub mod attr;
pub mod boot;
pub mod driver;
pub mod error;
pub mod index;
pub mod readback;
pub mod runs;
pub mod streams;
pub mod write;

use vstd::prelude::*;

verus! {

/// Errors reported by the NTFS driver.
#[derive(Debug, Clone, Copy, PartialEq, Eq, Structural)]
pub enum NtfsError {
    InvalidBootSector,
    InvalidMftRecord,
    InvalidAttribute,
    FileNotFound,
    InvalidPath,
    IoError,
    NotADirectory,
    NotAFile,
    CorruptedFilesystem,
}


/// The attribute types of an MFT record that the driver recognises.
#[derive(Debug, Clone, Copy, PartialEq, Eq, Structural)]
pub enum AttributeType {
    StandardInformation,
    AttributeList,
    FileName,
    ObjectId,
    SecurityDescriptor,
    VolumeName,
    VolumeInformation,
    Data,
    IndexRoot,
    IndexAllocation,
    Bitmap,
    ReparsePoint,
    EaInformation,
    Ea,
    LoggedUtilityStream,
    End,
}

/// The attribute type that a type code stands for, if any; the end marker is
/// not an attribute.
pub open spec fn attribute_type_of(code: int) -> Option<AttributeType> {
    if code == 0x10 {
        Some(AttributeType::StandardInformation)
    } else if code == 0x20 {
        Some(AttributeType::AttributeList)
    } else if code == 0x30 {
        Some(AttributeType::FileName)
    } else if code == 0x40 {
        Some(AttributeType::ObjectId)
    } else if code == 0x50 {
        Some(AttributeType::SecurityDescriptor)
    } else if code == 0x60 {
        Some(AttributeType::VolumeName)
    } else if code == 0x70 {
        Some(AttributeType::VolumeInformation)
    } else if code == 0x80 {
        Some(AttributeType::Data)
    } else if code == 0x90 {
        Some(AttributeType::IndexRoot)
    } else if code == 0xA0 {
        Some(AttributeType::IndexAllocation)
    } else if code == 0xB0 {
        Some(AttributeType::Bitmap)
    } else if code == 0xC0 {
        Some(AttributeType::ReparsePoint)
    } else if code == 0xD0 {
        Some(AttributeType::EaInformation)
    } else if code == 0xE0 {
        Some(AttributeType::Ea)
    } else if code == 0x100 {
        Some(AttributeType::LoggedUtilityStream)
    } else {
        None
    }
}

/// The on-disk type code of an attribute type.
pub open spec fn type_code_spec(t: AttributeType) -> u32 {
    match t {
        AttributeType::StandardInformation => 0x10,
        AttributeType::AttributeList => 0x20,
        AttributeType::FileName => 0x30,
        AttributeType::ObjectId => 0x40,
        AttributeType::SecurityDescriptor => 0x50,
        AttributeType::VolumeName => 0x60,
        AttributeType::VolumeInformation => 0x70,
        AttributeType::Data => 0x80,
        AttributeType::IndexRoot => 0x90,
        AttributeType::IndexAllocation => 0xA0,
        AttributeType::Bitmap => 0xB0,
        AttributeType::ReparsePoint => 0xC0,
        AttributeType::EaInformation => 0xD0,
        AttributeType::Ea => 0xE0,
        AttributeType::LoggedUtilityStream => 0x100,
        AttributeType::End => 0xFFFF_FFFF,
    }
}

impl AttributeType {
    /// The on-disk type code.
    pub fn type_code(&self) -> (r: u32)
        ensures
            r == type_code_spec(*self),
    {
        match self {
            AttributeType::StandardInformation => 0x10,
            AttributeType::AttributeList => 0x20,
            AttributeType::FileName => 0x30,
            AttributeType::ObjectId => 0x40,
            AttributeType::SecurityDescriptor => 0x50,
            AttributeType::VolumeName => 0x60,
            AttributeType::VolumeInformation => 0x70,
            AttributeType::Data => 0x80,
            AttributeType::IndexRoot => 0x90,
            AttributeType::IndexAllocation => 0xA0,
            AttributeType::Bitmap => 0xB0,
            AttributeType::ReparsePoint => 0xC0,
            AttributeType::EaInformation => 0xD0,
            AttributeType::Ea => 0xE0,
            AttributeType::LoggedUtilityStream => 0x100,
            AttributeType::End => 0xFFFF_FFFF,
        }
    }

    /// The attribute type of a type code; `None` for the end marker and for
    /// codes the driver does not know.
    pub fn from_code(code: u32) -> (r: Option<AttributeType>)
        ensures
            r == attribute_type_of(code as int),
    {
        match code {
            0x10 => Some(AttributeType::StandardInformation),
            0x20 => Some(AttributeType::AttributeList),
            0x30 => Some(AttributeType::FileName),
            0x40 => Some(AttributeType::ObjectId),
            0x50 => Some(AttributeType::SecurityDescriptor),
            0x60 => Some(AttributeType::VolumeName),
            0x70 => Some(AttributeType::VolumeInformation),
            0x80 => Some(AttributeType::Data),
            0x90 => Some(AttributeType::IndexRoot),
            0xA0 => Some(AttributeType::IndexAllocation),
            0xB0 => Some(AttributeType::Bitmap),
            0xC0 => Some(AttributeType::ReparsePoint),
            0xD0 => Some(AttributeType::EaInformation),
            0xE0 => Some(AttributeType::Ea),
            0x100 => Some(AttributeType::LoggedUtilityStream),
            _ => None,
        }
    }
}


/// Options for a new file or directory.
pub struct CreateOptions {
    pub is_directory: bool,
    pub data: Vec<u8>,
}

/// Lightweight file handle: just an MFT record number. It owns no parsed
/// data, so it never goes stale after a write.
#[derive(Clone, Copy, Debug, PartialEq, Eq, Structural)]
pub struct NtfsFile {
    pub(crate) record_number: u64,
}

impl NtfsFile {
    /// The MFT record number, by value.
    pub closed spec fn number(&self) -> u64 {
        self.record_number
    }

    /// The MFT record number this handle refers to.
    pub fn record_number(&self) -> (r: u64)
        ensures
            r == self.number(),
    {
        self.record_number
    }
}

/// Data run (resident or non-resident).
#[derive(Clone)]
pub enum DataRun {
    Resident { data: Vec<u8> },
    /// (start_cluster, cluster_count)
    NonResident(Vec<(u64, u64)>),
}

/// A data run by value.
#[verifier::ext_equal]
pub enum RunView {
    Resident(Seq<u8>),
    NonResident(Seq<(u64, u64)>),
}

impl View for DataRun {
    type V = RunView;

    open spec fn view(&self) -> RunView {
        match self {
            DataRun::Resident { data } => RunView::Resident(data@),
            DataRun::NonResident(runs) => RunView::NonResident(runs@),
        }
    }
}

/// Ephemeral metadata snapshot of one MFT record.
pub struct NtfsStat {
    pub is_directory: bool,
    pub size: u64,
    pub name: Option<String>,
    pub data_runs: Vec<DataRun>,
    pub index_root: Option<Vec<u8>>,
}

/// A metadata snapshot by value.
#[verifier::ext_equal]
pub struct StatView {
    pub is_directory: bool,
    pub size: u64,
    pub name: Option<Seq<char>>,
    pub data_runs: Seq<RunView>,
    pub index_root: Option<Seq<u8>>,
}

impl View for NtfsStat {
    type V = StatView;

    open spec fn view(&self) -> StatView {
        StatView {
            is_directory: self.is_directory,
            size: self.size,
            name: match self.name {
                Some(n) => Some(n@),
                None => None,
            },
            data_runs: self.data_runs@.map_values(|d: DataRun| d@),
            index_root: match self.index_root {
                Some(v) => Some(v@),
                None => None,
            },
        }
    }
}

/// Volume information.
#[derive(Debug, Clone, Copy, PartialEq, Eq, Structural)]
pub struct VolumeInfo {
    pub sector_size: u16,
    pub cluster_size: u32,
    pub file_record_size: u32,
    pub mft_position: u64,
    pub serial_number: u64,
}

} // verus!
