//! A storage stack for a small kernel: little-endian byte codecs, the block
//! device abstractions, an NTFS driver, GPT partitioning and a few HAL types.

pub mod ahci;
pub mod blockdev;
pub mod bytes;
pub mod command;
pub mod disk;
pub mod gpt;
pub mod hal;
pub mod ntfs;
pub mod pci;
pub mod storage;
pub mod text;
pub mod vfs;
pub mod virtio;
