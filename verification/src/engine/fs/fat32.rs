//! The FAT32 partition as a block device.
use vstd::prelude::*;

verus! {

/// The blocks of the disk that a FAT32 file system occupies.
#[derive(Debug, Clone, Copy)]
pub struct Fat32 {
    /// First block of the file system.
    pub begin_lba: u64,
    /// Last block of the file system.
    pub end_lba: u64,
}

} // verus!
