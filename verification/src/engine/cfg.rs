//! The boot configuration, read from `\starting\config.json`.
use vstd::prelude::*;

verus! {

/// The boot configuration.
#[derive(Debug)]
pub struct Config {
    /// Whether to set the screen resolution.
    pub enable_gop: bool,
    /// Horizontal resolution to set.
    pub gop_x: usize,
    /// Vertical resolution to set.
    pub gop_y: usize,
    /// GUID of the disk that holds the system.
    pub disk_guid: String,
    /// GUID of the partition that holds the system.
    pub partition_guid: String,
    /// File system of that partition; only FAT32 is supported.
    pub file_system: String,
    /// Path of the kernel image within the partition.
    pub kernel_path: String,
    /// Number of bytes of the kernel image to read.
    pub kernel_length: usize,
}

} // verus!
