use starting::boot::{
    checked_partition_guids, fat32_partition, file_system_supported, find_kernel_range,
    has_kernel_segment, is_fat32_name, kernel_segments, partition_guids, try_fat32_partition,
    BootError, SegmentInfo, SegmentName,
};
use starting::engine::cfg::Config;
use starting::engine::fs::fat32::Fat32;
use starting::engine::gop::find_video_mode;
use starting::engine::UefiAllocator;

fn config(disk: &str, partition: &str) -> Config {
    Config {
        enable_gop: true,
        gop_x: 1024,
        gop_y: 768,
        disk_guid: disk.to_string(),
        partition_guid: partition.to_string(),
        file_system: "FAT32".to_string(),
        kernel_path: "kernel.elf".to_string(),
        kernel_length: 4096,
    }
}

#[test]
fn guids_are_parsed_as_uuids() {
    let c = config(
        "12345678-9abc-def0-1234-56789abcdef0",
        "{0fedcba9-8765-4321-0fed-cba987654321}",
    );
    assert_eq!(
        partition_guids(&c),
        (0x12345678_9abc_def0_1234_56789abcdef0, 0x0fedcba9_8765_4321_0fed_cba987654321)
    );
    assert_eq!(
        checked_partition_guids(&c),
        Ok((0x12345678_9abc_def0_1234_56789abcdef0, 0x0fedcba9_8765_4321_0fed_cba987654321))
    );
    let c = config("0123456789abcdef0123456789ABCDEF", "00000000-0000-0000-0000-000000000000");
    assert_eq!(partition_guids(&c), (0x0123456789abcdef0123456789abcdef, 0));
}

#[test]
fn bad_guids_are_refused_in_order() {
    assert_eq!(checked_partition_guids(&config("nope", "nope")), Err(BootError::InvalidDiskGuid));
    assert_eq!(
        checked_partition_guids(&config("12345678-9abc-def0-1234-56789abcdef0", "1234")),
        Err(BootError::InvalidPartitionGuid)
    );
}

#[test]
fn only_fat32_is_supported() {
    assert!(file_system_supported("FAT32"));
    assert!(file_system_supported("  fat32\n"));
    assert!(file_system_supported("Fat32"));
    assert!(!file_system_supported("FAT16"));
    assert!(!file_system_supported("FAT 32"));
    assert!(!file_system_supported(""));
    assert!(is_fat32_name("FAT32"));
    assert!(!is_fat32_name("fat32"));
    assert!(!is_fat32_name(" FAT32"));
}

#[test]
fn fat32_partition_covers_its_blocks() {
    let f = fat32_partition(" fat32 ", 2048, 4095);
    assert_eq!((f.begin_lba, f.end_lba), (2048, 4095));
    let g = try_fat32_partition("FAT32", 1, 2).unwrap();
    assert_eq!((g.begin_lba, g.end_lba), (1, 2));
    assert!(try_fat32_partition("NTFS", 1, 2).is_none());
}

fn seg(name: SegmentName, off: u64, size: u64) -> SegmentInfo {
    SegmentInfo { name, file_offset: off, file_size: size }
}

#[test]
fn kernel_range_is_last_kernel_start_segment() {
    let segs = vec![
        seg(SegmentName::Named("text".to_string()), 0, 10),
        seg(SegmentName::Named("kernel_start".to_string()), 0x1000, 0x200),
        seg(SegmentName::Unnamed, 5, 5),
        seg(SegmentName::Named("kernel_start".to_string()), 0x3000, 0x400),
        seg(SegmentName::Unreadable, 6, 6),
    ];
    assert!(has_kernel_segment(&segs));
    assert_eq!(find_kernel_range(&segs), (0x3000, 0x400));
    assert_eq!(find_kernel_range(&segs[..3].to_vec()), (0x1000, 0x200));
    assert!(!has_kernel_segment(&vec![seg(SegmentName::Unnamed, 1, 1)]));
    assert!(!has_kernel_segment(&vec![seg(
        SegmentName::Named("ERROR SEGMENTS NAME".to_string()),
        1,
        1
    )]));
    assert!(!has_kernel_segment(&vec![]));
}

fn elf64(with_segment: bool) -> Vec<u8> {
    let mut e = vec![0u8; 64 + 56];
    e[..4].copy_from_slice(b"\x7fELF");
    e[4] = 2; // 64-bit
    e[5] = 1; // little endian
    e[6] = 1; // version
    e[16..18].copy_from_slice(&2u16.to_le_bytes()); // executable
    e[18..20].copy_from_slice(&0x3eu16.to_le_bytes()); // x86-64
    e[20..24].copy_from_slice(&1u32.to_le_bytes());
    e[52..54].copy_from_slice(&64u16.to_le_bytes()); // header size
    e[54..56].copy_from_slice(&56u16.to_le_bytes()); // program header size
    e[58..60].copy_from_slice(&64u16.to_le_bytes()); // section header size
    if with_segment {
        e[32..40].copy_from_slice(&64u64.to_le_bytes()); // program headers at 64
        e[56..58].copy_from_slice(&1u16.to_le_bytes()); // one program header
        e[64..68].copy_from_slice(&1u32.to_le_bytes()); // PT_LOAD
        e[72..80].copy_from_slice(&0u64.to_le_bytes()); // offset
        e[96..104].copy_from_slice(&120u64.to_le_bytes()); // file size
    }
    e
}

#[test]
fn elf_segments_have_no_names() {
    let segs = kernel_segments(&elf64(true)).unwrap();
    assert_eq!(segs.len(), 1);
    assert_eq!((segs[0].file_offset, segs[0].file_size), (0, 120));
    assert!(matches!(segs[0].name, SegmentName::Unnamed));
    assert!(!has_kernel_segment(&segs));
    assert_eq!(kernel_segments(&elf64(false)).unwrap().len(), 0);
}

#[test]
fn non_elf_kernel_is_refused() {
    assert!(kernel_segments(b"MZ not an elf file at all").is_none());
    assert!(kernel_segments(&[]).is_none());
}

#[test]
fn video_mode_is_first_exact_match() {
    let modes = vec![(640, 480), (1024, 768), (800, 600), (1024, 768)];
    assert_eq!(find_video_mode(&modes, 1024, 768), Some(1));
    assert_eq!(find_video_mode(&modes, 800, 600), Some(2));
    assert_eq!(find_video_mode(&modes, 768, 1024), None);
    assert_eq!(find_video_mode(&vec![], 640, 480), None);
}

#[test]
fn plain_types_hold_their_values() {
    let f = Fat32 { begin_lba: 2048, end_lba: 4095 };
    let g = f;
    assert_eq!(g.begin_lba, 2048);
    assert_eq!(f.end_lba, 4095);
    let _a = UefiAllocator;
}

#[test]
fn file_system_name_trims_unicode_white_space() {
    assert!(file_system_supported("\u{3000}\u{a0}FAT32\t\r\n"));
    assert!(!file_system_supported("\u{200b}FAT32"));
}
