use starting::engine::fs::disk::{
    convert_partition_utf16_name, parse_gpt_header, parse_partition_item, partition_name_ok,
    start_partition_scan, used_partitions, GptHeaderInfo, PartitionItem, PartitionScan,
};

fn put(block: &mut [u8], at: usize, bytes: &[u8]) {
    block[at..at + bytes.len()].copy_from_slice(bytes);
}

fn header_block() -> Vec<u8> {
    let mut b = vec![0u8; 512];
    put(&mut b, 0, b"EFI PART");
    put(&mut b, 8, &0x0001_0000u32.to_le_bytes());
    put(&mut b, 12, &92u32.to_le_bytes());
    put(&mut b, 16, &0xdead_beefu32.to_le_bytes());
    put(&mut b, 24, &1u64.to_le_bytes());
    put(&mut b, 32, &0x1234_5678_9abcu64.to_le_bytes());
    put(&mut b, 40, &34u64.to_le_bytes());
    put(&mut b, 48, &0xffff_ffdeu64.to_le_bytes());
    put(&mut b, 56, &0x0011_2233_4455_6677_8899_aabb_ccdd_eeffu128.to_le_bytes());
    put(&mut b, 72, &2u64.to_le_bytes());
    put(&mut b, 80, &128u32.to_le_bytes());
    put(&mut b, 84, &128u32.to_le_bytes());
    put(&mut b, 88, &0x0102_0304u32.to_le_bytes());
    b
}

fn header(count: u32, size: u32, version: u32, lba: u64) -> GptHeaderInfo {
    GptHeaderInfo {
        signed: 0x5452_4150_2049_4645,
        version,
        size: 92,
        crc32: 0,
        keep: 0,
        my_lba: 1,
        backup_lba: 0,
        partition_begin_lba: 34,
        partition_end_lba: 1000,
        disk_guid: 0,
        partition_item_lba: lba,
        partition_item_count: count,
        partition_item_size: size,
        partition_item_crc32: 0,
    }
}

fn entry(type_guid: u128, begin: u64, name: &str) -> Vec<u8> {
    let mut e = vec![0u8; 128];
    put(&mut e, 0, &type_guid.to_le_bytes());
    put(&mut e, 16, &(type_guid ^ 0xffff).to_le_bytes());
    put(&mut e, 32, &begin.to_le_bytes());
    put(&mut e, 40, &(begin + 99).to_le_bytes());
    put(&mut e, 48, &0x8000_0000_0000_0001u64.to_le_bytes());
    for (k, u) in name.encode_utf16().enumerate() {
        put(&mut e, 56 + 2 * k, &u.to_le_bytes());
    }
    e
}

fn padded_name(name: &str) -> String {
    let mut s = String::from(name);
    while s.encode_utf16().count() < 36 {
        s.push('\0');
    }
    s
}

#[test]
fn header_fields_are_read_little_endian() {
    let h = parse_gpt_header(&header_block());
    assert_eq!(h.signed, 0x5452_4150_2049_4645);
    assert_eq!(h.version, 0x0001_0000);
    assert_eq!(h.size, 92);
    assert_eq!(h.crc32, 0xdead_beef);
    assert_eq!(h.keep, 0);
    assert_eq!(h.my_lba, 1);
    assert_eq!(h.backup_lba, 0x1234_5678_9abc);
    assert_eq!(h.partition_begin_lba, 34);
    assert_eq!(h.partition_end_lba, 0xffff_ffde);
    assert_eq!(h.disk_guid, 0x0011_2233_4455_6677_8899_aabb_ccdd_eeff);
    assert_eq!(h.partition_item_lba, 2);
    assert_eq!(h.partition_item_count, 128);
    assert_eq!(h.partition_item_size, 128);
    assert_eq!(h.partition_item_crc32, 0x0102_0304);
}

#[test]
fn header_of_exactly_92_bytes() {
    let b = header_block();
    assert_eq!(parse_gpt_header(&b[..92]).partition_item_crc32, 0x0102_0304);
}

#[test]
fn utf16_name_units_pair_bytes() {
    let mut raw = [0u8; 72];
    raw[0] = 0x41;
    raw[2] = 0x34;
    raw[3] = 0x12;
    raw[70] = 0xff;
    raw[71] = 0xff;
    let units = convert_partition_utf16_name(&raw);
    assert_eq!(units[0], 0x0041);
    assert_eq!(units[1], 0x1234);
    assert_eq!(units[2], 0);
    assert_eq!(units[35], 0xffff);
}

#[test]
fn partition_entry_is_read_at_its_offset() {
    let mut block = vec![0u8; 512];
    put(&mut block, 128, &entry(0xabcd, 2048, "EFI system"));
    let item = parse_partition_item(&block, 128);
    assert_eq!(item.partition_type, 0xabcd);
    assert_eq!(item.partition_guid, 0xabcd ^ 0xffff);
    assert_eq!(item.begin_lba, 2048);
    assert_eq!(item.end_lba, 2147);
    assert_eq!(item.attributes, 0x8000_0000_0000_0001);
    assert_eq!(item.utf16_name, padded_name("EFI system"));
}

#[test]
fn partition_name_with_surrogate_pair() {
    let mut block = vec![0u8; 128];
    put(&mut block, 0, &entry(1, 5, "a\u{1F600}b"));
    let item = parse_partition_item(&block, 0);
    assert_eq!(item.utf16_name, padded_name("a\u{1F600}b"));
}

#[test]
fn partition_name_with_unpaired_surrogate_is_refused() {
    let mut block = vec![0u8; 128];
    put(&mut block, 56, &0xd800u16.to_le_bytes());
    put(&mut block, 58, &0x0041u16.to_le_bytes());
    assert!(!partition_name_ok(&block, 0));
    put(&mut block, 58, &0xdc00u16.to_le_bytes());
    assert!(partition_name_ok(&block, 0));
}

#[test]
fn partition_entry_at_end_of_block() {
    let block = vec![0u8; 256];
    assert!(partition_name_ok(&block, 128));
    assert_eq!(parse_partition_item(&block, 128).partition_type, 0);
}

#[test]
fn scan_starts_at_entry_array() {
    let scan = start_partition_scan(&header(4, 128, 0x0001_0000, 2), 512);
    assert_eq!(
        scan,
        PartitionScan { start_lba: 2, lba: 2, offset: 0, block_size: 512, count: 4, done: 0 }
    );
}

#[test]
fn scan_walks_entries_block_by_block() {
    // Two entries per 256-byte block, five entries starting at block 7.
    let mut scan = start_partition_scan(&header(5, 128, 0x0001_0000, 7), 256);
    let mut disk: Vec<Vec<u8>> = Vec::new();
    for b in 0..3u64 {
        let mut block = vec![0u8; 256];
        put(&mut block, 0, &entry(10 + 2 * b as u128, 100 * b, "x"));
        put(&mut block, 128, &entry(11 + 2 * b as u128, 100 * b + 50, "y"));
        disk.push(block);
    }
    let mut lbas = Vec::new();
    let mut types = Vec::new();
    while let Some(lba) = scan.next_block() {
        lbas.push(lba);
        let item = scan.accept(&disk[(lba - 7) as usize]);
        types.push(item.partition_type);
    }
    assert_eq!(lbas, vec![7, 7, 8, 8, 9]);
    assert_eq!(types, vec![10, 11, 12, 13, 14]);
    assert_eq!(scan.done, 5);
    assert_eq!(scan.next_block(), None);
}

#[test]
fn scan_with_no_entries_reads_nothing() {
    let mut scan = start_partition_scan(&header(0, 128, 0x0001_0000, 2), 512);
    assert_eq!(scan.next_block(), None);
}

#[test]
fn scan_moves_to_next_block_when_block_is_used_up() {
    let mut scan = PartitionScan {
        start_lba: 10,
        lba: 11,
        offset: 512,
        block_size: 512,
        count: 9,
        done: 8,
    };
    assert_eq!(scan.next_block(), Some(12));
    assert_eq!(scan.offset, 0);
    let item = scan.accept(&vec![0u8; 512]);
    assert_eq!(item.begin_lba, 0);
    assert_eq!(scan.done, 9);
    assert_eq!(scan.offset, 128);
    assert_eq!(scan.next_block(), None);
}

#[test]
fn used_partitions_skip_empty_entries() {
    let mk = |t: u128| PartitionItem {
        partition_type: t,
        partition_guid: 0,
        begin_lba: 0,
        end_lba: 0,
        attributes: 0,
        utf16_name: String::new(),
    };
    let items = vec![mk(0), mk(5), mk(0), mk(7), mk(9)];
    assert_eq!(used_partitions(&items), vec![1, 3, 4]);
    assert_eq!(used_partitions(&vec![]), Vec::<usize>::new());
}

#[test]
fn header_ignores_bytes_after_92() {
    let a = header_block();
    let mut b = a.clone();
    for x in b[92..].iter_mut() {
        *x = 0xaa;
    }
    let ha = parse_gpt_header(&a);
    let hb = parse_gpt_header(&b[..200]);
    assert_eq!(format!("{:?}", ha), format!("{:?}", hb));
}

use starting::engine::fs::disk::{find_partition, guid_to_gpt};

fn text_value(s: &str) -> u128 {
    uuid::Uuid::parse_str(s).unwrap().as_u128()
}

#[test]
fn guid_to_gpt_matches_on_disk_order() {
    // The EFI system partition type GUID and its bytes on disk.
    let v = text_value("C12A7328-F81F-11D2-BA4B-00A0C93EC93B");
    let disk = [
        0x28, 0x73, 0x2a, 0xc1, 0x1f, 0xf8, 0xd2, 0x11, 0xba, 0x4b, 0x00, 0xa0, 0xc9, 0x3e, 0xc9, 0x3b,
    ];
    assert_eq!(guid_to_gpt(v), u128::from_le_bytes(disk));
    for s in ["00000000-0000-0000-0000-000000000000", "0123456789abcdef0123456789abcdef"] {
        let u = uuid::Uuid::parse_str(s).unwrap();
        assert_eq!(guid_to_gpt(u.as_u128()), u128::from_le_bytes(u.to_bytes_le()));
    }
}

fn item(guid: u128, begin: u64, end: u64) -> PartitionItem {
    PartitionItem {
        partition_type: 1,
        partition_guid: guid,
        begin_lba: begin,
        end_lba: end,
        attributes: 0,
        utf16_name: String::new(),
    }
}

#[test]
fn partition_is_found_by_disk_and_partition_guid() {
    let disk_text = text_value("12345678-9abc-def0-1234-56789abcdef0");
    let part_text = text_value("0fedcba9-8765-4321-0fed-cba987654321");
    let mut h = header(3, 128, 0x0001_0000, 2);
    h.disk_guid = guid_to_gpt(disk_text);
    let p = guid_to_gpt(part_text);
    let items = vec![item(7, 1, 2), item(p, 2048, 4095), item(p, 9000, 9999)];
    assert_eq!(find_partition(&h, &items, disk_text, part_text), Some((2048, 4095)));
    // The partition GUID in text order is not what the disk holds.
    let raw = vec![item(part_text, 5, 6)];
    assert_eq!(find_partition(&h, &raw, disk_text, part_text), None);
    // Another disk.
    assert_eq!(find_partition(&h, &items, part_text, part_text), None);
    assert_eq!(find_partition(&h, &vec![], disk_text, part_text), None);
}
