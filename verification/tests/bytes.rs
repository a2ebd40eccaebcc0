use starting::bytes::{read_le, read_u128_le, read_u32_le, read_u64_le};

#[test]
fn little_endian_reads() {
    let b: Vec<u8> = (1..=40u8).collect();
    assert_eq!(read_u32_le(&b, 0), 0x0403_0201);
    assert_eq!(read_u32_le(&b, 36), 0x2827_2625);
    assert_eq!(read_u64_le(&b, 3), 0x0b0a_0908_0706_0504);
    assert_eq!(read_u128_le(&b, 8), u128::from_le_bytes(b[8..24].try_into().unwrap()));
    assert_eq!(read_le(&b, 5, 0), 0);
    assert_eq!(read_le(&b, 5, 1), 6);
    assert_eq!(read_le(&b, 0, 3), 0x03_0201);
}

#[test]
fn little_endian_extremes() {
    let ones = vec![0xffu8; 16];
    assert_eq!(read_u128_le(&ones, 0), u128::MAX);
    assert_eq!(read_u64_le(&ones, 8), u64::MAX);
    assert_eq!(read_u32_le(&ones, 12), u32::MAX);
    let zeros = vec![0u8; 16];
    assert_eq!(read_u128_le(&zeros, 0), 0);
}
