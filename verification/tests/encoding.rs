use godl_crank::bytes::{read_le_u64, u64_le_bytes};
use godl_crank::text::decimal_text;

#[test]
fn numbers_are_little_endian() {
    assert_eq!(u64_le_bytes(1), [1, 0, 0, 0, 0, 0, 0, 0]);
    assert_eq!(u64_le_bytes(0x0102_0304_0506_0708), [8, 7, 6, 5, 4, 3, 2, 1]);
    assert_eq!(u64_le_bytes(u64::MAX), [255; 8]);
}

#[test]
fn numbers_are_read_where_they_stand() {
    let bytes = [9, 9, 0, 1, 0, 0, 0, 0, 0, 0, 7];
    assert_eq!(read_le_u64(&bytes, 2), 256);
    assert_eq!(read_le_u64(&bytes, 3), 1 + (7 << 56));
}

#[test]
fn decoding_undoes_encoding() {
    for n in [0, 1, 255, 256, 65_537, 1 << 40, u64::MAX - 1, u64::MAX] {
        assert_eq!(read_le_u64(&u64_le_bytes(n), 0), n);
    }
}

#[test]
fn encoding_undoes_decoding() {
    let bytes = [3, 1, 4, 1, 5, 9, 2, 6];
    assert_eq!(u64_le_bytes(read_le_u64(&bytes, 0)), bytes);
}

#[test]
fn decimal_text_has_no_leading_zeros() {
    for n in [0, 7, 10, 99, 100, 1_234_567_890, u64::MAX] {
        assert_eq!(decimal_text(n), format!("{n}"));
    }
}
