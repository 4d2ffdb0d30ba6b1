use bitdump::bits::{bitfield, read_n_byte, read_u16, read_u32};

#[test]
fn read_u16_is_big_endian() {
    let buf = [0x12u8, 0x34, 0x56];
    assert_eq!(read_u16(&buf, 0), 0x1234);
    assert_eq!(read_u16(&buf, 1), 0x3456);
}

#[test]
fn read_u32_is_big_endian() {
    let buf = [0xAAu8, 0x99, 0x55, 0x66, 0x01];
    assert_eq!(read_u32(&buf, 0), 0xAA995566);
    assert_eq!(read_u32(&buf, 1), 0x99556601);
}

#[test]
fn read_n_byte_splits() {
    let buf = [1u8, 2, 3, 4, 5];
    let (head, rest) = read_n_byte(&buf, 2);
    assert_eq!(head, &[1u8, 2][..]);
    assert_eq!(rest, &[3u8, 4, 5][..]);
    let (head, rest) = read_n_byte(&buf, 5);
    assert_eq!(head.len(), 5);
    assert!(rest.is_empty());
}

#[test]
fn bitfield_all_ones_full_width() {
    assert_eq!(bitfield(0xFFFF_FFFF, 0, 31), 0xFFFF_FFFF);
}

#[test]
fn bitfield_has_no_sign_extension() {
    assert_eq!(bitfield(0xFFFF_FFFF, 29, 31), 0b111);
    assert_eq!(bitfield(0x8000_0000, 31, 31), 1);
    assert_eq!(bitfield(0xFFFF_FFFF, 4, 11), 0xFF);
}

#[test]
fn bitfield_extracts_inner_fields() {
    let word = 0x2800_4001u32;
    assert_eq!(bitfield(word, 29, 31), 0b001);
    assert_eq!(bitfield(word, 27, 28), 0b01);
    assert_eq!(bitfield(word, 13, 26), 0b00010);
    assert_eq!(bitfield(word, 0, 10), 1);
    assert_eq!(bitfield(0x1234_5678, 0, 0), 0);
    assert_eq!(bitfield(0x1234_5678, 3, 3), 1);
}
