use ply_writer::wire::{put_i16, put_i32, put_i8, put_u16, put_u32, put_u64, put_u8, Endian};

#[test]
fn one_byte_fields_ignore_the_order() {
    let mut out = Vec::new();
    put_u8(&mut out, 0xab, Endian::Big);
    put_u8(&mut out, 0xcd, Endian::Little);
    put_i8(&mut out, -1, Endian::Big);
    put_i8(&mut out, -128, Endian::Little);
    put_i8(&mut out, 127, Endian::Little);
    assert_eq!(out, vec![0xab, 0xcd, 0xff, 0x80, 0x7f]);
}

#[test]
fn two_byte_fields_in_both_orders() {
    let mut out = Vec::new();
    put_u16(&mut out, 0x0102, Endian::Big);
    put_u16(&mut out, 0x0102, Endian::Little);
    assert_eq!(out, vec![0x01, 0x02, 0x02, 0x01]);
}

#[test]
fn four_byte_fields_in_both_orders() {
    let mut out = Vec::new();
    put_u32(&mut out, 0x01020304, Endian::Big);
    put_u32(&mut out, 0x01020304, Endian::Little);
    assert_eq!(out, vec![1, 2, 3, 4, 4, 3, 2, 1]);
}

#[test]
fn eight_byte_fields_in_both_orders() {
    let mut out = Vec::new();
    put_u64(&mut out, 0x0102030405060708, Endian::Big);
    put_u64(&mut out, 0x0102030405060708, Endian::Little);
    assert_eq!(out, vec![1, 2, 3, 4, 5, 6, 7, 8, 8, 7, 6, 5, 4, 3, 2, 1]);
}

#[test]
fn signed_fields_are_twos_complement() {
    let mut out = Vec::new();
    put_i16(&mut out, -2, Endian::Big);
    put_i16(&mut out, -2, Endian::Little);
    put_i16(&mut out, i16::MIN, Endian::Big);
    assert_eq!(out, vec![0xff, 0xfe, 0xfe, 0xff, 0x80, 0x00]);
    let mut out = Vec::new();
    put_i32(&mut out, -2, Endian::Big);
    put_i32(&mut out, -2, Endian::Little);
    put_i32(&mut out, i32::MIN, Endian::Little);
    put_i32(&mut out, i32::MAX, Endian::Big);
    assert_eq!(
        out,
        vec![
            0xff, 0xff, 0xff, 0xfe, 0xfe, 0xff, 0xff, 0xff, 0x00, 0x00, 0x00, 0x80, 0x7f, 0xff,
            0xff, 0xff
        ]
    );
}

#[test]
fn fields_agree_with_std_byte_conversions() {
    for v in [0u16, 1, 255, 256, 0xabcd, u16::MAX] {
        let mut big = Vec::new();
        put_u16(&mut big, v, Endian::Big);
        assert_eq!(big, v.to_be_bytes().to_vec());
        let mut little = Vec::new();
        put_u16(&mut little, v, Endian::Little);
        assert_eq!(little, v.to_le_bytes().to_vec());
    }
    for v in [i32::MIN, -65536, -1, 0, 1, 65535, i32::MAX] {
        let mut big = Vec::new();
        put_i32(&mut big, v, Endian::Big);
        assert_eq!(big, v.to_be_bytes().to_vec());
        let mut little = Vec::new();
        put_i32(&mut little, v, Endian::Little);
        assert_eq!(little, v.to_le_bytes().to_vec());
    }
    for v in [0u64, 1, u64::MAX, 0xdead_beef_0bad_f00d] {
        let mut big = Vec::new();
        put_u64(&mut big, v, Endian::Big);
        assert_eq!(big, v.to_be_bytes().to_vec());
        let mut little = Vec::new();
        put_u64(&mut little, v, Endian::Little);
        assert_eq!(little, v.to_le_bytes().to_vec());
    }
}

#[test]
fn fields_are_appended_to_what_is_there() {
    let mut out = vec![9u8];
    put_u16(&mut out, 1, Endian::Little);
    put_u32(&mut out, 2, Endian::Big);
    assert_eq!(out, vec![9, 1, 0, 0, 0, 0, 2]);
}
