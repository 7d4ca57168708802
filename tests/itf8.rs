use cram_codec::itf8::{read_itf8, size_of, write_itf8, write_u32_le};

fn itf8(value: i32) -> Vec<u8> {
    let mut buf = Vec::new();
    write_itf8(&mut buf, value);
    buf
}

#[test]
fn itf8_bytes() {
    assert_eq!(itf8(0), [0x00]);
    assert_eq!(itf8(127), [0x7f]);
    assert_eq!(itf8(128), [0x80, 0x80]);
    assert_eq!(itf8(16383), [0xbf, 0xff]);
    assert_eq!(itf8(16384), [0xc0, 0x40, 0x00]);
    assert_eq!(itf8(2097152), [0xe0, 0x20, 0x00, 0x00]);
    assert_eq!(itf8(268435456), [0xf1, 0x00, 0x00, 0x00, 0x00]);
    assert_eq!(itf8(-1), [0xff, 0xff, 0xff, 0xff, 0x0f]);
}

#[test]
fn itf8_sizes() {
    for value in [0, 1, 127, 128, 16383, 16384, 2097151, 2097152, 268435455, 268435456, i32::MAX, -1, i32::MIN] {
        assert_eq!(size_of(value), itf8(value).len(), "{}", value);
    }
    assert_eq!(size_of(127), 1);
    assert_eq!(size_of(128), 2);
    assert_eq!(size_of(-1), 5);
}

#[test]
fn u32_little_endian() {
    let mut buf = vec![9];
    write_u32_le(&mut buf, 0x4b01_63ee);
    assert_eq!(buf, [9, 0xee, 0x63, 0x01, 0x4b]);
}

#[test]
fn itf8_reads_back() {
    for value in [0, 1, 127, 128, 16383, 16384, 2097151, 2097152, 268435455, 268435456, i32::MAX, -1, i32::MIN] {
        let mut bytes = vec![0xaa];
        write_itf8(&mut bytes, value);
        bytes.push(0x55);
        assert_eq!(read_itf8(&bytes, 1), Some((value, size_of(value))), "{}", value);
    }
    assert_eq!(read_itf8(&[0x80], 0), None);
    assert_eq!(read_itf8(&[], 0), None);
    assert_eq!(read_itf8(&[0xf0, 0, 0, 0], 0), None);
}
