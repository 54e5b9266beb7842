use prop_amm_starter::layout::{
    clamp_u16, read_i16, read_u16, read_u32, read_u64, read_u8, write_i16, write_u16, write_u32,
    write_u64, write_u8,
};

#[test]
fn reads_are_little_endian() {
    let buf = [0x01u8, 0x02, 0x03, 0x04, 0x05, 0x06, 0x07, 0x08, 0x09];
    assert_eq!(read_u8(&buf, 0), 0x01);
    assert_eq!(read_u16(&buf, 0), 0x0201);
    assert_eq!(read_u32(&buf, 1), 0x0504_0302);
    assert_eq!(read_u64(&buf, 1), 0x0908_0706_0504_0302);
}

#[test]
fn reads_past_the_end_give_zero() {
    let buf = [0xffu8; 7];
    assert_eq!(read_u8(&buf, 7), 0);
    assert_eq!(read_u16(&buf, 6), 0);
    assert_eq!(read_i16(&buf, 6), 0);
    assert_eq!(read_u32(&buf, 4), 0);
    assert_eq!(read_u64(&buf, 0), 0);
    assert_eq!(read_u32(&buf, 3), u32::MAX);
}

#[test]
fn read_i16_is_twos_complement() {
    assert_eq!(read_i16(&[0xf8, 0xff], 0), -8);
    assert_eq!(read_i16(&[0x00, 0x80], 0), i16::MIN);
    assert_eq!(read_i16(&[0xff, 0x7f], 0), i16::MAX);
    assert_eq!(read_i16(&[0x08, 0x00], 0), 8);
}

#[test]
fn writes_are_little_endian_and_local() {
    let mut buf = [0xaau8; 16];
    write_u16(&mut buf, 1, 0x1234);
    assert_eq!(&buf[..4], &[0xaa, 0x34, 0x12, 0xaa]);
    write_u32(&mut buf, 4, 0xdead_beef);
    assert_eq!(&buf[4..9], &[0xef, 0xbe, 0xad, 0xde, 0xaa]);
    write_u64(&mut buf, 8, 0x0102_0304_0506_0708);
    assert_eq!(&buf[8..16], &[8, 7, 6, 5, 4, 3, 2, 1]);
    write_u8(&mut buf, 0, 7);
    assert_eq!(buf[0], 7);
    write_i16(&mut buf, 2, -8);
    assert_eq!(&buf[2..4], &[0xf8, 0xff]);
}

#[test]
fn writes_that_do_not_fit_change_nothing() {
    let mut buf = [0x11u8; 6];
    write_u64(&mut buf, 0, u64::MAX);
    write_u32(&mut buf, 3, 0);
    write_u16(&mut buf, 5, 0);
    write_i16(&mut buf, 5, -1);
    write_u8(&mut buf, 6, 0);
    assert_eq!(buf, [0x11u8; 6]);
}

#[test]
fn read_gives_back_what_write_wrote() {
    let mut buf = [0u8; 64];
    write_u32(&mut buf, 0, 123_456_789);
    write_u64(&mut buf, 8, u64::MAX - 5);
    write_u16(&mut buf, 32, 65_000);
    write_i16(&mut buf, 46, -32_768);
    assert_eq!(read_u32(&buf, 0), 123_456_789);
    assert_eq!(read_u64(&buf, 8), u64::MAX - 5);
    assert_eq!(read_u16(&buf, 32), 65_000);
    assert_eq!(read_i16(&buf, 46), -32_768);
}

#[test]
fn clamp_limits_to_bounds() {
    assert_eq!(clamp_u16(10, 30, 80), 30);
    assert_eq!(clamp_u16(30, 30, 80), 30);
    assert_eq!(clamp_u16(55, 30, 80), 55);
    assert_eq!(clamp_u16(81, 30, 80), 80);
}
