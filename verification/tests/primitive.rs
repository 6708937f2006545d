use sakka::{Endian, Error, ReadPrimitive, Reader, WritePrimitive, Writer};

#[test]
fn writes_endian_primitives_with_configured_byte_order() {
    let mut le = Writer::new(Endian::Little, ());
    le.write_u16(0x1234).unwrap();
    assert_eq!(le.finish(), vec![0x34, 0x12]);

    let mut be = Writer::new(Endian::Big, ());
    be.write_u16(0x1234).unwrap();
    assert_eq!(be.finish(), vec![0x12, 0x34]);

    let mut native = Writer::new(Endian::Native, ());
    native.write_u32(0x0102_0304).unwrap();
    assert_eq!(native.finish(), 0x0102_0304u32.to_ne_bytes().to_vec());
}

#[test]
fn reads_endian_primitives_with_configured_byte_order() {
    let mut le = Reader::new(&[0x34, 0x12], Endian::Little, ());
    assert_eq!(le.read_u16().unwrap(), 0x1234);

    let mut be = Reader::new(&[0x12, 0x34], Endian::Big, ());
    assert_eq!(be.read_u16().unwrap(), 0x1234);

    let native_bytes = 0x1122_3344u32.to_ne_bytes();
    let mut native = Reader::new(&native_bytes, Endian::Native, ());
    assert_eq!(native.read_u32().unwrap(), 0x1122_3344);
}

#[test]
fn raw_byte_and_bool_methods_work() {
    let mut writer = Writer::new(Endian::Little, ());
    writer.write_u8(255).unwrap();
    writer.write_i8(-1).unwrap();
    writer.write_bool_byte(false).unwrap();
    writer.write_bool_byte(true).unwrap();

    let bytes = writer.finish();
    assert_eq!(bytes, vec![255, 255, 0, 1]);

    let mut reader = Reader::new(&bytes, Endian::Little, ());
    assert_eq!(reader.read_u8().unwrap(), 255);
    assert_eq!(reader.read_i8().unwrap(), -1);
    assert!(!reader.read_bool_byte().unwrap());
    assert!(reader.read_bool_byte().unwrap());
}

#[test]
fn roundtrip_multiple_primitive_types() {
    let mut writer = Writer::new(Endian::Big, ());
    writer.write_u32(0xDEAD_BEEF).unwrap();
    writer.write_i16(-1234).unwrap();
    writer.write_u32(3.5f32.to_bits()).unwrap();
    writer.write_u64((-1.25f64).to_bits()).unwrap();

    let bytes = writer.finish();
    let mut reader = Reader::new(&bytes, Endian::Big, ());

    assert_eq!(reader.read_u32().unwrap(), 0xDEAD_BEEF);
    assert_eq!(reader.read_i16().unwrap(), -1234);
    assert_eq!(f32::from_bits(reader.read_u32().unwrap()), 3.5);
    assert_eq!(f64::from_bits(reader.read_u64().unwrap()), -1.25);
}

#[test]
fn read_errors_when_not_enough_bytes() {
    let mut reader = Reader::new(&[0xAA, 0xBB, 0xCC], Endian::Little, ());
    assert!(matches!(reader.read_u32(), Err(Error::OutOfBounds)));
}

#[test]
fn every_width_matches_std_byte_order() {
    for endian in [Endian::Little, Endian::Big, Endian::Native] {
        let mut w = Writer::new(endian, ());
        w.write_u64(0x0102_0304_0506_0708).unwrap();
        w.write_i32(-2).unwrap();
        w.write_u128(u128::MAX - 5).unwrap();
        w.write_i128(i128::MIN + 3).unwrap();
        w.write_usize(usize::MAX / 3).unwrap();
        w.write_isize(isize::MIN).unwrap();
        w.write_i64(i64::MIN).unwrap();
        let bytes = w.finish();

        let mut expected = Vec::new();
        match endian {
            Endian::Little => {
                expected.extend_from_slice(&0x0102_0304_0506_0708u64.to_le_bytes());
                expected.extend_from_slice(&(-2i32).to_le_bytes());
                expected.extend_from_slice(&(u128::MAX - 5).to_le_bytes());
                expected.extend_from_slice(&(i128::MIN + 3).to_le_bytes());
                expected.extend_from_slice(&(usize::MAX / 3).to_le_bytes());
                expected.extend_from_slice(&isize::MIN.to_le_bytes());
                expected.extend_from_slice(&i64::MIN.to_le_bytes());
            }
            Endian::Big => {
                expected.extend_from_slice(&0x0102_0304_0506_0708u64.to_be_bytes());
                expected.extend_from_slice(&(-2i32).to_be_bytes());
                expected.extend_from_slice(&(u128::MAX - 5).to_be_bytes());
                expected.extend_from_slice(&(i128::MIN + 3).to_be_bytes());
                expected.extend_from_slice(&(usize::MAX / 3).to_be_bytes());
                expected.extend_from_slice(&isize::MIN.to_be_bytes());
                expected.extend_from_slice(&i64::MIN.to_be_bytes());
            }
            Endian::Native => {
                expected.extend_from_slice(&0x0102_0304_0506_0708u64.to_ne_bytes());
                expected.extend_from_slice(&(-2i32).to_ne_bytes());
                expected.extend_from_slice(&(u128::MAX - 5).to_ne_bytes());
                expected.extend_from_slice(&(i128::MIN + 3).to_ne_bytes());
                expected.extend_from_slice(&(usize::MAX / 3).to_ne_bytes());
                expected.extend_from_slice(&isize::MIN.to_ne_bytes());
                expected.extend_from_slice(&i64::MIN.to_ne_bytes());
            }
        }
        assert_eq!(bytes, expected);

        let mut r = Reader::new(&bytes, endian, ());
        assert_eq!(r.read_u64().unwrap(), 0x0102_0304_0506_0708);
        assert_eq!(r.read_i32().unwrap(), -2);
        assert_eq!(r.read_u128().unwrap(), u128::MAX - 5);
        assert_eq!(r.read_i128().unwrap(), i128::MIN + 3);
        assert_eq!(r.read_usize().unwrap(), usize::MAX / 3);
        assert_eq!(r.read_isize().unwrap(), isize::MIN);
        assert_eq!(r.read_i64().unwrap(), i64::MIN);
        assert!(r.is_eof());
    }
}

#[test]
fn signed_extremes_and_nonzero_bools_decode_as_documented() {
    let mut r = Reader::new(&[0x80, 0x00, 0x7F, 0xFF, 0x02], Endian::Big, ());
    assert_eq!(r.read_i16().unwrap(), i16::MIN);
    assert_eq!(r.read_i16().unwrap(), i16::MAX);
    assert!(r.read_bool_byte().unwrap());
    assert!(matches!(r.read_i8(), Err(Error::OutOfBounds)));
    assert_eq!(r.position(), 5);
}
