use sakka::{Endian, Error, ReadOption, ReadPrimitive, Reader, WriteOption, WritePrimitive, Writer};

#[test]
fn write_and_read_some_variant() {
    let mut writer = Writer::new(Endian::Little, ());
    writer.write_option_with(&Some(42u32), |w, v| w.write_u32(*v)).unwrap();

    let bytes = writer.finish();
    assert_eq!(bytes, vec![1, 42, 0, 0, 0]);

    let mut reader = Reader::new(&bytes, Endian::Little, ());
    let value = reader.read_option_with(|r| r.read_u32()).unwrap();

    assert_eq!(value, Some(42));
}

#[test]
fn write_and_read_none_variant() {
    let mut writer = Writer::new(Endian::Little, ());
    let none_val: Option<u32> = None;
    writer.write_option_with(&none_val, |w, v| w.write_u32(*v)).unwrap();

    let bytes = writer.finish();
    assert_eq!(bytes, vec![0]);

    let mut reader = Reader::new(&bytes, Endian::Little, ());
    let value = reader.read_option_with(|r| r.read_u32()).unwrap();

    assert_eq!(value, None);
}

#[test]
fn write_option_generic_trait_method() {
    let mut writer = Writer::new(Endian::Big, ());
    writer.write_option(&Some(0xDEADBEEFu32)).unwrap();
    writer.write_option::<u32>(&None).unwrap();

    let bytes = writer.finish();
    assert_eq!(bytes[0], 1); // Some marker
    assert_eq!(bytes[1..5], [0xDE, 0xAD, 0xBE, 0xEF]);
    assert_eq!(bytes[5], 0); // None marker
}

#[test]
fn read_option_generic_trait_method() {
    let bytes = [1u8, 0xDE, 0xAD, 0xBE, 0xEF, 0];
    let mut reader = Reader::new(&bytes, Endian::Big, ());

    let some_val = reader.read_option::<u32>().unwrap();
    assert_eq!(some_val, Some(0xDEADBEEF));

    let none_val = reader.read_option::<u32>().unwrap();
    assert_eq!(none_val, None);
}

#[test]
fn roundtrip_nested_options() {
    let mut writer = Writer::new(Endian::Little, ());
    writer.write_option(&Some(true)).unwrap();
    writer.write_option::<bool>(&None).unwrap();
    writer.write_option(&Some(false)).unwrap();

    let bytes = writer.finish();
    let mut reader = Reader::new(&bytes, Endian::Little, ());

    let a = reader.read_option::<bool>().unwrap();
    let b = reader.read_option::<bool>().unwrap();
    let c = reader.read_option::<bool>().unwrap();

    assert_eq!(a, Some(true));
    assert_eq!(b, None);
    assert_eq!(c, Some(false));
    assert!(reader.is_eof());
}

#[test]
fn any_nonzero_presence_byte_means_some_and_truncation_is_an_error() {
    let mut reader = Reader::new(&[7, 5, 0], Endian::Little, ());
    assert_eq!(reader.read_option::<u8>().unwrap(), Some(5));
    assert_eq!(reader.read_option::<u8>().unwrap(), None);
    assert!(matches!(reader.read_option::<u8>(), Err(Error::OutOfBounds)));

    let mut reader = Reader::new(&[1, 0xAA], Endian::Little, ());
    assert!(matches!(reader.read_option::<u16>(), Err(Error::OutOfBounds)));
    // The presence byte was consumed; the value was not.
    assert_eq!(reader.position(), 1);
}
