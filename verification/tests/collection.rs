use sakka::{CollectionLength, Endian, Error, ReadCollection, ReadPrimitive, Reader, WriteCollection, Writer};

#[test]
fn read_vec_and_array_with_work() {
    let mut reader = Reader::new(&[1, 2, 3, 4, 5], Endian::Little, ());

    let vec = reader.read_vec_with(3, |r| r.read_u8()).unwrap();
    assert_eq!(vec, vec![1, 2, 3]);

    let arr = reader.read_array_with::<_, 2, _>(|r| r.read_u8()).unwrap();
    assert_eq!(arr, [4, 5]);
    assert!(reader.is_eof());
}

#[test]
fn read_prefixed_vec_reads_prefix_and_elements() {
    let mut reader = Reader::new(&[3, 10, 11, 12], Endian::Little, ());
    let values = reader.read_prefixed_vec::<u8, u8>().unwrap();

    assert_eq!(values, vec![10, 11, 12]);
    assert!(reader.is_eof());
}

#[test]
fn read_prefixed_vec_rejects_negative_signed_length() {
    let mut reader = Reader::new(&[0xFF], Endian::Little, ());
    let err = reader.read_prefixed_vec::<u8, i8>();

    assert!(matches!(err, Err(Error::CollectionLengthNegative)));
}

#[test]
fn write_slice_and_prefixed_slice_work() {
    let mut writer = Writer::new(Endian::Little, ());

    writer.write_slice(&[1u8, 2, 3]).unwrap();
    writer.write_prefixed_slice::<_, u8>(&[9u8, 8]).unwrap();

    assert_eq!(writer.finish(), vec![1, 2, 3, 2, 9, 8]);
}

#[test]
fn write_prefixed_slice_reports_length_overflow() {
    let mut writer = Writer::new(Endian::Little, ());
    let data = vec![0u8; 300];

    let err = writer.write_prefixed_slice::<_, u8>(&data);
    assert!(matches!(err, Err(Error::CollectionLengthOverflow)));
}

#[test]
fn collection_length_conversions_handle_boundaries() {
    assert_eq!(u8::to_usize(10).unwrap(), 10);
    assert!(matches!(u8::try_from_usize(300), Err(Error::CollectionLengthOverflow)));

    assert_eq!(i8::to_usize(7).unwrap(), 7);
    assert!(matches!(i8::to_usize(-1), Err(Error::CollectionLengthNegative)));
}

#[test]
fn length_conversions_roundtrip_at_type_limits() {
    assert_eq!(u16::try_from_usize(65535).unwrap(), u16::MAX);
    assert!(matches!(u16::try_from_usize(65536), Err(Error::CollectionLengthOverflow)));
    assert!(matches!(i16::try_from_usize(32768), Err(Error::CollectionLengthOverflow)));
    assert_eq!(i64::try_from_usize(5).unwrap().to_usize().unwrap(), 5);
    assert_eq!(u128::try_from_usize(usize::MAX).unwrap(), usize::MAX as u128);
    assert!(matches!(i128::to_usize(i128::MIN), Err(Error::CollectionLengthNegative)));
    assert!(matches!(u128::to_usize(u128::MAX), Err(Error::CollectionLengthOverflow)));
    assert!(matches!(isize::to_usize(-7), Err(Error::CollectionLengthNegative)));
}

#[test]
fn failed_element_reads_stop_and_report_the_error() {
    let mut reader = Reader::new(&[1, 2, 3], Endian::Little, ());
    let err = reader.read_vec::<u16>(2);
    assert!(matches!(err, Err(Error::OutOfBounds)));
    // The first element was read; the second found one byte only.
    assert_eq!(reader.position(), 2);

    let mut reader = Reader::new(&[2, 0x34, 0x12], Endian::Little, ());
    let err = reader.read_prefixed_vec::<u16, u8>();
    assert!(matches!(err, Err(Error::OutOfBounds)));

    let mut reader = Reader::new(&[], Endian::Little, ());
    assert!(matches!(reader.read_prefixed_vec::<u8, u32>(), Err(Error::OutOfBounds)));
    assert_eq!(reader.position(), 0);
}

#[test]
fn prefixed_vectors_roundtrip_with_wide_prefixes() {
    let mut writer = Writer::new(Endian::Big, ());
    writer.write_prefixed_slice::<u16, u32>(&[0x0102, 0x0304]).unwrap();
    writer.write_prefixed_slice::<u8, i16>(&[]).unwrap();
    let bytes = writer.finish();
    assert_eq!(bytes, vec![0, 0, 0, 2, 1, 2, 3, 4, 0, 0]);

    let mut reader = Reader::new(&bytes, Endian::Big, ());
    assert_eq!(reader.read_prefixed_vec::<u16, u32>().unwrap(), vec![0x0102, 0x0304]);
    assert_eq!(reader.read_prefixed_vec::<u8, i16>().unwrap(), Vec::<u8>::new());
    assert!(reader.is_eof());
}

#[test]
fn with_variants_surface_the_first_closure_error() {
    let mut reader = Reader::new(&[1, 2, 3], Endian::Little, ());
    let mut calls = 0;
    let err = reader.read_vec_with(3, |r| {
        calls += 1;
        let v = r.read_u8()?;
        if v == 2 { Err(Error::InvalidAlignment) } else { Ok(v) }
    });
    assert!(matches!(err, Err(Error::InvalidAlignment)));
    assert_eq!(calls, 2);

    let mut writer = Writer::new(Endian::Little, ());
    let err = writer.write_slice_with(&[1u8, 2, 3], |w, v| {
        if *v == 3 { Err(Error::OutOfBounds) } else { w.write(v) }
    });
    assert!(matches!(err, Err(Error::OutOfBounds)));
    assert_eq!(writer.finish(), vec![1, 2]);
}
