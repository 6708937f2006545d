use sakka::{
    ArrayCodec, Codec, Decode, Encode, CollectionLength, Endian, OptionBoolCodec, OptionEofCodec, ReadCollection,
    ReadOption, Reader, VecPrefixCodec, WriteCollection, WriteOption, Writer,
};

#[test]
fn every_primitive_reads_back_after_a_prefix_and_before_trailing_bytes() {
    for endian in [Endian::Little, Endian::Big, Endian::Native] {
        let mut writer = Writer::new(endian, ());
        writer.write_bytes(&[0xEE, 0xEE]).unwrap();
        writer.write(&true).unwrap();
        writer.write(&0xA5u8).unwrap();
        writer.write(&0xBEEFu16).unwrap();
        writer.write(&0xDEAD_BEEFu32).unwrap();
        writer.write(&0x0123_4567_89AB_CDEFu64).unwrap();
        writer.write(&u128::MAX).unwrap();
        writer.write(&usize::MAX).unwrap();
        writer.write(&i8::MIN).unwrap();
        writer.write(&-2i16).unwrap();
        writer.write(&i32::MIN).unwrap();
        writer.write(&-0x0123_4567_89AB_CDEFi64).unwrap();
        writer.write(&i128::MIN).unwrap();
        writer.write(&isize::MIN).unwrap();
        writer.write_bytes(&[0x77]).unwrap();
        let bytes = writer.finish();

        let mut reader = Reader::new(&bytes, endian, ());
        reader.skip(2).unwrap();
        assert!(reader.read::<bool>().unwrap());
        assert_eq!(reader.read::<u8>().unwrap(), 0xA5);
        assert_eq!(reader.read::<u16>().unwrap(), 0xBEEF);
        assert_eq!(reader.read::<u32>().unwrap(), 0xDEAD_BEEF);
        assert_eq!(reader.read::<u64>().unwrap(), 0x0123_4567_89AB_CDEF);
        assert_eq!(reader.read::<u128>().unwrap(), u128::MAX);
        assert_eq!(reader.read::<usize>().unwrap(), usize::MAX);
        assert_eq!(reader.read::<i8>().unwrap(), i8::MIN);
        assert_eq!(reader.read::<i16>().unwrap(), -2);
        assert_eq!(reader.read::<i32>().unwrap(), i32::MIN);
        assert_eq!(reader.read::<i64>().unwrap(), -0x0123_4567_89AB_CDEF);
        assert_eq!(reader.read::<i128>().unwrap(), i128::MIN);
        assert_eq!(reader.read::<isize>().unwrap(), isize::MIN);
        assert_eq!(reader.remaining_slice(), &[0x77]);
    }
}

#[test]
fn collections_and_options_read_back() {
    let mut writer = Writer::new(Endian::Big, ());
    writer.write(&[[1u16, 2], [3, 4]]).unwrap();
    writer.write_option(&Some([5i32, -6])).unwrap();
    writer.write_option::<u64>(&None).unwrap();
    writer.write_prefixed_slice::<i64, u16>(&[-1, 0, 1]).unwrap();
    writer.write_slice(&[true, false]).unwrap();
    let bytes = writer.finish();

    let mut reader = Reader::new(&bytes, Endian::Big, ());
    assert_eq!(reader.read::<[[u16; 2]; 2]>().unwrap(), [[1, 2], [3, 4]]);
    assert_eq!(reader.read_option::<[i32; 2]>().unwrap(), Some([5, -6]));
    assert_eq!(reader.read_option::<u64>().unwrap(), None);
    assert_eq!(reader.read_prefixed_vec::<i64, u16>().unwrap(), vec![-1, 0, 1]);
    assert_eq!(reader.read_vec::<bool>(2).unwrap(), vec![true, false]);
    assert!(reader.is_eof());
}

#[test]
fn lengths_come_back_from_every_prefix_type() {
    for n in [0usize, 1, 127, 255] {
        assert_eq!(u8::try_from_usize(n).unwrap().to_usize().unwrap(), n);
        assert_eq!(i16::try_from_usize(n).unwrap().to_usize().unwrap(), n);
        assert_eq!(u32::try_from_usize(n).unwrap().to_usize().unwrap(), n);
        assert_eq!(i64::try_from_usize(n).unwrap().to_usize().unwrap(), n);
        assert_eq!(u128::try_from_usize(n).unwrap().to_usize().unwrap(), n);
        assert_eq!(isize::try_from_usize(n).unwrap().to_usize().unwrap(), n);
        assert_eq!(usize::try_from_usize(n).unwrap().to_usize().unwrap(), n);
    }
    assert!(i8::try_from_usize(128).is_err());
    assert_eq!(i8::try_from_usize(127).unwrap(), 127);
}

#[test]
fn composed_codecs_read_back() {
    type Inner = OptionBoolCodec<sakka::DerivedCodec<u16>>;
    let value: [Option<u16>; 3] = [Some(7), None, Some(0xFFFF)];
    let mut writer = Writer::new(Endian::Little, ());
    ArrayCodec::<Inner>::encode(&value, &mut writer).unwrap();
    VecPrefixCodec::<u8, ArrayCodec<Inner>>::encode(&vec![value, [None; 3]], &mut writer).unwrap();
    OptionEofCodec::<Inner>::encode(&Some(Some(9)), &mut writer).unwrap();
    let bytes = writer.finish();
    assert_eq!(&bytes[..8], &[1, 7, 0, 0, 1, 0xFF, 0xFF, 2]);

    let mut reader = Reader::new(&bytes, Endian::Little, ());
    assert_eq!(ArrayCodec::<Inner>::decode(&mut reader).unwrap(), value);
    assert_eq!(
        VecPrefixCodec::<u8, ArrayCodec<Inner>>::decode(&mut reader).unwrap(),
        vec![value, [None; 3]]
    );
    assert_eq!(OptionEofCodec::<Inner>::decode(&mut reader).unwrap(), Some(Some(9)));
    assert_eq!(OptionEofCodec::<Inner>::decode(&mut reader).unwrap(), None);
}

#[test]
fn prefixed_with_forms_read_back_through_encode_and_decode() {
    let items = [0x0102u16, 0xFFFE, 7];
    let mut writer = Writer::new(Endian::Big, ());
    writer.write_prefixed_slice_with::<u16, u8, _>(&items, |w, x| x.encode(w)).unwrap();
    let bytes = writer.finish();
    assert_eq!(bytes, vec![3, 0x01, 0x02, 0xFF, 0xFE, 0x00, 0x07]);

    let mut reader = Reader::new(&bytes, Endian::Big, ());
    let back = reader.read_prefixed_vec_with::<u16, u8, _>(u16::decode).unwrap();
    assert_eq!(back, items.to_vec());
    assert!(reader.is_eof());
}
