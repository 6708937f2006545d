use sakka::{
    ArrayCodec, Codec, Decode, DerivedCodec, Encode, Endian, Error, OptionBoolCodec, OptionEofCodec,
    ReadCollection, Reader, VecPrefixCodec, Writer,
};

#[derive(Debug)]
enum InvertedBoolCodecError {
    Core(Error),
    InvalidDiscriminant(u8),
}

impl From<Error> for InvertedBoolCodecError {
    fn from(value: Error) -> Self {
        Self::Core(value)
    }
}

struct InvertedBoolCodec;

impl Codec<bool> for InvertedBoolCodec {
    type Error = InvertedBoolCodecError;

    fn encode(value: &bool, writer: &mut Writer<()>) -> Result<(), Self::Error> {
        let encoded = if *value { 0u8 } else { 1u8 };
        writer.write(&encoded)?;
        Ok(())
    }

    fn decode(reader: &mut Reader<'_, ()>) -> Result<bool, Self::Error> {
        match reader.read::<u8>()? {
            0 => Ok(true),
            1 => Ok(false),
            raw => Err(InvertedBoolCodecError::InvalidDiscriminant(raw)),
        }
    }
}

#[derive(Debug, PartialEq, Eq)]
struct TestRecord {
    id: u16,
    tag: u8,
    active: bool,
}

impl Encode for TestRecord {
    type Error = Error;

    fn encode(&self, w: &mut Writer<()>) -> Result<(), Self::Error> {
        w.write(&self.id)?;
        w.write(&self.tag)?;
        w.write(&self.active)?;
        Ok(())
    }
}

impl Decode for TestRecord {
    type Error = Error;

    fn decode(r: &mut Reader<'_, ()>) -> Result<Self, Self::Error> {
        Ok(Self { id: r.read()?, tag: r.read()?, active: r.read()? })
    }
}

#[test]
fn tests_custom_struct_roundtrips_with_encode_and_decode() {
    let value = TestRecord { id: 0xBEEF, tag: 7, active: true };

    let mut writer = Writer::new(Endian::Big, ());
    writer.write(&value).unwrap();
    let bytes = writer.finish();
    assert_eq!(bytes, [0xBE, 0xEF, 0x07, 0x01]);

    let mut reader = Reader::new(&bytes, Endian::Big, ());
    let decoded: TestRecord = reader.read().unwrap();

    assert_eq!(decoded, value);
    assert!(reader.is_eof());
}

#[test]
fn custom_codec_encodes_decodes_and_surfaces_errors() {
    let mut writer = Writer::new(Endian::Big, ());
    InvertedBoolCodec::encode(&true, &mut writer).unwrap();
    assert_eq!(writer.finish(), [0x00]);

    let mut reader = Reader::new(&[0x01], Endian::Big, ());
    let decoded = InvertedBoolCodec::decode(&mut reader).unwrap();
    assert!(!decoded);

    let mut invalid = Reader::new(&[0xFF], Endian::Big, ());
    let invalid_err = InvertedBoolCodec::decode(&mut invalid).unwrap_err();
    assert!(matches!(invalid_err, InvertedBoolCodecError::InvalidDiscriminant(0xFF)));

    let mut truncated = Reader::new(&[], Endian::Big, ());
    let core_err = InvertedBoolCodec::decode(&mut truncated).unwrap_err();
    assert!(matches!(core_err, InvertedBoolCodecError::Core(Error::OutOfBounds)));
}

#[test]
fn encode_array_of_primitives() {
    let array: [u32; 3] = [0x1234_5678, 0xABCD_EF00, 0x0011_2233];
    let mut writer = Writer::new(Endian::Little, ());
    array.encode(&mut writer).unwrap();

    let bytes = writer.finish();
    // 3 * 4 bytes = 12 bytes
    assert_eq!(bytes.len(), 12);
}

#[test]
fn decode_array_of_primitives() {
    let data: [u8; 12] = [
        0x78, 0x56, 0x34, 0x12, // 0x1234_5678 (little endian)
        0x00, 0xEF, 0xCD, 0xAB, // 0xABCD_EF00 (little endian)
        0x33, 0x22, 0x11, 0x00, // 0x0011_2233 (little endian)
    ];

    let mut reader = Reader::new(&data, Endian::Little, ());
    let array: [u32; 3] = reader.read_array().unwrap();

    assert_eq!(array, [0x1234_5678, 0xABCD_EF00, 0x0011_2233]);
}

#[test]
fn roundtrip_array_of_primitives() {
    let original: [u16; 5] = [0x1234, 0x5678, 0xABCD, 0xEF00, 0x0011];

    let mut writer = Writer::new(Endian::Big, ());
    original.encode(&mut writer).unwrap();
    let bytes = writer.finish();

    let mut reader = Reader::new(&bytes, Endian::Big, ());
    let decoded: [u16; 5] = reader.read_array().unwrap();

    assert_eq!(decoded, original);
}

#[test]
fn encode_array_of_u8() {
    let array: [u8; 4] = [0x12, 0x34, 0x56, 0x78];
    let mut writer = Writer::new(Endian::Little, ());
    array.encode(&mut writer).unwrap();

    let bytes = writer.finish();
    assert_eq!(bytes, &[0x12, 0x34, 0x56, 0x78]);
}

#[test]
fn decode_array_of_u8() {
    let data = [0xAA, 0xBB, 0xCC, 0xDD, 0xEE];

    let mut reader = Reader::new(&data, Endian::Little, ());
    let array: [u8; 5] = reader.read_array().unwrap();

    assert_eq!(array, [0xAA, 0xBB, 0xCC, 0xDD, 0xEE]);
}

#[test]
fn roundtrip_array_of_u8() {
    let original: [u8; 3] = [0x11, 0x22, 0x33];

    let mut writer = Writer::new(Endian::Little, ());
    original.encode(&mut writer).unwrap();
    let bytes = writer.finish();

    let mut reader = Reader::new(&bytes, Endian::Little, ());
    let decoded: [u8; 3] = reader.read_array().unwrap();

    assert_eq!(decoded, original);
}

#[test]
fn arrays_decode_through_the_decode_trait_and_nest() {
    let mut reader = Reader::new(&[1, 2, 3, 4, 5], Endian::Big, ());
    let nested: [[u8; 2]; 2] = reader.read().unwrap();
    assert_eq!(nested, [[1, 2], [3, 4]]);
    let short: Result<[u16; 1], Error> = reader.read();
    assert!(matches!(short, Err(Error::OutOfBounds)));
}

#[test]
fn array_codec_uses_the_element_codec() {
    let mut writer = Writer::new(Endian::Big, ());
    ArrayCodec::<InvertedBoolCodec>::encode(&[true, false, true], &mut writer).unwrap();
    let bytes = writer.finish();
    assert_eq!(bytes, [0, 1, 0]);

    let mut reader = Reader::new(&bytes, Endian::Big, ());
    let decoded: [bool; 3] = ArrayCodec::<InvertedBoolCodec>::decode(&mut reader).unwrap();
    assert_eq!(decoded, [true, false, true]);

    let mut bad = Reader::new(&[0, 9, 1], Endian::Big, ());
    let err = <ArrayCodec<InvertedBoolCodec> as Codec<[bool; 3]>>::decode(&mut bad).unwrap_err();
    assert!(matches!(err, InvertedBoolCodecError::InvalidDiscriminant(9)));
}

#[test]
fn option_codecs_mark_presence_differently() {
    let mut writer = Writer::new(Endian::Little, ());
    OptionBoolCodec::<InvertedBoolCodec>::encode(&Some(false), &mut writer).unwrap();
    OptionBoolCodec::<InvertedBoolCodec>::encode(&None, &mut writer).unwrap();
    let bytes = writer.finish();
    assert_eq!(bytes, [1, 1, 0]);

    let mut reader = Reader::new(&bytes, Endian::Little, ());
    assert_eq!(OptionBoolCodec::<InvertedBoolCodec>::decode(&mut reader).unwrap(), Some(false));
    assert_eq!(OptionBoolCodec::<InvertedBoolCodec>::decode(&mut reader).unwrap(), None);
    let err = OptionBoolCodec::<InvertedBoolCodec>::decode(&mut reader).unwrap_err();
    assert!(matches!(err, InvertedBoolCodecError::Core(Error::OutOfBounds)));

    let mut writer = Writer::new(Endian::Little, ());
    OptionEofCodec::<InvertedBoolCodec>::encode(&None, &mut writer).unwrap();
    OptionEofCodec::<InvertedBoolCodec>::encode(&Some(true), &mut writer).unwrap();
    let bytes = writer.finish();
    assert_eq!(bytes, [0]);

    let mut reader = Reader::new(&bytes, Endian::Little, ());
    assert_eq!(OptionEofCodec::<InvertedBoolCodec>::decode(&mut reader).unwrap(), Some(true));
    assert_eq!(OptionEofCodec::<InvertedBoolCodec>::decode(&mut reader).unwrap(), None);
}

#[test]
fn vec_prefix_codec_writes_length_then_elements() {
    let mut writer = Writer::new(Endian::Big, ());
    VecPrefixCodec::<u16, InvertedBoolCodec>::encode(&vec![true, true, false], &mut writer).unwrap();
    let bytes = writer.finish();
    assert_eq!(bytes, [0, 3, 0, 0, 1]);

    let mut reader = Reader::new(&bytes, Endian::Big, ());
    let decoded = VecPrefixCodec::<u16, InvertedBoolCodec>::decode(&mut reader).unwrap();
    assert_eq!(decoded, vec![true, true, false]);
    assert!(reader.is_eof());

    let mut writer = Writer::new(Endian::Big, ());
    let err = VecPrefixCodec::<u8, InvertedBoolCodec>::encode(&vec![true; 256], &mut writer).unwrap_err();
    assert!(matches!(err, InvertedBoolCodecError::Core(Error::CollectionLengthOverflow)));
    assert!(writer.is_empty());

    let mut negative = Reader::new(&[0xFF], Endian::Big, ());
    let err = VecPrefixCodec::<i8, InvertedBoolCodec>::decode(&mut negative).unwrap_err();
    assert!(matches!(err, InvertedBoolCodecError::Core(Error::CollectionLengthNegative)));
}

#[test]
fn derived_codec_follows_the_type_own_encoding() {
    let value = TestRecord { id: 0x0102, tag: 3, active: false };
    let mut writer = Writer::new(Endian::Little, ());
    DerivedCodec::<TestRecord>::encode(&value, &mut writer).unwrap();
    let bytes = writer.finish();
    assert_eq!(bytes, [0x02, 0x01, 0x03, 0x00]);

    let mut reader = Reader::new(&bytes, Endian::Little, ());
    assert_eq!(DerivedCodec::<TestRecord>::decode(&mut reader).unwrap(), value);

    let mut reader = Reader::new(&[1, 2], Endian::Little, ());
    assert_eq!(reader.read_vec::<u8>(2).unwrap(), vec![1, 2]);
}

#[test]
fn option_codecs_pass_the_inner_error_on_unchanged() {
    let mut reader = Reader::new(&[7], Endian::Big, ());
    let err = OptionEofCodec::<InvertedBoolCodec>::decode(&mut reader).unwrap_err();
    assert!(matches!(err, InvertedBoolCodecError::InvalidDiscriminant(7)));

    let mut reader = Reader::new(&[1, 5], Endian::Big, ());
    let err = OptionBoolCodec::<InvertedBoolCodec>::decode(&mut reader).unwrap_err();
    assert!(matches!(err, InvertedBoolCodecError::InvalidDiscriminant(5)));
}
