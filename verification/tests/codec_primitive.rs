use sakka::{Decode, Encode, Endian, Error, Reader, Writer};

#[test]
fn encode_respects_endianness_for_multibyte_types() {
    let mut little = Writer::new(Endian::Little, ());
    little.write(&0x1234u16).unwrap();
    assert_eq!(little.finish(), vec![0x34, 0x12]);

    let mut big = Writer::new(Endian::Big, ());
    big.write(&0x1234u16).unwrap();
    assert_eq!(big.finish(), vec![0x12, 0x34]);
}

#[test]
fn decode_respects_endianness_for_multibyte_types() {
    let mut little = Reader::new(&[0x34, 0x12], Endian::Little, ());
    let lv: u16 = little.read().unwrap();
    assert_eq!(lv, 0x1234);

    let mut big = Reader::new(&[0x12, 0x34], Endian::Big, ());
    let bv: u16 = big.read().unwrap();
    assert_eq!(bv, 0x1234);
}

#[test]
fn encode_decode_roundtrip_uses_codec_traits() {
    let mut writer = Writer::new(Endian::Big, ());
    writer.write(&true).unwrap();
    writer.write(&0xDEAD_BEEFu32).unwrap();
    writer.write(&-12i8).unwrap();
    writer.write(&3.5f32.to_bits()).unwrap();

    let bytes = writer.finish();
    let mut reader = Reader::new(&bytes, Endian::Big, ());

    let b: bool = reader.read().unwrap();
    let n: u32 = reader.read().unwrap();
    let i: i8 = reader.read().unwrap();
    let f: f32 = f32::from_bits(reader.read().unwrap());

    assert!(b);
    assert_eq!(n, 0xDEAD_BEEF);
    assert_eq!(i, -12);
    assert_eq!(f, 3.5);
}

#[test]
fn decode_errors_on_insufficient_input() {
    let mut reader = Reader::new(&[0xAA, 0xBB, 0xCC], Endian::Little, ());
    let result: Result<u32, Error> = reader.read();
    assert!(matches!(result, Err(Error::OutOfBounds)));
}

#[derive(Debug, PartialEq, Eq)]
struct TestRecord {
    id: u16,
    tag: u8,
    active: bool,
}

impl Encode for TestRecord {
    type Error = Error;

    fn encode(&self, w: &mut Writer<()>) -> Result<(), Self::Error> {
        w.write(&self.id)?;
        w.write(&self.tag)?;
        w.write(&self.active)?;
        Ok(())
    }
}

impl Decode for TestRecord {
    type Error = Error;

    fn decode(r: &mut Reader<'_, ()>) -> Result<Self, Self::Error> {
        Ok(Self { id: r.read()?, tag: r.read()?, active: r.read()? })
    }
}

#[test]
fn custom_struct_roundtrips_with_encode_and_decode() {
    let value = TestRecord { id: 0xBEEF, tag: 7, active: true };

    let mut writer = Writer::new(Endian::Big, ());
    writer.write(&value).unwrap();
    let bytes = writer.finish();
    assert_eq!(bytes, [0xBE, 0xEF, 0x07, 0x01]);

    let mut reader = Reader::new(&bytes, Endian::Big, ());
    let decoded: TestRecord = reader.read().unwrap();

    assert_eq!(decoded, value);
    assert!(reader.is_eof());
}
