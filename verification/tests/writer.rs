use sakka::{Endian, Error, Writer};

#[test]
fn new_starts_empty_with_given_endian_and_context() {
    let writer = Writer::new(Endian::Big, 7u32);

    assert!(writer.is_empty());
    assert_eq!(writer.len(), 0);
    assert_eq!(writer.endian(), Endian::Big);
    assert_eq!(*writer.context(), 7);
}

#[test]
fn default_uses_little_endian_and_default_context() {
    let writer = Writer::<u16>::default();

    assert_eq!(writer.endian(), Endian::Little);
    assert_eq!(*writer.context(), 0);
    assert!(writer.is_empty());
}

#[test]
fn writer_context_mut_and_replace_context_work() {
    let mut writer = Writer::new(Endian::Little, 10i32);

    *writer.context_mut() += 5;
    assert_eq!(*writer.context(), 15);

    let old = writer.replace_context(42);
    assert_eq!(old, 15);
    assert_eq!(*writer.context(), 42);
}

#[test]
fn write_bytes_write_zeroes_and_finish() {
    let mut writer = Writer::new(Endian::Little, ());

    writer.write_bytes(&[1, 2, 3]).unwrap();
    writer.write_zeroes(2).unwrap();
    writer.write_bytes(&[9]).unwrap();

    assert_eq!(writer.len(), 6);
    assert_eq!(writer.as_slice(), &[1, 2, 3, 0, 0, 9]);
    assert_eq!(writer.finish(), vec![1, 2, 3, 0, 0, 9]);
}

#[test]
fn align_adds_expected_padding() {
    let mut writer = Writer::new(Endian::Little, ());

    writer.write_bytes(&[0xAA, 0xBB, 0xCC]).unwrap();
    writer.align(4).unwrap();

    assert_eq!(writer.as_slice(), &[0xAA, 0xBB, 0xCC, 0x00]);

    writer.align(4).unwrap();
    assert_eq!(writer.as_slice(), &[0xAA, 0xBB, 0xCC, 0x00]);
}

#[test]
fn align_rejects_invalid_alignment() {
    let mut writer = Writer::new(Endian::Little, ());

    assert!(matches!(writer.align(0), Err(Error::InvalidAlignment)));
    assert!(matches!(writer.align(3), Err(Error::InvalidAlignment)));
}

#[test]
fn reserve_helpers_do_not_change_length() {
    let mut writer = Writer::new(Endian::Little, ());

    writer.reserve(16);
    writer.reserve_for::<u64>();

    assert_eq!(writer.len(), 0);
    assert!(writer.is_empty());
}

#[test]
fn failed_align_leaves_bytes_unchanged_and_zero_writes_are_empty() {
    let mut writer = Writer::new(Endian::Little, ());
    writer.write_bytes(&[5]).unwrap();
    assert!(matches!(writer.align(12), Err(Error::InvalidAlignment)));
    writer.write_zeroes(0).unwrap();
    writer.write_bytes(&[]).unwrap();
    assert_eq!(writer.as_slice(), &[5]);
    writer.align(8).unwrap();
    assert_eq!(writer.len(), 8);
    writer.align(1).unwrap();
    assert_eq!(writer.len(), 8);
}
