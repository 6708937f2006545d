use sakka::{Endian, Error, Reader};

#[test]
fn new_and_default_have_expected_initial_state() {
    let bytes = [1u8, 2, 3];
    let reader = Reader::new(&bytes, Endian::Big, 9u32);

    assert_eq!(reader.endian(), Endian::Big);
    assert_eq!(reader.total_len(), 3);
    assert_eq!(reader.position(), 0);
    assert_eq!(reader.remaining(), 3);
    assert!(!reader.is_eof());
    assert_eq!(*reader.context(), 9);
    assert_eq!(reader.as_slice(), &bytes);
    assert_eq!(reader.remaining_slice(), &bytes);

    let default_reader = Reader::<u16>::default();
    assert_eq!(default_reader.endian(), Endian::Little);
    assert_eq!(*default_reader.context(), 0);
    assert!(default_reader.is_eof());
}

#[test]
fn reader_context_mut_and_replace_context_work() {
    let mut reader = Reader::new(&[1, 2], Endian::Little, 10i32);

    *reader.context_mut() += 5;
    assert_eq!(*reader.context(), 15);

    let old = reader.replace_context(42);
    assert_eq!(old, 15);
    assert_eq!(*reader.context(), 42);
}

#[test]
fn set_position_seek_and_skip_update_position_and_bounds() {
    let mut reader = Reader::new(&[0, 1, 2, 3, 4], Endian::Little, ());

    reader.set_position(2).unwrap();
    assert_eq!(reader.position(), 2);
    assert_eq!(reader.remaining(), 3);

    reader.seek(2).unwrap();
    assert_eq!(reader.position(), 4);

    reader.seek(-3).unwrap();
    assert_eq!(reader.position(), 1);

    reader.skip(2).unwrap();
    assert_eq!(reader.position(), 3);

    assert!(matches!(reader.set_position(6), Err(Error::OutOfBounds)));
    assert!(matches!(reader.seek(-10), Err(Error::OutOfBounds)));
    assert!(matches!(reader.seek(10), Err(Error::OutOfBounds)));
    assert!(matches!(reader.skip(3), Err(Error::OutOfBounds)));
}

#[test]
fn align_obeys_padding_and_errors() {
    let mut reader = Reader::new(&[0, 1, 2, 3], Endian::Little, ());

    reader.set_position(1).unwrap();
    reader.align(4).unwrap();
    assert_eq!(reader.position(), 4);
    assert!(reader.is_eof());

    let mut invalid = Reader::new(&[0, 1], Endian::Little, ());
    assert!(matches!(invalid.align(0), Err(Error::InvalidAlignment)));
    assert!(matches!(invalid.align(3), Err(Error::InvalidAlignment)));

    let mut oob = Reader::new(&[0, 1, 2], Endian::Little, ());
    oob.set_position(2).unwrap();
    assert!(matches!(oob.align(4), Err(Error::OutOfBounds)));
}

#[test]
fn take_read_exact_and_read_bytes_consume_data() {
    let mut reader = Reader::new(&[10, 11, 12, 13], Endian::Little, ());

    assert_eq!(reader.take(2).unwrap(), &[10, 11]);
    assert_eq!(reader.position(), 2);

    let mut buf = [0u8; 1];
    reader.read_exact(&mut buf).unwrap();
    assert_eq!(buf, [12]);
    assert_eq!(reader.position(), 3);

    let arr = reader.read_bytes::<1>().unwrap();
    assert_eq!(arr, [13]);
    assert!(reader.is_eof());

    assert!(matches!(reader.take(1), Err(Error::OutOfBounds)));
}

#[test]
fn peek_variants_do_not_advance_position() {
    let mut reader = Reader::new(&[21, 22, 23, 24], Endian::Little, ());
    reader.set_position(1).unwrap();

    assert_eq!(reader.peek(2).unwrap(), &[22, 23]);
    assert_eq!(reader.position(), 1);

    let mut buf = [0u8; 2];
    reader.peek_exact(&mut buf).unwrap();
    assert_eq!(buf, [22, 23]);
    assert_eq!(reader.position(), 1);

    let arr = reader.peek_bytes::<3>().unwrap();
    assert_eq!(arr, [22, 23, 24]);
    assert_eq!(reader.position(), 1);

    assert!(matches!(reader.peek(5), Err(Error::OutOfBounds)));
}

#[test]
fn failed_reads_leave_position_and_buffers_unchanged() {
    let mut reader = Reader::new(&[1, 2, 3], Endian::Little, ());
    reader.set_position(1).unwrap();

    let mut buf = [7u8; 3];
    assert!(matches!(reader.read_exact(&mut buf), Err(Error::OutOfBounds)));
    assert_eq!(buf, [7, 7, 7]);
    assert_eq!(reader.position(), 1);

    assert!(matches!(reader.read_bytes::<3>(), Err(Error::OutOfBounds)));
    assert!(matches!(reader.peek_exact(&mut buf), Err(Error::OutOfBounds)));
    assert!(matches!(reader.peek_bytes::<4>(), Err(Error::OutOfBounds)));
    assert_eq!(reader.position(), 1);
    assert_eq!(reader.remaining_slice(), &[2, 3]);
}

#[test]
fn seek_handles_extreme_offsets() {
    let mut reader = Reader::new(&[0, 1, 2], Endian::Little, ());
    assert!(matches!(reader.seek(isize::MIN), Err(Error::OutOfBounds)));
    assert!(matches!(reader.seek(isize::MAX), Err(Error::OutOfBounds)));
    assert_eq!(reader.position(), 0);
    reader.seek(3).unwrap();
    assert!(reader.is_eof());
    assert!(matches!(reader.skip(usize::MAX), Err(Error::OutOfBounds)));
    reader.seek(-3).unwrap();
    assert_eq!(reader.position(), 0);
    reader.set_position(3).unwrap();
    assert_eq!(reader.remaining(), 0);
}
