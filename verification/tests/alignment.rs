use sakka::{alignment_padding, Error};

#[test]
fn returns_zero_when_already_aligned() {
    assert_eq!(alignment_padding(0, 8).unwrap(), 0);
    assert_eq!(alignment_padding(8, 8).unwrap(), 0);
    assert_eq!(alignment_padding(16, 8).unwrap(), 0);
}

#[test]
fn computes_padding_for_unaligned_positions() {
    assert_eq!(alignment_padding(1, 8).unwrap(), 7);
    assert_eq!(alignment_padding(5, 4).unwrap(), 3);
    assert_eq!(alignment_padding(13, 8).unwrap(), 3);
    assert_eq!(alignment_padding(15, 8).unwrap(), 1);
}

#[test]
fn rejects_invalid_alignments() {
    assert!(matches!(alignment_padding(10, 0), Err(Error::InvalidAlignment)));
    assert!(matches!(alignment_padding(10, 3), Err(Error::InvalidAlignment)));
    assert!(matches!(alignment_padding(10, 6), Err(Error::InvalidAlignment)));
}

#[test]
fn padding_reaches_next_multiple_for_every_power_of_two() {
    for shift in 0..12 {
        let alignment = 1usize << shift;
        for position in 0..100usize {
            let padding = alignment_padding(position, alignment).unwrap();
            assert!(padding < alignment);
            assert_eq!((position + padding) % alignment, 0);
        }
    }
}

#[test]
fn alignment_one_never_pads_and_large_positions_do_not_overflow() {
    assert_eq!(alignment_padding(usize::MAX, 1).unwrap(), 0);
    assert_eq!(alignment_padding(usize::MAX, 2).unwrap(), 1);
    assert_eq!(alignment_padding(usize::MAX - 7, 8).unwrap(), 0);
    assert!(matches!(alignment_padding(0, usize::MAX), Err(Error::InvalidAlignment)));
}
