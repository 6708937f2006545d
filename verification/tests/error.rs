use sakka::Error;

#[test]
fn every_error_has_its_message() {
    assert_eq!(Error::OutOfBounds.message(), "Out of bounds");
    assert_eq!(Error::InvalidAlignment.message(), "Invalid alignment");
    assert_eq!(Error::CollectionLengthOverflow.message(), "Collection length overflow");
    assert_eq!(Error::CollectionLengthNegative.message(), "Collection length is negative");
}
