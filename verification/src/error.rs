use vstd::prelude::*;

verus! {

/// The errors that reading and writing report.
#[derive(Debug, PartialEq, Eq, Structural)]
#[non_exhaustive]
pub enum Error {
    /// A read, seek or skip would leave the underlying data.
    OutOfBounds,
    /// An alignment is zero or not a power of two.
    InvalidAlignment,
    /// A collection length does not fit the target integer type.
    CollectionLengthOverflow,
    /// A collection length read from the data is negative.
    CollectionLengthNegative,
}

impl Error {
    /// The message that describes the error.
    pub fn message(&self) -> (s: &'static str)
        ensures
            s@ == match *self {
                Error::OutOfBounds => "Out of bounds"@,
                Error::InvalidAlignment => "Invalid alignment"@,
                Error::CollectionLengthOverflow => "Collection length overflow"@,
                Error::CollectionLengthNegative => "Collection length is negative"@,
            },
    {
        match self {
            Error::OutOfBounds => "Out of bounds",
            Error::InvalidAlignment => "Invalid alignment",
            Error::CollectionLengthOverflow => "Collection length overflow",
            Error::CollectionLengthNegative => "Collection length is negative",
        }
    }
}

} // verus!
