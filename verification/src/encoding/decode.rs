use vstd::prelude::*;
use crate::error::Error;
use crate::rw::reader::{Reader, ReaderView};

verus! {

/// A trait for types that can be decoded from a `Reader`.
pub trait Decode<Ctx = ()>: Sized where Self::Error: From<Error> {
    type Error;

    /// What decoding from a reader in state `r` yields, and the state it leaves the reader in.
    /// The implementations of this crate define it. One that does not (such as an
    /// implementation written outside Verus, which has no spec functions) gets `arbitrary()`: a
    /// single value, the same for every argument, of which nothing is known.
    open spec fn spec_decode(r: ReaderView<Ctx>) -> (Result<Self, Self::Error>, ReaderView<Ctx>) {
        arbitrary()
    }

    /// Decodes a value of this type from the given reader.
    fn decode(r: &mut Reader<'_, Ctx>) -> (res: Result<Self, Self::Error>)
        ensures
            (res, final(r)@) == Self::spec_decode(old(r)@),
    ;
}

} // verus!
