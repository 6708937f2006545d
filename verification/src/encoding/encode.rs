use vstd::prelude::*;
use crate::error::Error;
use crate::rw::writer::{Writer, WriterView};

verus! {

/// A trait for types that can be encoded into a `Writer`.
pub trait Encode<Ctx = ()> where Self::Error: From<Error> {
    type Error;

    /// What encoding `self` into a writer in state `w` reports, and the state it leaves the
    /// writer in. The implementations of this crate define it. One that does not (such as an
    /// implementation written outside Verus, which has no spec functions) gets `arbitrary()`: a
    /// single value, the same for every argument, of which nothing is known.
    open spec fn spec_encode(&self, w: WriterView<Ctx>) -> (Result<(), Self::Error>, WriterView<Ctx>) {
        arbitrary()
    }

    /// Encodes a value of this type into the given writer.
    fn encode(&self, w: &mut Writer<Ctx>) -> (res: Result<(), Self::Error>)
        ensures
            (res, final(w)@) == self.spec_encode(old(w)@),
    ;
}

} // verus!
