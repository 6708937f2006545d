use vstd::prelude::*;
use vstd::std_specs::convert::FromSpec;
use crate::error::Error;
use crate::rw::reader::{Reader, ReaderView};
use crate::rw::writer::{Writer, WriterView};

verus! {

/// Whether `actual` is the outcome that `expected` describes: the same value on success, and
/// an error on failure, the very same one wherever `E`'s conversion from [Error] is specified
/// (a codec turns the reader's and writer's own errors into `E` through `From`).
pub open spec fn outcome_matches<T, E: From<Error>>(actual: Result<T, E>, expected: Result<T, E>) -> bool {
    match expected {
        Ok(v) => actual == Ok::<T, E>(v),
        Err(e) => actual is Err && (<E as FromSpec<Error>>::obeys_from_spec() ==> actual == Err::<T, E>(e)),
    }
}

/// The error `e` converted into `E`, as `E`'s `From` implementation specifies it.
pub open spec fn lifted<E: From<Error>>(e: Error) -> E {
    <E as FromSpec<Error>>::from_spec(e)
}

/// Converts one of the reader's or writer's own errors into a codec's error type.
pub(crate) fn lift_error<E: From<Error>>(e: Error) -> (r: E)
    ensures
        <E as FromSpec<Error>>::obeys_from_spec() ==> r == lifted::<E>(e),
{
    E::from(e)
}

/// A way of encoding and decoding values of `T` that is chosen by a type of its own, in place of
/// `T`'s [Encode](crate::Encode) and [Decode](crate::Decode).
pub trait Codec<T, Ctx = ()> where Self::Error: From<Error> {
    type Error;

    /// What encoding `value` into a writer in state `w` reports, and the state it leaves the
    /// writer in. The codecs of this crate define it. One that does not (such as an
    /// implementation written outside Verus, which has no spec functions) gets `arbitrary()`: a
    /// single value, the same for every argument, of which nothing is known.
    open spec fn spec_encode(value: T, w: WriterView<Ctx>) -> (Result<(), Self::Error>, WriterView<Ctx>) {
        arbitrary()
    }

    /// What decoding from a reader in state `r` yields, and the state it leaves the reader in.
    /// The codecs of this crate define it. One that does not (such as an
    /// implementation written outside Verus, which has no spec functions) gets `arbitrary()`: a
    /// single value, the same for every argument, of which nothing is known.
    open spec fn spec_decode(r: ReaderView<Ctx>) -> (Result<T, Self::Error>, ReaderView<Ctx>) {
        arbitrary()
    }

    /// Whether `a` and `b` are the same decoded value. Equality, unless the codec says otherwise
    /// (a vector is known only by its elements).
    open spec fn same_value(a: T, b: T) -> bool {
        a == b
    }

    /// Encodes `value` into the writer.
    fn encode(value: &T, writer: &mut Writer<Ctx>) -> (r: Result<(), Self::Error>)
        ensures
            final(writer)@ == Self::spec_encode(*value, old(writer)@).1,
            outcome_matches(r, Self::spec_encode(*value, old(writer)@).0),
    ;

    /// Decodes a value from the reader.
    fn decode(reader: &mut Reader<'_, Ctx>) -> (r: Result<T, Self::Error>)
        ensures
            final(reader)@ == Self::spec_decode(old(reader)@).1,
            match Self::spec_decode(old(reader)@).0 {
                Ok(v) => r matches Ok(a) && Self::same_value(a, v),
                Err(e) => outcome_matches(r, Err(e)),
            },
    ;
}

} // verus!
