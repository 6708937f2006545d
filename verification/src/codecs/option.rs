use vstd::prelude::*;
use core::marker::PhantomData;
use crate::encoding::codec::{lift_error, lifted, Codec};
use crate::error::Error;
use crate::rw::primitive::{read_unsigned, ReadPrimitive, WritePrimitive};
use crate::rw::reader::{Reader, ReaderView};
use crate::rw::writer::{Writer, WriterView};

verus! {

/// An outcome of decoding a present value, as an outcome of decoding an `Option`.
pub open spec fn some_outcome<T, E, Ctx>(d: (Result<T, E>, ReaderView<Ctx>)) -> (Result<Option<T>, E>, ReaderView<Ctx>) {
    (
        match d.0 {
            Ok(v) => Ok(Some(v)),
            Err(e) => Err(e),
        },
        d.1,
    )
}

/// Both `None`, or both present with values that `C` counts as the same.
pub open spec fn same_option<C: Codec<T, Ctx>, T, Ctx>(a: Option<T>, b: Option<T>) -> bool {
    match (a, b) {
        (None, None) => true,
        (Some(x), Some(y)) => C::same_value(x, y),
        _ => false,
    }
}

/// A codec for `Option` that writes a presence byte (zero for `None`) before the value, which
/// it encodes and decodes with the codec `C`.
pub struct OptionBoolCodec<C>(PhantomData<C>);

impl<C, T, Ctx> Codec<Option<T>, Ctx> for OptionBoolCodec<C> where C: Codec<T, Ctx> {
    type Error = C::Error;

    /// Both `None`, or both present with values that `C` counts as the same.
    open spec fn same_value(a: Option<T>, b: Option<T>) -> bool {
        same_option::<C, T, Ctx>(a, b)
    }

    /// The byte `0` for `None`; the byte `1` followed by the value for `Some`.
    open spec fn spec_encode(value: Option<T>, w: WriterView<Ctx>) -> (Result<(), C::Error>, WriterView<Ctx>) {
        match value {
            None => (Ok(()), w.appended(seq![0u8])),
            Some(v) => C::spec_encode(v, w.appended(seq![1u8])),
        }
    }

    /// A presence byte, then the value when the byte is not zero.
    open spec fn spec_decode(r: ReaderView<Ctx>) -> (Result<Option<T>, C::Error>, ReaderView<Ctx>) {
        let (tag, r1) = read_unsigned(r, 1);
        match tag {
            Err(e) => (Err(lifted::<C::Error>(e)), r1),
            Ok(b) => if b == 0 {
                (Ok(None), r1)
            } else {
                some_outcome(C::spec_decode(r1))
            },
        }
    }

    fn encode(value: &Option<T>, writer: &mut Writer<Ctx>) -> (r: Result<(), C::Error>)
        ensures
            *value is None ==> r == Ok::<(), C::Error>(()) && final(writer)@ == old(writer)@.appended(seq![0u8]),
            *value matches Some(x) ==> exists|m: &mut Writer<Ctx>| {
                &&& mut_ref_current(m)@ == old(writer)@.appended(seq![1u8])
                &&& mut_ref_future(m)@ == final(writer)@
                &&& call_ensures(C::encode, (&x, m), r)
            },
    {
        match value {
            Some(item) => {
                let _ = writer.write_bool_byte(true);
                let inner = C::encode;
                inner(item, writer)
            },
            None => {
                let _ = writer.write_bool_byte(false);
                Ok(())
            },
        }
    }

    fn decode<'b>(reader: &mut Reader<'b, Ctx>) -> (r: Result<Option<T>, C::Error>)
        ensures
            read_unsigned(old(reader)@, 1).0 == Ok::<int, Error>(0) ==> r == Ok::<Option<T>, C::Error>(None)
                && final(reader)@ == read_unsigned(old(reader)@, 1).1,
            read_unsigned(old(reader)@, 1).0 matches Ok(b) && b != 0 ==> exists|m: &mut Reader<'b, Ctx>, out: Result<T, C::Error>| {
                &&& mut_ref_current(m)@ == read_unsigned(old(reader)@, 1).1
                &&& mut_ref_future(m)@ == final(reader)@
                &&& call_ensures(C::decode, (m,), out)
                &&& r == match out {
                    Ok(v) => Ok::<Option<T>, C::Error>(Some(v)),
                    Err(e) => Err(e),
                }
            },
    {
        let is_some = match reader.read_bool_byte() {
            Ok(b) => b,
            Err(e) => return Err(lift_error(e)),
        };
        if is_some {
            let inner = C::decode;
            match inner(reader) {
                Ok(v) => Ok(Some(v)),
                Err(e) => Err(e),
            }
        } else {
            Ok(None)
        }
    }
}

/// A codec for `Option` that writes nothing for `None` and only the value for `Some`, and
/// decodes `None` exactly when the reader has no bytes left.
pub struct OptionEofCodec<C>(PhantomData<C>);

impl<C, T, Ctx> Codec<Option<T>, Ctx> for OptionEofCodec<C> where C: Codec<T, Ctx> {
    type Error = C::Error;

    /// Both `None`, or both present with values that `C` counts as the same.
    open spec fn same_value(a: Option<T>, b: Option<T>) -> bool {
        same_option::<C, T, Ctx>(a, b)
    }

    /// Nothing for `None`; the value for `Some`.
    open spec fn spec_encode(value: Option<T>, w: WriterView<Ctx>) -> (Result<(), C::Error>, WriterView<Ctx>) {
        match value {
            None => (Ok(()), w),
            Some(v) => C::spec_encode(v, w),
        }
    }

    /// `None` at the end of the data; otherwise the value.
    open spec fn spec_decode(r: ReaderView<Ctx>) -> (Result<Option<T>, C::Error>, ReaderView<Ctx>) {
        if r.remaining() == 0 {
            (Ok(None), r)
        } else {
            some_outcome(C::spec_decode(r))
        }
    }

    fn encode(value: &Option<T>, writer: &mut Writer<Ctx>) -> (r: Result<(), C::Error>)
        ensures
            *value matches Some(x) ==> exists|m: &mut Writer<Ctx>| {
                &&& mut_ref_current(m)@ == old(writer)@
                &&& mut_ref_future(m)@ == final(writer)@
                &&& call_ensures(C::encode, (&x, m), r)
            },
    {
        match value {
            Some(item) => {
                let inner = C::encode;
                inner(item, writer)
            },
            None => Ok(()),
        }
    }

    fn decode<'b>(reader: &mut Reader<'b, Ctx>) -> (r: Result<Option<T>, C::Error>)
        ensures
            old(reader)@.remaining() == 0 ==> r == Ok::<Option<T>, C::Error>(None) && final(reader)@ == old(reader)@,
            old(reader)@.remaining() != 0 ==> exists|m: &mut Reader<'b, Ctx>, out: Result<T, C::Error>| {
                &&& mut_ref_current(m)@ == old(reader)@
                &&& mut_ref_future(m)@ == final(reader)@
                &&& call_ensures(C::decode, (m,), out)
                &&& r == match out {
                    Ok(v) => Ok::<Option<T>, C::Error>(Some(v)),
                    Err(e) => Err(e),
                }
            },
    {
        if reader.is_eof() {
            Ok(None)
        } else {
            let inner = C::decode;
            match inner(reader) {
                Ok(v) => Ok(Some(v)),
                Err(e) => Err(e),
            }
        }
    }
}

} // verus!
