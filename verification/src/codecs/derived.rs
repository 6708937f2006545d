use vstd::prelude::*;
use core::marker::PhantomData;
use crate::encoding::codec::Codec;
use crate::encoding::decode::Decode;
use crate::encoding::encode::Encode;
use crate::error::Error;
use crate::rw::reader::{Reader, ReaderView};
use crate::rw::writer::{Writer, WriterView};

verus! {

/// The codec that encodes and decodes with `T`'s own [Encode] and [Decode].
pub struct DerivedCodec<T>(PhantomData<T>);

impl<T, Ctx, E> Codec<T, Ctx> for DerivedCodec<T> where
    T: Encode<Ctx, Error = E> + Decode<Ctx, Error = E>,
    E: From<Error>,
 {
    type Error = E;

    /// What `T`'s own encoding does.
    open spec fn spec_encode(value: T, w: WriterView<Ctx>) -> (Result<(), E>, WriterView<Ctx>) {
        value.spec_encode(w)
    }

    /// What `T`'s own decoding does.
    open spec fn spec_decode(r: ReaderView<Ctx>) -> (Result<T, E>, ReaderView<Ctx>) {
        T::spec_decode(r)
    }

    fn encode(value: &T, writer: &mut Writer<Ctx>) -> (r: Result<(), E>) {
        value.encode(writer)
    }

    fn decode(reader: &mut Reader<'_, Ctx>) -> (r: Result<T, E>) {
        T::decode(reader)
    }
}

} // verus!
