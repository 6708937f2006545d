use vstd::prelude::*;
use core::marker::PhantomData;
use crate::codecs::items::{codec_decode_items, codec_decode_seq, codec_encode_items, codec_encode_seq, same_values};
use crate::encoding::codec::Codec;
use crate::encoding::collection::{array_of_seq, lemma_array_of_seq};
use crate::rw::collection::{array_from_vec, lemma_decode_many_len};
use crate::rw::reader::{Reader, ReaderView};
use crate::rw::writer::{Writer, WriterView};

verus! {

/// A codec for arrays that encodes and decodes each element with the codec `C`.
pub struct ArrayCodec<C>(PhantomData<C>);

impl<C, T, Ctx, const N: usize> Codec<[T; N], Ctx> for ArrayCodec<C> where C: Codec<T, Ctx> {
    type Error = C::Error;

    /// Arrays whose elements `C` counts as the same, one by one.
    open spec fn same_value(a: [T; N], b: [T; N]) -> bool {
        same_values::<C, T, Ctx>(a@, b@)
    }

    /// The elements, encoded with `C` one after another from the first.
    open spec fn spec_encode(value: [T; N], w: WriterView<Ctx>) -> (Result<(), C::Error>, WriterView<Ctx>) {
        codec_encode_seq::<C, T, Ctx>(value@, w)
    }

    /// `N` values, decoded with `C` one after another.
    open spec fn spec_decode(r: ReaderView<Ctx>) -> (Result<[T; N], C::Error>, ReaderView<Ctx>) {
        let (items, r1) = codec_decode_seq::<C, T, Ctx>(r, N as nat);
        match items {
            Ok(s) => (Ok(array_of_seq::<T, N>(s)), r1),
            Err(e) => (Err(e), r1),
        }
    }

    fn encode(value: &[T; N], writer: &mut Writer<Ctx>) -> (r: Result<(), C::Error>) {
        codec_encode_items::<C, T, Ctx>(writer, value.as_slice())
    }

    fn decode(reader: &mut Reader<'_, Ctx>) -> (r: Result<[T; N], C::Error>) {
        match codec_decode_items::<C, T, Ctx>(reader, N) {
            Ok(v) => {
                proof {
                    lemma_decode_many_len(old(reader)@, N as nat, |r1: ReaderView<Ctx>| C::spec_decode(r1));
                }
                let a: [T; N] = array_from_vec(v);
                proof {
                    let s = codec_decode_seq::<C, T, Ctx>(old(reader)@, N as nat).0->Ok_0;
                    lemma_array_of_seq(a, s);
                }
                Ok(a)
            },
            Err(e) => Err(e),
        }
    }
}

} // verus!
