use vstd::prelude::*;
use core::marker::PhantomData;
use crate::codecs::items::{codec_decode_items, codec_decode_seq, codec_encode_items, codec_encode_seq, same_values, same_values_as_one};
use crate::encoding::codec::{lift_error, lifted, Codec};
use crate::encoding::decode::Decode;
use crate::encoding::encode::Encode;
use crate::error::Error;
use crate::rw::collection::{length_of_usize, length_to_usize, CollectionLength};
use crate::rw::reader::{Reader, ReaderView};
use crate::rw::writer::{Writer, WriterView};

verus! {

/// A codec for vectors that writes the number of elements as an `L` before the elements, which
/// it encodes and decodes with the codec `C`.
pub struct VecPrefixCodec<L, C>(PhantomData<(L, C)>);

impl<L, C, T, Ctx> Codec<Vec<T>, Ctx> for VecPrefixCodec<L, C> where
    L: Decode<Ctx, Error = Error> + Encode<Ctx, Error = Error> + CollectionLength,
    C: Codec<T, Ctx>,
 {
    type Error = C::Error;

    /// Vectors whose elements `C` counts, one by one, as those of one and the same sequence.
    open spec fn same_value(a: Vec<T>, b: Vec<T>) -> bool {
        same_values_as_one::<C, T, Ctx>(a@, b@)
    }

    /// The number of elements as an `L`, then the elements encoded with `C`.
    open spec fn spec_encode(value: Vec<T>, w: WriterView<Ctx>) -> (Result<(), C::Error>, WriterView<Ctx>) {
        match length_of_usize::<L>(value@.len() as usize) {
            Err(e) => (Err(lifted::<C::Error>(e)), w),
            Ok(l) => {
                let (res, w1) = l.spec_encode(w);
                match res {
                    Err(e) => (Err(lifted::<C::Error>(e)), w1),
                    Ok(_) => codec_encode_seq::<C, T, Ctx>(value@, w1),
                }
            },
        }
    }

    /// A length as an `L`, then that many elements decoded with `C`.
    open spec fn spec_decode(r: ReaderView<Ctx>) -> (Result<Vec<T>, C::Error>, ReaderView<Ctx>) {
        let (len, r1) = L::spec_decode(r);
        match len {
            Err(e) => (Err(lifted::<C::Error>(e)), r1),
            Ok(l) => match length_to_usize(l.spec_length()) {
                Err(e) => (Err(lifted::<C::Error>(e)), r1),
                Ok(n) => {
                    let (items, r2) = codec_decode_seq::<C, T, Ctx>(r1, n as nat);
                    match items {
                        Ok(s) => (Ok(vec_like::<C, T, Ctx>(s)), r2),
                        Err(e) => (Err(e), r2),
                    }
                },
            },
        }
    }

    fn encode(value: &Vec<T>, writer: &mut Writer<Ctx>) -> (r: Result<(), C::Error>) {
        let prefix = match L::try_from_usize(value.len()) {
            Ok(l) => l,
            Err(e) => return Err(lift_error(e)),
        };
        match writer.write(&prefix) {
            Ok(()) => {},
            Err(e) => return Err(lift_error(e)),
        }
        codec_encode_items::<C, T, Ctx>(writer, value.as_slice())
    }

    fn decode(reader: &mut Reader<'_, Ctx>) -> (r: Result<Vec<T>, C::Error>) {
        let len: L = match reader.read::<L>() {
            Ok(l) => l,
            Err(e) => return Err(lift_error(e)),
        };
        let n = match len.to_usize() {
            Ok(n) => n,
            Err(e) => return Err(lift_error(e)),
        };
        let ghost before = reader@;
        let r = codec_decode_items::<C, T, Ctx>(reader, n);
        proof {
            if let Ok(v) = &r {
                let s = codec_decode_seq::<C, T, Ctx>(before, n as nat).0->Ok_0;
                let c = vec_like::<C, T, Ctx>(s);
                assert(same_values::<C, T, Ctx>(v@, s));
                assert(same_values::<C, T, Ctx>(c@, s));
            }
        }
        r
    }
}

/// A vector whose elements `C` counts as the same as `items`, one by one.
pub open spec fn vec_like<C: Codec<T, Ctx>, T, Ctx>(items: Seq<T>) -> Vec<T> {
    choose|v: Vec<T>| same_values::<C, T, Ctx>(v@, items)
}

} // verus!
