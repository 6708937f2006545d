use vstd::prelude::*;
use crate::codecs::array::ArrayCodec;
use crate::codecs::derived::DerivedCodec;
use crate::codecs::items::{codec_decode_seq, codec_encode_seq, same_values, same_values_as_one};
use crate::codecs::option::{OptionBoolCodec, OptionEofCodec};
use crate::codecs::vec::{vec_like, VecPrefixCodec};
use crate::common::endian::{lemma_pow256_values, lemma_uint_roundtrip, uint_bytes};
use crate::encoding::codec::Codec;
use crate::encoding::collection::lemma_array_of_seq;
use crate::encoding::decode::Decode;
use crate::encoding::encode::Encode;
use crate::error::Error;
use crate::roundtrip::{
    bytes_added, decodes_back, lemma_read_unsigned_next, lemma_reads_next_split, lengths_come_back,
    reads_next,
};
use crate::rw::collection::{length_of_usize, length_to_usize, CollectionLength};
use crate::rw::reader::ReaderView;
use crate::rw::writer::WriterView;

verus! {

/// Whether encoding `v` with the codec `C` into a writer in state `w` succeeds and only adds
/// bytes at the end, and decoding with `C`, from any reader in the same byte order whose next
/// bytes are those added, gives a value that `C` counts as the same as `v` and moves the reader
/// just past them.
pub open spec fn codec_decodes_back<C: Codec<T, Ctx>, T, Ctx>(v: T, w: WriterView<Ctx>) -> bool {
    let (res, w2) = C::spec_encode(v, w);
    let added = bytes_added(w, w2);
    &&& res is Ok
    &&& w2 == w.appended(added)
    &&& forall|r: ReaderView<Ctx>| reads_next(r, w.endian, added) ==> {
        &&& (#[trigger] C::spec_decode(r)).1 == r.advanced(added.len() as int)
        &&& C::spec_decode(r).0 matches Ok(u) && C::same_value(v, u)
    }
}

/// Whether every value decodes back with the codec `C`, whatever the writer held before.
pub open spec fn codec_all_decode_back<C: Codec<T, Ctx>, T, Ctx>() -> bool {
    forall|v: T, w: WriterView<Ctx>| #[trigger] codec_decodes_back::<C, T, Ctx>(v, w)
}

/// A value that decodes back with its own [Encode] and [Decode] decodes back with the
/// [DerivedCodec].
pub proof fn lemma_derived_codec_decodes_back<T, Ctx, E>(v: T, w: WriterView<Ctx>)
    where
        T: Encode<Ctx, Error = E> + Decode<Ctx, Error = E>,
        E: From<Error>,
    requires
        decodes_back::<T, Ctx>(v, w),
    ensures
        codec_decodes_back::<DerivedCodec<T>, T, Ctx>(v, w),
{
}

/// Encoding a run of values with `C` and decoding as many with `C` gives values that `C` counts
/// as the same, one by one, when every value decodes back with `C`.
pub proof fn lemma_codec_seq_decodes_back<C: Codec<T, Ctx>, T, Ctx>(items: Seq<T>, w: WriterView<Ctx>)
    requires
        codec_all_decode_back::<C, T, Ctx>(),
    ensures
        ({
            let (res, w2) = codec_encode_seq::<C, T, Ctx>(items, w);
            let added = bytes_added(w, w2);
            &&& res is Ok
            &&& w2 == w.appended(added)
            &&& forall|r: ReaderView<Ctx>| reads_next(r, w.endian, added) ==> {
                &&& (#[trigger] codec_decode_seq::<C, T, Ctx>(r, items.len())).1 == r.advanced(added.len() as int)
                &&& codec_decode_seq::<C, T, Ctx>(r, items.len()).0 matches Ok(s) && same_values::<C, T, Ctx>(items, s)
            }
        }),
    decreases items.len(),
{
    if items.len() == 0 {
        assert(bytes_added(w, w) =~= Seq::<u8>::empty());
        assert(w.appended(Seq::<u8>::empty()) =~= w) by {
            assert(w.bytes + Seq::<u8>::empty() =~= w.bytes);
        }
        assert forall|r: ReaderView<Ctx>| reads_next(r, w.endian, Seq::<u8>::empty()) implies {
            &&& (#[trigger] codec_decode_seq::<C, T, Ctx>(r, items.len())).1 == r.advanced(0)
            &&& codec_decode_seq::<C, T, Ctx>(r, items.len()).0 matches Ok(s) && same_values::<C, T, Ctx>(items, s)
        } by {
            assert(r.advanced(0) =~= r);
        }
    } else {
        let prefix = items.drop_last();
        let last = items.last();
        lemma_codec_seq_decodes_back::<C, T, Ctx>(prefix, w);
        let (_, w1) = codec_encode_seq::<C, T, Ctx>(prefix, w);
        let a1 = bytes_added(w, w1);
        assert(codec_decodes_back::<C, T, Ctx>(last, w1));
        let (_, w2) = C::spec_encode(last, w1);
        let a2 = bytes_added(w1, w2);
        assert(codec_encode_seq::<C, T, Ctx>(items, w) == C::spec_encode(last, w1));
        assert(w2.bytes =~= w.bytes + (a1 + a2));
        assert(bytes_added(w, w2) =~= a1 + a2);
        assert forall|r: ReaderView<Ctx>| reads_next(r, w.endian, a1 + a2) implies {
            &&& (#[trigger] codec_decode_seq::<C, T, Ctx>(r, items.len())).1 == r.advanced((a1 + a2).len() as int)
            &&& codec_decode_seq::<C, T, Ctx>(r, items.len()).0 matches Ok(s) && same_values::<C, T, Ctx>(items, s)
        } by {
            lemma_reads_next_split(r, w.endian, a1, a2);
            let r1 = r.advanced(a1.len() as int);
            let (d1, dr1) = codec_decode_seq::<C, T, Ctx>(r, prefix.len());
            assert(dr1 == r1);
            let s1 = d1->Ok_0;
            assert(same_values::<C, T, Ctx>(prefix, s1));
            let (d2, dr2) = C::spec_decode(r1);
            let u = d2->Ok_0;
            assert(C::same_value(last, u));
            assert(codec_decode_seq::<C, T, Ctx>(r, items.len()) == (Ok::<Seq<T>, C::Error>(s1.push(u)), dr2));
            assert(dr2 =~= r.advanced((a1 + a2).len() as int));
            assert forall|i: int| 0 <= i < items.len() implies #[trigger] C::same_value(items[i], s1.push(u)[i]) by {
                if i < prefix.len() {
                    assert(items[i] == prefix[i]);
                    assert(C::same_value(prefix[i], s1[i]));
                }
            }
        }
    }
}

/// An array decodes back with the [ArrayCodec] of a codec that every element decodes back with.
pub proof fn lemma_array_codec_decodes_back<C: Codec<T, Ctx>, T, Ctx, const N: usize>(a: [T; N], w: WriterView<Ctx>)
    requires
        codec_all_decode_back::<C, T, Ctx>(),
    ensures
        codec_decodes_back::<ArrayCodec<C>, [T; N], Ctx>(a, w),
{
    vstd::array::array_len_matches_n(&a);
    lemma_codec_seq_decodes_back::<C, T, Ctx>(a@, w);
    let (_, w2) = codec_encode_seq::<C, T, Ctx>(a@, w);
    let added = bytes_added(w, w2);
    assert forall|r: ReaderView<Ctx>| reads_next(r, w.endian, added) implies {
        &&& (#[trigger] <ArrayCodec<C> as Codec<[T; N], Ctx>>::spec_decode(r)).1 == r.advanced(added.len() as int)
        &&& <ArrayCodec<C> as Codec<[T; N], Ctx>>::spec_decode(r).0 matches Ok(u)
            && <ArrayCodec<C> as Codec<[T; N], Ctx>>::same_value(a, u)
    } by {
        let s = codec_decode_seq::<C, T, Ctx>(r, N as nat).0->Ok_0;
        lemma_array_of_seq(a, s);
    }
}

/// An optional value decodes back with the [OptionBoolCodec] of a codec that every value decodes
/// back with.
pub proof fn lemma_option_bool_codec_decodes_back<C: Codec<T, Ctx>, T, Ctx>(v: Option<T>, w: WriterView<Ctx>)
    requires
        codec_all_decode_back::<C, T, Ctx>(),
    ensures
        codec_decodes_back::<OptionBoolCodec<C>, Option<T>, Ctx>(v, w),
{
    lemma_pow256_values();
    let e = w.endian;
    let tag: u8 = if v is Some { 1 } else { 0 };
    let w1 = w.appended(seq![tag]);
    assert(bytes_added(w, w1) =~= seq![tag]);
    lemma_uint_roundtrip(e, tag as nat, 1);
    assert(uint_bytes(e, tag as nat, 1) =~= seq![tag]) by {
        reveal_with_fuel(crate::common::endian::le_bytes, 2);
    }
    match v {
        None => {
            assert forall|r: ReaderView<Ctx>| reads_next(r, e, seq![tag]) implies {
                &&& (#[trigger] <OptionBoolCodec<C> as Codec<Option<T>, Ctx>>::spec_decode(r)).1 == r.advanced(1)
                &&& <OptionBoolCodec<C> as Codec<Option<T>, Ctx>>::spec_decode(r).0 matches Ok(u)
                    && <OptionBoolCodec<C> as Codec<Option<T>, Ctx>>::same_value(v, u)
            } by {
                lemma_read_unsigned_next(r, tag as nat, 1);
            }
        },
        Some(x) => {
            assert(codec_decodes_back::<C, T, Ctx>(x, w1));
            let (_, w2) = C::spec_encode(x, w1);
            let a2 = bytes_added(w1, w2);
            assert(w2.bytes =~= w.bytes + (seq![tag] + a2));
            assert(bytes_added(w, w2) =~= seq![tag] + a2);
            assert forall|r: ReaderView<Ctx>| reads_next(r, e, seq![tag] + a2) implies {
                &&& (#[trigger] <OptionBoolCodec<C> as Codec<Option<T>, Ctx>>::spec_decode(r)).1
                    == r.advanced((seq![tag] + a2).len() as int)
                &&& <OptionBoolCodec<C> as Codec<Option<T>, Ctx>>::spec_decode(r).0 matches Ok(u)
                    && <OptionBoolCodec<C> as Codec<Option<T>, Ctx>>::same_value(v, u)
            } by {
                lemma_reads_next_split(r, e, seq![tag], a2);
                lemma_read_unsigned_next(r, tag as nat, 1);
                let r1 = r.advanced(1);
                assert(C::spec_decode(r1).1 =~= r.advanced((seq![tag] + a2).len() as int));
            }
        },
    }
}

/// A present value decodes back with the [OptionEofCodec] of a codec that every value decodes
/// back with, when `C` writes at least one byte for it (else a reader at its end reads `None`);
/// an absent one writes nothing and decodes back from a reader at its end.
pub proof fn lemma_option_eof_codec_decodes_back<C: Codec<T, Ctx>, T, Ctx>(v: Option<T>, w: WriterView<Ctx>)
    requires
        codec_all_decode_back::<C, T, Ctx>(),
    ensures
        v matches Some(x) && bytes_added(w, C::spec_encode(x, w).1).len() > 0
            ==> codec_decodes_back::<OptionEofCodec<C>, Option<T>, Ctx>(v, w),
        v is None ==> <OptionEofCodec<C> as Codec<Option<T>, Ctx>>::spec_encode(v, w) == (Ok::<(), C::Error>(()), w),
        forall|r: ReaderView<Ctx>| r.remaining() == 0 ==>
            #[trigger] <OptionEofCodec<C> as Codec<Option<T>, Ctx>>::spec_decode(r) == (Ok::<Option<T>, C::Error>(None), r),
{
    if let Some(x) = v {
        if bytes_added(w, C::spec_encode(x, w).1).len() > 0 {
            assert(codec_decodes_back::<C, T, Ctx>(x, w));
        }
    }
}

/// A vector decodes back with the [VecPrefixCodec] when its elements all decode back with `C`,
/// the lengths of type `L` decode back and come back, and `L` can stand for its length.
pub proof fn lemma_vec_prefix_codec_decodes_back<L, C, T, Ctx>(v: Vec<T>, w: WriterView<Ctx>)
    where
        L: Decode<Ctx, Error = Error> + Encode<Ctx, Error = Error> + CollectionLength,
        C: Codec<T, Ctx>,
    requires
        codec_all_decode_back::<C, T, Ctx>(),
        forall|l: L, w1: WriterView<Ctx>| #[trigger] decodes_back::<L, Ctx>(l, w1),
        lengths_come_back::<L>(),
        L::spec_of_length(v@.len()) is Some,
    ensures
        codec_decodes_back::<VecPrefixCodec<L, C>, Vec<T>, Ctx>(v, w),
{
    let items = v@;
    assert(v.len() == items.len());
    let l = L::spec_of_length(items.len())->Some_0;
    assert(length_of_usize::<L>(items.len() as usize) == Ok::<L, Error>(l));
    assert(decodes_back::<L, Ctx>(l, w));
    let (_, w1) = l.spec_encode(w);
    let a1 = bytes_added(w, w1);
    lemma_codec_seq_decodes_back::<C, T, Ctx>(items, w1);
    let (_, w2) = codec_encode_seq::<C, T, Ctx>(items, w1);
    let a2 = bytes_added(w1, w2);
    assert(w2.bytes =~= w.bytes + (a1 + a2));
    assert(bytes_added(w, w2) =~= a1 + a2);
    assert forall|r: ReaderView<Ctx>| reads_next(r, w.endian, a1 + a2) implies {
        &&& (#[trigger] <VecPrefixCodec<L, C> as Codec<Vec<T>, Ctx>>::spec_decode(r)).1
            == r.advanced((a1 + a2).len() as int)
        &&& <VecPrefixCodec<L, C> as Codec<Vec<T>, Ctx>>::spec_decode(r).0 matches Ok(u)
            && <VecPrefixCodec<L, C> as Codec<Vec<T>, Ctx>>::same_value(v, u)
    } by {
        lemma_reads_next_split(r, w.endian, a1, a2);
        let r1 = r.advanced(a1.len() as int);
        assert(L::spec_decode(r) == (Ok::<L, Error>(l), r1));
        assert(length_to_usize(l.spec_length()) == Ok::<usize, Error>(items.len() as usize));
        let (d, r2) = codec_decode_seq::<C, T, Ctx>(r1, items.len());
        let s = d->Ok_0;
        assert(same_values::<C, T, Ctx>(items, s));
        assert(r2 =~= r.advanced((a1 + a2).len() as int));
        let u = vec_like::<C, T, Ctx>(s);
        assert(same_values::<C, T, Ctx>(u@, s));
        assert(same_values_as_one::<C, T, Ctx>(v@, u@));
    }
}

} // verus!
