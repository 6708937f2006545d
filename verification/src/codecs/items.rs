use vstd::prelude::*;
use crate::encoding::codec::{outcome_matches, Codec};
use crate::error::Error;
use vstd::std_specs::convert::FromSpec;
use crate::rw::collection::{
    decode_many, encode_many, lemma_decode_many_error_persists, lemma_encode_many_error_persists,
    vec_result,
};
use crate::rw::reader::{Reader, ReaderView};
use crate::rw::writer::{Writer, WriterView};

verus! {

/// Encoding `items` one after another with the codec `C`.
pub open spec fn codec_encode_seq<C: Codec<T, Ctx>, T, Ctx>(items: Seq<T>, w: WriterView<Ctx>) -> (Result<(), C::Error>, WriterView<Ctx>) {
    encode_many(items, w, |x: T, w1: WriterView<Ctx>| C::spec_encode(x, w1))
}

/// Decoding `n` values one after another with the codec `C`.
pub open spec fn codec_decode_seq<C: Codec<T, Ctx>, T, Ctx>(r: ReaderView<Ctx>, n: nat) -> (Result<Seq<T>, C::Error>, ReaderView<Ctx>) {
    decode_many(r, n, |r1: ReaderView<Ctx>| C::spec_decode(r1))
}

/// Whether the values of `a` are, one by one, those of `b` as the codec `C` counts them.
pub open spec fn same_values<C: Codec<T, Ctx>, T, Ctx>(a: Seq<T>, b: Seq<T>) -> bool {
    a.len() == b.len() && forall|i: int| 0 <= i < a.len() ==> #[trigger] C::same_value(a[i], b[i])
}

/// Whether the values of `a` and of `b` are, one by one, those of one and the same sequence as
/// the codec `C` counts them.
pub open spec fn same_values_as_one<C: Codec<T, Ctx>, T, Ctx>(a: Seq<T>, b: Seq<T>) -> bool {
    exists|s: Seq<T>| same_values::<C, T, Ctx>(a, s) && #[trigger] same_values::<C, T, Ctx>(b, s)
}

/// Whether `actual` is the outcome of decoding several values with `C` that `expected`
/// describes: values that `C` counts as the same on success, and an error on failure.
pub open spec fn decoded_seq_matches<C: Codec<T, Ctx>, T, Ctx>(actual: Result<Seq<T>, C::Error>, expected: Result<Seq<T>, C::Error>) -> bool {
    match expected {
        Ok(s) => actual matches Ok(a) && same_values::<C, T, Ctx>(a, s),
        Err(e) => actual is Err && (<C::Error as FromSpec<Error>>::obeys_from_spec() ==> actual == Err::<Seq<T>, C::Error>(e)),
    }
}

/// Encodes the items one after another with the codec `C`, stopping at the first error.
pub(crate) fn codec_encode_items<C: Codec<T, Ctx>, T, Ctx>(w: &mut Writer<Ctx>, items: &[T]) -> (r: Result<(), C::Error>)
    ensures
        final(w)@ == codec_encode_seq::<C, T, Ctx>(items@, old(w)@).1,
        outcome_matches(r, codec_encode_seq::<C, T, Ctx>(items@, old(w)@).0),
{
    let n = items.len();
    let mut i: usize = 0;
    assert(items@.take(0) =~= Seq::<T>::empty());
    while i < n
        invariant
            n == items@.len(),
            i <= n,
            (Ok::<(), C::Error>(()), w@) == codec_encode_seq::<C, T, Ctx>(items@.take(i as int), old(w)@),
        decreases n - i,
    {
        assert(items@.take(i + 1).drop_last() =~= items@.take(i as int));
        let item = &items[i];
        assert(*item == items@.take(i + 1).last());
        match C::encode(item, w) {
            Ok(u) => {
                assert(u == ());
            },
            Err(e) => {
                proof {
                    lemma_encode_many_error_persists(
                        items@,
                        (i + 1) as nat,
                        old(w)@,
                        |x: T, w1: WriterView<Ctx>| C::spec_encode(x, w1),
                    );
                }
                return Err(e);
            },
        }
        i = i + 1;
    }
    assert(items@.take(n as int) =~= items@);
    Ok(())
}

/// Decodes `len` values one after another with the codec `C`, stopping at the first error.
pub(crate) fn codec_decode_items<C: Codec<T, Ctx>, T, Ctx>(rd: &mut Reader<'_, Ctx>, len: usize) -> (r: Result<Vec<T>, C::Error>)
    ensures
        final(rd)@ == codec_decode_seq::<C, T, Ctx>(old(rd)@, len as nat).1,
        decoded_seq_matches::<C, T, Ctx>(vec_result(r), codec_decode_seq::<C, T, Ctx>(old(rd)@, len as nat).0),
{
    let mut vec: Vec<T> = Vec::new();
    let mut i: usize = 0;
    while i < len
        invariant
            i <= len,
            rd@ == codec_decode_seq::<C, T, Ctx>(old(rd)@, i as nat).1,
            codec_decode_seq::<C, T, Ctx>(old(rd)@, i as nat).0 matches Ok(s) && same_values::<C, T, Ctx>(vec@, s),
        decreases len - i,
    {
        let ghost prev = vec@;
        match C::decode(rd) {
            Ok(v) => {
                vec.push(v);
                assert(vec@ =~= prev.push(v));
            },
            Err(e) => {
                proof {
                    lemma_decode_many_error_persists(
                        old(rd)@,
                        (i + 1) as nat,
                        len as nat,
                        |r1: ReaderView<Ctx>| C::spec_decode(r1),
                    );
                }
                return Err(e);
            },
        }
        i = i + 1;
    }
    Ok(vec)
}

} // verus!
