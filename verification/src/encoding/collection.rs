use vstd::prelude::*;
use crate::encoding::decode::Decode;
use crate::encoding::encode::Encode;
use crate::rw::collection::{
    array_from_vec, decode_items, decode_seq, encode_items, encode_seq, lemma_decode_many_len,
};
use crate::rw::reader::{Reader, ReaderView};
use crate::rw::writer::{Writer, WriterView};

verus! {

/// The array whose elements are `items`, when `items` has `N` of them.
pub open spec fn array_of_seq<T, const N: usize>(items: Seq<T>) -> [T; N] {
    choose|a: [T; N]| a@ == items
}

/// `a` with its first `k` elements replaced by those of `items`.
pub open spec fn overwritten<T, const N: usize>(a: [T; N], items: Seq<T>, k: nat) -> [T; N]
    decreases k,
{
    if k == 0 {
        a
    } else {
        vstd::array::spec_array_update(overwritten(a, items, (k - 1) as nat), k - 1, items[k - 1])
    }
}

proof fn lemma_overwritten<T, const N: usize>(a: [T; N], items: Seq<T>, k: nat)
    requires
        items.len() == N,
        k <= N,
    ensures
        overwritten(a, items, k)@ == items.take(k as int) + a@.skip(k as int),
    decreases k,
{
    vstd::array::array_len_matches_n(&a);
    if k > 0 {
        lemma_overwritten(a, items, (k - 1) as nat);
        let prev = overwritten(a, items, (k - 1) as nat);
        vstd::array::axiom_spec_array_update(prev, k - 1, items[k - 1]);
        assert(overwritten(a, items, k)@ =~= items.take(k as int) + a@.skip(k as int));
    }
}

/// Any `N` values are the elements of an array, [array_of_seq] of them.
pub proof fn lemma_array_of_seq<T, const N: usize>(a: [T; N], items: Seq<T>)
    requires
        items.len() == N,
    ensures
        array_of_seq::<T, N>(items)@ == items,
{
    vstd::array::array_len_matches_n(&a);
    lemma_overwritten(a, items, N as nat);
    assert(items.take(N as int) + a@.skip(N as int) =~= items);
    let b = overwritten(a, items, N as nat);
    assert(b@ == items);
}

impl<Ctx, T, const N: usize> Encode<Ctx> for [T; N] where T: Encode<Ctx> {
    type Error = T::Error;

    /// The elements, encoded one after another from the first.
    open spec fn spec_encode(&self, w: WriterView<Ctx>) -> (Result<(), T::Error>, WriterView<Ctx>) {
        encode_seq::<T, Ctx>(self@, w)
    }

    fn encode(&self, w: &mut Writer<Ctx>) -> (res: Result<(), T::Error>) {
        encode_items::<T, Ctx>(w, self.as_slice())
    }
}

impl<Ctx, T, const N: usize> Decode<Ctx> for [T; N] where T: Decode<Ctx> {
    type Error = T::Error;

    /// `N` values of `T`, decoded one after another.
    open spec fn spec_decode(r: ReaderView<Ctx>) -> (Result<[T; N], T::Error>, ReaderView<Ctx>) {
        let (items, r1) = decode_seq::<T, Ctx>(r, N as nat);
        match items {
            Ok(s) => (Ok(array_of_seq::<T, N>(s)), r1),
            Err(e) => (Err(e), r1),
        }
    }

    fn decode(r: &mut Reader<'_, Ctx>) -> (res: Result<[T; N], T::Error>) {
        match decode_items::<T, Ctx>(r, N) {
            Ok(v) => {
                proof {
                    lemma_decode_many_len(old(r)@, N as nat, |r1: ReaderView<Ctx>| T::spec_decode(r1));
                }
                let a: [T; N] = array_from_vec(v);
                proof {
                    let b = array_of_seq::<T, N>(v@);
                    assert(b@ == v@);
                    vstd::array::axiom_array_ext_equal(a, b);
                    assert(a =~= b);
                }
                Ok(a)
            },
            Err(e) => Err(e),
        }
    }
}

} // verus!
