//! What a reader gives back of what a writer wrote.
use vstd::prelude::*;
use crate::common::endian::{
    int_bytes, lemma_int_roundtrip, lemma_pow256_values, lemma_uint_roundtrip, pow256, uint_bytes,
    Endian,
};
use crate::encoding::decode::Decode;
use crate::encoding::encode::Encode;
use crate::error::Error;
use crate::encoding::collection::{array_of_seq, lemma_array_of_seq};
use crate::rw::collection::{
    decode_prefixed, decode_seq, encode_prefixed, encode_seq, length_of_usize, length_to_usize,
    lemma_decode_seq_step, lemma_encode_seq_step, CollectionLength,
};
use crate::rw::calls::{
    lemma_read_calls_decode_err, lemma_read_calls_ok, lemma_write_calls_err, lemma_write_calls_ok,
};
use crate::rw::option::{decode_option, encode_option};
use crate::rw::primitive::{read_signed, read_unsigned, word_bytes};
use crate::rw::reader::{Reader, ReaderView};
use crate::rw::writer::{Writer, WriterView};

verus! {

/// The bytes that a writer in state `after` holds beyond those of `before`.
pub open spec fn bytes_added<Ctx>(before: WriterView<Ctx>, after: WriterView<Ctx>) -> Seq<u8> {
    after.bytes.skip(before.bytes.len() as int)
}

/// Whether the reader `r` reads in the byte order `endian` and its next bytes are `bytes`.
pub open spec fn reads_next<Ctx>(r: ReaderView<Ctx>, endian: Endian, bytes: Seq<u8>) -> bool {
    &&& r.endian == endian
    &&& r.has(bytes.len() as int)
    &&& r.next_bytes(bytes.len() as int) == bytes
}

/// Whether encoding `v` into a writer in state `w` succeeds and only adds bytes at the end, and
/// decoding, from any reader in the same byte order whose next bytes are those added, gives `v`
/// back and moves the reader just past them.
pub open spec fn decodes_back<T: Encode<Ctx> + Decode<Ctx>, Ctx>(v: T, w: WriterView<Ctx>) -> bool {
    let (res, w2) = v.spec_encode(w);
    let added = bytes_added(w, w2);
    &&& res is Ok
    &&& w2 == w.appended(added)
    &&& forall|r: ReaderView<Ctx>|
        reads_next(r, w.endian, added) ==> #[trigger] T::spec_decode(r) == (
            Ok::<T, <T as Decode<Ctx>>::Error>(v),
            r.advanced(added.len() as int),
        )
}

/// Whether every value of `T` decodes back, whatever the writer held before.
pub open spec fn all_decode_back<T: Encode<Ctx> + Decode<Ctx>, Ctx>() -> bool {
    forall|v: T, w: WriterView<Ctx>| #[trigger] decodes_back::<T, Ctx>(v, w)
}

/// Whether encoding `items` one after another into a writer in state `w` succeeds and only adds
/// bytes at the end, and decoding as many values from any reader in the same byte order whose
/// next bytes are those added gives `items` back and moves the reader just past them.
pub open spec fn seq_decodes_back<T: Encode<Ctx> + Decode<Ctx>, Ctx>(items: Seq<T>, w: WriterView<Ctx>) -> bool {
    let (res, w2) = encode_seq(items, w);
    let added = bytes_added(w, w2);
    &&& res is Ok
    &&& w2 == w.appended(added)
    &&& forall|r: ReaderView<Ctx>|
        reads_next(r, w.endian, added) ==> #[trigger] decode_seq::<T, Ctx>(r, items.len()) == (
            Ok::<Seq<T>, <T as Decode<Ctx>>::Error>(items),
            r.advanced(added.len() as int),
        )
}

/// A reader whose next bytes are `a + b` has `a` next, and once past `a` it has `b` next.
pub proof fn lemma_reads_next_split<Ctx>(r: ReaderView<Ctx>, endian: Endian, a: Seq<u8>, b: Seq<u8>)
    requires
        reads_next(r, endian, a + b),
    ensures
        reads_next(r, endian, a),
        reads_next(r.advanced(a.len() as int), endian, b),
{
    assert(r.next_bytes(a.len() as int) =~= (a + b).subrange(0, a.len() as int));
    assert((a + b).subrange(0, a.len() as int) =~= a);
    let r1 = r.advanced(a.len() as int);
    assert(r1.next_bytes(b.len() as int) =~= (a + b).subrange(a.len() as int, (a + b).len() as int));
    assert((a + b).subrange(a.len() as int, (a + b).len() as int) =~= b);
}

/// Any run of values of a type whose values all decode back decodes back, one after another.
pub proof fn lemma_seq_decodes_back<T: Encode<Ctx> + Decode<Ctx>, Ctx>(items: Seq<T>, w: WriterView<Ctx>)
    requires
        all_decode_back::<T, Ctx>(),
    ensures
        seq_decodes_back(items, w),
    decreases items.len(),
{
    if items.len() == 0 {
        assert(bytes_added(w, w) =~= Seq::<u8>::empty());
        assert(w.appended(Seq::<u8>::empty()) =~= w) by {
            assert(w.bytes + Seq::<u8>::empty() =~= w.bytes);
        }
        assert forall|r: ReaderView<Ctx>| reads_next(r, w.endian, Seq::<u8>::empty()) implies
            #[trigger] decode_seq::<T, Ctx>(r, items.len()) == (
                Ok::<Seq<T>, <T as Decode<Ctx>>::Error>(items),
                r.advanced(0),
            ) by {
            assert(items =~= Seq::<T>::empty());
            assert(r.advanced(0) =~= r);
        }
    } else {
        let prefix = items.drop_last();
        let last = items.last();
        lemma_seq_decodes_back(prefix, w);
        lemma_encode_seq_step(items, w);
        let (_, w1) = encode_seq(prefix, w);
        let a1 = bytes_added(w, w1);
        assert(decodes_back::<T, Ctx>(last, w1));
        let (_, w2) = last.spec_encode(w1);
        let a2 = bytes_added(w1, w2);
        assert(encode_seq(items, w) == last.spec_encode(w1));
        assert(w2.bytes =~= w.bytes + (a1 + a2));
        assert(bytes_added(w, w2) =~= a1 + a2);
        assert forall|r: ReaderView<Ctx>| reads_next(r, w.endian, a1 + a2) implies
            #[trigger] decode_seq::<T, Ctx>(r, items.len()) == (
                Ok::<Seq<T>, <T as Decode<Ctx>>::Error>(items),
                r.advanced((a1 + a2).len() as int),
            ) by {
            lemma_reads_next_split(r, w.endian, a1, a2);
            let r1 = r.advanced(a1.len() as int);
            assert(decode_seq::<T, Ctx>(r, prefix.len()) == (Ok::<Seq<T>, <T as Decode<Ctx>>::Error>(prefix), r1));
            assert(T::spec_decode(r1) == (Ok::<T, <T as Decode<Ctx>>::Error>(last), r1.advanced(a2.len() as int)));
            lemma_decode_seq_step::<T, Ctx>(r, prefix.len());
            assert(prefix.push(last) =~= items);
            assert(r1.advanced(a2.len() as int) =~= r.advanced((a1 + a2).len() as int));
        }
    }
}

/// An array of a type whose values all decode back decodes back.
pub proof fn lemma_arrays_decode_back<T: Encode<Ctx> + Decode<Ctx>, Ctx, const N: usize>(a: [T; N], w: WriterView<Ctx>)
    requires
        all_decode_back::<T, Ctx>(),
    ensures
        decodes_back::<[T; N], Ctx>(a, w),
{
    lemma_seq_decodes_back(a@, w);
    vstd::array::array_len_matches_n(&a);
    lemma_array_of_seq(a, a@);
    let b = array_of_seq::<T, N>(a@);
    vstd::array::axiom_array_ext_equal(a, b);
    assert(a =~= b);
}

/// Whether writing the optional `v` into a writer in state `w` succeeds and only adds bytes at
/// the end, and reading an optional value from any reader in the same byte order whose next bytes
/// are those added gives `v` back and moves the reader just past them.
pub open spec fn option_decodes_back<T: Encode<Ctx, Error = Error> + Decode<Ctx, Error = Error>, Ctx>(
    v: Option<T>,
    w: WriterView<Ctx>,
) -> bool {
    let (res, w2) = encode_option(v, w);
    let added = bytes_added(w, w2);
    &&& res is Ok
    &&& w2 == w.appended(added)
    &&& forall|r: ReaderView<Ctx>|
        reads_next(r, w.endian, added) ==> #[trigger] decode_option::<T, Ctx>(r) == (
            Ok::<Option<T>, Error>(v),
            r.advanced(added.len() as int),
        )
}

/// An optional value of a type whose values all decode back decodes back.
pub proof fn lemma_option_decodes_back<T: Encode<Ctx, Error = Error> + Decode<Ctx, Error = Error>, Ctx>(
    v: Option<T>,
    w: WriterView<Ctx>,
)
    requires
        all_decode_back::<T, Ctx>(),
    ensures
        option_decodes_back(v, w),
{
    lemma_pow256_values();
    let e = w.endian;
    let tag: u8 = if v is Some { 1 } else { 0 };
    let w1 = w.appended(seq![tag]);
    lemma_appended_adds(w, seq![tag]);
    lemma_uint_roundtrip(e, tag as nat, 1);
    assert(uint_bytes(e, tag as nat, 1) =~= seq![tag]) by {
        reveal_with_fuel(crate::common::endian::le_bytes, 2);
    }
    match v {
        None => {
            assert forall|r: ReaderView<Ctx>| reads_next(r, e, seq![tag]) implies
                #[trigger] decode_option::<T, Ctx>(r) == (Ok::<Option<T>, Error>(v), r.advanced(1)) by {
                lemma_read_unsigned_next(r, tag as nat, 1);
            }
        },
        Some(x) => {
            assert(decodes_back::<T, Ctx>(x, w1));
            let (_, w2) = x.spec_encode(w1);
            let a2 = bytes_added(w1, w2);
            assert(w2.bytes =~= w.bytes + (seq![tag] + a2));
            assert(bytes_added(w, w2) =~= seq![tag] + a2);
            assert forall|r: ReaderView<Ctx>| reads_next(r, e, seq![tag] + a2) implies
                #[trigger] decode_option::<T, Ctx>(r) == (
                    Ok::<Option<T>, Error>(v),
                    r.advanced((seq![tag] + a2).len() as int),
                ) by {
                lemma_reads_next_split(r, e, seq![tag], a2);
                lemma_read_unsigned_next(r, tag as nat, 1);
                let r1 = r.advanced(1);
                assert(T::spec_decode(r1) == (Ok::<T, Error>(x), r1.advanced(a2.len() as int)));
                assert(r1.advanced(a2.len() as int) =~= r.advanced((seq![tag] + a2).len() as int));
            }
        },
    }
}

/// Whether every length that `L` can stand for comes back unchanged from the `L` made for it.
pub open spec fn lengths_come_back<L: CollectionLength>() -> bool {
    forall|n: nat| #[trigger] L::spec_of_length(n) matches Some(l) ==> l.spec_length() == n
}

/// Every length that an integer type can hold comes back from the value made for it, and the
/// types hold exactly the lengths up to their largest value.
pub proof fn lemma_collection_lengths_come_back()
    ensures
        lengths_come_back::<u8>(),
        lengths_come_back::<u16>(),
        lengths_come_back::<u32>(),
        lengths_come_back::<u64>(),
        lengths_come_back::<u128>(),
        lengths_come_back::<usize>(),
        lengths_come_back::<i8>(),
        lengths_come_back::<i16>(),
        lengths_come_back::<i32>(),
        lengths_come_back::<i64>(),
        lengths_come_back::<i128>(),
        lengths_come_back::<isize>(),
{
}

/// Whether writing `items` with a length prefix of type `L` into a writer in state `w` succeeds
/// and only adds bytes at the end, and reading a length-prefixed vector from any reader in the
/// same byte order whose next bytes are those added gives `items` back and moves the reader just
/// past them.
pub open spec fn prefixed_decodes_back<
    T: Encode<Ctx, Error = Error> + Decode<Ctx, Error = Error>,
    L: Encode<Ctx, Error = Error> + Decode<Ctx, Error = Error> + CollectionLength,
    Ctx,
>(items: Seq<T>, w: WriterView<Ctx>) -> bool {
    let (res, w2) = encode_prefixed::<T, L, Ctx>(items, w);
    let added = bytes_added(w, w2);
    &&& res is Ok
    &&& w2 == w.appended(added)
    &&& forall|r: ReaderView<Ctx>|
        reads_next(r, w.endian, added) ==> #[trigger] decode_prefixed::<T, L, Ctx>(r) == (
            Ok::<Seq<T>, Error>(items),
            r.advanced(added.len() as int),
        )
}

/// A length-prefixed run of values decodes back when the values and the lengths of type `L` all
/// decode back, `L` can stand for the number of values, and lengths come back from `L`.
pub proof fn lemma_prefixed_decodes_back<
    T: Encode<Ctx, Error = Error> + Decode<Ctx, Error = Error>,
    L: Encode<Ctx, Error = Error> + Decode<Ctx, Error = Error> + CollectionLength,
    Ctx,
>(items: Seq<T>, w: WriterView<Ctx>)
    requires
        all_decode_back::<T, Ctx>(),
        all_decode_back::<L, Ctx>(),
        lengths_come_back::<L>(),
        items.len() <= usize::MAX,
        L::spec_of_length(items.len()) is Some,
    ensures
        prefixed_decodes_back::<T, L, Ctx>(items, w),
{
    let l = L::spec_of_length(items.len())->Some_0;
    assert(length_of_usize::<L>(items.len() as usize) == Ok::<L, Error>(l));
    assert(l.spec_length() == items.len());
    assert(decodes_back::<L, Ctx>(l, w));
    let (_, w1) = l.spec_encode(w);
    let a1 = bytes_added(w, w1);
    lemma_seq_decodes_back(items, w1);
    let (_, w2) = encode_seq(items, w1);
    let a2 = bytes_added(w1, w2);
    assert(w2.bytes =~= w.bytes + (a1 + a2));
    assert(bytes_added(w, w2) =~= a1 + a2);
    assert forall|r: ReaderView<Ctx>| reads_next(r, w.endian, a1 + a2) implies
        #[trigger] decode_prefixed::<T, L, Ctx>(r) == (
            Ok::<Seq<T>, Error>(items),
            r.advanced((a1 + a2).len() as int),
        ) by {
        lemma_reads_next_split(r, w.endian, a1, a2);
        let r1 = r.advanced(a1.len() as int);
        assert(L::spec_decode(r) == (Ok::<L, Error>(l), r1));
        assert(length_to_usize(l.spec_length()) == Ok::<usize, Error>(items.len() as usize));
        assert(decode_seq::<T, Ctx>(r1, items.len()) == (Ok::<Seq<T>, Error>(items), r1.advanced(a2.len() as int)));
        assert(r1.advanced(a2.len() as int) =~= r.advanced((a1 + a2).len() as int));
    }
}

/// Writing with a length prefix and a function `g` that encodes as `T` does gives what writing
/// with a length prefix and `T`'s own encoding gives: any outcome `(wres, w2)` that the contract
/// of `write_prefixed_slice_with` allows, from a writer in state `w`, is the one that
/// `write_prefixed_slice` gives.
#[verifier::rlimit(100)]
pub proof fn lemma_prefixed_with_encodes<
    T: Encode<Ctx, Error = Error>,
    L: Encode<Ctx, Error = Error> + CollectionLength,
    Ctx,
    G: FnMut(&mut Writer<Ctx>, &T) -> Result<(), Error>,
>(
    g: G,
    items: Seq<T>,
    w: WriterView<Ctx>,
    wres: Result<(), Error>,
    w2: WriterView<Ctx>,
)
    requires
        forall|m: &mut Writer<Ctx>, x: &T, o: Result<(), Error>| #[trigger] call_ensures(g, (m, x), o)
            ==> (o, mut_ref_future(m)@) == (*x).spec_encode(mut_ref_current(m)@),
        length_of_usize::<L>(items.len() as usize) matches Err(e) ==> wres == Err::<(), Error>(e) && w2 == w,
        length_of_usize::<L>(items.len() as usize) matches Ok(l) ==> {
            let (res, w1) = l.spec_encode(w);
            &&& res matches Err(e) ==> wres == Err::<(), Error>(e) && w2 == w1
            &&& res is Ok ==> {
                &&& wres is Ok ==> exists|st: Seq<WriterView<Ctx>>|
                    st.len() == items.len() + 1 && st[0] == w1 && st[items.len() as int] == w2
                    && forall|i: int| 0 <= i < items.len() ==> exists|m: &mut Writer<Ctx>|
                        mut_ref_current(m)@ == #[trigger] st[i] && mut_ref_future(m)@ == st[i + 1]
                        && call_ensures(g, (m, &items[i]), Ok::<(), Error>(()))
                &&& wres matches Err(e) ==> exists|k: int, st: Seq<WriterView<Ctx>>| #![trigger st[k]]
                    0 <= k < items.len() && st.len() == k + 2 && st[0] == w1 && st[k + 1] == w2
                    && (forall|i: int| 0 <= i < k ==> exists|m: &mut Writer<Ctx>|
                        mut_ref_current(m)@ == #[trigger] st[i] && mut_ref_future(m)@ == st[i + 1]
                        && call_ensures(g, (m, &items[i]), Ok::<(), Error>(())))
                    && exists|m: &mut Writer<Ctx>| mut_ref_current(m)@ == st[k] && mut_ref_future(m)@ == st[k + 1]
                        && call_ensures(g, (m, &items[k]), Err::<(), Error>(e))
            }
        },
    ensures
        (wres, w2) == encode_prefixed::<T, L, Ctx>(items, w),
{
    if let Ok(l) = length_of_usize::<L>(items.len() as usize) {
        let (res, w1) = l.spec_encode(w);
        if res is Ok {
            match wres {
                Ok(u) => {
                    let st = choose|st: Seq<WriterView<Ctx>>|
                        st.len() == items.len() + 1 && st[0] == w1 && st[items.len() as int] == w2
                        && forall|i: int| 0 <= i < items.len() ==> exists|m: &mut Writer<Ctx>|
                            mut_ref_current(m)@ == #[trigger] st[i] && mut_ref_future(m)@ == st[i + 1]
                            && call_ensures(g, (m, &items[i]), Ok::<(), Error>(()));
                    lemma_write_calls_ok::<T, Ctx, G>(g, st, items, items.len());
                    assert(items.take(items.len() as int) =~= items);
                    assert(u == ());
                },
                Err(e) => {
                    let (k, st) = choose|k: int, st: Seq<WriterView<Ctx>>| #![trigger st[k]]
                        0 <= k < items.len() && st.len() == k + 2 && st[0] == w1 && st[k + 1] == w2
                        && (forall|i: int| 0 <= i < k ==> exists|m: &mut Writer<Ctx>|
                            mut_ref_current(m)@ == #[trigger] st[i] && mut_ref_future(m)@ == st[i + 1]
                            && call_ensures(g, (m, &items[i]), Ok::<(), Error>(())))
                        && exists|m: &mut Writer<Ctx>| mut_ref_current(m)@ == st[k] && mut_ref_future(m)@ == st[k + 1]
                            && call_ensures(g, (m, &items[k]), Err::<(), Error>(e));
                    let m = choose|m: &mut Writer<Ctx>| mut_ref_current(m)@ == st[k] && mut_ref_future(m)@ == st[k + 1]
                        && call_ensures(g, (m, &items[k]), Err::<(), Error>(e));
                    lemma_write_calls_err::<T, Ctx, G>(g, items, e, k, st, m);
                },
            }
        }
    }
}

/// Reading with a length prefix and a function `f` that decodes as `T` does gives what reading
/// with a length prefix and `T`'s own decoding gives: any outcome `(rres, r2)` that the contract
/// of `read_prefixed_vec_with` allows, from a reader in state `r`, is the one that
/// `read_prefixed_vec` gives.
#[verifier::rlimit(100)]
pub proof fn lemma_prefixed_with_decodes<
    'r,
    T: Decode<Ctx, Error = Error>,
    L: Decode<Ctx, Error = Error> + CollectionLength,
    Ctx,
    F: FnMut(&mut Reader<'_, Ctx>) -> Result<T, Error>,
>(
    f: F,
    r: ReaderView<Ctx>,
    rres: Result<Seq<T>, Error>,
    r2: ReaderView<Ctx>,
)
    requires
        forall|m: &mut Reader<'r, Ctx>, o: Result<T, Error>| #[trigger] call_ensures(f, (m,), o)
            ==> (o, mut_ref_future(m)@) == T::spec_decode(mut_ref_current(m)@),
        L::spec_decode(r).0 matches Err(e) ==> rres == Err::<Seq<T>, Error>(e) && r2 == L::spec_decode(r).1,
        L::spec_decode(r).0 matches Ok(l) ==> match length_to_usize(l.spec_length()) {
            Err(e) => rres == Err::<Seq<T>, Error>(e) && r2 == L::spec_decode(r).1,
            Ok(n) => {
                &&& rres matches Ok(v) ==> v.len() == n && exists|st: Seq<ReaderView<Ctx>>|
                    st.len() == n + 1 && st[0] == L::spec_decode(r).1 && st[n as int] == r2
                    && forall|i: int| 0 <= i < n ==> exists|m: &mut Reader<'r, Ctx>|
                        mut_ref_current(m)@ == #[trigger] st[i] && mut_ref_future(m)@ == st[i + 1]
                        && call_ensures(f, (m,), Ok::<T, Error>(v[i]))
                &&& rres matches Err(e) ==> exists|k: int, st: Seq<ReaderView<Ctx>>| #![trigger st[k]]
                    0 <= k < n && st.len() == k + 2 && st[0] == L::spec_decode(r).1
                    && st[k + 1] == r2
                    && (forall|i: int| 0 <= i < k ==> exists|m: &mut Reader<'r, Ctx>, v: T|
                        mut_ref_current(m)@ == #[trigger] st[i] && mut_ref_future(m)@ == st[i + 1]
                        && call_ensures(f, (m,), Ok::<T, Error>(v)))
                    && exists|m: &mut Reader<'r, Ctx>| mut_ref_current(m)@ == st[k] && mut_ref_future(m)@
                        == st[k + 1] && call_ensures(f, (m,), Err::<T, Error>(e))
            },
        },
    ensures
        (rres, r2) == decode_prefixed::<T, L, Ctx>(r),
{
    let (lr, r1) = L::spec_decode(r);
    if let Ok(l) = lr {
        if let Ok(n) = length_to_usize(l.spec_length()) {
            match rres {
                Ok(v) => {
                    let st = choose|st: Seq<ReaderView<Ctx>>|
                        st.len() == n + 1 && st[0] == r1 && st[n as int] == r2
                        && forall|i: int| 0 <= i < n ==> exists|m: &mut Reader<'r, Ctx>|
                            mut_ref_current(m)@ == #[trigger] st[i] && mut_ref_future(m)@ == st[i + 1]
                            && call_ensures(f, (m,), Ok::<T, Error>(v[i]));
                    lemma_read_calls_ok::<T, Ctx, F>(f, st, v, n as nat);
                    assert(v.take(n as int) =~= v);
                },
                Err(e) => {
                    let (k, st) = choose|k: int, st: Seq<ReaderView<Ctx>>| #![trigger st[k]]
                        0 <= k < n && st.len() == k + 2 && st[0] == r1 && st[k + 1] == r2
                        && (forall|i: int| 0 <= i < k ==> exists|m: &mut Reader<'r, Ctx>, v: T|
                            mut_ref_current(m)@ == #[trigger] st[i] && mut_ref_future(m)@ == st[i + 1]
                            && call_ensures(f, (m,), Ok::<T, Error>(v)))
                        && exists|m: &mut Reader<'r, Ctx>| mut_ref_current(m)@ == st[k] && mut_ref_future(m)@
                            == st[k + 1] && call_ensures(f, (m,), Err::<T, Error>(e));
                    let m = choose|m: &mut Reader<'r, Ctx>| mut_ref_current(m)@ == st[k] && mut_ref_future(m)@
                        == st[k + 1] && call_ensures(f, (m,), Err::<T, Error>(e));
                    lemma_read_calls_decode_err::<T, Ctx, F>(f, n as nat, e, k, st, m);
                },
            }
        }
    }
}

/// The length-prefixed round trip through the forms that take a function: writing `items`
/// with a length prefix of type `L` and a function that encodes as `T` does (whose outcome
/// `(wres, w2)` is `encode_prefixed`, by [lemma_prefixed_with_encodes]), then reading them from
/// any reader in the same byte order whose next bytes are those written, with a function `f`
/// that decodes as `T` does, succeeds on both sides, gives `items` back and moves the reader just
/// past what was written. The outcome `(rres, r2)` is any that `read_prefixed_vec_with` allows,
/// as its contract says.
#[verifier::rlimit(100)]
pub proof fn lemma_prefixed_with_decodes_back<
    'r,
    T: Encode<Ctx, Error = Error> + Decode<Ctx, Error = Error>,
    L: Encode<Ctx, Error = Error> + Decode<Ctx, Error = Error> + CollectionLength,
    Ctx,
    F: FnMut(&mut Reader<'_, Ctx>) -> Result<T, Error>,
>(
    f: F,
    items: Seq<T>,
    w: WriterView<Ctx>,
    wres: Result<(), Error>,
    w2: WriterView<Ctx>,
    r: ReaderView<Ctx>,
    rres: Result<Seq<T>, Error>,
    r2: ReaderView<Ctx>,
)
    requires
        all_decode_back::<T, Ctx>(),
        all_decode_back::<L, Ctx>(),
        lengths_come_back::<L>(),
        items.len() <= usize::MAX,
        L::spec_of_length(items.len()) is Some,
        forall|m: &mut Reader<'r, Ctx>, o: Result<T, Error>| #[trigger] call_ensures(f, (m,), o)
            ==> (o, mut_ref_future(m)@) == T::spec_decode(mut_ref_current(m)@),
        (wres, w2) == encode_prefixed::<T, L, Ctx>(items, w),
        reads_next(r, w.endian, bytes_added(w, w2)),
        L::spec_decode(r).0 matches Err(e) ==> rres == Err::<Seq<T>, Error>(e) && r2 == L::spec_decode(r).1,
        L::spec_decode(r).0 matches Ok(l) ==> match length_to_usize(l.spec_length()) {
            Err(e) => rres == Err::<Seq<T>, Error>(e) && r2 == L::spec_decode(r).1,
            Ok(n) => {
                &&& rres matches Ok(v) ==> v.len() == n && exists|st: Seq<ReaderView<Ctx>>|
                    st.len() == n + 1 && st[0] == L::spec_decode(r).1 && st[n as int] == r2
                    && forall|i: int| 0 <= i < n ==> exists|m: &mut Reader<'r, Ctx>|
                        mut_ref_current(m)@ == #[trigger] st[i] && mut_ref_future(m)@ == st[i + 1]
                        && call_ensures(f, (m,), Ok::<T, Error>(v[i]))
                &&& rres matches Err(e) ==> exists|k: int, st: Seq<ReaderView<Ctx>>| #![trigger st[k]]
                    0 <= k < n && st.len() == k + 2 && st[0] == L::spec_decode(r).1
                    && st[k + 1] == r2
                    && (forall|i: int| 0 <= i < k ==> exists|m: &mut Reader<'r, Ctx>, v: T|
                        mut_ref_current(m)@ == #[trigger] st[i] && mut_ref_future(m)@ == st[i + 1]
                        && call_ensures(f, (m,), Ok::<T, Error>(v)))
                    && exists|m: &mut Reader<'r, Ctx>| mut_ref_current(m)@ == st[k] && mut_ref_future(m)@
                        == st[k + 1] && call_ensures(f, (m,), Err::<T, Error>(e))
            },
        },
    ensures
        wres is Ok,
        w2 == w.appended(bytes_added(w, w2)),
        rres == Ok::<Seq<T>, Error>(items),
        r2 == r.advanced(bytes_added(w, w2).len() as int),
{
    lemma_prefixed_with_decodes::<T, L, Ctx, F>(f, r, rres, r2);
    lemma_prefixed_decodes_back::<T, L, Ctx>(items, w);
}

/// Reading `n` bytes that hold the unsigned value `v` in the reader's byte order gives `v`.
pub proof fn lemma_read_unsigned_next<Ctx>(r: ReaderView<Ctx>, v: nat, n: nat)
    requires
        v < pow256(n),
        reads_next(r, r.endian, uint_bytes(r.endian, v, n)),
    ensures
        read_unsigned(r, n) == (Ok::<int, Error>(v as int), r.advanced(n as int)),
{
    lemma_uint_roundtrip(r.endian, v, n);
}

/// Reading `n` bytes that hold the signed value `v` in the reader's byte order gives `v`.
pub proof fn lemma_read_signed_next<Ctx>(r: ReaderView<Ctx>, v: int, n: nat)
    requires
        n > 0,
        -pow256(n) <= 2 * v < pow256(n),
        reads_next(r, r.endian, int_bytes(r.endian, v, n)),
    ensures
        read_signed(r, n) == (Ok::<int, Error>(v), r.advanced(n as int)),
{
    lemma_int_roundtrip(r.endian, v, n);
}

proof fn lemma_appended_adds<Ctx>(w: WriterView<Ctx>, more: Seq<u8>)
    ensures
        bytes_added(w, w.appended(more)) == more,
{
    assert(bytes_added(w, w.appended(more)) =~= more);
}

/// Every value of a primitive type decodes back from what encoding it wrote, whatever the
/// writer held before and whatever follows in the reader.
pub proof fn lemma_primitives_decode_back<Ctx>(w: WriterView<Ctx>)
    ensures
        forall|v: bool| #[trigger] decodes_back::<bool, Ctx>(v, w),
        forall|v: u8| #[trigger] decodes_back::<u8, Ctx>(v, w),
        forall|v: u16| #[trigger] decodes_back::<u16, Ctx>(v, w),
        forall|v: u32| #[trigger] decodes_back::<u32, Ctx>(v, w),
        forall|v: u64| #[trigger] decodes_back::<u64, Ctx>(v, w),
        forall|v: u128| #[trigger] decodes_back::<u128, Ctx>(v, w),
        forall|v: usize| #[trigger] decodes_back::<usize, Ctx>(v, w),
        forall|v: i8| #[trigger] decodes_back::<i8, Ctx>(v, w),
        forall|v: i16| #[trigger] decodes_back::<i16, Ctx>(v, w),
        forall|v: i32| #[trigger] decodes_back::<i32, Ctx>(v, w),
        forall|v: i64| #[trigger] decodes_back::<i64, Ctx>(v, w),
        forall|v: i128| #[trigger] decodes_back::<i128, Ctx>(v, w),
        forall|v: isize| #[trigger] decodes_back::<isize, Ctx>(v, w),
{
    lemma_pow256_values();
    crate::rw::primitive::lemma_word_bytes();
    let e = w.endian;
    assert forall|v: bool| #[trigger] decodes_back::<bool, Ctx>(v, w) by {
        let b: u8 = if v { 1 } else { 0 };
        lemma_appended_adds(w, seq![b]);
        assert forall|r: ReaderView<Ctx>| reads_next(r, e, seq![b]) implies #[trigger] bool::spec_decode(r)
            == (Ok::<bool, Error>(v), r.advanced(1)) by {
            lemma_uint_roundtrip(e, b as nat, 1);
            assert(uint_bytes(e, b as nat, 1) =~= seq![b]) by {
                reveal_with_fuel(crate::common::endian::le_bytes, 2);
            }
            lemma_read_unsigned_next(r, b as nat, 1);
        }
    }
    assert forall|v: u8| #[trigger] decodes_back::<u8, Ctx>(v, w) by {
        lemma_appended_adds(w, seq![v]);
        assert forall|r: ReaderView<Ctx>| reads_next(r, e, seq![v]) implies #[trigger] u8::spec_decode(r)
            == (Ok::<u8, Error>(v), r.advanced(1)) by {
            assert(uint_bytes(e, v as nat, 1) =~= seq![v]) by {
                reveal_with_fuel(crate::common::endian::le_bytes, 2);
            }
            lemma_read_unsigned_next(r, v as nat, 1);
        }
    }
    assert forall|v: u16| #[trigger] decodes_back::<u16, Ctx>(v, w) by {
        let added = uint_bytes(e, v as nat, 2);
        lemma_appended_adds(w, added);
        lemma_uint_roundtrip(e, v as nat, 2);
        assert forall|r: ReaderView<Ctx>| reads_next(r, e, added) implies #[trigger] u16::spec_decode(r)
            == (Ok::<u16, Error>(v), r.advanced(2)) by {
            lemma_read_unsigned_next(r, v as nat, 2);
        }
    }
    assert forall|v: u32| #[trigger] decodes_back::<u32, Ctx>(v, w) by {
        let added = uint_bytes(e, v as nat, 4);
        lemma_appended_adds(w, added);
        lemma_uint_roundtrip(e, v as nat, 4);
        assert forall|r: ReaderView<Ctx>| reads_next(r, e, added) implies #[trigger] u32::spec_decode(r)
            == (Ok::<u32, Error>(v), r.advanced(4)) by {
            lemma_read_unsigned_next(r, v as nat, 4);
        }
    }
    assert forall|v: u64| #[trigger] decodes_back::<u64, Ctx>(v, w) by {
        let added = uint_bytes(e, v as nat, 8);
        lemma_appended_adds(w, added);
        lemma_uint_roundtrip(e, v as nat, 8);
        assert forall|r: ReaderView<Ctx>| reads_next(r, e, added) implies #[trigger] u64::spec_decode(r)
            == (Ok::<u64, Error>(v), r.advanced(8)) by {
            lemma_read_unsigned_next(r, v as nat, 8);
        }
    }
    assert forall|v: u128| #[trigger] decodes_back::<u128, Ctx>(v, w) by {
        let added = uint_bytes(e, v as nat, 16);
        lemma_appended_adds(w, added);
        lemma_uint_roundtrip(e, v as nat, 16);
        assert forall|r: ReaderView<Ctx>| reads_next(r, e, added) implies #[trigger] u128::spec_decode(r)
            == (Ok::<u128, Error>(v), r.advanced(16)) by {
            lemma_read_unsigned_next(r, v as nat, 16);
        }
    }
    assert forall|v: usize| #[trigger] decodes_back::<usize, Ctx>(v, w) by {
        let n = word_bytes();
        let added = uint_bytes(e, v as nat, n);
        lemma_appended_adds(w, added);
        lemma_uint_roundtrip(e, v as nat, n);
        assert forall|r: ReaderView<Ctx>| reads_next(r, e, added) implies #[trigger] usize::spec_decode(r)
            == (Ok::<usize, Error>(v), r.advanced(n as int)) by {
            lemma_read_unsigned_next(r, v as nat, n);
        }
    }
    assert forall|v: i8| #[trigger] decodes_back::<i8, Ctx>(v, w) by {
        let added = int_bytes(e, v as int, 1);
        lemma_appended_adds(w, added);
        lemma_int_roundtrip(e, v as int, 1);
        assert forall|r: ReaderView<Ctx>| reads_next(r, e, added) implies #[trigger] i8::spec_decode(r)
            == (Ok::<i8, Error>(v), r.advanced(1)) by {
            lemma_read_signed_next(r, v as int, 1);
        }
    }
    assert forall|v: i16| #[trigger] decodes_back::<i16, Ctx>(v, w) by {
        let added = int_bytes(e, v as int, 2);
        lemma_appended_adds(w, added);
        lemma_int_roundtrip(e, v as int, 2);
        assert forall|r: ReaderView<Ctx>| reads_next(r, e, added) implies #[trigger] i16::spec_decode(r)
            == (Ok::<i16, Error>(v), r.advanced(2)) by {
            lemma_read_signed_next(r, v as int, 2);
        }
    }
    assert forall|v: i32| #[trigger] decodes_back::<i32, Ctx>(v, w) by {
        let added = int_bytes(e, v as int, 4);
        lemma_appended_adds(w, added);
        lemma_int_roundtrip(e, v as int, 4);
        assert forall|r: ReaderView<Ctx>| reads_next(r, e, added) implies #[trigger] i32::spec_decode(r)
            == (Ok::<i32, Error>(v), r.advanced(4)) by {
            lemma_read_signed_next(r, v as int, 4);
        }
    }
    assert forall|v: i64| #[trigger] decodes_back::<i64, Ctx>(v, w) by {
        let added = int_bytes(e, v as int, 8);
        lemma_appended_adds(w, added);
        lemma_int_roundtrip(e, v as int, 8);
        assert forall|r: ReaderView<Ctx>| reads_next(r, e, added) implies #[trigger] i64::spec_decode(r)
            == (Ok::<i64, Error>(v), r.advanced(8)) by {
            lemma_read_signed_next(r, v as int, 8);
        }
    }
    assert forall|v: i128| #[trigger] decodes_back::<i128, Ctx>(v, w) by {
        let added = int_bytes(e, v as int, 16);
        lemma_appended_adds(w, added);
        lemma_int_roundtrip(e, v as int, 16);
        assert forall|r: ReaderView<Ctx>| reads_next(r, e, added) implies #[trigger] i128::spec_decode(r)
            == (Ok::<i128, Error>(v), r.advanced(16)) by {
            lemma_read_signed_next(r, v as int, 16);
        }
    }
    assert forall|v: isize| #[trigger] decodes_back::<isize, Ctx>(v, w) by {
        let n = word_bytes();
        let added = int_bytes(e, v as int, n);
        lemma_appended_adds(w, added);
        lemma_int_roundtrip(e, v as int, n);
        assert forall|r: ReaderView<Ctx>| reads_next(r, e, added) implies #[trigger] isize::spec_decode(r)
            == (Ok::<isize, Error>(v), r.advanced(n as int)) by {
            lemma_read_signed_next(r, v as int, n);
        }
    }
}

} // verus!
