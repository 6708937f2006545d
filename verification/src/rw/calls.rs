//! What the `_with` reads and writes give when the function handed to them decodes or encodes
//! as a type's own [Decode] or [Encode] does.
use vstd::prelude::*;
use crate::encoding::decode::Decode;
use crate::encoding::encode::Encode;
use crate::error::Error;
use crate::rw::collection::{
    decode_seq, encode_seq, lemma_decode_many_error_persists,
    lemma_decode_seq_step, lemma_encode_many_error_persists, lemma_encode_seq_step,
};
use crate::rw::reader::{Reader, ReaderView};
use crate::rw::writer::{Writer, WriterView};

verus! {

/// Calls of `f` chained as the `_with` reads chain them, where `f` decodes as `T` does, give
/// the first `k` values and leave the reader where decoding `k` values of `T` leaves it.
pub proof fn lemma_read_calls_ok<'r, T: Decode<Ctx, Error = Error>, Ctx, F: FnMut(&mut Reader<'_, Ctx>) -> Result<T, Error>>(
    f: F,
    st: Seq<ReaderView<Ctx>>,
    v: Seq<T>,
    k: nat,
)
    requires
        forall|m: &mut Reader<'r, Ctx>, o: Result<T, Error>| #[trigger] call_ensures(f, (m,), o)
            ==> (o, mut_ref_future(m)@) == T::spec_decode(mut_ref_current(m)@),
        k < st.len(),
        k <= v.len(),
        forall|i: int| 0 <= i < k ==> exists|m: &mut Reader<'r, Ctx>| {
            &&& mut_ref_current(m)@ == #[trigger] st[i]
            &&& mut_ref_future(m)@ == st[i + 1]
            &&& call_ensures(f, (m,), Ok::<T, Error>(v[i]))
        },
    ensures
        decode_seq::<T, Ctx>(st[0], k) == (Ok::<Seq<T>, Error>(v.take(k as int)), st[k as int]),
    decreases k,
{
    if k == 0 {
        assert(v.take(0) =~= Seq::<T>::empty());
    } else {
        let j = k - 1;
        lemma_read_calls_ok::<T, Ctx, F>(f, st, v, (k - 1) as nat);
        assert(st[j] == st[j]);
        let m = choose|m: &mut Reader<'r, Ctx>| {
            &&& mut_ref_current(m)@ == st[j]
            &&& mut_ref_future(m)@ == st[j + 1]
            &&& call_ensures(f, (m,), Ok::<T, Error>(v[j]))
        };
        assert(T::spec_decode(st[j]) == (Ok::<T, Error>(v[j]), st[k as int]));
        lemma_decode_seq_step::<T, Ctx>(st[0], (k - 1) as nat);
        assert(v.take(j).push(v[j]) =~= v.take(k as int));
    }
}

/// Calls of `f` chained as the `_with` reads chain them, where `f` decodes as `T` does and the
/// first `k` calls succeed, leave the reader where decoding `k` values of `T` leaves it.
pub proof fn lemma_read_calls_some<'r, T: Decode<Ctx, Error = Error>, Ctx, F: FnMut(&mut Reader<'_, Ctx>) -> Result<T, Error>>(
    f: F,
    st: Seq<ReaderView<Ctx>>,
    k: nat,
)
    requires
        forall|m: &mut Reader<'r, Ctx>, o: Result<T, Error>| #[trigger] call_ensures(f, (m,), o)
            ==> (o, mut_ref_future(m)@) == T::spec_decode(mut_ref_current(m)@),
        k < st.len(),
        forall|i: int| 0 <= i < k ==> exists|m: &mut Reader<'r, Ctx>, v: T| {
            &&& mut_ref_current(m)@ == #[trigger] st[i]
            &&& mut_ref_future(m)@ == st[i + 1]
            &&& call_ensures(f, (m,), Ok::<T, Error>(v))
        },
    ensures
        decode_seq::<T, Ctx>(st[0], k).0 is Ok,
        decode_seq::<T, Ctx>(st[0], k).1 == st[k as int],
    decreases k,
{
    if k > 0 {
        let j = k - 1;
        lemma_read_calls_some::<T, Ctx, F>(f, st, (k - 1) as nat);
        assert(st[j] == st[j]);
        let (m, v) = choose|m: &mut Reader<'r, Ctx>, v: T| {
            &&& mut_ref_current(m)@ == st[j]
            &&& mut_ref_future(m)@ == st[j + 1]
            &&& call_ensures(f, (m,), Ok::<T, Error>(v))
        };
        assert(T::spec_decode(st[j]) == (Ok::<T, Error>(v), st[k as int]));
        lemma_decode_seq_step::<T, Ctx>(st[0], (k - 1) as nat);
    }
}

pub(crate) proof fn lemma_read_calls_decode_err<'r, T: Decode<Ctx, Error = Error>, Ctx, F: FnMut(&mut Reader<'_, Ctx>) -> Result<T, Error>>(
    f: F,
    len: nat,
    e: Error,
    k: int,
    st: Seq<ReaderView<Ctx>>,
    m: &mut Reader<'r, Ctx>,
)
    requires
        forall|m: &mut Reader<'r, Ctx>, o: Result<T, Error>| #[trigger] call_ensures(f, (m,), o)
            ==> (o, mut_ref_future(m)@) == T::spec_decode(mut_ref_current(m)@),
        0 <= k < len,
        st.len() == k + 2,
        forall|i: int| 0 <= i < k ==> exists|m: &mut Reader<'r, Ctx>, v: T| {
            &&& mut_ref_current(m)@ == #[trigger] st[i]
            &&& mut_ref_future(m)@ == st[i + 1]
            &&& call_ensures(f, (m,), Ok::<T, Error>(v))
        },
        mut_ref_current(m)@ == st[k],
        mut_ref_future(m)@ == st[k + 1],
        call_ensures(f, (m,), Err::<T, Error>(e)),
    ensures
        (Err::<Seq<T>, Error>(e), st[k + 1]) == decode_seq::<T, Ctx>(st[0], len),
{
    lemma_read_calls_some::<T, Ctx, F>(f, st, k as nat);
    assert(T::spec_decode(st[k]) == (Err::<T, Error>(e), st[k + 1]));
    lemma_decode_seq_step::<T, Ctx>(st[0], k as nat);
    lemma_decode_many_error_persists(st[0], (k + 1) as nat, len, |r1: ReaderView<Ctx>| T::spec_decode(r1));
}

proof fn lemma_read_calls_decode_ok_run<'r, T: Decode<Ctx, Error = Error>, Ctx, F: FnMut(&mut Reader<'_, Ctx>) -> Result<T, Error>>(
    f: F,
    len: nat,
    before: ReaderView<Ctx>,
    v: Seq<T>,
    after: ReaderView<Ctx>,
)
    requires
        forall|m: &mut Reader<'r, Ctx>, o: Result<T, Error>| #[trigger] call_ensures(f, (m,), o)
            ==> (o, mut_ref_future(m)@) == T::spec_decode(mut_ref_current(m)@),
        v.len() == len,
        exists|st: Seq<ReaderView<Ctx>>|
            st.len() == len + 1 && st[0] == before && st[len as int] == after
            && forall|i: int| 0 <= i < len ==> exists|m: &mut Reader<'r, Ctx>|
                mut_ref_current(m)@ == #[trigger] st[i] && mut_ref_future(m)@ == st[i + 1]
                && call_ensures(f, (m,), Ok::<T, Error>(v[i])),
    ensures
        (Ok::<Seq<T>, Error>(v), after) == decode_seq::<T, Ctx>(before, len),
{
    let st = choose|st: Seq<ReaderView<Ctx>>|
        st.len() == len + 1 && st[0] == before && st[len as int] == after
        && forall|i: int| 0 <= i < len ==> exists|m: &mut Reader<'r, Ctx>|
            mut_ref_current(m)@ == #[trigger] st[i] && mut_ref_future(m)@ == st[i + 1]
            && call_ensures(f, (m,), Ok::<T, Error>(v[i]));
    lemma_read_calls_ok::<T, Ctx, F>(f, st, v, len);
    assert(v.take(len as int) =~= v);
}

/// A run of `len` calls of `f` chained as the `_with` reads chain them, where `f` decodes as `T`
/// does, gives what decoding `len` values of `T` gives.
#[verifier::rlimit(100)]
pub proof fn lemma_read_calls_decode<'r, T: Decode<Ctx, Error = Error>, Ctx, F: FnMut(&mut Reader<'_, Ctx>) -> Result<T, Error>>(
    f: F,
    len: nat,
    before: ReaderView<Ctx>,
    out: Result<Seq<T>, Error>,
    after: ReaderView<Ctx>,
)
    requires
        forall|m: &mut Reader<'r, Ctx>, o: Result<T, Error>| #[trigger] call_ensures(f, (m,), o)
            ==> (o, mut_ref_future(m)@) == T::spec_decode(mut_ref_current(m)@),
        out matches Ok(v) ==> v.len() == len && exists|st: Seq<ReaderView<Ctx>>|
            st.len() == len + 1 && st[0] == before && st[len as int] == after
            && forall|i: int| 0 <= i < len ==> exists|m: &mut Reader<'r, Ctx>|
                mut_ref_current(m)@ == #[trigger] st[i] && mut_ref_future(m)@ == st[i + 1]
                && call_ensures(f, (m,), Ok::<T, Error>(v[i])),
        out matches Err(e) ==> exists|k: int, st: Seq<ReaderView<Ctx>>| #![trigger st[k]]
            0 <= k < len && st.len() == k + 2 && st[0] == before && st[k + 1] == after
            && (forall|i: int| 0 <= i < k ==> exists|m: &mut Reader<'r, Ctx>, v: T|
                mut_ref_current(m)@ == #[trigger] st[i] && mut_ref_future(m)@ == st[i + 1]
                && call_ensures(f, (m,), Ok::<T, Error>(v)))
            && exists|m: &mut Reader<'r, Ctx>| mut_ref_current(m)@ == st[k] && mut_ref_future(m)@
                == st[k + 1] && call_ensures(f, (m,), Err::<T, Error>(e)),
    ensures
        (out, after) == decode_seq::<T, Ctx>(before, len),
{
    match out {
        Ok(v) => lemma_read_calls_decode_ok_run::<T, Ctx, F>(f, len, before, v, after),
        Err(e) => {
            let (k, st) = choose|k: int, st: Seq<ReaderView<Ctx>>| #![trigger st[k]]
                0 <= k < len && st.len() == k + 2 && st[0] == before && st[k + 1] == after
                && (forall|i: int| 0 <= i < k ==> exists|m: &mut Reader<'r, Ctx>, v: T|
                    mut_ref_current(m)@ == #[trigger] st[i] && mut_ref_future(m)@ == st[i + 1]
                    && call_ensures(f, (m,), Ok::<T, Error>(v)))
                && exists|m: &mut Reader<'r, Ctx>| mut_ref_current(m)@ == st[k] && mut_ref_future(m)@
                    == st[k + 1] && call_ensures(f, (m,), Err::<T, Error>(e));
            let m = choose|m: &mut Reader<'r, Ctx>| mut_ref_current(m)@ == st[k] && mut_ref_future(m)@
                == st[k + 1] && call_ensures(f, (m,), Err::<T, Error>(e));
            lemma_read_calls_decode_err::<T, Ctx, F>(f, len, e, k, st, m);
        },
    }
}

/// Calls of `g` on the first `k` items chained as the `_with` writes chain them, where `g`
/// encodes as `T` does, succeed and leave the writer where encoding those items leaves it.
pub proof fn lemma_write_calls_ok<T: Encode<Ctx, Error = Error>, Ctx, G: FnMut(&mut Writer<Ctx>, &T) -> Result<(), Error>>(
    g: G,
    st: Seq<WriterView<Ctx>>,
    items: Seq<T>,
    k: nat,
)
    requires
        forall|m: &mut Writer<Ctx>, x: &T, o: Result<(), Error>| #[trigger] call_ensures(g, (m, x), o)
            ==> (o, mut_ref_future(m)@) == (*x).spec_encode(mut_ref_current(m)@),
        k < st.len(),
        k <= items.len(),
        forall|i: int| 0 <= i < k ==> exists|m: &mut Writer<Ctx>| {
            &&& mut_ref_current(m)@ == #[trigger] st[i]
            &&& mut_ref_future(m)@ == st[i + 1]
            &&& call_ensures(g, (m, &items[i]), Ok::<(), Error>(()))
        },
    ensures
        encode_seq::<T, Ctx>(items.take(k as int), st[0]) == (Ok::<(), Error>(()), st[k as int]),
    decreases k,
{
    if k == 0 {
        assert(items.take(0) =~= Seq::<T>::empty());
    } else {
        let j = k - 1;
        lemma_write_calls_ok::<T, Ctx, G>(g, st, items, (k - 1) as nat);
        assert(st[j] == st[j]);
        let m = choose|m: &mut Writer<Ctx>| {
            &&& mut_ref_current(m)@ == st[j]
            &&& mut_ref_future(m)@ == st[j + 1]
            &&& call_ensures(g, (m, &items[j]), Ok::<(), Error>(()))
        };
        assert(items[j].spec_encode(st[j]) == (Ok::<(), Error>(()), st[k as int]));
        lemma_encode_seq_step::<T, Ctx>(items.take(k as int), st[0]);
        assert(items.take(k as int).drop_last() =~= items.take(j));
        assert(items.take(k as int).last() == items[j]);
    }
}

pub(crate) proof fn lemma_write_calls_err<T: Encode<Ctx, Error = Error>, Ctx, G: FnMut(&mut Writer<Ctx>, &T) -> Result<(), Error>>(
    g: G,
    items: Seq<T>,
    e: Error,
    k: int,
    st: Seq<WriterView<Ctx>>,
    m: &mut Writer<Ctx>,
)
    requires
        forall|m: &mut Writer<Ctx>, x: &T, o: Result<(), Error>| #[trigger] call_ensures(g, (m, x), o)
            ==> (o, mut_ref_future(m)@) == (*x).spec_encode(mut_ref_current(m)@),
        0 <= k < items.len(),
        st.len() == k + 2,
        forall|i: int| 0 <= i < k ==> exists|m: &mut Writer<Ctx>| {
            &&& mut_ref_current(m)@ == #[trigger] st[i]
            &&& mut_ref_future(m)@ == st[i + 1]
            &&& call_ensures(g, (m, &items[i]), Ok::<(), Error>(()))
        },
        mut_ref_current(m)@ == st[k],
        mut_ref_future(m)@ == st[k + 1],
        call_ensures(g, (m, &items[k]), Err::<(), Error>(e)),
    ensures
        (Err::<(), Error>(e), st[k + 1]) == encode_seq::<T, Ctx>(items, st[0]),
{
    lemma_write_calls_ok::<T, Ctx, G>(g, st, items, k as nat);
    assert(items[k].spec_encode(st[k]) == (Err::<(), Error>(e), st[k + 1]));
    let pre = items.take(k + 1);
    lemma_encode_seq_step::<T, Ctx>(pre, st[0]);
    assert(pre.drop_last() =~= items.take(k));
    assert(pre.last() == items[k]);
    lemma_encode_many_error_persists(items, (k + 1) as nat, st[0], |x: T, w1: WriterView<Ctx>| x.spec_encode(w1));
}

/// Calls of `g` on the items chained as the `_with` writes chain them, where `g` encodes as `T`
/// does, give what encoding the items one after another gives.
#[verifier::rlimit(100)]
pub proof fn lemma_write_calls_encode<T: Encode<Ctx, Error = Error>, Ctx, G: FnMut(&mut Writer<Ctx>, &T) -> Result<(), Error>>(
    g: G,
    items: Seq<T>,
    before: WriterView<Ctx>,
    out: Result<(), Error>,
    after: WriterView<Ctx>,
)
    requires
        forall|m: &mut Writer<Ctx>, x: &T, o: Result<(), Error>| #[trigger] call_ensures(g, (m, x), o)
            ==> (o, mut_ref_future(m)@) == (*x).spec_encode(mut_ref_current(m)@),
        out is Ok ==> exists|st: Seq<WriterView<Ctx>>|
            st.len() == items.len() + 1 && st[0] == before && st[items.len() as int] == after
            && forall|i: int| 0 <= i < items.len() ==> exists|m: &mut Writer<Ctx>|
                mut_ref_current(m)@ == #[trigger] st[i] && mut_ref_future(m)@ == st[i + 1]
                && call_ensures(g, (m, &items[i]), Ok::<(), Error>(())),
        out matches Err(e) ==> exists|k: int, st: Seq<WriterView<Ctx>>| #![trigger st[k]]
            0 <= k < items.len() && st.len() == k + 2 && st[0] == before && st[k + 1] == after
            && (forall|i: int| 0 <= i < k ==> exists|m: &mut Writer<Ctx>|
                mut_ref_current(m)@ == #[trigger] st[i] && mut_ref_future(m)@ == st[i + 1]
                && call_ensures(g, (m, &items[i]), Ok::<(), Error>(())))
            && exists|m: &mut Writer<Ctx>| mut_ref_current(m)@ == st[k] && mut_ref_future(m)@ == st[k + 1]
                && call_ensures(g, (m, &items[k]), Err::<(), Error>(e)),
    ensures
        (out, after) == encode_seq::<T, Ctx>(items, before),
{
    match out {
        Ok(u) => {
            let st = choose|st: Seq<WriterView<Ctx>>|
                st.len() == items.len() + 1 && st[0] == before && st[items.len() as int] == after
                && forall|i: int| 0 <= i < items.len() ==> exists|m: &mut Writer<Ctx>|
                    mut_ref_current(m)@ == #[trigger] st[i] && mut_ref_future(m)@ == st[i + 1]
                    && call_ensures(g, (m, &items[i]), Ok::<(), Error>(()));
            lemma_write_calls_ok::<T, Ctx, G>(g, st, items, items.len());
            assert(items.take(items.len() as int) =~= items);
            assert(u == ());
        },
        Err(e) => {
            let (k, st) = choose|k: int, st: Seq<WriterView<Ctx>>| #![trigger st[k]]
                0 <= k < items.len() && st.len() == k + 2 && st[0] == before && st[k + 1] == after
                && (forall|i: int| 0 <= i < k ==> exists|m: &mut Writer<Ctx>|
                    mut_ref_current(m)@ == #[trigger] st[i] && mut_ref_future(m)@ == st[i + 1]
                    && call_ensures(g, (m, &items[i]), Ok::<(), Error>(())))
                && exists|m: &mut Writer<Ctx>| mut_ref_current(m)@ == st[k] && mut_ref_future(m)@ == st[k + 1]
                    && call_ensures(g, (m, &items[k]), Err::<(), Error>(e));
            let m = choose|m: &mut Writer<Ctx>| mut_ref_current(m)@ == st[k] && mut_ref_future(m)@ == st[k + 1]
                && call_ensures(g, (m, &items[k]), Err::<(), Error>(e));
            lemma_write_calls_err::<T, Ctx, G>(g, items, e, k, st, m);
        },
    }
}

} // verus!
