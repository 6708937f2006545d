use vstd::prelude::*;
use crate::encoding::decode::Decode;
use crate::encoding::encode::Encode;
use crate::error::Error;
use crate::rw::reader::{Reader, ReaderView};
use crate::rw::writer::{Writer, WriterView};

verus! {

/// A trait for types that can represent the length of a collection.
pub trait CollectionLength: Sized {
    /// The length that this value stands for. The implementations of this crate define it.
    /// One that does not (such as an implementation written outside Verus, which has no spec
    /// functions) gets `arbitrary()`: a single value, the same for every argument, of which
    /// nothing is known.
    open spec fn spec_length(self) -> int {
        arbitrary()
    }

    /// The value that stands for the length `n`, or `None` when this type cannot hold `n`.
    /// The implementations of this crate define it. One that does not (such as an
    /// implementation written outside Verus, which has no spec functions) gets `arbitrary()`: a
    /// single value, the same for every argument, of which nothing is known.
    open spec fn spec_of_length(n: nat) -> Option<Self> {
        arbitrary()
    }

    /// Converts the collection length to a `usize`.
    fn to_usize(self) -> (r: Result<usize, Error>)
        ensures
            r == length_to_usize(self.spec_length()),
    ;

    /// Tries to create a collection length from a `usize`.
    fn try_from_usize(len: usize) -> (r: Result<Self, Error>)
        ensures
            r == (match Self::spec_of_length(len as nat) {
                Some(l) => Ok(l),
                None => Err(Error::CollectionLengthOverflow),
            }),
    ;
}

/// A length as a `usize`: an error when it is negative or larger than `usize::MAX`.
pub open spec fn length_to_usize(n: int) -> Result<usize, Error> {
    if n < 0 {
        Err(Error::CollectionLengthNegative)
    } else if n > usize::MAX {
        Err(Error::CollectionLengthOverflow)
    } else {
        Ok(n as usize)
    }
}

/// The value of `L` that stands for the length `n`, or an overflow error.
pub open spec fn length_of_usize<L: CollectionLength>(n: usize) -> Result<L, Error> {
    match L::spec_of_length(n as nat) {
        Some(l) => Ok(l),
        None => Err(Error::CollectionLengthOverflow),
    }
}

/// Decoding `n` values one after another with `step`: all of them, or the first error, and
/// the state the reader is left in.
pub open spec fn decode_many<T, E, Ctx>(
    r: ReaderView<Ctx>,
    n: nat,
    step: spec_fn(ReaderView<Ctx>) -> (Result<T, E>, ReaderView<Ctx>),
) -> (Result<Seq<T>, E>, ReaderView<Ctx>)
    decreases n,
{
    if n == 0 {
        (Ok(Seq::empty()), r)
    } else {
        let (prev, r1) = decode_many(r, (n - 1) as nat, step);
        match prev {
            Err(e) => (Err(e), r1),
            Ok(items) => {
                let (next, r2) = step(r1);
                match next {
                    Ok(v) => (Ok(items.push(v)), r2),
                    Err(e) => (Err(e), r2),
                }
            },
        }
    }
}

/// Decoding `n` values of `T` one after another.
pub open spec fn decode_seq<T: Decode<Ctx>, Ctx>(r: ReaderView<Ctx>, n: nat) -> (Result<Seq<T>, T::Error>, ReaderView<Ctx>) {
    decode_many(r, n, |r1: ReaderView<Ctx>| T::spec_decode(r1))
}

/// Encoding `items` one after another with `step`: success, or the first error, and the
/// state the writer is left in.
pub open spec fn encode_many<T, E, Ctx>(
    items: Seq<T>,
    w: WriterView<Ctx>,
    step: spec_fn(T, WriterView<Ctx>) -> (Result<(), E>, WriterView<Ctx>),
) -> (Result<(), E>, WriterView<Ctx>)
    decreases items.len(),
{
    if items.len() == 0 {
        (Ok(()), w)
    } else {
        let (prev, w1) = encode_many(items.drop_last(), w, step);
        match prev {
            Err(e) => (Err(e), w1),
            Ok(_) => step(items.last(), w1),
        }
    }
}

/// Encoding `items` of `T` one after another.
pub open spec fn encode_seq<T: Encode<Ctx>, Ctx>(items: Seq<T>, w: WriterView<Ctx>) -> (Result<(), T::Error>, WriterView<Ctx>) {
    encode_many(items, w, |x: T, w1: WriterView<Ctx>| x.spec_encode(w1))
}

/// Encoding a non-empty run of items is encoding all but the last, then the last.
pub proof fn lemma_encode_seq_step<T: Encode<Ctx>, Ctx>(items: Seq<T>, w: WriterView<Ctx>)
    requires
        items.len() > 0,
    ensures
        encode_seq(items, w) == (match encode_seq(items.drop_last(), w) {
            (Err(e), w1) => (Err(e), w1),
            (Ok(_), w1) => items.last().spec_encode(w1),
        }),
{
}

/// Decoding a run of `n + 1` values is decoding `n` values, then one more.
pub proof fn lemma_decode_seq_step<T: Decode<Ctx>, Ctx>(r: ReaderView<Ctx>, n: nat)
    ensures
        decode_seq::<T, Ctx>(r, n + 1) == (match decode_seq::<T, Ctx>(r, n) {
            (Err(e), r1) => (Err(e), r1),
            (Ok(items), r1) => match T::spec_decode(r1) {
                (Ok(v), r2) => (Ok(items.push(v)), r2),
                (Err(e), r2) => (Err(e), r2),
            },
        }),
{
}

/// Decoding a length of type `L` and then that many values of `T`.
pub open spec fn decode_prefixed<T: Decode<Ctx, Error = Error>, L: Decode<Ctx, Error = Error> + CollectionLength, Ctx>(
    r: ReaderView<Ctx>,
) -> (Result<Seq<T>, Error>, ReaderView<Ctx>) {
    let (len, r1) = L::spec_decode(r);
    match len {
        Err(e) => (Err(e), r1),
        Ok(l) => match length_to_usize(l.spec_length()) {
            Err(e) => (Err(e), r1),
            Ok(n) => decode_seq::<T, Ctx>(r1, n as nat),
        },
    }
}

/// Encoding the length of `items` as an `L` and then the items.
pub open spec fn encode_prefixed<T: Encode<Ctx, Error = Error>, L: Encode<Ctx, Error = Error> + CollectionLength, Ctx>(
    items: Seq<T>,
    w: WriterView<Ctx>,
) -> (Result<(), Error>, WriterView<Ctx>) {
    match length_of_usize::<L>(items.len() as usize) {
        Err(e) => (Err(e), w),
        Ok(l) => {
            let (res, w1) = l.spec_encode(w);
            match res {
                Err(e) => (Err(e), w1),
                Ok(_) => encode_seq(items, w1),
            }
        },
    }
}

/// The items of a vector result as a sequence.
pub open spec fn vec_result<T, E>(r: Result<Vec<T>, E>) -> Result<Seq<T>, E> {
    match r {
        Ok(v) => Ok(v@),
        Err(e) => Err(e),
    }
}

/// The items of an array result as a sequence.
pub open spec fn array_result<T, E, const N: usize>(r: Result<[T; N], E>) -> Result<Seq<T>, E> {
    match r {
        Ok(a) => Ok(a@),
        Err(e) => Err(e),
    }
}

/// `<[T; N] as TryFrom<Vec<T>>>::try_from`. std hands the elements back as an array, in
/// order, when the vector holds exactly `N` of them, and hands the vector back otherwise.
#[verifier::external_body]
fn vec_into_array<T, const N: usize>(v: Vec<T>) -> (r: Result<[T; N], Vec<T>>)
    ensures
        r is Ok <==> v@.len() == N,
        r matches Ok(a) ==> a@ == v@,
        r matches Err(back) ==> back@ == v@,
{
    <[T; N]>::try_from(v)
}

/// The elements of `v`, which holds exactly `N` of them, as an array.
pub(crate) fn array_from_vec<T, const N: usize>(v: Vec<T>) -> (a: [T; N])
    requires
        v@.len() == N,
    ensures
        a@ == v@,
{
    match vec_into_array::<T, N>(v) {
        Ok(a) => a,
        Err(_) => vstd::pervasive::unreached(),
    }
}

impl CollectionLength for u8 {
    open spec fn spec_length(self) -> int {
        self as int
    }

    open spec fn spec_of_length(n: nat) -> Option<u8> {
        if n <= u8::MAX {
            Some(n as u8)
        } else {
            None
        }
    }

    fn to_usize(self) -> (r: Result<usize, Error>) {
        if (self as u128) > (usize::MAX as u128) {
            Err(Error::CollectionLengthOverflow)
        } else {
            Ok(self as usize)
        }
    }

    fn try_from_usize(len: usize) -> (r: Result<u8, Error>) {
        if (len as u128) > (u8::MAX as u128) {
            Err(Error::CollectionLengthOverflow)
        } else {
            Ok(len as u8)
        }
    }
}

impl CollectionLength for u16 {
    open spec fn spec_length(self) -> int {
        self as int
    }

    open spec fn spec_of_length(n: nat) -> Option<u16> {
        if n <= u16::MAX {
            Some(n as u16)
        } else {
            None
        }
    }

    fn to_usize(self) -> (r: Result<usize, Error>) {
        if (self as u128) > (usize::MAX as u128) {
            Err(Error::CollectionLengthOverflow)
        } else {
            Ok(self as usize)
        }
    }

    fn try_from_usize(len: usize) -> (r: Result<u16, Error>) {
        if (len as u128) > (u16::MAX as u128) {
            Err(Error::CollectionLengthOverflow)
        } else {
            Ok(len as u16)
        }
    }
}

impl CollectionLength for u32 {
    open spec fn spec_length(self) -> int {
        self as int
    }

    open spec fn spec_of_length(n: nat) -> Option<u32> {
        if n <= u32::MAX {
            Some(n as u32)
        } else {
            None
        }
    }

    fn to_usize(self) -> (r: Result<usize, Error>) {
        if (self as u128) > (usize::MAX as u128) {
            Err(Error::CollectionLengthOverflow)
        } else {
            Ok(self as usize)
        }
    }

    fn try_from_usize(len: usize) -> (r: Result<u32, Error>) {
        if (len as u128) > (u32::MAX as u128) {
            Err(Error::CollectionLengthOverflow)
        } else {
            Ok(len as u32)
        }
    }
}

impl CollectionLength for u64 {
    open spec fn spec_length(self) -> int {
        self as int
    }

    open spec fn spec_of_length(n: nat) -> Option<u64> {
        if n <= u64::MAX {
            Some(n as u64)
        } else {
            None
        }
    }

    fn to_usize(self) -> (r: Result<usize, Error>) {
        if (self as u128) > (usize::MAX as u128) {
            Err(Error::CollectionLengthOverflow)
        } else {
            Ok(self as usize)
        }
    }

    fn try_from_usize(len: usize) -> (r: Result<u64, Error>) {
        if (len as u128) > (u64::MAX as u128) {
            Err(Error::CollectionLengthOverflow)
        } else {
            Ok(len as u64)
        }
    }
}

impl CollectionLength for u128 {
    open spec fn spec_length(self) -> int {
        self as int
    }

    open spec fn spec_of_length(n: nat) -> Option<u128> {
        if n <= u128::MAX {
            Some(n as u128)
        } else {
            None
        }
    }

    fn to_usize(self) -> (r: Result<usize, Error>) {
        if (self as u128) > (usize::MAX as u128) {
            Err(Error::CollectionLengthOverflow)
        } else {
            Ok(self as usize)
        }
    }

    fn try_from_usize(len: usize) -> (r: Result<u128, Error>) {
        if (len as u128) > (u128::MAX as u128) {
            Err(Error::CollectionLengthOverflow)
        } else {
            Ok(len as u128)
        }
    }
}

impl CollectionLength for usize {
    open spec fn spec_length(self) -> int {
        self as int
    }

    open spec fn spec_of_length(n: nat) -> Option<usize> {
        if n <= usize::MAX {
            Some(n as usize)
        } else {
            None
        }
    }

    fn to_usize(self) -> (r: Result<usize, Error>) {
        if (self as u128) > (usize::MAX as u128) {
            Err(Error::CollectionLengthOverflow)
        } else {
            Ok(self as usize)
        }
    }

    fn try_from_usize(len: usize) -> (r: Result<usize, Error>) {
        if (len as u128) > (usize::MAX as u128) {
            Err(Error::CollectionLengthOverflow)
        } else {
            Ok(len as usize)
        }
    }
}

impl CollectionLength for i8 {
    open spec fn spec_length(self) -> int {
        self as int
    }

    open spec fn spec_of_length(n: nat) -> Option<i8> {
        if n <= i8::MAX {
            Some(n as i8)
        } else {
            None
        }
    }

    fn to_usize(self) -> (r: Result<usize, Error>) {
        if self < 0 {
            return Err(Error::CollectionLengthNegative);
        }
        if (self as u128) > (usize::MAX as u128) {
            Err(Error::CollectionLengthOverflow)
        } else {
            Ok(self as usize)
        }
    }

    fn try_from_usize(len: usize) -> (r: Result<i8, Error>) {
        if (len as u128) > (i8::MAX as u128) {
            Err(Error::CollectionLengthOverflow)
        } else {
            Ok(len as i8)
        }
    }
}

impl CollectionLength for i16 {
    open spec fn spec_length(self) -> int {
        self as int
    }

    open spec fn spec_of_length(n: nat) -> Option<i16> {
        if n <= i16::MAX {
            Some(n as i16)
        } else {
            None
        }
    }

    fn to_usize(self) -> (r: Result<usize, Error>) {
        if self < 0 {
            return Err(Error::CollectionLengthNegative);
        }
        if (self as u128) > (usize::MAX as u128) {
            Err(Error::CollectionLengthOverflow)
        } else {
            Ok(self as usize)
        }
    }

    fn try_from_usize(len: usize) -> (r: Result<i16, Error>) {
        if (len as u128) > (i16::MAX as u128) {
            Err(Error::CollectionLengthOverflow)
        } else {
            Ok(len as i16)
        }
    }
}

impl CollectionLength for i32 {
    open spec fn spec_length(self) -> int {
        self as int
    }

    open spec fn spec_of_length(n: nat) -> Option<i32> {
        if n <= i32::MAX {
            Some(n as i32)
        } else {
            None
        }
    }

    fn to_usize(self) -> (r: Result<usize, Error>) {
        if self < 0 {
            return Err(Error::CollectionLengthNegative);
        }
        if (self as u128) > (usize::MAX as u128) {
            Err(Error::CollectionLengthOverflow)
        } else {
            Ok(self as usize)
        }
    }

    fn try_from_usize(len: usize) -> (r: Result<i32, Error>) {
        if (len as u128) > (i32::MAX as u128) {
            Err(Error::CollectionLengthOverflow)
        } else {
            Ok(len as i32)
        }
    }
}

impl CollectionLength for i64 {
    open spec fn spec_length(self) -> int {
        self as int
    }

    open spec fn spec_of_length(n: nat) -> Option<i64> {
        if n <= i64::MAX {
            Some(n as i64)
        } else {
            None
        }
    }

    fn to_usize(self) -> (r: Result<usize, Error>) {
        if self < 0 {
            return Err(Error::CollectionLengthNegative);
        }
        if (self as u128) > (usize::MAX as u128) {
            Err(Error::CollectionLengthOverflow)
        } else {
            Ok(self as usize)
        }
    }

    fn try_from_usize(len: usize) -> (r: Result<i64, Error>) {
        if (len as u128) > (i64::MAX as u128) {
            Err(Error::CollectionLengthOverflow)
        } else {
            Ok(len as i64)
        }
    }
}

impl CollectionLength for i128 {
    open spec fn spec_length(self) -> int {
        self as int
    }

    open spec fn spec_of_length(n: nat) -> Option<i128> {
        if n <= i128::MAX {
            Some(n as i128)
        } else {
            None
        }
    }

    fn to_usize(self) -> (r: Result<usize, Error>) {
        if self < 0 {
            return Err(Error::CollectionLengthNegative);
        }
        if (self as u128) > (usize::MAX as u128) {
            Err(Error::CollectionLengthOverflow)
        } else {
            Ok(self as usize)
        }
    }

    fn try_from_usize(len: usize) -> (r: Result<i128, Error>) {
        if (len as u128) > (i128::MAX as u128) {
            Err(Error::CollectionLengthOverflow)
        } else {
            Ok(len as i128)
        }
    }
}

impl CollectionLength for isize {
    open spec fn spec_length(self) -> int {
        self as int
    }

    open spec fn spec_of_length(n: nat) -> Option<isize> {
        if n <= isize::MAX {
            Some(n as isize)
        } else {
            None
        }
    }

    fn to_usize(self) -> (r: Result<usize, Error>) {
        if self < 0 {
            return Err(Error::CollectionLengthNegative);
        }
        if (self as u128) > (usize::MAX as u128) {
            Err(Error::CollectionLengthOverflow)
        } else {
            Ok(self as usize)
        }
    }

    fn try_from_usize(len: usize) -> (r: Result<isize, Error>) {
        if (len as u128) > (isize::MAX as u128) {
            Err(Error::CollectionLengthOverflow)
        } else {
            Ok(len as isize)
        }
    }
}

/// Once decoding a run of values fails, decoding a longer run fails the same way.
pub proof fn lemma_decode_many_error_persists<T, E, Ctx>(
    r: ReaderView<Ctx>,
    k: nat,
    n: nat,
    step: spec_fn(ReaderView<Ctx>) -> (Result<T, E>, ReaderView<Ctx>),
)
    requires
        k <= n,
        decode_many(r, k, step).0 is Err,
    ensures
        decode_many(r, n, step) == decode_many(r, k, step),
    decreases n,
{
    if n > k {
        lemma_decode_many_error_persists(r, k, (n - 1) as nat, step);
    }
}

/// Once encoding a prefix of the items fails, encoding all of them fails the same way.
pub proof fn lemma_encode_many_error_persists<T, E, Ctx>(
    items: Seq<T>,
    k: nat,
    w: WriterView<Ctx>,
    step: spec_fn(T, WriterView<Ctx>) -> (Result<(), E>, WriterView<Ctx>),
)
    requires
        k <= items.len(),
        encode_many(items.take(k as int), w, step).0 is Err,
    ensures
        encode_many(items, w, step) == encode_many(items.take(k as int), w, step),
    decreases items.len(),
{
    if items.len() > k {
        let shorter = items.drop_last();
        assert(shorter.take(k as int) =~= items.take(k as int));
        lemma_encode_many_error_persists(shorter, k, w, step);
    } else {
        assert(items.take(k as int) =~= items);
    }
}

/// Decodes `len` values of `T` one after another, stopping at the first error.
pub(crate) fn decode_items<T: Decode<Ctx>, Ctx>(rd: &mut Reader<'_, Ctx>, len: usize) -> (r: Result<Vec<T>, T::Error>)
    ensures
        (vec_result(r), final(rd)@) == decode_seq::<T, Ctx>(old(rd)@, len as nat),
{
    let mut vec: Vec<T> = Vec::new();
    let mut i: usize = 0;
    while i < len
        invariant
            i <= len,
            (Ok::<Seq<T>, T::Error>(vec@), rd@) == decode_seq::<T, Ctx>(old(rd)@, i as nat),
        decreases len - i,
    {
        match T::decode(rd) {
            Ok(v) => {
                vec.push(v);
            },
            Err(e) => {
                proof {
                    lemma_decode_many_error_persists(
                        old(rd)@,
                        (i + 1) as nat,
                        len as nat,
                        |r1: ReaderView<Ctx>| T::spec_decode(r1),
                    );
                }
                return Err(e);
            },
        }
        i = i + 1;
    }
    Ok(vec)
}

/// Encodes the items one after another, stopping at the first error.
pub(crate) fn encode_items<T: Encode<Ctx>, Ctx>(w: &mut Writer<Ctx>, items: &[T]) -> (r: Result<(), T::Error>)
ensures
    (r, final(w)@) == encode_seq::<T, Ctx>(items@, old(w)@),
{
    let n = items.len();
    let mut i: usize = 0;
    assert(items@.take(0) =~= Seq::<T>::empty());
    while i < n
        invariant
            n == items@.len(),
            i <= n,
            (Ok::<(), T::Error>(()), w@) == encode_seq::<T, Ctx>(items@.take(i as int), old(w)@),
        decreases n - i,
    {
        assert(items@.take(i + 1).drop_last() =~= items@.take(i as int));
        assert(items@.take(i + 1).last() == items@[i as int]);
        proof {
            lemma_encode_seq_step(items@.take(i + 1), old(w)@);
        }
        let item = &items[i];
        assert(*item == items@.take(i + 1).last());
        match item.encode(w) {
            Ok(u) => {
                assert(u == ());
            },
            Err(e) => {
                proof {
                    lemma_encode_many_error_persists(
                        items@,
                        (i + 1) as nat,
                        old(w)@,
                        |x: T, w1: WriterView<Ctx>| x.spec_encode(w1),
                    );
                }
                return Err(e);
            },
        }
        i = i + 1;
    }
    assert(items@.take(n as int) =~= items@);
    Ok(())
}

/// A trait for reading collections of data from a reader.
pub trait ReadCollection<Ctx> {
    /// Reads a vector of elements from the reader using the provided function.
    fn read_vec_with<T, F>(&mut self, len: usize, f: F) -> Result<Vec<T>, Error> where
        F: FnMut(&mut Reader<'_, Ctx>) -> Result<T, Error>,
        requires
            forall|rd: &mut Reader<'_, Ctx>| call_requires(f, (rd,)),
    ;

    /// Reads a vector of elements from the reader using the [Decode] trait.
    fn read_vec<T>(&mut self, len: usize) -> Result<Vec<T>, Error> where T: Decode<Ctx, Error = Error>;

    /// Reads an array of elements from the reader using the provided function.
    fn read_array_with<T, const N: usize, F>(&mut self, f: F) -> Result<[T; N], Error> where
        F: FnMut(&mut Reader<'_, Ctx>) -> Result<T, Error>,
        requires
            forall|rd: &mut Reader<'_, Ctx>| call_requires(f, (rd,)),
    ;

    /// Reads an array of elements from the reader using the [Decode] trait.
    fn read_array<T, const N: usize>(&mut self) -> Result<[T; N], Error> where T: Decode<Ctx, Error = Error>;

    /// Reads a vector of elements from the reader with a length prefix, using the provided
    /// function to read each element.
    fn read_prefixed_vec_with<T, L, F>(&mut self, f: F) -> Result<Vec<T>, Error> where
        L: Decode<Ctx, Error = Error> + CollectionLength,
        F: FnMut(&mut Reader<'_, Ctx>) -> Result<T, Error>,
        requires
            forall|rd: &mut Reader<'_, Ctx>| call_requires(f, (rd,)),
    ;

    /// Reads a vector of elements from the reader with a length prefix, using the [Decode] trait to read each element.
    fn read_prefixed_vec<T, L>(&mut self) -> Result<Vec<T>, Error> where
        T: Decode<Ctx, Error = Error>,
        L: Decode<Ctx, Error = Error> + CollectionLength,
    ;
}

/// A trait for writing collections of data to a writer.
pub trait WriteCollection<Ctx> {
    /// Writes a slice of elements to the writer using the provided function.
    fn write_slice_with<T, F>(&mut self, slice: &[T], f: F) -> Result<(), Error> where
        F: FnMut(&mut Writer<Ctx>, &T) -> Result<(), Error>,
        requires
            forall|wr: &mut Writer<Ctx>, x: &T| call_requires(f, (wr, x)),
    ;

    /// Writes a slice of elements to the writer using the [Encode] trait.
    fn write_slice<T>(&mut self, slice: &[T]) -> Result<(), Error> where T: Encode<Ctx, Error = Error>;

    /// Writes a slice of elements to the writer with a length prefix, using the provided function
    /// to write each element.
    fn write_prefixed_slice_with<T, L, F>(&mut self, slice: &[T], f: F) -> Result<(), Error> where
        L: Encode<Ctx, Error = Error> + CollectionLength,
        F: FnMut(&mut Writer<Ctx>, &T) -> Result<(), Error>,
        requires
            forall|wr: &mut Writer<Ctx>, x: &T| call_requires(f, (wr, x)),
    ;

    /// Writes a slice of elements to the writer with a length prefix, using the [Encode] trait to
    /// write each element.
    fn write_prefixed_slice<T, L>(&mut self, slice: &[T]) -> Result<(), Error> where
        T: Encode<Ctx, Error = Error>,
        L: Encode<Ctx, Error = Error> + CollectionLength,
    ;
}

impl<'a, Ctx> ReadCollection<Ctx> for Reader<'a, Ctx> {
    fn read_vec_with<T, F>(&mut self, len: usize, f: F) -> (r: Result<Vec<T>, Error>) where
        F: FnMut(&mut Reader<'_, Ctx>) -> Result<T, Error>,
        ensures
            r matches Ok(v) ==> v@.len() == len && exists|st: Seq<ReaderView<Ctx>>|
                st.len() == len + 1 && st[0] == old(self)@ && st[len as int] == final(self)@
                && forall|i: int| 0 <= i < len ==> exists|m: &mut Reader<'a, Ctx>|
                    mut_ref_current(m)@ == #[trigger] st[i] && mut_ref_future(m)@ == st[i + 1]
                    && call_ensures(f, (m,), Ok::<T, Error>(v@[i])),
            r matches Err(e) ==> exists|k: int, st: Seq<ReaderView<Ctx>>| #![trigger st[k]]
                0 <= k < len && st.len() == k + 2 && st[0] == old(self)@
                && st[k + 1] == final(self)@
                && (forall|i: int| 0 <= i < k ==> exists|m: &mut Reader<'a, Ctx>, v: T|
                    mut_ref_current(m)@ == #[trigger] st[i] && mut_ref_future(m)@ == st[i + 1]
                    && call_ensures(f, (m,), Ok::<T, Error>(v)))
                && exists|m: &mut Reader<'a, Ctx>| mut_ref_current(m)@ == st[k] && mut_ref_future(m)@
                    == st[k + 1] && call_ensures(f, (m,), Err::<T, Error>(e)),
    {
        let mut g = f;
        let mut vec: Vec<T> = Vec::new();
        let ghost mut st: Seq<ReaderView<Ctx>> = seq![self@];
        let mut i: usize = 0;
        while i < len
            invariant
                forall|rd: &mut Reader<'_, Ctx>| call_requires(f, (rd,)),
                g == f,
                i <= len,
                vec@.len() == i,
                st.len() == i + 1,
                st[0] == old(self)@,
                st[i as int] == self@,
                forall|j: int| 0 <= j < i ==> exists|m: &mut Reader<'a, Ctx>|
                    mut_ref_current(m)@ == #[trigger] st[j] && mut_ref_future(m)@ == st[j + 1]
                    && call_ensures(f, (m,), Ok::<T, Error>(vec@[j])),
            decreases len - i,
        {
            let res = g(self);
            match res {
                Ok(v) => {
                    proof {
                        st = st.push(self@);
                    }
                    vec.push(v);
                },
                Err(e) => {
                    let ghost st2 = st.push(self@);
                    assert(st2[i as int] == st[i as int]);
                    assert forall|j: int| 0 <= j < i implies exists|m: &mut Reader<'a, Ctx>, v: T|
                        mut_ref_current(m)@ == #[trigger] st2[j] && mut_ref_future(m)@ == st2[j + 1]
                        && call_ensures(f, (m,), Ok::<T, Error>(v)) by {
                        assert(st2[j] == st[j] && st2[j + 1] == st[j + 1]);
                    }
                    assert(exists|m: &mut Reader<'a, Ctx>| mut_ref_current(m)@ == st2[i as int] && mut_ref_future(m)@
                        == st2[i + 1] && call_ensures(f, (m,), Err::<T, Error>(e)));
                    assert(st2[i + 1] == final(self)@);
                    return Err(e);
                },
            }
            i = i + 1;
        }
        Ok(vec)
    }

    fn read_vec<T>(&mut self, len: usize) -> (r: Result<Vec<T>, Error>) where T: Decode<Ctx, Error = Error>
        ensures
            (vec_result(r), final(self)@) == decode_seq::<T, Ctx>(old(self)@, len as nat),
    {
        decode_items::<T, Ctx>(self, len)
    }

    fn read_array_with<T, const N: usize, F>(&mut self, f: F) -> (r: Result<[T; N], Error>) where
        F: FnMut(&mut Reader<'_, Ctx>) -> Result<T, Error>,
        ensures
            r matches Ok(a) ==> exists|st: Seq<ReaderView<Ctx>>|
                st.len() == N + 1 && st[0] == old(self)@ && st[N as int] == final(self)@
                && forall|i: int| 0 <= i < N ==> exists|m: &mut Reader<'a, Ctx>|
                    mut_ref_current(m)@ == #[trigger] st[i] && mut_ref_future(m)@ == st[i + 1]
                    && call_ensures(f, (m,), Ok::<T, Error>(a@[i])),
            r matches Err(e) ==> exists|k: int, st: Seq<ReaderView<Ctx>>| #![trigger st[k]]
                0 <= k < N && st.len() == k + 2 && st[0] == old(self)@
                && st[k + 1] == final(self)@
                && (forall|i: int| 0 <= i < k ==> exists|m: &mut Reader<'a, Ctx>, v: T|
                    mut_ref_current(m)@ == #[trigger] st[i] && mut_ref_future(m)@ == st[i + 1]
                    && call_ensures(f, (m,), Ok::<T, Error>(v)))
                && exists|m: &mut Reader<'a, Ctx>| mut_ref_current(m)@ == st[k] && mut_ref_future(m)@
                    == st[k + 1] && call_ensures(f, (m,), Err::<T, Error>(e)),
    {
        match self.read_vec_with(N, f) {
            Ok(v) => Ok(array_from_vec(v)),
            Err(e) => Err(e),
        }
    }

    fn read_array<T, const N: usize>(&mut self) -> (r: Result<[T; N], Error>) where T: Decode<Ctx, Error = Error>
        ensures
            (array_result(r), final(self)@) == decode_seq::<T, Ctx>(old(self)@, N as nat),
    {
        match self.read_vec(N) {
            Ok(v) => {
                proof {
                    lemma_decode_many_len(old(self)@, N as nat, |r1: ReaderView<Ctx>| T::spec_decode(r1));
                }
                Ok(array_from_vec(v))
            },
            Err(e) => Err(e),
        }
    }

    fn read_prefixed_vec_with<T, L, F>(&mut self, f: F) -> (r: Result<Vec<T>, Error>) where
        L: Decode<Ctx, Error = Error> + CollectionLength,
        F: FnMut(&mut Reader<'_, Ctx>) -> Result<T, Error>,
        ensures
            L::spec_decode(old(self)@).0 matches Err(e) ==> r == Err::<Vec<T>, Error>(e) && final(self)@ == L::spec_decode(old(self)@).1,
            L::spec_decode(old(self)@).0 matches Ok(l) ==> match length_to_usize(l.spec_length()) {
                Err(e) => r == Err::<Vec<T>, Error>(e) && final(self)@ == L::spec_decode(old(self)@).1,
                Ok(n) => {
                    &&& r matches Ok(v) ==> v@.len() == n && exists|st: Seq<ReaderView<Ctx>>|
                        st.len() == n + 1 && st[0] == L::spec_decode(old(self)@).1 && st[n as int] == final(self)@
                        && forall|i: int| 0 <= i < n ==> exists|m: &mut Reader<'a, Ctx>|
                            mut_ref_current(m)@ == #[trigger] st[i] && mut_ref_future(m)@ == st[i + 1]
                            && call_ensures(f, (m,), Ok::<T, Error>(v@[i]))
                    &&& r matches Err(e) ==> exists|k: int, st: Seq<ReaderView<Ctx>>| #![trigger st[k]]
                        0 <= k < n && st.len() == k + 2 && st[0] == L::spec_decode(old(self)@).1
                        && st[k + 1] == final(self)@
                        && (forall|i: int| 0 <= i < k ==> exists|m: &mut Reader<'a, Ctx>, v: T|
                            mut_ref_current(m)@ == #[trigger] st[i] && mut_ref_future(m)@ == st[i + 1]
                            && call_ensures(f, (m,), Ok::<T, Error>(v)))
                        && exists|m: &mut Reader<'a, Ctx>| mut_ref_current(m)@ == st[k] && mut_ref_future(m)@
                            == st[k + 1] && call_ensures(f, (m,), Err::<T, Error>(e))
                },
            },
    {
        let len: L = match self.read::<L>() {
            Ok(l) => l,
            Err(e) => return Err(e),
        };
        let n = match len.to_usize() {
            Ok(n) => n,
            Err(e) => return Err(e),
        };
        self.read_vec_with(n, f)
    }

    fn read_prefixed_vec<T, L>(&mut self) -> (r: Result<Vec<T>, Error>) where
        T: Decode<Ctx, Error = Error>,
        L: Decode<Ctx, Error = Error> + CollectionLength,
        ensures
            (vec_result(r), final(self)@) == decode_prefixed::<T, L, Ctx>(old(self)@),
    {
        let len: L = match self.read::<L>() {
            Ok(l) => l,
            Err(e) => return Err(e),
        };
        let n = match len.to_usize() {
            Ok(n) => n,
            Err(e) => return Err(e),
        };
        self.read_vec(n)
    }
}

/// A successful run of decodes yields exactly as many values as it was asked for.
pub proof fn lemma_decode_many_len<T, E, Ctx>(
    r: ReaderView<Ctx>,
    n: nat,
    step: spec_fn(ReaderView<Ctx>) -> (Result<T, E>, ReaderView<Ctx>),
)
    ensures
        decode_many(r, n, step).0 matches Ok(items) ==> items.len() == n,
    decreases n,
{
    if n > 0 {
        lemma_decode_many_len(r, (n - 1) as nat, step);
    }
}

impl<Ctx> WriteCollection<Ctx> for Writer<Ctx> {
    fn write_slice_with<T, F>(&mut self, slice: &[T], f: F) -> (r: Result<(), Error>) where
        F: FnMut(&mut Writer<Ctx>, &T) -> Result<(), Error>,
        ensures
            r is Ok ==> exists|st: Seq<WriterView<Ctx>>|
                st.len() == slice@.len() + 1 && st[0] == old(self)@ && st[slice@.len() as int] == final(self)@
                && forall|i: int| 0 <= i < slice@.len() ==> exists|m: &mut Writer<Ctx>|
                    mut_ref_current(m)@ == #[trigger] st[i] && mut_ref_future(m)@ == st[i + 1]
                    && call_ensures(f, (m, &slice@[i]), Ok::<(), Error>(())),
            r matches Err(e) ==> exists|k: int, st: Seq<WriterView<Ctx>>| #![trigger st[k]]
                0 <= k < slice@.len() && st.len() == k + 2 && st[0] == old(self)@ && st[k + 1] == final(self)@
                && (forall|i: int| 0 <= i < k ==> exists|m: &mut Writer<Ctx>|
                    mut_ref_current(m)@ == #[trigger] st[i] && mut_ref_future(m)@ == st[i + 1]
                    && call_ensures(f, (m, &slice@[i]), Ok::<(), Error>(())))
                && exists|m: &mut Writer<Ctx>| mut_ref_current(m)@ == st[k] && mut_ref_future(m)@ == st[k + 1]
                    && call_ensures(f, (m, &slice@[k]), Err::<(), Error>(e)),
    {
        let mut g = f;
        let ghost mut st: Seq<WriterView<Ctx>> = seq![self@];
        let n = slice.len();
        let mut i: usize = 0;
        while i < n
            invariant
                forall|wr: &mut Writer<Ctx>, x: &T| call_requires(f, (wr, x)),
                g == f,
                n == slice@.len(),
                i <= n,
                st.len() == i + 1,
                st[0] == old(self)@,
                st[i as int] == self@,
                forall|j: int| 0 <= j < i ==> exists|m: &mut Writer<Ctx>|
                    mut_ref_current(m)@ == #[trigger] st[j] && mut_ref_future(m)@ == st[j + 1]
                    && call_ensures(f, (m, &slice@[j]), Ok::<(), Error>(())),
            decreases n - i,
        {
            let item = &slice[i];
            assert(*item == slice@[i as int]);
            let res = g(self, item);
            match res {
                Ok(u) => {
                    assert(u == ());
                    proof {
                        st = st.push(self@);
                    }
                },
                Err(e) => {
                    let ghost st2 = st.push(self@);
                    assert(st2[i as int] == st[i as int]);
                    assert forall|j: int| 0 <= j < i implies exists|m: &mut Writer<Ctx>|
                        mut_ref_current(m)@ == #[trigger] st2[j] && mut_ref_future(m)@ == st2[j + 1]
                        && call_ensures(f, (m, &slice@[j]), Ok::<(), Error>(())) by {
                        assert(st2[j] == st[j] && st2[j + 1] == st[j + 1]);
                    }
                    assert(exists|m: &mut Writer<Ctx>| mut_ref_current(m)@ == st2[i as int] && mut_ref_future(m)@ == st2[i + 1]
                        && call_ensures(f, (m, &slice@[i as int]), Err::<(), Error>(e)));
                    assert(st2[i + 1] == final(self)@);
                    return Err(e);
                },
            }
            i = i + 1;
        }
        Ok(())
    }

    fn write_slice<T>(&mut self, slice: &[T]) -> (r: Result<(), Error>) where T: Encode<Ctx, Error = Error>
        ensures
            (r, final(self)@) == encode_seq::<T, Ctx>(slice@, old(self)@),
    {
        encode_items::<T, Ctx>(self, slice)
    }

    fn write_prefixed_slice_with<T, L, F>(&mut self, slice: &[T], f: F) -> (r: Result<(), Error>) where
        L: Encode<Ctx, Error = Error> + CollectionLength,
        F: FnMut(&mut Writer<Ctx>, &T) -> Result<(), Error>,
        ensures
            length_of_usize::<L>(slice@.len() as usize) matches Err(e) ==> r == Err::<(), Error>(e) && final(self)@ == old(self)@,
            length_of_usize::<L>(slice@.len() as usize) matches Ok(l) ==> {
                let (res, w1) = l.spec_encode(old(self)@);
                &&& res matches Err(e) ==> r == Err::<(), Error>(e) && final(self)@ == w1
                &&& res is Ok ==> {
                    &&& r is Ok ==> exists|st: Seq<WriterView<Ctx>>|
                        st.len() == slice@.len() + 1 && st[0] == w1 && st[slice@.len() as int] == final(self)@
                        && forall|i: int| 0 <= i < slice@.len() ==> exists|m: &mut Writer<Ctx>|
                            mut_ref_current(m)@ == #[trigger] st[i] && mut_ref_future(m)@ == st[i + 1]
                            && call_ensures(f, (m, &slice@[i]), Ok::<(), Error>(()))
                    &&& r matches Err(e) ==> exists|k: int, st: Seq<WriterView<Ctx>>| #![trigger st[k]]
                        0 <= k < slice@.len() && st.len() == k + 2 && st[0] == w1 && st[k + 1] == final(self)@
                        && (forall|i: int| 0 <= i < k ==> exists|m: &mut Writer<Ctx>|
                            mut_ref_current(m)@ == #[trigger] st[i] && mut_ref_future(m)@ == st[i + 1]
                            && call_ensures(f, (m, &slice@[i]), Ok::<(), Error>(())))
                        && exists|m: &mut Writer<Ctx>| mut_ref_current(m)@ == st[k] && mut_ref_future(m)@ == st[k + 1]
                            && call_ensures(f, (m, &slice@[k]), Err::<(), Error>(e))
                }
            },
    {
        let len = slice.len();
        let prefix = match L::try_from_usize(len) {
            Ok(l) => l,
            Err(e) => return Err(e),
        };
        match self.write(&prefix) {
            Ok(()) => {},
            Err(e) => return Err(e),
        }
        self.write_slice_with(slice, f)
    }

    fn write_prefixed_slice<T, L>(&mut self, slice: &[T]) -> (r: Result<(), Error>) where
        T: Encode<Ctx, Error = Error>,
        L: Encode<Ctx, Error = Error> + CollectionLength,
        ensures
            (r, final(self)@) == encode_prefixed::<T, L, Ctx>(slice@, old(self)@),
    {
        let len = slice.len();
        let prefix = match L::try_from_usize(len) {
            Ok(l) => l,
            Err(e) => return Err(e),
        };
        match self.write(&prefix) {
            Ok(()) => {},
            Err(e) => return Err(e),
        }
        self.write_slice(slice)
    }
}

} // verus!
