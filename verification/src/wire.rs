//! The wire format, stated over the bytes themselves: what each read takes from the next bytes,
//! what each write puts there, and which number a collection length stands for.
use vstd::prelude::*;
use crate::common::endian::{
    le_bytes, le_value, lemma_le_value_bound, lemma_pow256_values, lemma_uint_bytes_roundtrip, pow256,
    Endian,
};
use crate::rw::primitive::{read_signed, read_unsigned, word_bytes};
use crate::encoding::decode::Decode;
use crate::encoding::encode::Encode;
use crate::error::Error;
use crate::rw::collection::{length_of_usize, length_to_usize, CollectionLength};
use crate::rw::option::{decode_option, encode_option};
use crate::roundtrip::bytes_added;
use crate::rw::reader::ReaderView;
use crate::rw::writer::WriterView;

verus! {

/// The byte `k` places after a reader's position.
pub open spec fn byte_at<Ctx>(r: ReaderView<Ctx>, k: int) -> u8 {
    r.bytes[r.position + k]
}

/// The next byte of a reader.
pub open spec fn next_byte<Ctx>(r: ReaderView<Ctx>) -> u8 {
    byte_at(r, 0)
}

proof fn lemma_one_byte<Ctx>(r: ReaderView<Ctx>)
    requires
        r.has(1),
    ensures
        crate::rw::primitive::read_unsigned(r, 1) == (Ok::<int, Error>(next_byte(r) as int), r.advanced(1)),
{
    let b = r.next_bytes(1);
    assert(b =~= seq![next_byte(r)]);
    assert(b.reverse() =~= seq![next_byte(r)]);
    assert(b.drop_first() =~= Seq::<u8>::empty());
    assert(le_value(b) == next_byte(r)) by {
        reveal_with_fuel(le_value, 2);
    }
    assert(le_value(b.reverse()) == next_byte(r)) by {
        reveal_with_fuel(le_value, 2);
    }
}

/// A `bool` is read from one byte: any byte other than zero is `true`, zero is `false`; with
/// no byte left the read fails with `OutOfBounds` and the reader stays where it was.
pub proof fn lemma_bool_reads_any_nonzero_byte_as_true<Ctx>(r: ReaderView<Ctx>)
    ensures
        r.has(1) ==> bool::spec_decode(r) == (Ok::<bool, Error>(next_byte(r) != 0), r.advanced(1)),
        !r.has(1) ==> bool::spec_decode(r) == (Err::<bool, Error>(Error::OutOfBounds), r),
{
    if r.has(1) {
        lemma_one_byte(r);
    }
}

/// A `u8` is read as the next byte itself, and an `i8` as that byte in two's complement.
pub proof fn lemma_bytes_read_as_themselves<Ctx>(r: ReaderView<Ctx>)
    ensures
        r.has(1) ==> u8::spec_decode(r) == (Ok::<u8, Error>(next_byte(r)), r.advanced(1)),
        r.has(1) ==> i8::spec_decode(r) == (
            Ok::<i8, Error>(if next_byte(r) < 128 { next_byte(r) as i8 } else { (next_byte(r) - 256) as i8 }),
            r.advanced(1),
        ),
        !r.has(1) ==> u8::spec_decode(r) == (Err::<u8, Error>(Error::OutOfBounds), r),
        !r.has(1) ==> i8::spec_decode(r) == (Err::<i8, Error>(Error::OutOfBounds), r),
{
    lemma_pow256_values();
    if r.has(1) {
        lemma_one_byte(r);
        let b = r.next_bytes(1);
        assert(b.reverse() =~= b);
        assert(le_value(b) == next_byte(r)) by {
            reveal_with_fuel(le_value, 2);
        }
    }
}

/// A `u16` is read from the next two bytes, the low byte first in little-endian order and the
/// high byte first in big-endian order; a `u32` likewise from four.
pub proof fn lemma_u16_u32_byte_order<Ctx>(r: ReaderView<Ctx>)
    ensures
        r.has(2) && r.endian == Endian::Little ==> u16::spec_decode(r) == (
            Ok::<u16, Error>((byte_at(r, 0) + 256 * byte_at(r, 1)) as u16),
            r.advanced(2),
        ),
        r.has(2) && r.endian == Endian::Big ==> u16::spec_decode(r) == (
            Ok::<u16, Error>((256 * byte_at(r, 0) + byte_at(r, 1)) as u16),
            r.advanced(2),
        ),
        r.has(4) && r.endian == Endian::Little ==> u32::spec_decode(r) == (
            Ok::<u32, Error>((byte_at(r, 0) + 0x100 * byte_at(r, 1)
                + 0x1_0000 * byte_at(r, 2) + 0x100_0000 * byte_at(r, 3)) as u32),
            r.advanced(4),
        ),
        r.has(4) && r.endian == Endian::Big ==> u32::spec_decode(r) == (
            Ok::<u32, Error>((0x100_0000 * byte_at(r, 0) + 0x1_0000 * byte_at(r, 1)
                + 0x100 * byte_at(r, 2) + byte_at(r, 3)) as u32),
            r.advanced(4),
        ),
        !r.has(2) ==> u16::spec_decode(r) == (Err::<u16, Error>(Error::OutOfBounds), r),
        !r.has(4) ==> u32::spec_decode(r) == (Err::<u32, Error>(Error::OutOfBounds), r),
{
    let p = r.position as int;
    if r.has(2) {
        let b = r.next_bytes(2);
        assert(b.drop_first().drop_first() =~= Seq::<u8>::empty());
        assert(b.reverse() =~= seq![b[1], b[0]]);
        assert(seq![b[1], b[0]].drop_first().drop_first() =~= Seq::<u8>::empty());
        assert(le_value(b) == b[0] + 256 * b[1]) by {
            reveal_with_fuel(le_value, 3);
        }
        assert(le_value(seq![b[1], b[0]]) == b[1] + 256 * b[0]) by {
            reveal_with_fuel(le_value, 3);
        }
    }
    if r.has(4) {
        let b = r.next_bytes(4);
        let rb = seq![b[3], b[2], b[1], b[0]];
        assert(b.reverse() =~= rb);
        assert(b.drop_first().drop_first().drop_first().drop_first() =~= Seq::<u8>::empty());
        assert(rb.drop_first().drop_first().drop_first().drop_first() =~= Seq::<u8>::empty());
        assert(le_value(b) == b[0] + 0x100 * b[1] + 0x1_0000 * b[2] + 0x100_0000 * b[3]) by {
            reveal_with_fuel(le_value, 5);
        }
        assert(le_value(rb) == b[3] + 0x100 * b[2] + 0x1_0000 * b[1] + 0x100_0000 * b[0]) by {
            reveal_with_fuel(le_value, 5);
        }
    }
}

/// A `bool` is written as the byte `1` for `true` and `0` for `false`; a `u16` as its low byte
/// then its high byte in little-endian order, the other way round in big-endian order.
pub proof fn lemma_bool_and_u16_writes<Ctx>(w: WriterView<Ctx>, b: bool, v: u16)
    ensures
        b.spec_encode(w) == (Ok::<(), Error>(()), w.appended(seq![if b { 1u8 } else { 0u8 }])),
        w.endian == Endian::Little ==> v.spec_encode(w) == (
            Ok::<(), Error>(()),
            w.appended(seq![(v % 256) as u8, (v / 256) as u8]),
        ),
        w.endian == Endian::Big ==> v.spec_encode(w) == (
            Ok::<(), Error>(()),
            w.appended(seq![(v / 256) as u8, (v % 256) as u8]),
        ),
{
    let lo = (v % 256) as u8;
    let hi = (v / 256) as u8;
    assert(le_bytes(v as nat, 2) =~= seq![lo, hi]) by {
        reveal_with_fuel(le_bytes, 3);
    }
    assert(seq![lo, hi].reverse() =~= seq![hi, lo]);
}

/// An optional value is `None` exactly when its presence byte is zero; for every other presence
/// byte the value is decoded from just after it; with no byte left the read fails with
/// `OutOfBounds` and the reader stays where it was.
pub proof fn lemma_option_presence_byte<T: Decode<Ctx, Error = Error>, Ctx>(r: ReaderView<Ctx>)
    ensures
        r.has(1) && next_byte(r) == 0 ==> decode_option::<T, Ctx>(r) == (Ok::<Option<T>, Error>(None), r.advanced(1)),
        r.has(1) && next_byte(r) != 0 ==> decode_option::<T, Ctx>(r) == (
            match T::spec_decode(r.advanced(1)).0 {
                Ok(x) => Ok::<Option<T>, Error>(Some(x)),
                Err(e) => Err(e),
            },
            T::spec_decode(r.advanced(1)).1,
        ),
        !r.has(1) ==> decode_option::<T, Ctx>(r) == (Err::<Option<T>, Error>(Error::OutOfBounds), r),
{
    if r.has(1) {
        lemma_one_byte(r);
    }
}

/// A length of an integer type stands for its own value: reading it as a count gives that value
/// when it is not negative and fits a `usize`, `CollectionLengthNegative` when it is negative and
/// `CollectionLengthOverflow` when it is too large.
pub proof fn lemma_lengths_are_their_values()
    ensures
        forall|l: u8| #[trigger] length_to_usize(l.spec_length()) == Ok::<usize, Error>(l as usize),
        forall|l: u16| #[trigger] length_to_usize(l.spec_length()) == Ok::<usize, Error>(l as usize),
        forall|l: u32| #[trigger] length_to_usize(l.spec_length()) == if l as int <= usize::MAX {
            Ok::<usize, Error>(l as usize)
        } else {
            Err(Error::CollectionLengthOverflow)
        },
        forall|l: u64| #[trigger] length_to_usize(l.spec_length()) == if l as int <= usize::MAX {
            Ok::<usize, Error>(l as usize)
        } else {
            Err(Error::CollectionLengthOverflow)
        },
        forall|l: u128| #[trigger] length_to_usize(l.spec_length()) == if l as int <= usize::MAX {
            Ok::<usize, Error>(l as usize)
        } else {
            Err(Error::CollectionLengthOverflow)
        },
        forall|l: usize| #[trigger] length_to_usize(l.spec_length()) == Ok::<usize, Error>(l),
        forall|l: i8| #[trigger] length_to_usize(l.spec_length()) == if l < 0 {
            Err::<usize, Error>(Error::CollectionLengthNegative)
        } else {
            Ok(l as usize)
        },
        forall|l: i16| #[trigger] length_to_usize(l.spec_length()) == if l < 0 {
            Err::<usize, Error>(Error::CollectionLengthNegative)
        } else {
            Ok(l as usize)
        },
        forall|l: i32| #[trigger] length_to_usize(l.spec_length()) == if l < 0 {
            Err::<usize, Error>(Error::CollectionLengthNegative)
        } else if l as int <= usize::MAX {
            Ok(l as usize)
        } else {
            Err(Error::CollectionLengthOverflow)
        },
        forall|l: i64| #[trigger] length_to_usize(l.spec_length()) == if l < 0 {
            Err::<usize, Error>(Error::CollectionLengthNegative)
        } else if l as int <= usize::MAX {
            Ok(l as usize)
        } else {
            Err(Error::CollectionLengthOverflow)
        },
        forall|l: i128| #[trigger] length_to_usize(l.spec_length()) == if l < 0 {
            Err::<usize, Error>(Error::CollectionLengthNegative)
        } else if l as int <= usize::MAX {
            Ok(l as usize)
        } else {
            Err(Error::CollectionLengthOverflow)
        },
        forall|l: isize| #[trigger] length_to_usize(l.spec_length()) == if l < 0 {
            Err::<usize, Error>(Error::CollectionLengthNegative)
        } else {
            Ok(l as usize)
        },
{
}

/// The prefix made for `n` elements is the number `n` itself, in every integer type that can
/// hold it; a type that cannot hold `n` refuses it with `CollectionLengthOverflow`.
pub proof fn lemma_prefixes_are_the_count(n: usize)
    ensures
        length_of_usize::<u8>(n) == if n <= u8::MAX { Ok::<u8, Error>(n as u8) } else { Err(Error::CollectionLengthOverflow) },
        length_of_usize::<u16>(n) == if n <= u16::MAX { Ok::<u16, Error>(n as u16) } else { Err(Error::CollectionLengthOverflow) },
        length_of_usize::<u32>(n) == if n <= u32::MAX { Ok::<u32, Error>(n as u32) } else { Err(Error::CollectionLengthOverflow) },
        length_of_usize::<u64>(n) == Ok::<u64, Error>(n as u64),
        length_of_usize::<u128>(n) == Ok::<u128, Error>(n as u128),
        length_of_usize::<usize>(n) == Ok::<usize, Error>(n),
        length_of_usize::<i8>(n) == if n <= i8::MAX { Ok::<i8, Error>(n as i8) } else { Err(Error::CollectionLengthOverflow) },
        length_of_usize::<i16>(n) == if n <= i16::MAX { Ok::<i16, Error>(n as i16) } else { Err(Error::CollectionLengthOverflow) },
        length_of_usize::<i32>(n) == if n <= i32::MAX { Ok::<i32, Error>(n as i32) } else { Err(Error::CollectionLengthOverflow) },
        length_of_usize::<i64>(n) == if n <= i64::MAX { Ok::<i64, Error>(n as i64) } else { Err(Error::CollectionLengthOverflow) },
        length_of_usize::<i128>(n) == Ok::<i128, Error>(n as i128),
        length_of_usize::<isize>(n) == if n <= isize::MAX { Ok::<isize, Error>(n as isize) } else { Err(Error::CollectionLengthOverflow) },
{
    crate::rw::primitive::lemma_word_bytes();
}

/// The unsigned number of `n` bytes read in little-endian order has the first byte as its
/// lowest digit in base 256, and the number of the `n - 1` bytes after it as the rest; in
/// big-endian order the last byte is the lowest digit and the first `n - 1` bytes are the rest.
/// No bytes stand for zero.
pub proof fn lemma_unsigned_digits<Ctx>(r: ReaderView<Ctx>, n: nat)
    requires
        r.has(n as int),
    ensures
        read_unsigned(r, n).0 is Ok,
        read_unsigned(r, n).1 == r.advanced(n as int),
        n == 0 ==> read_unsigned(r, n).0 == Ok::<int, Error>(0),
        n > 0 && r.endian == Endian::Little ==> {
            let v = read_unsigned(r, n).0->Ok_0;
            &&& v % 256 == byte_at(r, 0)
            &&& v / 256 == read_unsigned(r.advanced(1), (n - 1) as nat).0->Ok_0
        },
        n > 0 && r.endian == Endian::Big ==> {
            let v = read_unsigned(r, n).0->Ok_0;
            &&& v % 256 == byte_at(r, n - 1)
            &&& v / 256 == read_unsigned(r, (n - 1) as nat).0->Ok_0
        },
{
    let b = r.next_bytes(n as int);
    if n == 0 {
        assert(b =~= Seq::<u8>::empty());
        assert(b.reverse() =~= Seq::<u8>::empty());
    } else if r.endian == Endian::Little {
        let r1 = r.advanced(1);
        assert(b.drop_first() =~= r1.next_bytes(n - 1));
        let x = le_value(b.drop_first());
        assert(le_value(b) == b[0] + 256 * x);
        assert(b[0] == byte_at(r, 0));
        assert((b[0] + 256 * x) % 256 == b[0] && (b[0] + 256 * x) / 256 == x) by (nonlinear_arith)
            requires 0 <= b[0] < 256, x >= 0;
    } else {
        let front = r.next_bytes(n - 1);
        assert(b.reverse().drop_first() =~= front.reverse());
        let x = le_value(front.reverse());
        assert(le_value(b.reverse()) == b.reverse()[0] + 256 * x);
        assert(b.reverse()[0] == byte_at(r, n - 1));
        let d = b.reverse()[0];
        assert((d + 256 * x) % 256 == d && (d + 256 * x) / 256 == x) by (nonlinear_arith)
            requires 0 <= d < 256, x >= 0;
    }
}

/// The signed number of `n` bytes is their unsigned number in two's complement: the same when
/// the most significant byte (the last in little-endian order, the first in big-endian order)
/// is below `0x80`, and `256^n` less when it is not.
pub proof fn lemma_signed_is_twos_complement<Ctx>(r: ReaderView<Ctx>, n: nat)
    requires
        r.has(n as int),
        n > 0,
        r.endian == Endian::Little || r.endian == Endian::Big,
    ensures
        ({
            let u = read_unsigned(r, n).0->Ok_0;
            let top = if r.endian == Endian::Little { byte_at(r, n - 1) } else { byte_at(r, 0) };
            read_signed(r, n) == (
                Ok::<int, Error>(if top < 0x80 { u } else { u - pow256(n) }),
                r.advanced(n as int),
            )
        }),
{
    let b = r.next_bytes(n as int);
    lemma_le_value_bound(b);
    lemma_le_value_bound(b.reverse());
    let top = if r.endian == Endian::Little { byte_at(r, n - 1) } else { byte_at(r, 0) };
    let bm = if r.endian == Endian::Little { b } else { b.reverse() };
    assert(bm[n - 1] == top);
    lemma_top_digit(bm);
}

/// The number of little-endian bytes is at least half of `256^n` exactly when the last byte is
/// at least `0x80`.
proof fn lemma_top_digit(b: Seq<u8>)
    requires
        b.len() > 0,
    ensures
        (2 * le_value(b) >= pow256(b.len())) <==> b[b.len() - 1] >= 0x80,
    decreases b.len(),
{
    let rest = b.drop_first();
    lemma_le_value_bound(rest);
    let x = le_value(rest);
    let p = pow256(rest.len());
    if b.len() == 1 {
        assert(rest =~= Seq::<u8>::empty());
        assert(pow256(1) == 256) by {
            reveal_with_fuel(pow256, 2);
        }
    } else {
        lemma_top_digit(rest);
        assert(rest[rest.len() - 1] == b[b.len() - 1]);
        assert(pow256(b.len()) == 256 * p);
        let d = b[0];
        let q = pow256((rest.len() - 1) as nat);
        assert(p == 256 * q);
        crate::common::endian::lemma_pow256_positive((rest.len() - 1) as nat);
        assert((2 * (d + 256 * x) >= 256 * p) <==> (2 * x >= p)) by (nonlinear_arith)
            requires 0 <= d < 256, 0 <= x < p, p == 256 * q, q >= 1;
    }
}

/// Each integer type reads as many bytes as it is wide (`usize` and `isize` as many as a machine
/// word) and takes the number they stand for: unsigned for the unsigned types, in two's
/// complement for the signed ones.
pub proof fn lemma_integers_read_their_width<Ctx>(r: ReaderView<Ctx>)
    ensures
        r.has(2) ==> u16::spec_decode(r) == (Ok::<u16, Error>(read_unsigned(r, 2).0->Ok_0 as u16), r.advanced(2))
            && read_unsigned(r, 2).0->Ok_0 == (read_unsigned(r, 2).0->Ok_0 as u16) as int,
        r.has(4) ==> u32::spec_decode(r) == (Ok::<u32, Error>(read_unsigned(r, 4).0->Ok_0 as u32), r.advanced(4))
            && read_unsigned(r, 4).0->Ok_0 == (read_unsigned(r, 4).0->Ok_0 as u32) as int,
        r.has(8) ==> u64::spec_decode(r) == (Ok::<u64, Error>(read_unsigned(r, 8).0->Ok_0 as u64), r.advanced(8))
            && read_unsigned(r, 8).0->Ok_0 == (read_unsigned(r, 8).0->Ok_0 as u64) as int,
        r.has(16) ==> u128::spec_decode(r) == (Ok::<u128, Error>(read_unsigned(r, 16).0->Ok_0 as u128), r.advanced(16))
            && read_unsigned(r, 16).0->Ok_0 == (read_unsigned(r, 16).0->Ok_0 as u128) as int,
        r.has(word_bytes() as int) ==> usize::spec_decode(r) == (
            Ok::<usize, Error>(read_unsigned(r, word_bytes()).0->Ok_0 as usize),
            r.advanced(word_bytes() as int),
        ) && read_unsigned(r, word_bytes()).0->Ok_0 == (read_unsigned(r, word_bytes()).0->Ok_0 as usize) as int,
        r.has(2) ==> i16::spec_decode(r) == (Ok::<i16, Error>(read_signed(r, 2).0->Ok_0 as i16), r.advanced(2))
            && read_signed(r, 2).0->Ok_0 == (read_signed(r, 2).0->Ok_0 as i16) as int,
        r.has(4) ==> i32::spec_decode(r) == (Ok::<i32, Error>(read_signed(r, 4).0->Ok_0 as i32), r.advanced(4))
            && read_signed(r, 4).0->Ok_0 == (read_signed(r, 4).0->Ok_0 as i32) as int,
        r.has(8) ==> i64::spec_decode(r) == (Ok::<i64, Error>(read_signed(r, 8).0->Ok_0 as i64), r.advanced(8))
            && read_signed(r, 8).0->Ok_0 == (read_signed(r, 8).0->Ok_0 as i64) as int,
        r.has(16) ==> i128::spec_decode(r) == (Ok::<i128, Error>(read_signed(r, 16).0->Ok_0 as i128), r.advanced(16))
            && read_signed(r, 16).0->Ok_0 == (read_signed(r, 16).0->Ok_0 as i128) as int,
        r.has(word_bytes() as int) ==> isize::spec_decode(r) == (
            Ok::<isize, Error>(read_signed(r, word_bytes()).0->Ok_0 as isize),
            r.advanced(word_bytes() as int),
        ) && read_signed(r, word_bytes()).0->Ok_0 == (read_signed(r, word_bytes()).0->Ok_0 as isize) as int,
        !r.has(2) ==> u16::spec_decode(r).0 == Err::<u16, Error>(Error::OutOfBounds) && i16::spec_decode(r).0 == Err::<i16, Error>(Error::OutOfBounds),
        !r.has(4) ==> u32::spec_decode(r).0 == Err::<u32, Error>(Error::OutOfBounds) && i32::spec_decode(r).0 == Err::<i32, Error>(Error::OutOfBounds),
        !r.has(8) ==> u64::spec_decode(r).0 == Err::<u64, Error>(Error::OutOfBounds) && i64::spec_decode(r).0 == Err::<i64, Error>(Error::OutOfBounds),
        !r.has(16) ==> u128::spec_decode(r).0 == Err::<u128, Error>(Error::OutOfBounds) && i128::spec_decode(r).0 == Err::<i128, Error>(Error::OutOfBounds),
{
    lemma_pow256_values();
    crate::rw::primitive::lemma_word_bytes();
    if r.has(2) { lemma_uint_bytes_roundtrip(r.endian, r.next_bytes(2)); }
    if r.has(4) { lemma_uint_bytes_roundtrip(r.endian, r.next_bytes(4)); }
    if r.has(8) { lemma_uint_bytes_roundtrip(r.endian, r.next_bytes(8)); }
    if r.has(16) { lemma_uint_bytes_roundtrip(r.endian, r.next_bytes(16)); }
    if r.has(word_bytes() as int) { lemma_uint_bytes_roundtrip(r.endian, r.next_bytes(word_bytes() as int)); }
}

/// An absent optional value is written as the single byte `0`; a present one as the byte `1`
/// followed by the bytes of its value.
pub proof fn lemma_option_writes_presence_byte<T: Encode<Ctx, Error = Error>, Ctx>(v: Option<T>, w: WriterView<Ctx>)
    ensures
        v is None ==> encode_option(v, w) == (Ok::<(), Error>(()), w.appended(seq![0u8]))
            && bytes_added(w, encode_option(v, w).1) == seq![0u8],
        v matches Some(x) ==> {
            let w1 = w.appended(seq![1u8]);
            &&& encode_option(v, w) == x.spec_encode(w1)
            &&& w1.bytes == w.bytes + seq![1u8]
        },
{
    assert(bytes_added(w, w.appended(seq![0u8])) =~= seq![0u8]);
}

} // verus!
