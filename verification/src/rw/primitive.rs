use vstd::prelude::*;
use crate::common::endian::{
    decode_uint, encode_uint, int_bytes, int_value, lemma_pow256_monotone, lemma_pow256_values,
    lemma_uint_bytes_roundtrip, pow256, resolve_little, signed_of, uint_bytes, uint_value, unsigned_of,
};
use crate::error::Error;
use crate::rw::reader::{Reader, ReaderView};
use crate::rw::writer::Writer;

verus! {

/// Reading an unsigned value of `width` bytes from `r`: the value and the state after, or
/// `OutOfBounds` and `r` unchanged when fewer bytes are left.
pub open spec fn read_unsigned<Ctx>(r: ReaderView<Ctx>, width: nat) -> (Result<int, Error>, ReaderView<Ctx>) {
    if r.has(width as int) {
        (Ok(uint_value(r.endian, r.next_bytes(width as int)) as int), r.advanced(width as int))
    } else {
        (Err(Error::OutOfBounds), r)
    }
}

/// Reading a two's complement value of `width` bytes from `r`, as [`read_unsigned`] does.
pub open spec fn read_signed<Ctx>(r: ReaderView<Ctx>, width: nat) -> (Result<int, Error>, ReaderView<Ctx>) {
    if r.has(width as int) {
        (Ok(int_value(r.endian, r.next_bytes(width as int))), r.advanced(width as int))
    } else {
        (Err(Error::OutOfBounds), r)
    }
}

/// A read whose number is handed out as a value of type `T`.
pub open spec fn read_as<T, Ctx>(read: (Result<int, Error>, ReaderView<Ctx>), cast: spec_fn(int) -> T) -> (Result<T, Error>, ReaderView<Ctx>) {
    (
        match read.0 {
            Ok(v) => Ok(cast(v)),
            Err(e) => Err(e),
        },
        read.1,
    )
}

/// The number of bytes of a `usize` or `isize` on this platform.
pub open spec fn word_bytes() -> nat {
    (usize::BITS / 8) as nat
}

pub(crate) proof fn lemma_word_bytes()
    ensures
        word_bytes() == 4 || word_bytes() == 8,
        word_bytes() == 4 ==> usize::MAX == 0xffff_ffff && isize::MAX == 0x7fff_ffff && isize::MIN == -0x8000_0000,
        word_bytes() == 8 ==> usize::MAX == 0xffff_ffff_ffff_ffff && isize::MAX == 0x7fff_ffff_ffff_ffff && isize::MIN == -0x8000_0000_0000_0000,
        pow256(word_bytes()) == usize::MAX + 1,
        pow256(word_bytes()) == 2 * (isize::MAX + 1),
{
    lemma_pow256_values();
}

fn word_width() -> (w: usize)
    ensures
        w == word_bytes(),
{
    (usize::BITS / 8) as usize
}

/// `256^width`, for widths whose power fits a `u128`.
fn pow256_u128(width: usize) -> (p: u128)
    requires
        width <= 15,
    ensures
        p == pow256(width as nat),
{
    let mut p: u128 = 1;
    let mut i: usize = 0;
    while i < width
        invariant
            i <= width <= 15,
            p == pow256(i as nat),
        decreases width - i,
    {
        proof {
            lemma_pow256_monotone((i + 1) as nat, 15);
            lemma_pow256_values();
            reveal_with_fuel(pow256, 2);
        }
        p = p * 256;
        i = i + 1;
    }
    p
}

/// The two's complement pattern of `v` on `width` bytes.
fn signed_to_unsigned(v: i128, width: usize) -> (u: u128)
    requires
        1 <= width <= 16,
        -pow256(width as nat) <= 2 * v < pow256(width as nat),
    ensures
        u == unsigned_of(v as int, width as nat),
        u < pow256(width as nat),
{
    proof {
        lemma_pow256_values();
    }
    if v >= 0 {
        v as u128
    } else if width == 16 {
        ((v - i128::MIN) as u128) + 0x8000_0000_0000_0000_0000_0000_0000_0000u128
    } else {
        let p = pow256_u128(width);
        proof {
            lemma_pow256_monotone(width as nat, 15);
            reveal_with_fuel(pow256, 16);
        }
        (v + (p as i128)) as u128
    }
}

/// The signed number whose two's complement pattern on `width` bytes is `u`.
fn unsigned_to_signed(u: u128, width: usize) -> (v: i128)
    requires
        1 <= width <= 16,
        u < pow256(width as nat),
    ensures
        v == signed_of(u as nat, width as nat),
        -pow256(width as nat) <= 2 * v < pow256(width as nat),
{
    proof {
        lemma_pow256_values();
    }
    if width == 16 {
        if u >= 0x8000_0000_0000_0000_0000_0000_0000_0000u128 {
            ((u - 0x8000_0000_0000_0000_0000_0000_0000_0000u128) as i128) + i128::MIN
        } else {
            u as i128
        }
    } else {
        let p = pow256_u128(width);
        proof {
            lemma_pow256_monotone(width as nat, 15);
            reveal_with_fuel(pow256, 16);
        }
        if u >= p - p / 2 {
            (u as i128) - (p as i128)
        } else {
            u as i128
        }
    }
}

impl<'a, Ctx> Reader<'a, Ctx> {
    /// Reads an unsigned value of `width` bytes in the reader's byte order.
    fn read_uint(&mut self, width: usize) -> (r: Result<u128, Error>)
        requires
            width <= 16,
        ensures
            old(self)@.has(width as int) ==> r == Ok::<u128, Error>(
                uint_value(old(self)@.endian, old(self)@.next_bytes(width as int)) as u128,
            ) && final(self)@ == old(self)@.advanced(width as int),
            !old(self)@.has(width as int) ==> r == Err::<u128, Error>(Error::OutOfBounds) && final(self)@ == old(self)@,
            r matches Ok(v) ==> v < pow256(width as nat),
            old(self)@.has(width as int) ==> uint_value(old(self)@.endian, old(self)@.next_bytes(width as int)) < pow256(width as nat),
    {
        proof {
            lemma_pow256_monotone(width as nat, 16);
            lemma_pow256_values();
            if old(self)@.has(width as int) {
                lemma_uint_bytes_roundtrip(old(self)@.endian, old(self)@.next_bytes(width as int));
                assert(old(self)@.next_bytes(width as int).len() == width);
            }
        }
        let little = resolve_little(self.endian());
        match self.take(width) {
            Ok(bytes) => {
                let v = decode_uint(bytes, little);
                proof {
                    lemma_uint_bytes_roundtrip(old(self)@.endian, bytes@);
                }
                Ok(v)
            },
            Err(e) => Err(e),
        }
    }

    /// Reads a two's complement value of `width` bytes in the reader's byte order.
    fn read_int(&mut self, width: usize) -> (r: Result<i128, Error>)
        requires
            1 <= width <= 16,
        ensures
            old(self)@.has(width as int) ==> r == Ok::<i128, Error>(
                int_value(old(self)@.endian, old(self)@.next_bytes(width as int)) as i128,
            ) && final(self)@ == old(self)@.advanced(width as int),
            !old(self)@.has(width as int) ==> r == Err::<i128, Error>(Error::OutOfBounds) && final(self)@ == old(self)@,
            r matches Ok(v) ==> -pow256(width as nat) <= 2 * v < pow256(width as nat),
            old(self)@.has(width as int) ==> -pow256(width as nat) <= 2 * int_value(old(self)@.endian, old(self)@.next_bytes(width as int)) < pow256(width as nat),
    {
        proof {
            if old(self)@.has(width as int) {
                crate::common::endian::lemma_int_bytes_roundtrip(old(self)@.endian, old(self)@.next_bytes(width as int));
                assert(old(self)@.next_bytes(width as int).len() == width);
            }
        }
        match self.read_uint(width) {
            Ok(u) => {
                assert(old(self)@.next_bytes(width as int).len() == width);
                let v = unsigned_to_signed(u, width);
                proof {
                    lemma_pow256_monotone(width as nat, 16);
                    lemma_pow256_values();
                    lemma_uint_bytes_roundtrip(old(self)@.endian, old(self)@.next_bytes(width as int));
                }
                Ok(v)
            },
            Err(e) => Err(e),
        }
    }
}

impl<Ctx> Writer<Ctx> {
    /// Writes the `width` bytes of the unsigned value `v` in the writer's byte order.
    fn write_uint(&mut self, v: u128, width: usize) -> (r: Result<(), Error>)
        requires
            width <= 16,
            v < pow256(width as nat),
        ensures
            r == Ok::<(), Error>(()),
            final(self)@ == old(self)@.appended(uint_bytes(old(self)@.endian, v as nat, width as nat)),
    {
        let little = resolve_little(self.endian());
        let bytes = encode_uint(v, width, little);
        self.write_bytes(bytes.as_slice())
    }

    /// Writes the `width` bytes of the two's complement pattern of `v` in the writer's byte order.
    fn write_int(&mut self, v: i128, width: usize) -> (r: Result<(), Error>)
        requires
            1 <= width <= 16,
            -pow256(width as nat) <= 2 * v < pow256(width as nat),
        ensures
            r == Ok::<(), Error>(()),
            final(self)@ == old(self)@.appended(int_bytes(old(self)@.endian, v as int, width as nat)),
    {
        let u = signed_to_unsigned(v, width);
        self.write_uint(u, width)
    }
}

/// A trait that provides methods for reading primitive types with configurable endianness
/// support.
///
/// Primitive values with multi-byte representations are interpreted according to the
/// configured `Endian` setting of the reader. Most fixed-width primitives have a stable
/// representation when an explicit endianness is used.
///
/// Note: Platform-dependent types such as `usize` and `isize` use the native
/// size of the target architecture and are therefore not portable between
/// different platforms. Similarly, [`Endian::Native`] should only be used when
/// the serialized data is intended for use on the same architecture.
pub trait ReadPrimitive {
    /// Reads a `u16` using the reader's configured endianness.
    fn read_u16(&mut self) -> Result<u16, Error>;

    /// Reads a `u32` using the reader's configured endianness.
    fn read_u32(&mut self) -> Result<u32, Error>;

    /// Reads a `u64` using the reader's configured endianness.
    fn read_u64(&mut self) -> Result<u64, Error>;

    /// Reads a `u128` using the reader's configured endianness.
    fn read_u128(&mut self) -> Result<u128, Error>;

    /// Reads a `usize` using the reader's configured endianness.
    fn read_usize(&mut self) -> Result<usize, Error>;

    /// Reads a `i16` using the reader's configured endianness.
    fn read_i16(&mut self) -> Result<i16, Error>;

    /// Reads a `i32` using the reader's configured endianness.
    fn read_i32(&mut self) -> Result<i32, Error>;

    /// Reads a `i64` using the reader's configured endianness.
    fn read_i64(&mut self) -> Result<i64, Error>;

    /// Reads a `i128` using the reader's configured endianness.
    fn read_i128(&mut self) -> Result<i128, Error>;

    /// Reads a `isize` using the reader's configured endianness.
    fn read_isize(&mut self) -> Result<isize, Error>;

    /// Reads a raw `u8` byte value (endianness is not applied).
    fn read_u8(&mut self) -> Result<u8, Error>;

    /// Reads a raw `i8` byte value (endianness is not applied).
    fn read_i8(&mut self) -> Result<i8, Error>;

    /// Reads a `bool` from the reader, where 0 represents `false` and any non-zero
    /// value represents `true`.
    fn read_bool_byte(&mut self) -> Result<bool, Error>;
}

/// A trait that provides methods for writing primitive types with configurable endianness
/// support.
///
/// Primitive values with multi-byte representations are interpreted according to the
/// configured `Endian` setting of the writer. Most fixed-width primitives have a stable
/// representation when an explicit endianness is used.
///
/// Note: Platform-dependent types such as `usize` and `isize` use the native
/// size of the target architecture and are therefore not portable between
/// different platforms. Similarly, [`Endian::Native`] should only be used when
/// the serialized data is intended for use on the same architecture.
pub trait WritePrimitive {
    /// Writes a `u16` using the writer's configured endianness.
    fn write_u16(&mut self, value: u16) -> Result<(), Error>;

    /// Writes a `u32` using the writer's configured endianness.
    fn write_u32(&mut self, value: u32) -> Result<(), Error>;

    /// Writes a `u64` using the writer's configured endianness.
    fn write_u64(&mut self, value: u64) -> Result<(), Error>;

    /// Writes a `u128` using the writer's configured endianness.
    fn write_u128(&mut self, value: u128) -> Result<(), Error>;

    /// Writes a `usize` using the writer's configured endianness.
    fn write_usize(&mut self, value: usize) -> Result<(), Error>;

    /// Writes a `i16` using the writer's configured endianness.
    fn write_i16(&mut self, value: i16) -> Result<(), Error>;

    /// Writes a `i32` using the writer's configured endianness.
    fn write_i32(&mut self, value: i32) -> Result<(), Error>;

    /// Writes a `i64` using the writer's configured endianness.
    fn write_i64(&mut self, value: i64) -> Result<(), Error>;

    /// Writes a `i128` using the writer's configured endianness.
    fn write_i128(&mut self, value: i128) -> Result<(), Error>;

    /// Writes a `isize` using the writer's configured endianness.
    fn write_isize(&mut self, value: isize) -> Result<(), Error>;

    /// Writes a raw `u8` byte value (endianness is not applied).
    fn write_u8(&mut self, value: u8) -> Result<(), Error>;

    /// Writes a raw `i8` byte value (endianness is not applied).
    fn write_i8(&mut self, value: i8) -> Result<(), Error>;

    /// Writes a `bool` as a single byte to the writer, where 0 represents `false`
    /// and any non-zero value represents `true`.
    fn write_bool_byte(&mut self, value: bool) -> Result<(), Error>;
}

impl<'a, Ctx> ReadPrimitive for Reader<'a, Ctx> {
    fn read_u16(&mut self) -> (r: Result<u16, Error>)
        ensures
            (r, final(self)@) == read_as(read_unsigned(old(self)@, 2), |v: int| v as u16),
    {
        proof {
            lemma_pow256_values();
        }
        match self.read_uint(2) {
            Ok(v) => {
                let x = v as u16;
                assert(x == v);
                Ok(x)
            },
            Err(e) => Err(e),
        }
    }

    fn read_u32(&mut self) -> (r: Result<u32, Error>)
        ensures
            (r, final(self)@) == read_as(read_unsigned(old(self)@, 4), |v: int| v as u32),
    {
        proof {
            lemma_pow256_values();
        }
        match self.read_uint(4) {
            Ok(v) => {
                let x = v as u32;
                assert(x == v);
                Ok(x)
            },
            Err(e) => Err(e),
        }
    }

    fn read_u64(&mut self) -> (r: Result<u64, Error>)
        ensures
            (r, final(self)@) == read_as(read_unsigned(old(self)@, 8), |v: int| v as u64),
    {
        proof {
            lemma_pow256_values();
        }
        match self.read_uint(8) {
            Ok(v) => {
                let x = v as u64;
                assert(x == v);
                Ok(x)
            },
            Err(e) => Err(e),
        }
    }

    fn read_u128(&mut self) -> (r: Result<u128, Error>)
        ensures
            (r, final(self)@) == read_as(read_unsigned(old(self)@, 16), |v: int| v as u128),
    {
        proof {
            lemma_pow256_values();
        }
        match self.read_uint(16) {
            Ok(v) => {
                let x = v as u128;
                assert(x == v);
                Ok(x)
            },
            Err(e) => Err(e),
        }
    }

    fn read_usize(&mut self) -> (r: Result<usize, Error>)
        ensures
            (r, final(self)@) == read_as(read_unsigned(old(self)@, word_bytes()), |v: int| v as usize),
    {
        proof {
            lemma_word_bytes();
            lemma_pow256_values();
        }
        match self.read_uint(word_width()) {
            Ok(v) => {
                let x = v as usize;
                assert(x == v);
                Ok(x)
            },
            Err(e) => Err(e),
        }
    }

    fn read_i16(&mut self) -> (r: Result<i16, Error>)
        ensures
            (r, final(self)@) == read_as(read_signed(old(self)@, 2), |v: int| v as i16),
    {
        proof {
            lemma_pow256_values();
        }
        match self.read_int(2) {
            Ok(v) => {
                let x = v as i16;
                assert(x == v);
                Ok(x)
            },
            Err(e) => Err(e),
        }
    }

    fn read_i32(&mut self) -> (r: Result<i32, Error>)
        ensures
            (r, final(self)@) == read_as(read_signed(old(self)@, 4), |v: int| v as i32),
    {
        proof {
            lemma_pow256_values();
        }
        match self.read_int(4) {
            Ok(v) => {
                let x = v as i32;
                assert(x == v);
                Ok(x)
            },
            Err(e) => Err(e),
        }
    }

    fn read_i64(&mut self) -> (r: Result<i64, Error>)
        ensures
            (r, final(self)@) == read_as(read_signed(old(self)@, 8), |v: int| v as i64),
    {
        proof {
            lemma_pow256_values();
        }
        match self.read_int(8) {
            Ok(v) => {
                let x = v as i64;
                assert(x == v);
                Ok(x)
            },
            Err(e) => Err(e),
        }
    }

    fn read_i128(&mut self) -> (r: Result<i128, Error>)
        ensures
            (r, final(self)@) == read_as(read_signed(old(self)@, 16), |v: int| v as i128),
    {
        proof {
            lemma_pow256_values();
        }
        match self.read_int(16) {
            Ok(v) => {
                let x = v as i128;
                assert(x == v);
                Ok(x)
            },
            Err(e) => Err(e),
        }
    }

    fn read_isize(&mut self) -> (r: Result<isize, Error>)
        ensures
            (r, final(self)@) == read_as(read_signed(old(self)@, word_bytes()), |v: int| v as isize),
    {
        proof {
            lemma_word_bytes();
            lemma_pow256_values();
        }
        match self.read_int(word_width()) {
            Ok(v) => {
                let x = v as isize;
                assert(x == v);
                Ok(x)
            },
            Err(e) => Err(e),
        }
    }

    fn read_u8(&mut self) -> (r: Result<u8, Error>)
        ensures
            (r, final(self)@) == read_as(read_unsigned(old(self)@, 1), |v: int| v as u8),
    {
        proof {
            lemma_pow256_values();
        }
        match self.read_uint(1) {
            Ok(v) => {
                let x = v as u8;
                assert(x == v);
                Ok(x)
            },
            Err(e) => Err(e),
        }
    }

    fn read_i8(&mut self) -> (r: Result<i8, Error>)
        ensures
            (r, final(self)@) == read_as(read_signed(old(self)@, 1), |v: int| v as i8),
    {
        proof {
            lemma_pow256_values();
        }
        match self.read_int(1) {
            Ok(v) => {
                let x = v as i8;
                assert(x == v);
                Ok(x)
            },
            Err(e) => Err(e),
        }
    }

    fn read_bool_byte(&mut self) -> (r: Result<bool, Error>)
        ensures
            (r, final(self)@) == read_as(read_unsigned(old(self)@, 1), |v: int| v != 0),
    {
        proof {
            lemma_pow256_values();
        }
        match self.read_uint(1) {
            Ok(v) => Ok(v != 0),
            Err(e) => Err(e),
        }
    }
}

impl<Ctx> WritePrimitive for Writer<Ctx> {
    fn write_u16(&mut self, value: u16) -> (r: Result<(), Error>)
        ensures
            r == Ok::<(), Error>(()),
            final(self)@ == old(self)@.appended(uint_bytes(old(self)@.endian, value as nat, 2)),
    {
        proof {
            lemma_pow256_values();
        }
        self.write_uint(value as u128, 2)
    }

    fn write_u32(&mut self, value: u32) -> (r: Result<(), Error>)
        ensures
            r == Ok::<(), Error>(()),
            final(self)@ == old(self)@.appended(uint_bytes(old(self)@.endian, value as nat, 4)),
    {
        proof {
            lemma_pow256_values();
        }
        self.write_uint(value as u128, 4)
    }

    fn write_u64(&mut self, value: u64) -> (r: Result<(), Error>)
        ensures
            r == Ok::<(), Error>(()),
            final(self)@ == old(self)@.appended(uint_bytes(old(self)@.endian, value as nat, 8)),
    {
        proof {
            lemma_pow256_values();
        }
        self.write_uint(value as u128, 8)
    }

    fn write_u128(&mut self, value: u128) -> (r: Result<(), Error>)
        ensures
            r == Ok::<(), Error>(()),
            final(self)@ == old(self)@.appended(uint_bytes(old(self)@.endian, value as nat, 16)),
    {
        proof {
            lemma_pow256_values();
        }
        self.write_uint(value as u128, 16)
    }

    fn write_usize(&mut self, value: usize) -> (r: Result<(), Error>)
        ensures
            r == Ok::<(), Error>(()),
            final(self)@ == old(self)@.appended(uint_bytes(old(self)@.endian, value as nat, word_bytes())),
    {
        proof {
            lemma_word_bytes();
            lemma_pow256_values();
        }
        self.write_uint(value as u128, word_width())
    }

    fn write_i16(&mut self, value: i16) -> (r: Result<(), Error>)
        ensures
            r == Ok::<(), Error>(()),
            final(self)@ == old(self)@.appended(int_bytes(old(self)@.endian, value as int, 2)),
    {
        proof {
            lemma_pow256_values();
        }
        self.write_int(value as i128, 2)
    }

    fn write_i32(&mut self, value: i32) -> (r: Result<(), Error>)
        ensures
            r == Ok::<(), Error>(()),
            final(self)@ == old(self)@.appended(int_bytes(old(self)@.endian, value as int, 4)),
    {
        proof {
            lemma_pow256_values();
        }
        self.write_int(value as i128, 4)
    }

    fn write_i64(&mut self, value: i64) -> (r: Result<(), Error>)
        ensures
            r == Ok::<(), Error>(()),
            final(self)@ == old(self)@.appended(int_bytes(old(self)@.endian, value as int, 8)),
    {
        proof {
            lemma_pow256_values();
        }
        self.write_int(value as i128, 8)
    }

    fn write_i128(&mut self, value: i128) -> (r: Result<(), Error>)
        ensures
            r == Ok::<(), Error>(()),
            final(self)@ == old(self)@.appended(int_bytes(old(self)@.endian, value as int, 16)),
    {
        proof {
            lemma_pow256_values();
        }
        self.write_int(value as i128, 16)
    }

    fn write_isize(&mut self, value: isize) -> (r: Result<(), Error>)
        ensures
            r == Ok::<(), Error>(()),
            final(self)@ == old(self)@.appended(int_bytes(old(self)@.endian, value as int, word_bytes())),
    {
        proof {
            lemma_word_bytes();
            lemma_pow256_values();
        }
        self.write_int(value as i128, word_width())
    }

    fn write_u8(&mut self, value: u8) -> (r: Result<(), Error>)
        ensures
            r == Ok::<(), Error>(()),
            final(self)@ == old(self)@.appended(seq![value]),
    {
        let bytes = [value];
        assert(bytes@ =~= seq![value]);
        self.write_bytes(bytes.as_slice())
    }

    fn write_i8(&mut self, value: i8) -> (r: Result<(), Error>)
        ensures
            r == Ok::<(), Error>(()),
            final(self)@ == old(self)@.appended(int_bytes(old(self)@.endian, value as int, 1)),
    {
        proof {
            lemma_pow256_values();
        }
        self.write_int(value as i128, 1)
    }

    fn write_bool_byte(&mut self, value: bool) -> (r: Result<(), Error>)
        ensures
            r == Ok::<(), Error>(()),
            final(self)@ == old(self)@.appended(seq![if value { 1u8 } else { 0u8 }]),
    {
        let bytes = [if value { 1u8 } else { 0u8 }];
        assert(bytes@ =~= seq![if value { 1u8 } else { 0u8 }]);
        self.write_bytes(bytes.as_slice())
    }
}

} // verus!
