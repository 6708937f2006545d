use vstd::prelude::*;
use crate::common::endian::{int_bytes, uint_bytes};
use crate::encoding::decode::Decode;
use crate::encoding::encode::Encode;
use crate::error::Error;
use crate::rw::primitive::{read_as, read_signed, read_unsigned, word_bytes, ReadPrimitive, WritePrimitive};
use crate::rw::reader::{Reader, ReaderView};
use crate::rw::writer::{Writer, WriterView};

verus! {

impl<Ctx> Decode<Ctx> for bool {
    type Error = Error;

    /// A byte, where zero stands for `false` and any other value for `true`.
    open spec fn spec_decode(r: ReaderView<Ctx>) -> (Result<bool, Error>, ReaderView<Ctx>) {
        read_as(read_unsigned(r, 1), |v: int| v != 0)
    }

    fn decode(r: &mut Reader<'_, Ctx>) -> (res: Result<bool, Error>) {
        r.read_bool_byte()
    }
}

impl<Ctx> Encode<Ctx> for bool {
    type Error = Error;

    /// The byte `1` for `true` and `0` for `false`.
    open spec fn spec_encode(&self, w: WriterView<Ctx>) -> (Result<(), Error>, WriterView<Ctx>) {
        (Ok(()), w.appended(seq![if *self { 1u8 } else { 0u8 }]))
    }

    fn encode(&self, w: &mut Writer<Ctx>) -> (res: Result<(), Error>) {
        w.write_bool_byte(*self)
    }
}

impl<Ctx> Decode<Ctx> for u8 {
    type Error = Error;

    /// The unsigned value of the next bytes in the reader's byte order.
    open spec fn spec_decode(r: ReaderView<Ctx>) -> (Result<u8, Error>, ReaderView<Ctx>) {
        read_as(read_unsigned(r, 1), |v: int| v as u8)
    }

    fn decode(r: &mut Reader<'_, Ctx>) -> (res: Result<u8, Error>) {
        r.read_u8()
    }
}

impl<Ctx> Encode<Ctx> for u8 {
    type Error = Error;

    /// The bytes of the value in the writer's byte order.
    open spec fn spec_encode(&self, w: WriterView<Ctx>) -> (Result<(), Error>, WriterView<Ctx>) {
        (Ok(()), w.appended(seq![*self]))
    }

    fn encode(&self, w: &mut Writer<Ctx>) -> (res: Result<(), Error>) {
        w.write_u8(*self)
    }
}

impl<Ctx> Decode<Ctx> for u16 {
    type Error = Error;

    /// The unsigned value of the next bytes in the reader's byte order.
    open spec fn spec_decode(r: ReaderView<Ctx>) -> (Result<u16, Error>, ReaderView<Ctx>) {
        read_as(read_unsigned(r, 2), |v: int| v as u16)
    }

    fn decode(r: &mut Reader<'_, Ctx>) -> (res: Result<u16, Error>) {
        r.read_u16()
    }
}

impl<Ctx> Encode<Ctx> for u16 {
    type Error = Error;

    /// The bytes of the value in the writer's byte order.
    open spec fn spec_encode(&self, w: WriterView<Ctx>) -> (Result<(), Error>, WriterView<Ctx>) {
        (Ok(()), w.appended(uint_bytes(w.endian, *self as nat, 2)))
    }

    fn encode(&self, w: &mut Writer<Ctx>) -> (res: Result<(), Error>) {
        w.write_u16(*self)
    }
}

impl<Ctx> Decode<Ctx> for u32 {
    type Error = Error;

    /// The unsigned value of the next bytes in the reader's byte order.
    open spec fn spec_decode(r: ReaderView<Ctx>) -> (Result<u32, Error>, ReaderView<Ctx>) {
        read_as(read_unsigned(r, 4), |v: int| v as u32)
    }

    fn decode(r: &mut Reader<'_, Ctx>) -> (res: Result<u32, Error>) {
        r.read_u32()
    }
}

impl<Ctx> Encode<Ctx> for u32 {
    type Error = Error;

    /// The bytes of the value in the writer's byte order.
    open spec fn spec_encode(&self, w: WriterView<Ctx>) -> (Result<(), Error>, WriterView<Ctx>) {
        (Ok(()), w.appended(uint_bytes(w.endian, *self as nat, 4)))
    }

    fn encode(&self, w: &mut Writer<Ctx>) -> (res: Result<(), Error>) {
        w.write_u32(*self)
    }
}

impl<Ctx> Decode<Ctx> for u64 {
    type Error = Error;

    /// The unsigned value of the next bytes in the reader's byte order.
    open spec fn spec_decode(r: ReaderView<Ctx>) -> (Result<u64, Error>, ReaderView<Ctx>) {
        read_as(read_unsigned(r, 8), |v: int| v as u64)
    }

    fn decode(r: &mut Reader<'_, Ctx>) -> (res: Result<u64, Error>) {
        r.read_u64()
    }
}

impl<Ctx> Encode<Ctx> for u64 {
    type Error = Error;

    /// The bytes of the value in the writer's byte order.
    open spec fn spec_encode(&self, w: WriterView<Ctx>) -> (Result<(), Error>, WriterView<Ctx>) {
        (Ok(()), w.appended(uint_bytes(w.endian, *self as nat, 8)))
    }

    fn encode(&self, w: &mut Writer<Ctx>) -> (res: Result<(), Error>) {
        w.write_u64(*self)
    }
}

impl<Ctx> Decode<Ctx> for u128 {
    type Error = Error;

    /// The unsigned value of the next bytes in the reader's byte order.
    open spec fn spec_decode(r: ReaderView<Ctx>) -> (Result<u128, Error>, ReaderView<Ctx>) {
        read_as(read_unsigned(r, 16), |v: int| v as u128)
    }

    fn decode(r: &mut Reader<'_, Ctx>) -> (res: Result<u128, Error>) {
        r.read_u128()
    }
}

impl<Ctx> Encode<Ctx> for u128 {
    type Error = Error;

    /// The bytes of the value in the writer's byte order.
    open spec fn spec_encode(&self, w: WriterView<Ctx>) -> (Result<(), Error>, WriterView<Ctx>) {
        (Ok(()), w.appended(uint_bytes(w.endian, *self as nat, 16)))
    }

    fn encode(&self, w: &mut Writer<Ctx>) -> (res: Result<(), Error>) {
        w.write_u128(*self)
    }
}

impl<Ctx> Decode<Ctx> for usize {
    type Error = Error;

    /// The unsigned value of the next bytes in the reader's byte order.
    open spec fn spec_decode(r: ReaderView<Ctx>) -> (Result<usize, Error>, ReaderView<Ctx>) {
        read_as(read_unsigned(r, word_bytes()), |v: int| v as usize)
    }

    fn decode(r: &mut Reader<'_, Ctx>) -> (res: Result<usize, Error>) {
        r.read_usize()
    }
}

impl<Ctx> Encode<Ctx> for usize {
    type Error = Error;

    /// The bytes of the value in the writer's byte order.
    open spec fn spec_encode(&self, w: WriterView<Ctx>) -> (Result<(), Error>, WriterView<Ctx>) {
        (Ok(()), w.appended(uint_bytes(w.endian, *self as nat, word_bytes())))
    }

    fn encode(&self, w: &mut Writer<Ctx>) -> (res: Result<(), Error>) {
        w.write_usize(*self)
    }
}

impl<Ctx> Decode<Ctx> for i8 {
    type Error = Error;

    /// The two's complement value of the next bytes in the reader's byte order.
    open spec fn spec_decode(r: ReaderView<Ctx>) -> (Result<i8, Error>, ReaderView<Ctx>) {
        read_as(read_signed(r, 1), |v: int| v as i8)
    }

    fn decode(r: &mut Reader<'_, Ctx>) -> (res: Result<i8, Error>) {
        r.read_i8()
    }
}

impl<Ctx> Encode<Ctx> for i8 {
    type Error = Error;

    /// The bytes of the value in the writer's byte order.
    open spec fn spec_encode(&self, w: WriterView<Ctx>) -> (Result<(), Error>, WriterView<Ctx>) {
        (Ok(()), w.appended(int_bytes(w.endian, *self as int, 1)))
    }

    fn encode(&self, w: &mut Writer<Ctx>) -> (res: Result<(), Error>) {
        w.write_i8(*self)
    }
}

impl<Ctx> Decode<Ctx> for i16 {
    type Error = Error;

    /// The two's complement value of the next bytes in the reader's byte order.
    open spec fn spec_decode(r: ReaderView<Ctx>) -> (Result<i16, Error>, ReaderView<Ctx>) {
        read_as(read_signed(r, 2), |v: int| v as i16)
    }

    fn decode(r: &mut Reader<'_, Ctx>) -> (res: Result<i16, Error>) {
        r.read_i16()
    }
}

impl<Ctx> Encode<Ctx> for i16 {
    type Error = Error;

    /// The bytes of the value in the writer's byte order.
    open spec fn spec_encode(&self, w: WriterView<Ctx>) -> (Result<(), Error>, WriterView<Ctx>) {
        (Ok(()), w.appended(int_bytes(w.endian, *self as int, 2)))
    }

    fn encode(&self, w: &mut Writer<Ctx>) -> (res: Result<(), Error>) {
        w.write_i16(*self)
    }
}

impl<Ctx> Decode<Ctx> for i32 {
    type Error = Error;

    /// The two's complement value of the next bytes in the reader's byte order.
    open spec fn spec_decode(r: ReaderView<Ctx>) -> (Result<i32, Error>, ReaderView<Ctx>) {
        read_as(read_signed(r, 4), |v: int| v as i32)
    }

    fn decode(r: &mut Reader<'_, Ctx>) -> (res: Result<i32, Error>) {
        r.read_i32()
    }
}

impl<Ctx> Encode<Ctx> for i32 {
    type Error = Error;

    /// The bytes of the value in the writer's byte order.
    open spec fn spec_encode(&self, w: WriterView<Ctx>) -> (Result<(), Error>, WriterView<Ctx>) {
        (Ok(()), w.appended(int_bytes(w.endian, *self as int, 4)))
    }

    fn encode(&self, w: &mut Writer<Ctx>) -> (res: Result<(), Error>) {
        w.write_i32(*self)
    }
}

impl<Ctx> Decode<Ctx> for i64 {
    type Error = Error;

    /// The two's complement value of the next bytes in the reader's byte order.
    open spec fn spec_decode(r: ReaderView<Ctx>) -> (Result<i64, Error>, ReaderView<Ctx>) {
        read_as(read_signed(r, 8), |v: int| v as i64)
    }

    fn decode(r: &mut Reader<'_, Ctx>) -> (res: Result<i64, Error>) {
        r.read_i64()
    }
}

impl<Ctx> Encode<Ctx> for i64 {
    type Error = Error;

    /// The bytes of the value in the writer's byte order.
    open spec fn spec_encode(&self, w: WriterView<Ctx>) -> (Result<(), Error>, WriterView<Ctx>) {
        (Ok(()), w.appended(int_bytes(w.endian, *self as int, 8)))
    }

    fn encode(&self, w: &mut Writer<Ctx>) -> (res: Result<(), Error>) {
        w.write_i64(*self)
    }
}

impl<Ctx> Decode<Ctx> for i128 {
    type Error = Error;

    /// The two's complement value of the next bytes in the reader's byte order.
    open spec fn spec_decode(r: ReaderView<Ctx>) -> (Result<i128, Error>, ReaderView<Ctx>) {
        read_as(read_signed(r, 16), |v: int| v as i128)
    }

    fn decode(r: &mut Reader<'_, Ctx>) -> (res: Result<i128, Error>) {
        r.read_i128()
    }
}

impl<Ctx> Encode<Ctx> for i128 {
    type Error = Error;

    /// The bytes of the value in the writer's byte order.
    open spec fn spec_encode(&self, w: WriterView<Ctx>) -> (Result<(), Error>, WriterView<Ctx>) {
        (Ok(()), w.appended(int_bytes(w.endian, *self as int, 16)))
    }

    fn encode(&self, w: &mut Writer<Ctx>) -> (res: Result<(), Error>) {
        w.write_i128(*self)
    }
}

impl<Ctx> Decode<Ctx> for isize {
    type Error = Error;

    /// The two's complement value of the next bytes in the reader's byte order.
    open spec fn spec_decode(r: ReaderView<Ctx>) -> (Result<isize, Error>, ReaderView<Ctx>) {
        read_as(read_signed(r, word_bytes()), |v: int| v as isize)
    }

    fn decode(r: &mut Reader<'_, Ctx>) -> (res: Result<isize, Error>) {
        r.read_isize()
    }
}

impl<Ctx> Encode<Ctx> for isize {
    type Error = Error;

    /// The bytes of the value in the writer's byte order.
    open spec fn spec_encode(&self, w: WriterView<Ctx>) -> (Result<(), Error>, WriterView<Ctx>) {
        (Ok(()), w.appended(int_bytes(w.endian, *self as int, word_bytes())))
    }

    fn encode(&self, w: &mut Writer<Ctx>) -> (res: Result<(), Error>) {
        w.write_isize(*self)
    }
}
} // verus!
