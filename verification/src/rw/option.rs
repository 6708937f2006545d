use vstd::prelude::*;
use crate::encoding::decode::Decode;
use crate::encoding::encode::Encode;
use crate::error::Error;
use crate::rw::primitive::{read_unsigned, ReadPrimitive, WritePrimitive};
use crate::rw::reader::{Reader, ReaderView};
use crate::rw::writer::{Writer, WriterView};

verus! {

/// Decoding an optional `T`: a presence byte (zero for `None`), then the value when present.
pub open spec fn decode_option<T: Decode<Ctx, Error = Error>, Ctx>(r: ReaderView<Ctx>) -> (Result<Option<T>, Error>, ReaderView<Ctx>) {
    let (tag, r1) = read_unsigned(r, 1);
    match tag {
        Err(e) => (Err(e), r1),
        Ok(b) => if b == 0 {
            (Ok(None), r1)
        } else {
            let (v, r2) = T::spec_decode(r1);
            (
                match v {
                    Ok(x) => Ok(Some(x)),
                    Err(e) => Err(e),
                },
                r2,
            )
        },
    }
}

/// Encoding an optional `T`: the byte `0` for `None`, or the byte `1` followed by the value.
pub open spec fn encode_option<T: Encode<Ctx, Error = Error>, Ctx>(value: Option<T>, w: WriterView<Ctx>) -> (Result<(), Error>, WriterView<Ctx>) {
    match value {
        None => (Ok(()), w.appended(seq![0u8])),
        Some(v) => v.spec_encode(w.appended(seq![1u8])),
    }
}

/// A trait for types that can be read from a [Reader] as an `Option`.
pub trait ReadOption<Ctx> {
    /// Reads an `Option` from the reader using the provided function to read the inner value.
    fn read_option_with<T, F>(&mut self, f: F) -> Result<Option<T>, Error> where
        F: FnMut(&mut Reader<'_, Ctx>) -> Result<T, Error>,
        requires
            forall|rd: &mut Reader<'_, Ctx>| call_requires(f, (rd,)),
    ;

    /// Reads an `Option` from the reader using the [Decode] trait to read the inner value.
    fn read_option<T>(&mut self) -> Result<Option<T>, Error> where T: Decode<Ctx, Error = Error>;
}

/// A trait for types that can be written to a [Writer] as an `Option`.
pub trait WriteOption<Ctx> {
    /// Writes an `Option` to the writer using the provided function to write the inner value.
    fn write_option_with<T, F>(&mut self, value: &Option<T>, f: F) -> Result<(), Error> where
        F: FnMut(&mut Writer<Ctx>, &T) -> Result<(), Error>,
        requires
            forall|wr: &mut Writer<Ctx>, x: &T| call_requires(f, (wr, x)),
    ;

    /// Writes an `Option` to the writer using the [Encode] trait to write the inner value.
    fn write_option<T>(&mut self, value: &Option<T>) -> Result<(), Error> where T: Encode<Ctx, Error = Error>;
}

impl<'a, Ctx> ReadOption<Ctx> for Reader<'a, Ctx> {
    fn read_option_with<T, F>(&mut self, f: F) -> (r: Result<Option<T>, Error>) where
        F: FnMut(&mut Reader<'_, Ctx>) -> Result<T, Error>,
        ensures
            read_unsigned(old(self)@, 1).0 matches Err(e) ==> r == Err::<Option<T>, Error>(e) && final(self)@ == old(self)@,
            read_unsigned(old(self)@, 1).0 == Ok::<int, Error>(0) ==> r == Ok::<Option<T>, Error>(None)
                && final(self)@ == read_unsigned(old(self)@, 1).1,
            read_unsigned(old(self)@, 1).0 matches Ok(b) && b != 0 ==> exists|m: &mut Reader<'a, Ctx>, out: Result<T, Error>|
                mut_ref_current(m)@ == read_unsigned(old(self)@, 1).1 && mut_ref_future(m)@ == final(self)@
                && call_ensures(f, (m,), out) && r == (match out {
                    Ok(v) => Ok(Some(v)),
                    Err(e) => Err(e),
                }),
    {
        let mut g = f;
        let is_some = match self.read_bool_byte() {
            Ok(b) => b,
            Err(e) => return Err(e),
        };
        if is_some {
            let res = g(self);
            match res {
                Ok(v) => Ok(Some(v)),
                Err(e) => Err(e),
            }
        } else {
            Ok(None)
        }
    }

    fn read_option<T>(&mut self) -> (r: Result<Option<T>, Error>) where T: Decode<Ctx, Error = Error>
        ensures
            (r, final(self)@) == decode_option::<T, Ctx>(old(self)@),
    {
        let is_some = match self.read_bool_byte() {
            Ok(b) => b,
            Err(e) => return Err(e),
        };
        if is_some {
            match T::decode(self) {
                Ok(v) => Ok(Some(v)),
                Err(e) => Err(e),
            }
        } else {
            Ok(None)
        }
    }
}

impl<Ctx> WriteOption<Ctx> for Writer<Ctx> {
    fn write_option_with<T, F>(&mut self, value: &Option<T>, f: F) -> (r: Result<(), Error>) where
        F: FnMut(&mut Writer<Ctx>, &T) -> Result<(), Error>,
        ensures
            *value matches None ==> r == Ok::<(), Error>(()) && final(self)@ == old(self)@.appended(seq![0u8]),
            *value matches Some(v) ==> exists|m: &mut Writer<Ctx>|
                mut_ref_current(m)@ == old(self)@.appended(seq![1u8]) && mut_ref_future(m)@ == final(self)@
                && call_ensures(f, (m, &v), r),
    {
        let mut g = f;
        match value {
            Some(v) => {
                let _ = self.write_bool_byte(true);
                g(self, v)
            },
            None => {
                let _ = self.write_bool_byte(false);
                Ok(())
            },
        }
    }

    fn write_option<T>(&mut self, value: &Option<T>) -> (r: Result<(), Error>) where T: Encode<Ctx, Error = Error>
        ensures
            (r, final(self)@) == encode_option::<T, Ctx>(*value, old(self)@),
    {
        match value {
            Some(v) => {
                let _ = self.write_bool_byte(true);
                v.encode(self)
            },
            None => {
                let _ = self.write_bool_byte(false);
                Ok(())
            },
        }
    }
}

} // verus!
