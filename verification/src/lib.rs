pub mod codecs;
mod common;
mod encoding;
mod error;
mod rw;
pub mod roundtrip;
pub mod wire;

pub use self::{
    codecs::{ArrayCodec, DerivedCodec, OptionBoolCodec, OptionEofCodec, VecPrefixCodec},
    common::{alignment_padding, try_array_from_fn, Endian},
    encoding::{Codec, Decode, Encode},
    error::Error,
    rw::{
        CollectionLength, ReadCollection, ReadOption, ReadPrimitive, Reader, ReaderView,
        WriteCollection, WriteOption, WritePrimitive, Writer, WriterView,
    },
};
