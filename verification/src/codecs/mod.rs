pub(crate) mod array;
pub(crate) mod derived;
pub(crate) mod items;
pub(crate) mod option;
pub mod roundtrip;
pub(crate) mod vec;

pub use self::{
    array::ArrayCodec,
    derived::DerivedCodec,
    option::{OptionBoolCodec, OptionEofCodec},
    vec::VecPrefixCodec,
};
