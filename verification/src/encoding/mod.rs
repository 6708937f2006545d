pub(crate) mod decode;
pub(crate) mod encode;
pub(crate) mod codec;
pub(crate) mod collection;
pub(crate) mod primitive;

pub use self::{codec::Codec, decode::Decode, encode::Encode};
