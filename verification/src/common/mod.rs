pub(crate) mod alignment;
pub(crate) mod array;
pub(crate) mod endian;

pub use self::{
    alignment::alignment_padding,
    array::try_array_from_fn,
    endian::Endian,
};
