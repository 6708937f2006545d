pub mod calls;
pub(crate) mod collection;
pub(crate) mod option;
pub(crate) mod primitive;
pub(crate) mod reader;
pub(crate) mod writer;

pub use self::{
    collection::{CollectionLength, ReadCollection, WriteCollection},
    option::{ReadOption, WriteOption},
    primitive::{ReadPrimitive, WritePrimitive},
    reader::{Reader, ReaderView},
    writer::{Writer, WriterView},
};
