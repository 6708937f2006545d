use vstd::prelude::*;
use crate::common::alignment::{alignment_padding, padding_for, valid_alignment};
use crate::common::endian::Endian;
use crate::encoding::encode::Encode;
use crate::error::Error;

verus! {

/// A writer that accumulates encoded bytes in a growable buffer.
pub struct Writer<Ctx = ()> {
    inner: Vec<u8>,
    endian: Endian,
    context: Ctx,
}

/// What a [`Writer`] holds: the bytes written so far, the byte order and the context.
pub struct WriterView<Ctx> {
    pub bytes: Seq<u8>,
    pub endian: Endian,
    pub context: Ctx,
}

/// `n` zero bytes.
pub open spec fn zeros(n: nat) -> Seq<u8> {
    Seq::new(n, |i: int| 0u8)
}

impl<Ctx> WriterView<Ctx> {
    /// The same writer with `more` appended to its bytes.
    pub open spec fn appended(self, more: Seq<u8>) -> WriterView<Ctx> {
        WriterView { bytes: self.bytes + more, ..self }
    }

    /// The same writer with another context.
    pub open spec fn with_context(self, context: Ctx) -> WriterView<Ctx> {
        WriterView { context, ..self }
    }
}

impl<Ctx> View for Writer<Ctx> {
    type V = WriterView<Ctx>;

    closed spec fn view(&self) -> WriterView<Ctx> {
        WriterView { bytes: self.inner@, endian: self.endian, context: self.context }
    }
}

impl<Ctx> Writer<Ctx> {
    /// Creates a new writer with the given endianness and context.
    pub fn new(endian: Endian, context: Ctx) -> (w: Self)
        ensures
            w@ == (WriterView { bytes: Seq::<u8>::empty(), endian, context }),
    {
        Writer { inner: Vec::new(), endian, context }
    }

    /// Returns an immutable reference to the writer context.
    pub fn context(&self) -> (c: &Ctx)
        ensures
            *c == self@.context,
    {
        &self.context
    }

    /// Returns a mutable reference to the writer context.
    pub fn context_mut(&mut self) -> (c: &mut Ctx)
        ensures
            *c == old(self)@.context,
            final(self)@ == old(self)@.with_context(*final(c)),
    {
        &mut self.context
    }

    /// Replaces the context and returns the previous value.
    pub fn replace_context(&mut self, context: Ctx) -> (previous: Ctx)
        ensures
            previous == old(self)@.context,
            final(self)@ == old(self)@.with_context(context),
    {
        let mut other = context;
        core::mem::swap(&mut self.context, &mut other);
        other
    }

    /// Returns the endianness of the writer.
    pub fn endian(&self) -> (e: Endian)
        ensures
            e == self@.endian,
    {
        self.endian
    }

    /// Returns the current length of the writer.
    pub fn len(&self) -> (n: usize)
        ensures
            n == self@.bytes.len(),
    {
        self.inner.len()
    }

    /// Returns `true` if the writer is empty.
    pub fn is_empty(&self) -> (b: bool)
        ensures
            b == (self@.bytes.len() == 0),
    {
        self.inner.len() == 0
    }

    /// Returns a slice of the accumulated bytes.
    pub fn as_slice(&self) -> (s: &[u8])
        ensures
            s@ == self@.bytes,
    {
        self.inner.as_slice()
    }

    /// Consumes the writer and returns the accumulated bytes.
    pub fn finish(self) -> (v: Vec<u8>)
        ensures
            v@ == self@.bytes,
    {
        self.inner
    }

    /// Reserves capacity for at least `additional` more bytes to be written to the writer.
    pub fn reserve(&mut self, additional: usize)
        ensures
            final(self)@ == old(self)@,
    {
        self.inner.reserve(additional);
    }

    /// Reserves capacity for at least `size_of::<T>()` more bytes to be written to the writer.
    pub fn reserve_for<T: Sized>(&mut self)
        ensures
            final(self)@ == old(self)@,
    {
        self.reserve(core::mem::size_of::<T>());
    }

    /// Writes `n` zero bytes to the writer.
    pub fn write_zeroes(&mut self, n: usize) -> (r: Result<(), Error>)
        requires
            old(self)@.bytes.len() + n <= usize::MAX,
        ensures
            r == Ok::<(), Error>(()),
            final(self)@ == old(self)@.appended(zeros(n as nat)),
    {
        let ghost start = self.inner@;
        let mut i: usize = 0;
        while i < n
            invariant
                i <= n,
                self.inner@ == start + zeros(i as nat),
                self.endian == old(self).endian,
                self.context == old(self).context,
                start == old(self)@.bytes,
            decreases n - i,
        {
            self.inner.push(0u8);
            assert(start + zeros((i + 1) as nat) =~= (start + zeros(i as nat)).push(0u8));
            i = i + 1;
        }
        Ok(())
    }

    /// Aligns the writer's position to the given alignment, returning an error if the alignment
    /// is invalid.
    pub fn align(&mut self, alignment: usize) -> (r: Result<(), Error>)
        requires
            valid_alignment(alignment as int) ==> old(self)@.bytes.len() + padding_for(
                old(self)@.bytes.len() as int,
                alignment as int,
            ) <= usize::MAX,
        ensures
            valid_alignment(alignment as int) ==> r == Ok::<(), Error>(()) && final(self)@ == old(self)@.appended(
                zeros(padding_for(old(self)@.bytes.len() as int, alignment as int) as nat),
            ),
            !valid_alignment(alignment as int) ==> r == Err::<(), Error>(Error::InvalidAlignment)
                && final(self)@ == old(self)@,
    {
        proof {
            if valid_alignment(alignment as int) {
                crate::common::alignment::lemma_padding_aligns(self.inner@.len() as int, alignment as int);
            }
        }
        match alignment_padding(self.inner.len(), alignment) {
            Ok(padding) => self.write_zeroes(padding),
            Err(e) => Err(e),
        }
    }

    /// Writes a slice of bytes to the writer.
    pub fn write_bytes(&mut self, buf: &[u8]) -> (r: Result<(), Error>)
        ensures
            r == Ok::<(), Error>(()),
            final(self)@ == old(self)@.appended(buf@),
    {
        let ghost start = self.inner@;
        let n = buf.len();
        let mut i: usize = 0;
        while i < n
            invariant
                i <= n,
                n == buf@.len(),
                self.inner@ == start + buf@.subrange(0, i as int),
                self.endian == old(self).endian,
                self.context == old(self).context,
                start == old(self)@.bytes,
            decreases n - i,
        {
            self.inner.push(buf[i]);
            assert(start + buf@.subrange(0, i + 1) =~= (start + buf@.subrange(0, i as int)).push(buf@[i as int]));
            i = i + 1;
        }
        assert(buf@.subrange(0, n as int) =~= buf@);
        Ok(())
    }

    /// Writes a value of type `T` to the writer using the [Encode] trait.
    pub fn write<T: Encode<Ctx>>(&mut self, value: &T) -> (r: Result<(), T::Error>)
        ensures
            (r, final(self)@) == value.spec_encode(old(self)@),
    {
        value.encode(self)
    }
}

impl<Ctx: Default> Default for Writer<Ctx> {
    fn default() -> (w: Self)
        ensures
            w@.bytes == Seq::<u8>::empty(),
            w@.endian == Endian::Little,
            call_ensures(Ctx::default, (), w@.context),
    {
        Self::new(Endian::Little, Ctx::default())
    }
}

} // verus!
