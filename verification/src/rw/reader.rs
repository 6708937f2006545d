use vstd::prelude::*;
use crate::common::alignment::{alignment_padding, padding_for, valid_alignment};
use crate::common::endian::Endian;
use crate::encoding::decode::Decode;
use crate::error::Error;

verus! {

/// The bytes a reader reads and how far it has read into them.
struct Cursor<'a> {
    bytes: &'a [u8],
    position: usize,
}

impl<'a> Cursor<'a> {
    #[verifier::type_invariant]
    spec fn inv(self) -> bool {
        self.position <= self.bytes@.len()
    }
}

/// A reader for reading binary data from a byte slice.
pub struct Reader<'a, Ctx = ()> {
    cur: Cursor<'a>,
    endian: Endian,
    context: Ctx,
}

/// What a [`Reader`] holds: the data, the position of the next byte to read, the byte
/// order and the context.
pub struct ReaderView<Ctx> {
    pub bytes: Seq<u8>,
    pub position: nat,
    pub endian: Endian,
    pub context: Ctx,
}

impl<Ctx> ReaderView<Ctx> {
    /// The number of bytes left to read.
    pub open spec fn remaining(self) -> int {
        self.bytes.len() - self.position
    }

    /// Whether `n` more bytes can be read.
    pub open spec fn has(self, n: int) -> bool {
        0 <= n && self.position + n <= self.bytes.len()
    }

    /// The next `n` bytes.
    pub open spec fn next_bytes(self, n: int) -> Seq<u8> {
        self.bytes.subrange(self.position as int, self.position + n)
    }

    /// The same reader with its position moved to `position`.
    pub open spec fn at(self, position: int) -> ReaderView<Ctx> {
        ReaderView { position: position as nat, ..self }
    }

    /// The same reader with its position moved `n` bytes on.
    pub open spec fn advanced(self, n: int) -> ReaderView<Ctx> {
        self.at(self.position + n)
    }

    /// The same reader with another context.
    pub open spec fn with_context(self, context: Ctx) -> ReaderView<Ctx> {
        ReaderView { context, ..self }
    }
}

impl<'a, Ctx> View for Reader<'a, Ctx> {
    type V = ReaderView<Ctx>;

    closed spec fn view(&self) -> ReaderView<Ctx> {
        ReaderView {
            bytes: self.cur.bytes@,
            position: self.cur.position as nat,
            endian: self.endian,
            context: self.context,
        }
    }
}

impl<'a, Ctx> Reader<'a, Ctx> {
    /// Creates a new reader with the given data and context.
    pub fn new(data: &'a [u8], endian: Endian, context: Ctx) -> (r: Self)
        ensures
            r@ == (ReaderView { bytes: data@, position: 0, endian, context }),
    {
        Reader { cur: Cursor { bytes: data, position: 0 }, endian, context }
    }

    /// The position of a reader never passes the end of its data.
    pub fn position_in_bounds(&self)
        ensures
            self@.position <= self@.bytes.len(),
    {
        proof {
            use_type_invariant(&self.cur);
        }
    }

    /// Returns a reference to the underlying context.
    pub fn context(&self) -> (c: &Ctx)
        ensures
            *c == self@.context,
    {
        &self.context
    }

    /// Returns a mutable reference to the underlying context.
    pub fn context_mut(&mut self) -> (c: &mut Ctx)
        ensures
            *c == old(self)@.context,
            final(self)@ == old(self)@.with_context(*final(c)),
    {
        &mut self.context
    }

    /// Replaces the underlying context with the given one, returning the old context.
    pub fn replace_context(&mut self, context: Ctx) -> (previous: Ctx)
        ensures
            previous == old(self)@.context,
            final(self)@ == old(self)@.with_context(context),
    {
        let mut other = context;
        core::mem::swap(&mut self.context, &mut other);
        other
    }

    /// Returns the endianness of the reader.
    pub fn endian(&self) -> (e: Endian)
        ensures
            e == self@.endian,
    {
        self.endian
    }

    /// Returns the total length of the underlying data.
    pub fn total_len(&self) -> (n: usize)
        ensures
            n == self@.bytes.len(),
    {
        self.cur.bytes.len()
    }

    /// Returns the current position of the reader.
    pub fn position(&self) -> (p: usize)
        ensures
            p == self@.position,
            p <= self@.bytes.len(),
    {
        proof {
            use_type_invariant(&self.cur);
        }
        self.cur.position
    }

    /// Returns the number of bytes remaining to be read.
    pub fn remaining(&self) -> (n: usize)
        ensures
            n == self@.remaining(),
    {
        proof {
            use_type_invariant(&self.cur);
        }
        self.cur.bytes.len() - self.cur.position
    }

    /// Returns `true` if the reader has reached the end of the underlying data.
    pub fn is_eof(&self) -> (b: bool)
        ensures
            b == (self@.remaining() == 0),
    {
        self.remaining() == 0
    }

    /// Returns the data as a slice.
    pub fn as_slice(&self) -> (s: &'a [u8])
        ensures
            s@ == self@.bytes,
    {
        self.cur.bytes
    }

    /// Returns the remaining data as a slice.
    pub fn remaining_slice(&self) -> (s: &'a [u8])
        ensures
            s@ == self@.bytes.subrange(self@.position as int, self@.bytes.len() as int),
    {
        proof {
            use_type_invariant(&self.cur);
        }
        let bytes: &'a [u8] = self.cur.bytes;
        vstd::slice::slice_subrange(bytes, self.cur.position, bytes.len())
    }

    /// Sets the position of the reader, returning an error if the position is out of bounds.
    pub fn set_position(&mut self, position: usize) -> (r: Result<(), Error>)
        ensures
            position <= old(self)@.bytes.len() ==> r == Ok::<(), Error>(()) && final(self)@
                == old(self)@.at(position as int),
            position > old(self)@.bytes.len() ==> r == Err::<(), Error>(Error::OutOfBounds)
                && final(self)@ == old(self)@,
    {
        if position > self.cur.bytes.len() {
            return Err(Error::OutOfBounds);
        }
        self.cur = Cursor { bytes: self.cur.bytes, position };
        Ok(())
    }

    /// Seeks the reader by the given offset, returning an error if the new position is out of bounds.
    pub fn seek(&mut self, offset: isize) -> (r: Result<(), Error>)
        ensures
            0 <= old(self)@.position + offset <= old(self)@.bytes.len() ==> r == Ok::<(), Error>(())
                && final(self)@ == old(self)@.advanced(offset as int),
            !(0 <= old(self)@.position + offset <= old(self)@.bytes.len()) ==> r == Err::<
                (),
                Error,
            >(Error::OutOfBounds) && final(self)@ == old(self)@,
    {
        proof {
            use_type_invariant(&self.cur);
        }
        let position = self.cur.position;
        let new_position: Option<usize> = if offset < 0 {
            let back: usize = if offset == isize::MIN {
                (isize::MAX as usize) + 1
            } else {
                (-offset) as usize
            };
            assert(back == -offset);
            position.checked_sub(back)
        } else {
            position.checked_add(offset as usize)
        };
        let total = self.cur.bytes.len();
        if let Some(pos) = new_position {
            assert(pos == position + offset);
            if pos <= total {
                self.cur = Cursor { bytes: self.cur.bytes, position: pos };
                return Ok(());
            }
        }
        Err(Error::OutOfBounds)
    }

    /// Skips the given number of bytes, returning an error if the end of the underlying data is
    /// reached.
    pub fn skip(&mut self, len: usize) -> (r: Result<(), Error>)
        ensures
            old(self)@.has(len as int) ==> r == Ok::<(), Error>(()) && final(self)@ == old(self)@.advanced(len as int),
            !old(self)@.has(len as int) ==> r == Err::<(), Error>(Error::OutOfBounds) && final(self)@ == old(self)@,
    {
        proof {
            use_type_invariant(&self.cur);
        }
        if len > self.cur.bytes.len() - self.cur.position {
            return Err(Error::OutOfBounds);
        }
        self.cur = Cursor { bytes: self.cur.bytes, position: self.cur.position + len };
        Ok(())
    }

    /// Aligns the reader's position to the given alignment, returning an error if the alignment
    /// is invalid or if the end of the underlying data is reached.
    pub fn align(&mut self, alignment: usize) -> (r: Result<(), Error>)
        ensures
            !valid_alignment(alignment as int) ==> r == Err::<(), Error>(Error::InvalidAlignment)
                && final(self)@ == old(self)@,
            valid_alignment(alignment as int) && old(self)@.has(
                padding_for(old(self)@.position as int, alignment as int),
            ) ==> r == Ok::<(), Error>(()) && final(self)@ == old(self)@.advanced(
                padding_for(old(self)@.position as int, alignment as int),
            ),
            valid_alignment(alignment as int) && !old(self)@.has(
                padding_for(old(self)@.position as int, alignment as int),
            ) ==> r == Err::<(), Error>(Error::OutOfBounds) && final(self)@ == old(self)@,
    {
        proof {
            if valid_alignment(alignment as int) {
                crate::common::alignment::lemma_padding_aligns(self.cur.position as int, alignment as int);
            }
        }
        match alignment_padding(self.cur.position, alignment) {
            Ok(padding) => self.skip(padding),
            Err(e) => Err(e),
        }
    }

    /// Returns a slice of the given length, returning an error if the end of the underlying data is
    /// reached.
    pub fn take(&mut self, len: usize) -> (r: Result<&'a [u8], Error>)
        ensures
            old(self)@.has(len as int) ==> r is Ok && final(self)@ == old(self)@.advanced(
                len as int,
            ),
            r matches Ok(s) ==> s@ == old(self)@.next_bytes(len as int),
            !old(self)@.has(len as int) ==> (r matches Err(e) && e == Error::OutOfBounds) && final(self)@ == old(self)@,
    {
        proof {
            use_type_invariant(&self.cur);
        }
        let start = self.cur.position;
        let bytes: &'a [u8] = self.cur.bytes;
        if len > bytes.len() - start {
            return Err(Error::OutOfBounds);
        }
        let end = start + len;
        self.cur = Cursor { bytes, position: end };
        Ok(vstd::slice::slice_subrange(bytes, start, end))
    }

    /// Reads exactly the given number of bytes into the provided buffer.
    pub fn read_exact(&mut self, buf: &mut [u8]) -> (r: Result<(), Error>)
        ensures
            old(self)@.has(old(buf)@.len() as int) ==> r == Ok::<(), Error>(()) && final(self)@
                == old(self)@.advanced(old(buf)@.len() as int) && final(buf)@ == old(self)@.next_bytes(old(buf)@.len() as int),
            !old(self)@.has(old(buf)@.len() as int) ==> r == Err::<(), Error>(Error::OutOfBounds)
                && final(self)@ == old(self)@ && final(buf)@ == old(buf)@,
    {
        let len = buf.len();
        match self.take(len) {
            Ok(bytes) => {
                copy_into(buf, bytes);
                Ok(())
            },
            Err(e) => Err(e),
        }
    }

    /// Reads exactly the given number of bytes into a fixed-size array.
    pub fn read_bytes<const N: usize>(&mut self) -> (r: Result<[u8; N], Error>)
        ensures
            old(self)@.has(N as int) ==> (r matches Ok(a) && a@ == old(self)@.next_bytes(N as int))
                && final(self)@ == old(self)@.advanced(N as int),
            !old(self)@.has(N as int) ==> r == Err::<[u8; N], Error>(Error::OutOfBounds) && final(self)@ == old(self)@,
    {
        match self.take(N) {
            Ok(bytes) => Ok(array_of(bytes)),
            Err(e) => Err(e),
        }
    }

    /// Reads a value of type `D` from the reader using the `Decode` trait.
    pub fn read<D: Decode<Ctx>>(&mut self) -> (r: Result<D, D::Error>)
        ensures
            (r, final(self)@) == D::spec_decode(old(self)@),
    {
        D::decode(self)
    }

    /// Peeks at the given number of bytes without advancing the reader's position.
    pub fn peek(&self, len: usize) -> (r: Result<&'a [u8], Error>)
        ensures
            self@.has(len as int) ==> (r matches Ok(s) && s@ == self@.next_bytes(len as int)),
            !self@.has(len as int) ==> (r matches Err(e) && e == Error::OutOfBounds),
    {
        proof {
            use_type_invariant(&self.cur);
        }
        let start = self.cur.position;
        let bytes: &'a [u8] = self.cur.bytes;
        if len > bytes.len() - start {
            return Err(Error::OutOfBounds);
        }
        Ok(vstd::slice::slice_subrange(bytes, start, start + len))
    }

    /// Reads exactly the given number of bytes into the provided buffer without advancing the
    /// reader's position.
    pub fn peek_exact(&self, buf: &mut [u8]) -> (r: Result<(), Error>)
        ensures
            self@.has(old(buf)@.len() as int) ==> r == Ok::<(), Error>(()) && final(buf)@
                == self@.next_bytes(old(buf)@.len() as int),
            !self@.has(old(buf)@.len() as int) ==> r == Err::<(), Error>(Error::OutOfBounds)
                && final(buf)@ == old(buf)@,
    {
        let len = buf.len();
        match self.peek(len) {
            Ok(bytes) => {
                copy_into(buf, bytes);
                Ok(())
            },
            Err(e) => Err(e),
        }
    }

    /// Peeks at the given number of bytes and returns them as a fixed-size array.
    pub fn peek_bytes<const N: usize>(&self) -> (r: Result<[u8; N], Error>)
        ensures
            self@.has(N as int) ==> (r matches Ok(a) && a@ == self@.next_bytes(N as int)),
            !self@.has(N as int) ==> r == Err::<[u8; N], Error>(Error::OutOfBounds),
    {
        match self.peek(N) {
            Ok(bytes) => Ok(array_of(bytes)),
            Err(e) => Err(e),
        }
    }
}

/// Copies `src` into `dst`, which has the same length.
fn copy_into(dst: &mut [u8], src: &[u8])
    requires
        old(dst)@.len() == src@.len(),
    ensures
        final(dst)@ == src@,
{
    let n = src.len();
    let mut i: usize = 0;
    while i < n
        invariant
            i <= n,
            n == src@.len(),
            dst@.len() == n,
            forall|k: int| 0 <= k < i ==> dst@[k] == src@[k],
        decreases n - i,
    {
        dst[i] = src[i];
        i = i + 1;
    }
    assert(dst@ =~= src@);
}

/// The bytes of `src`, which holds exactly `N` of them, as an array.
fn array_of<const N: usize>(src: &[u8]) -> (a: [u8; N])
    requires
        src@.len() == N,
    ensures
        a@ == src@,
{
    let mut a = [0u8; N];
    let mut i: usize = 0;
    while i < N
        invariant
            i <= N,
            N == src@.len(),
            a@.len() == N,
            forall|k: int| 0 <= k < i ==> a@[k] == src@[k],
        decreases N - i,
    {
        a[i] = src[i];
        i = i + 1;
    }
    assert(a@ =~= src@);
    a
}

impl<'a, Ctx: Default> Default for Reader<'a, Ctx> {
    fn default() -> (r: Self)
        ensures
            r@.bytes == Seq::<u8>::empty(),
            r@.position == 0,
            r@.endian == Endian::Little,
            call_ensures(Ctx::default, (), r@.context),
    {
        let empty: &'a [u8] = &[];
        Self::new(empty, Endian::Little, Ctx::default())
    }
}

} // verus!
