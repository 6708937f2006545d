# sakka

A small binary codec library: a `Reader` over a byte slice and a `Writer` into a byte vector,
both with a configurable byte order and a user context, primitive reads and writes, collections
with and without a length prefix, optional values, `Encode`/`Decode` traits for values and a
`Codec` trait for encodings chosen by a type of their own.

The library under `src/` is verified with Verus. Its contracts are stated over views:
`ReaderView` (the bytes, the position, the byte order and the context) and `WriterView` (the
bytes written so far, the byte order and the context).

- `src/common/`: alignment padding, byte-order arithmetic (`uint_bytes`, `int_bytes` and the
  values they stand for) and `try_array_from_fn`.
- `src/rw/`: the reader and writer, primitive, collection and option reads and writes;
  `src/rw/calls.rs` shows what the forms that take a function give when that function decodes
  or encodes as a type itself does.
- `src/encoding/`: `Encode`, `Decode` and `Codec`, with the impls for primitives and arrays.
- `src/codecs/`: the codecs for arrays, options and length-prefixed vectors, and their laws.
- `src/roundtrip.rs`: what a reader gives back of what a writer wrote.
- `app/`: the error type with its messages, and floating-point reads and writes.
