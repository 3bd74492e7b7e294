# rcbytes

Reference-counted byte buffers for a single thread, verified with Verus.

`Bytes` is a cheaply cloned handle on bytes that do not change. `BytesMut` is a
growable buffer that can be split, put together again and frozen into a `Bytes`. The
parts of a split buffer keep a record of their places in one allocation; each has
memory of its own, so splitting and joining copy bytes.

* `src/region.rs` holds the model that the contracts speak of: the bytes of a buffer,
  its capacity and its place in an allocation.
* `src/buf.rs` and `src/buf_mut.rs` hold the two types, `src/access.rs`,
  `src/convert.rs`, `src/compare.rs`, `src/text.rs` and `src/collect.rs` their trait
  implementations and conversions, `src/range.rs` the ranges that name parts.
* `src/memory.rs` holds the operations on the memory behind a buffer.
* `src/laws.rs` states what holds of the operations taken together.
* `src/outside.rs` lists the functions of the standard library that are trusted.
* `app/` wraps both types for the `bytes` crate: it implements `bytes::Buf` and
  `bytes::BufMut`, and panics where a call does not meet a contract.

Whether a handle is the only holder of an allocation depends on which others are alive.
An operation that asks for it states its outcome over the answer that the count gave; the
operation of the same name with the suffix `_given` takes the answer as an argument.
