//! Reference-counted byte buffers for a single thread.
//!
//! [`Bytes`] is a handle on bytes that do not change. Cloning and slicing a handle
//! share the bytes. [`BytesMut`] is a buffer that can be written to and grows on
//! demand. It can be split in parts, put together again, and frozen into a [`Bytes`].
//! The parts keep a record of their places in one allocation, which decides their
//! capacities and which of them can be joined; each has memory of its own, so that
//! splitting and joining copy bytes. Counting uses `Rc`, so there is no atomic
//! operation anywhere.
//!
//! The contracts speak of a handle by its bytes and its [`Origin`], and of a buffer by
//! its [`Region`]: the bytes, the capacity and the place in the allocation. What
//! depends on who else holds an allocation is stated over the answer that a count
//! gave, and each operation of that kind has a twin with the suffix `_given` that is
//! told the answer.

pub mod compare;
pub mod laws;
pub mod outcomes;
pub mod range;
pub mod region;
pub mod text;

mod access;
mod buf;
mod buf_mut;
mod collect;
mod convert;
mod memory;
mod outside;

pub use crate::buf::Bytes;
pub use crate::buf_mut::BytesMut;
pub use crate::range::{ByteRange, RangeError};
pub use crate::region::{Origin, Region, Slot};
pub use crate::text::quoted;
