//! Views of the bytes as slices, and what every value type offers.

use core::borrow::{Borrow, BorrowMut};
use core::ops::{Deref, DerefMut};

use vstd::prelude::*;

use crate::buf::Bytes;
use crate::buf_mut::BytesMut;
use crate::region::{Origin, Region};

verus! {

impl Clone for Bytes {
    /// Returns another handle on the same bytes.
    fn clone(&self) -> (handle: Self)
        ensures
            handle@ == self@,
            handle.origin() == self.origin(),
            handle.lies_in(*self, 0),
            handle.is_another(*self),
    {
        self.part(0, self.len())
    }
}

impl Clone for BytesMut {
    /// Returns a copy of the bytes in an allocation of their own, with no spare
    /// capacity.
    fn clone(&self) -> (copy: Self)
        ensures
            copy.region() == Region::exact(self@),
            copy.region().capacity == self@.len(),
            copy@ == self@,
    {
        BytesMut::holding(self.as_slice())
    }
}

impl Default for Bytes {
    /// Returns a handle on no bytes.
    fn default() -> (bytes: Self)
        ensures
            bytes@ == Seq::<u8>::empty(),
            bytes.origin() == Origin::Static,
    {
        Bytes::new()
    }
}

impl Default for BytesMut {
    /// Returns an empty buffer without capacity.
    fn default() -> (buf: Self)
        ensures
            buf.region() == Region::empty(0),
    {
        BytesMut::new()
    }
}

impl Deref for Bytes {
    type Target = [u8];

    fn deref(&self) -> (slice: &[u8])
        ensures
            slice@ == self@,
    {
        self.as_slice()
    }
}

impl AsRef<[u8]> for Bytes {
    fn as_ref(&self) -> (slice: &[u8])
        ensures
            slice@ == self@,
    {
        self.as_slice()
    }
}

impl Borrow<[u8]> for Bytes {
    fn borrow(&self) -> (slice: &[u8])
        ensures
            <[u8] as View>::view(slice) == self@,
    {
        self.as_slice()
    }
}

impl Deref for BytesMut {
    type Target = [u8];

    fn deref(&self) -> (slice: &[u8])
        ensures
            slice@ == self@,
    {
        self.as_slice()
    }
}

impl DerefMut for BytesMut {
    fn deref_mut(&mut self) -> (slice: &mut [u8])
        ensures
            slice@ == old(self)@,
            final(slice)@.len() == old(self)@.len(),
            final(self).region() == (Region { bytes: final(slice)@, ..old(self).region() }),
            final(self).window() == final(slice)@ + old(self).window().skip(
                old(self)@.len() as int,
            ),
    {
        self.as_mut_slice()
    }
}

impl AsRef<[u8]> for BytesMut {
    fn as_ref(&self) -> (slice: &[u8])
        ensures
            slice@ == self@,
    {
        self.as_slice()
    }
}

impl AsMut<[u8]> for BytesMut {
    fn as_mut(&mut self) -> (slice: &mut [u8])
        ensures
            slice@ == old(self)@,
            final(slice)@.len() == old(self)@.len(),
            final(self).region() == (Region { bytes: final(slice)@, ..old(self).region() }),
            final(self).window() == final(slice)@ + old(self).window().skip(
                old(self)@.len() as int,
            ),
    {
        self.as_mut_slice()
    }
}

impl Borrow<[u8]> for BytesMut {
    fn borrow(&self) -> (slice: &[u8])
        ensures
            <[u8] as View>::view(slice) == self@,
    {
        self.as_slice()
    }
}

impl BorrowMut<[u8]> for BytesMut {
    fn borrow_mut(&mut self) -> (slice: &mut [u8])
        ensures
            <[u8] as View>::view(slice) == old(self)@,
            final(self)@.len() == old(self)@.len(),
            final(self).region() == (Region {
                bytes: <[u8] as View>::view(final(slice)),
                ..old(self).region()
            }),
            final(self).window() == <[u8] as View>::view(final(slice)) + old(self).window().skip(
                old(self)@.len() as int,
            ),
    {
        self.as_mut_slice()
    }
}

} // verus!
