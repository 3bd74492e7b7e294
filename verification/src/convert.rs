//! Conversions from and into other holders of bytes.

use std::rc::Rc;

use vstd::pervasive::arbitrary;
use vstd::prelude::*;
use vstd::slice::slice_to_vec;
use vstd::std_specs::convert::FromSpecImpl;

use crate::buf::{unwrap_window, Backing, Block, Bytes, Keeper};
use crate::buf_mut::{Alloc, BytesMut, Lease};
use crate::memory::{cut_out, stretched};
use crate::outside::{into_boxed_slice, measured, vec_capacity};
use crate::region::{Origin, Region};

verus! {

impl From<&'static [u8]> for Bytes {
    /// Returns a handle on a static slice.
    fn from(slice: &'static [u8]) -> (made: Bytes)
        ensures
            made@ == slice@,
            made.origin() == Origin::Static,
    {
        Bytes::from_static(slice)
    }
}

impl FromSpecImpl<&'static [u8]> for Bytes {
    open spec fn obeys_from_spec() -> bool {
        false
    }

    open spec fn from_spec(slice: &'static [u8]) -> Bytes {
        arbitrary()
    }
}

impl From<&'static str> for Bytes {
    /// Returns a handle on the UTF-8 encoding of a static text.
    fn from(text: &'static str) -> (made: Bytes)
        ensures
            made@ == vstd::utf8::encode_utf8(text@),
            made.origin() == Origin::Static,
    {
        Bytes::from_static(text.as_bytes())
    }
}

impl FromSpecImpl<&'static str> for Bytes {
    open spec fn obeys_from_spec() -> bool {
        false
    }

    open spec fn from_spec(text: &'static str) -> Bytes {
        arbitrary()
    }
}

impl From<Vec<u8>> for Bytes {
    /// Takes over the vector's allocation.
    fn from(vec: Vec<u8>) -> (made: Bytes)
        ensures
            made@ == vec@,
            exists|capacity: usize|
                {
                    &&& #[trigger] measured(vec, capacity)
                    &&& made.origin() == Origin::taken_over(vec@, capacity as int)
                },
    {
        let capacity = vec_capacity(&vec);
        assert(measured(vec, capacity));
        Bytes::from_vec_given(vec, capacity)
    }
}

impl Bytes {
    /// Takes over the allocation of a vector that has `capacity` bytes.
    pub fn from_vec_given(vec: Vec<u8>, capacity: usize) -> (made: Bytes)
        requires
            vec@.len() <= capacity <= isize::MAX,
        ensures
            made@ == vec@,
            made.origin() == Origin::taken_over(vec@, capacity as int),
    {
        if vec.is_empty() {
            return Bytes::new();
        }
        let len = vec.len();
        let alloc = Rc::new(Alloc { size: capacity });
        let block = Block { data: vec, keeper: Keeper::Alloc { alloc, base: 0 } };
        let backing = Backing::Counted(Rc::new(block));
        Bytes { backing, start: 0, len, mark: Ghost(0) }
    }
}

impl FromSpecImpl<Vec<u8>> for Bytes {
    open spec fn obeys_from_spec() -> bool {
        false
    }

    open spec fn from_spec(vec: Vec<u8>) -> Bytes {
        arbitrary()
    }
}

impl From<Box<[u8]>> for Bytes {
    /// Takes over the box's allocation.
    fn from(boxed: Box<[u8]>) -> (made: Bytes)
        ensures
            made@ == boxed@,
            exists|vec: Vec<u8>, capacity: usize|
                {
                    &&& #[trigger] call_ensures(<[u8]>::into_vec, (boxed,), vec)
                    &&& #[trigger] measured(vec, capacity)
                    &&& made.origin() == Origin::taken_over(boxed@, capacity as int)
                },
    {
        Bytes::from(boxed.into_vec())
    }
}

impl FromSpecImpl<Box<[u8]>> for Bytes {
    open spec fn obeys_from_spec() -> bool {
        false
    }

    open spec fn from_spec(boxed: Box<[u8]>) -> Bytes {
        arbitrary()
    }
}

impl From<String> for Bytes {
    /// Takes over the allocation of the text, in its UTF-8 encoding.
    fn from(text: String) -> (made: Bytes)
        ensures
            made@ == vstd::utf8::encode_utf8(text@),
            exists|vec: Vec<u8>, capacity: usize|
                {
                    &&& #[trigger] call_ensures(String::into_bytes, (text,), vec)
                    &&& #[trigger] measured(vec, capacity)
                    &&& made.origin() == Origin::taken_over(made@, capacity as int)
                },
    {
        Bytes::from(text.into_bytes())
    }
}

impl FromSpecImpl<String> for Bytes {
    open spec fn obeys_from_spec() -> bool {
        false
    }

    open spec fn from_spec(text: String) -> Bytes {
        arbitrary()
    }
}

impl From<BytesMut> for Bytes {
    /// Freezes the buffer.
    fn from(buf: BytesMut) -> (made: Bytes)
        ensures
            made@ == buf@,
            made.origin() == Origin::Shared(buf.region().place()),
    {
        buf.freeze()
    }
}

impl FromSpecImpl<BytesMut> for Bytes {
    open spec fn obeys_from_spec() -> bool {
        false
    }

    open spec fn from_spec(buf: BytesMut) -> Bytes {
        arbitrary()
    }
}

impl From<Vec<u8>> for BytesMut {
    /// Takes over the vector's allocation, spare capacity included.
    fn from(vec: Vec<u8>) -> (made: BytesMut)
        ensures
            made@ == vec@,
            exists|capacity: usize|
                {
                    &&& #[trigger] measured(vec, capacity)
                    &&& made.region() == Region::taken_over(vec@, capacity as int)
                },
    {
        let capacity = vec_capacity(&vec);
        assert(measured(vec, capacity));
        BytesMut::from_vec_given(vec, capacity)
    }
}

impl BytesMut {
    /// Takes over the allocation of a vector that has `capacity` bytes.
    pub fn from_vec_given(vec: Vec<u8>, capacity: usize) -> (made: BytesMut)
        requires
            vec@.len() <= capacity <= isize::MAX,
        ensures
            made.region() == Region::taken_over(vec@, capacity as int),
            made@ == vec@,
    {
        let len = vec.len();
        BytesMut { mem: stretched(vec, capacity), len, lease: None }
    }
}

impl FromSpecImpl<Vec<u8>> for BytesMut {
    open spec fn obeys_from_spec() -> bool {
        false
    }

    open spec fn from_spec(vec: Vec<u8>) -> BytesMut {
        arbitrary()
    }
}

impl From<Box<[u8]>> for BytesMut {
    /// Takes over the box's allocation.
    fn from(boxed: Box<[u8]>) -> (made: BytesMut)
        ensures
            made@ == boxed@,
            exists|vec: Vec<u8>, capacity: usize|
                {
                    &&& #[trigger] call_ensures(<[u8]>::into_vec, (boxed,), vec)
                    &&& #[trigger] measured(vec, capacity)
                    &&& made.region() == Region::taken_over(boxed@, capacity as int)
                },
    {
        BytesMut::from(boxed.into_vec())
    }
}

impl FromSpecImpl<Box<[u8]>> for BytesMut {
    open spec fn obeys_from_spec() -> bool {
        false
    }

    open spec fn from_spec(boxed: Box<[u8]>) -> BytesMut {
        arbitrary()
    }
}

impl From<String> for BytesMut {
    /// Takes over the allocation of the text, in its UTF-8 encoding.
    fn from(text: String) -> (made: BytesMut)
        ensures
            made@ == vstd::utf8::encode_utf8(text@),
            exists|vec: Vec<u8>, capacity: usize|
                {
                    &&& #[trigger] call_ensures(String::into_bytes, (text,), vec)
                    &&& #[trigger] measured(vec, capacity)
                    &&& made.region() == Region::taken_over(made@, capacity as int)
                },
    {
        BytesMut::from(text.into_bytes())
    }
}

impl FromSpecImpl<String> for BytesMut {
    open spec fn obeys_from_spec() -> bool {
        false
    }

    open spec fn from_spec(text: String) -> BytesMut {
        arbitrary()
    }
}

impl From<&[u8]> for BytesMut {
    /// Copies the slice, with no spare capacity.
    fn from(slice: &[u8]) -> (made: BytesMut)
        ensures
            made.region() == Region::exact(slice@),
            made@ == slice@,
    {
        BytesMut::holding(slice)
    }
}

impl FromSpecImpl<&[u8]> for BytesMut {
    open spec fn obeys_from_spec() -> bool {
        false
    }

    open spec fn from_spec(slice: &[u8]) -> BytesMut {
        arbitrary()
    }
}

impl From<&str> for BytesMut {
    /// Copies the UTF-8 encoding of the text, with no spare capacity.
    fn from(text: &str) -> (made: BytesMut)
        ensures
            made.region() == Region::exact(vstd::utf8::encode_utf8(text@)),
            made@ == vstd::utf8::encode_utf8(text@),
    {
        BytesMut::holding(text.as_bytes())
    }
}

impl FromSpecImpl<&str> for BytesMut {
    open spec fn obeys_from_spec() -> bool {
        false
    }

    open spec fn from_spec(text: &str) -> BytesMut {
        arbitrary()
    }
}

impl From<Bytes> for BytesMut {
    /// Takes over the bytes of the handle, with no spare capacity.
    ///
    /// A buffer from a shared allocation keeps its place there, and other handles
    /// do not see what is written to it.
    fn from(bytes: Bytes) -> (made: BytesMut)
        ensures
            made.region() == Region::of(bytes@, bytes.origin()),
            made@ == bytes@,
    {
        proof {
            use_type_invariant(&bytes);
        }
        let Bytes { backing, start, len, mark } = bytes;
        let block = match backing {
            Backing::Static(_) => {
                return BytesMut::holding(Bytes { backing, start, len, mark }.as_slice());
            },
            Backing::Counted(block) => block,
        };
        let (alloc, base) = match &block.keeper {
            Keeper::Alloc { alloc, base } => (alloc.clone(), *base),
            Keeper::Owner(_) => {
                let handle = Bytes { backing: Backing::Counted(block), start, len, mark };
                return BytesMut::holding(handle.as_slice());
            },
        };
        let (data, first) = unwrap_window(block, start, len);
        let base = base + (start - first);
        let mut mem = data;
        mem.truncate(first + len);
        let lease = Lease { alloc, base, start: first };
        BytesMut { mem: into_boxed_slice(mem), len, lease: Some(Box::new(lease)) }
    }
}

impl FromSpecImpl<Bytes> for BytesMut {
    open spec fn obeys_from_spec() -> bool {
        false
    }

    open spec fn from_spec(bytes: Bytes) -> BytesMut {
        arbitrary()
    }
}

impl From<Bytes> for Vec<u8> {
    /// Returns the bytes in a vector: the only holder of an allocation hands it over
    /// with the bytes moved to its front, others copy the bytes.
    fn from(bytes: Bytes) -> (made: Vec<u8>)
        ensures
            made@ == bytes@,
    {
        proof {
            use_type_invariant(&bytes);
        }
        if !bytes.sole_holder() {
            return slice_to_vec(bytes.as_slice());
        }
        let Bytes { backing, start, len, mark } = bytes;
        match backing {
            Backing::Static(_) => slice_to_vec(Bytes { backing, start, len, mark }.as_slice()),
            Backing::Counted(block) => {
                let size = match &block.keeper {
                    Keeper::Alloc { alloc, .. } => alloc.size,
                    Keeper::Owner(_) => len,
                };
                let (data, first) = unwrap_window(block, start, len);
                cut_out(data, first, len, size)
            },
        }
    }
}

impl FromSpecImpl<Bytes> for Vec<u8> {
    open spec fn obeys_from_spec() -> bool {
        false
    }

    open spec fn from_spec(bytes: Bytes) -> Vec<u8> {
        arbitrary()
    }
}

impl From<BytesMut> for Vec<u8> {
    /// Returns the bytes in a vector: the only holder of an allocation hands it over
    /// with the bytes moved to its front, others copy the bytes.
    fn from(buf: BytesMut) -> (made: Vec<u8>)
        ensures
            made@ == buf@,
    {
        proof {
            use_type_invariant(&buf);
        }
        if !buf.sole_holder() {
            return slice_to_vec(buf.as_slice());
        }
        let BytesMut { mem, len, lease } = buf;
        let (start, size) = match &lease {
            Some(lease) => (lease.start, lease.alloc.size),
            None => (0, mem.len()),
        };
        cut_out(mem.into_vec(), start, len, size)
    }
}

impl FromSpecImpl<BytesMut> for Vec<u8> {
    open spec fn obeys_from_spec() -> bool {
        false
    }

    open spec fn from_spec(buf: BytesMut) -> Vec<u8> {
        arbitrary()
    }
}

} // verus!
