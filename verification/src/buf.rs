//! The cheaply cloned handle on bytes that do not change.

use std::rc::Rc;

use vstd::prelude::*;
use vstd::slice::{slice_subrange, slice_to_vec};

use crate::buf_mut::{Alloc, BytesMut, Lease};
use crate::memory::stretched;
use crate::outside::{addresses, located, shown_bytes, shows, strong_count};
use crate::range::{end_position, first_position, resolve, within, ByteRange};
use crate::region::{Origin, Region, Slot};

verus! {

/// Anything that can be kept alive.
pub trait Keep {

}

impl<K> Keep for K {

}

/// What the bytes of a counted block belong to.
pub enum Keeper {
    /// An allocation, `base` bytes into it.
    Alloc { alloc: Rc<Alloc>, base: usize },
    /// An owner, dropped with the block.
    Owner(Box<dyn Keep>),
}

/// Bytes that several handles share.
pub(crate) struct Block {
    pub(crate) data: Vec<u8>,
    pub(crate) keeper: Keeper,
}

/// Where a handle finds its bytes.
pub(crate) enum Backing {
    Static(&'static [u8]),
    Counted(Rc<Block>),
}

/// A cheap, cloneable, non-atomic byte array.
///
/// A handle's view is the sequence of its bytes; `origin` tells where they lie.
pub struct Bytes {
    pub(crate) backing: Backing,
    /// Position of the first byte in the backing.
    pub(crate) start: usize,
    /// Number of bytes.
    pub(crate) len: usize,
    /// Tells the handle from the one that it was made from.
    pub(crate) mark: Ghost<int>,
}

impl Backing {
    /// All bytes of the backing.
    pub(crate) open(crate) spec fn data(self) -> Seq<u8> {
        match self {
            Backing::Static(slice) => slice@,
            Backing::Counted(block) => block.data@,
        }
    }
}

/// The `subset_len` bytes at the address `subset_addr` as a part of `bytes`, which
/// begin at the address `addr`, if they all lie there. No bytes are a part of
/// everything.
pub open spec fn part_at(bytes: Seq<u8>, addr: int, subset_addr: int, subset_len: int) -> Option<
    Seq<u8>,
> {
    let offset = subset_addr - addr;
    if subset_len == 0 {
        Some(Seq::empty())
    } else if 0 <= offset && offset + subset_len <= bytes.len() {
        Some(bytes.subrange(offset, offset + subset_len))
    } else {
        None
    }
}

/// Takes over the `len` bytes of `block` from position `start` on, by taking over
/// the block where that has no other handle, else by copying them.
///
/// Returns memory that holds them and their position in it.
pub(crate) fn unwrap_window(block: Rc<Block>, start: usize, len: usize) -> (taken: (Vec<u8>, usize))
    requires
        start + len <= block.data@.len(),
    ensures
        taken.1 <= start,
        taken.1 + len <= taken.0@.len(),
        (start - taken.1) + taken.0@.len() <= block.data@.len(),
        taken.0@.subrange(taken.1 as int, taken.1 + len) == block.data@.subrange(
            start as int,
            start + len,
        ),
{
    match Rc::try_unwrap(block) {
        Ok(block) => (block.data, start),
        Err(block) => {
            let size = block.data.len();
            assert(start + len <= size);
            let window = slice_subrange(block.data.as_slice(), start, start + len);
            (slice_to_vec(window), 0)
        },
    }
}

impl Bytes {
    /// The bytes lie within the backing, and the backing within its allocation.
    #[verifier::type_invariant]
    pub(crate) open(crate) spec fn inv(self) -> bool {
        &&& self.start + self.len <= self.backing.data().len() <= usize::MAX
        &&& match self.backing {
            Backing::Static(_) => true,
            Backing::Counted(block) => match block.keeper {
                Keeper::Alloc { alloc, base } => base + block.data@.len() <= alloc.size,
                Keeper::Owner(_) => true,
            },
        }
    }

    /// Where the bytes lie.
    pub open(crate) spec fn origin(self) -> Origin {
        match self.backing {
            Backing::Static(_) => Origin::Static,
            Backing::Counted(block) => match block.keeper {
                Keeper::Alloc { alloc, base } => Origin::Shared(
                    Slot { offset: base + self.start, size: alloc.size as int },
                ),
                Keeper::Owner(_) => Origin::Owner,
            },
        }
    }
}

impl Bytes {
    /// Whether the bytes are kept by `keeper`.
    pub open(crate) spec fn kept(self, keeper: Keeper) -> bool {
        match self.backing {
            Backing::Counted(block) => block.keeper == keeper,
            Backing::Static(_) => false,
        }
    }

    /// Whether the bytes lie in the same memory as those of `other`.
    pub open(crate) spec fn shares(self, other: Bytes) -> bool {
        self.backing == other.backing
    }

    /// Whether the bytes lie in the same memory as those of `other` and begin `at` bytes
    /// behind them.
    pub open(crate) spec fn lies_in(self, other: Bytes, at: int) -> bool {
        self.shares(other) && self.start == other.start + at
    }
}

impl Bytes {
    /// Whether this is a handle of its own beside `other`.
    pub open(crate) spec fn is_another(self, other: Bytes) -> bool {
        self.mark@ != other.mark@
    }

    /// Whether `sole` may be what this very handle, asked, says of whether no other
    /// handle or buffer holds a part of the same memory.
    pub open(crate) spec fn asked(self, sole: bool) -> bool {
        call_ensures(Bytes::sole_holder, (&self,), sole)
    }
}

impl Bytes {
    /// Whether `sole` may be the answer, by counting, to whether no other handle or
    /// buffer holds a part of the same memory.
    pub open(crate) spec fn counted_sole(self, sole: bool) -> bool {
        match self.backing {
            Backing::Static(_) => !sole,
            Backing::Counted(block) => match block.keeper {
                Keeper::Alloc { alloc, .. } => exists|handles: usize, holders: usize|
                    {
                        &&& #[trigger] call_ensures(strong_count::<Block>, (&block,), handles)
                        &&& #[trigger] call_ensures(strong_count::<Alloc>, (&alloc,), holders)
                        &&& sole == self.origin().sole(handles, holders)
                    },
                Keeper::Owner(_) => exists|handles: usize|
                    {
                        &&& #[trigger] call_ensures(strong_count::<Block>, (&block,), handles)
                        &&& sole == self.origin().sole(handles, 0)
                    },
            },
        }
    }
}

impl View for Bytes {
    type V = Seq<u8>;

    open(crate) spec fn view(&self) -> Seq<u8> {
        self.backing.data().subrange(self.start as int, self.start + self.len)
    }
}

impl Bytes {
    /// Creates a new empty `Bytes` instance.
    pub fn new() -> (bytes: Self)
        ensures
            bytes@ == Seq::<u8>::empty(),
            bytes.origin() == Origin::Static,
    {
        Bytes { backing: Backing::Static(&[]), start: 0, len: 0, mark: Ghost(0) }
    }

    /// Creates a new `Bytes` from a static slice.
    pub fn from_static(bytes: &'static [u8]) -> (handle: Self)
        ensures
            handle@ == bytes@,
            handle.origin() == Origin::Static,
    {
        Bytes { backing: Backing::Static(bytes), start: 0, len: bytes.len(), mark: Ghost(0) }
    }

    /// Creates a new `Bytes` by copying from a slice.
    pub fn copy_from_slice(data: &[u8]) -> (bytes: Self)
        ensures
            bytes@ == data@,
            bytes.origin() == (if data@.len() == 0 {
                Origin::Static
            } else {
                Origin::Shared(Slot { offset: 0, size: data@.len() as int })
            }),
    {
        if data.is_empty() {
            Bytes::new()
        } else {
            BytesMut::holding(data).freeze()
        }
    }

    /// Creates a new `Bytes` from an arbitrary owner type that implements
    /// `AsRef<[u8]>`.
    ///
    /// The owner is asked for its bytes once, and all handles on them keep it. The
    /// bytes are copied: the handle does not show the owner's own memory.
    pub fn from_owner<T: AsRef<[u8]> + 'static>(owner: T) -> (bytes: Self)
        ensures
            shows(owner, bytes@),
            bytes.origin() == Origin::Owner,
            ({
                let keep: Box<dyn Keep> = Box::new(owner);
                bytes.kept(Keeper::Owner(keep))
            }),
    {
        let data = slice_to_vec(shown_bytes(&owner));
        Bytes::with_owner(data, owner)
    }

    /// Creates a new `Bytes` from the bytes that `owner` shows, which keeps the owner.
    pub fn with_owner<T: 'static>(data: Vec<u8>, owner: T) -> (bytes: Self)
        ensures
            bytes@ == data@,
            bytes.origin() == Origin::Owner,
            ({
                let keep: Box<dyn Keep> = Box::new(owner);
                bytes.kept(Keeper::Owner(keep))
            }),
    {
        let len = data.len();
        let boxed: Box<T> = Box::new(owner);
        let keep: Box<dyn Keep> = boxed;
        let ghost kept = keep;
        assert({
            let given: Box<dyn Keep> = Box::new(owner);
            kept == given
        });
        let block = Block { data, keeper: Keeper::Owner(keep) };
        let backing = Backing::Counted(Rc::new(block));
        let bytes = Bytes { backing, start: 0, len, mark: Ghost(0) };
        assert(bytes.kept(Keeper::Owner(kept)));
        bytes
    }

    /// Returns the number of bytes contained in this `Bytes`.
    pub fn len(&self) -> (len: usize)
        ensures
            len == self@.len(),
    {
        proof {
            use_type_invariant(self);
        }
        self.len
    }

    /// Returns true if the `Bytes` has a length of 0.
    pub fn is_empty(&self) -> (empty: bool)
        ensures
            empty == (self@.len() == 0),
    {
        proof {
            use_type_invariant(self);
        }
        self.len == 0
    }

    /// Returns a handle on the bytes from position `start` up to `end`.
    pub(crate) fn part(&self, start: usize, end: usize) -> (part: Self)
        requires
            start <= end <= self@.len(),
        ensures
            part@ == self@.subrange(start as int, end as int),
            part.origin() == self.origin().advance(start as int),
            part.lies_in(*self, start as int),
            part.is_another(*self),
    {
        proof {
            use_type_invariant(self);
        }
        let backing = match &self.backing {
            Backing::Static(slice) => Backing::Static(*slice),
            Backing::Counted(block) => Backing::Counted(block.clone()),
        };
        let ghost mark = self.mark@ + 1;
        Bytes { backing, start: self.start + start, len: end - start, mark: Ghost(mark) }
    }

    /// Returns a slice of self for the provided range.
    pub fn slice<R: ByteRange>(&self, range: R) -> (part: Self)
        requires
            within(range, self@.len() as int),
        ensures
            ({
                let start = first_position(range.lower());
                let end = end_position(range.upper(), self@.len() as int);
                &&& part@ == self@.subrange(start, end)
                &&& part.origin() == if start == end {
                    Origin::Static
                } else {
                    self.origin().advance(start)
                }
                &&& start < end ==> part.lies_in(*self, start)
            }),
    {
        let (start, end) = resolve(&range, self.len());
        if start == end {
            return Bytes::new();
        }
        self.part(start, end)
    }

    /// Creates a new `Bytes` from a subslice of this `Bytes`.
    ///
    /// Returns `None` for a slice that is not part of the memory behind `self`.
    pub fn slice_ref(&self, subset: &[u8]) -> (part: Option<Self>)
        ensures
            exists|addrs: (usize, usize)|
                {
                    &&& #[trigger] located(self@, subset, addrs)
                    &&& match part {
                        Some(handle) => {
                            &&& part_at(self@, addrs.0 as int, addrs.1 as int, subset@.len() as int)
                                == Some(handle@)
                            &&& handle.origin() == if subset@.len() == 0 {
                                Origin::Static
                            } else {
                                self.origin().advance(addrs.1 - addrs.0)
                            }
                            &&& subset@.len() > 0 ==> handle.lies_in(*self, addrs.1 - addrs.0)
                        },
                        None => part_at(
                            self@,
                            addrs.0 as int,
                            addrs.1 as int,
                            subset@.len() as int,
                        ) is None,
                    }
                },
            subset@.len() == 0 ==> part is Some,
            part matches Some(handle) ==> handle@ == subset@,
    {
        let (self_addr, subset_addr) = addresses(self.as_slice(), subset);
        assert(located(self@, subset, (self_addr, subset_addr)));
        self.slice_ref_at(self_addr, subset_addr, subset.len())
    }

    /// Creates a new `Bytes` from the `subset_len` bytes at the address
    /// `subset_addr`, where the bytes of `self` begin at the address `self_addr`.
    ///
    /// Returns `None` if they are not all bytes of `self`.
    pub fn slice_ref_at(
        &self,
        self_addr: usize,
        subset_addr: usize,
        subset_len: usize,
    ) -> (part: Option<Self>)
        requires
            self_addr + self@.len() <= usize::MAX,
            subset_addr + subset_len <= usize::MAX,
        ensures
            ({
                let found = part_at(
                    self@,
                    self_addr as int,
                    subset_addr as int,
                    subset_len as int,
                );
                match part {
                    Some(handle) => found == Some(handle@),
                    None => found is None,
                }
            }),
            part matches Some(handle) ==> handle.origin() == if subset_len == 0 {
                Origin::Static
            } else {
                self.origin().advance(subset_addr - self_addr)
            },
            part matches Some(handle) ==> subset_len > 0 ==> handle.lies_in(
                *self,
                subset_addr - self_addr,
            ),
    {
        if subset_len == 0 {
            return Some(Bytes::new());
        }
        if subset_addr >= self_addr && subset_addr + subset_len <= self_addr + self.len() {
            let offset = subset_addr - self_addr;
            Some(self.slice(offset..offset + subset_len))
        } else {
            None
        }
    }

    /// Splits the buffer into two at the given index: `self` keeps the bytes in
    /// front of it, and a handle on the rest is returned.
    pub fn split_off(&mut self, at: usize) -> (rest: Self)
        requires
            at <= old(self)@.len(),
        ensures
            final(self)@ == old(self)@.take(at as int),
            final(self).origin() == old(self).origin(),
            rest@ == old(self)@.skip(at as int),
            rest.origin() == (if at == old(self)@.len() {
                Origin::Static
            } else {
                old(self).origin().advance(at as int)
            }),
            final(self).lies_in(*old(self), 0),
            at < old(self)@.len() ==> rest.lies_in(*old(self), at as int),
    {
        let len = self.len();
        if at == len {
            assert(self@.take(len as int) == self@);
            return Bytes::new();
        }
        let rest = self.part(at, len);
        self.truncate(at);
        rest
    }

    /// Splits the buffer into two at the given index: a handle on the bytes in
    /// front of it is returned, and `self` keeps the rest.
    pub fn split_to(&mut self, at: usize) -> (front: Self)
        requires
            at <= old(self)@.len(),
        ensures
            front@ == old(self)@.take(at as int),
            front.origin() == (if at == 0 {
                Origin::Static
            } else {
                old(self).origin()
            }),
            final(self)@ == old(self)@.skip(at as int),
            final(self).origin() == (if at == old(self)@.len() {
                old(self).origin()
            } else {
                old(self).origin().advance(at as int)
            }),
            at > 0 ==> front.lies_in(*old(self), 0),
            final(self).lies_in(
                *old(self),
                if at == old(self)@.len() {
                    0
                } else {
                    at as int
                },
            ),
    {
        let len = self.len();
        if at == 0 {
            assert(self@.skip(0) == self@);
            return Bytes::new();
        }
        let front = self.part(0, at);
        if at == len {
            self.clear();
        } else {
            self.advance(at);
        }
        front
    }

    /// Shortens the buffer, keeping the first `len` bytes and dropping the
    /// rest.
    pub fn truncate(&mut self, len: usize)
        ensures
            final(self)@ == (if len < old(self)@.len() {
                old(self)@.take(len as int)
            } else {
                old(self)@
            }),
            final(self).origin() == old(self).origin(),
            final(self).lies_in(*old(self), 0),
    {
        proof {
            use_type_invariant(&*self);
        }
        if len < self.len {
            self.len = len;
        }
    }

    /// Clears the buffer, removing all data.
    pub fn clear(&mut self)
        ensures
            final(self)@ == Seq::<u8>::empty(),
            final(self).origin() == old(self).origin(),
            final(self).lies_in(*old(self), 0),
    {
        self.truncate(0);
    }

    /// Returns a slice to the underlying data.
    pub fn as_slice(&self) -> (slice: &[u8])
        ensures
            slice@ == self@,
    {
        proof {
            use_type_invariant(self);
        }
        let data = match &self.backing {
            Backing::Static(slice) => *slice,
            Backing::Counted(block) => block.data.as_slice(),
        };
        slice_subrange(data, self.start, self.start + self.len)
    }

    /// Whether no other handle or buffer holds a part of the same allocation.
    ///
    /// That depends on which others are alive. What follows from their numbers is
    /// what `sole_holder_given` states.
    pub(crate) fn sole_holder(&self) -> (sole: bool)
        ensures
            self.counted_sole(sole),
        no_unwind
    {
        let (handles, holders) = match &self.backing {
            Backing::Static(_) => (0, 0),
            Backing::Counted(block) => match &block.keeper {
                Keeper::Alloc { alloc, .. } => (strong_count(block), strong_count(alloc)),
                Keeper::Owner(_) => (strong_count(block), 0),
            },
        };
        self.sole_holder_given(handles, holders)
    }

    /// Returns whether no other handle or buffer holds a part of the same memory;
    /// `handles` is the number of handles on it, this one counted, and `holders` the
    /// number of parts that its allocation is in.
    ///
    /// A static slice is nobody's alone, and the bytes of an owner are in no
    /// allocation.
    pub fn sole_holder_given(&self, handles: usize, holders: usize) -> (sole: bool)
        ensures
            sole == self.origin().sole(handles, holders),
        no_unwind
    {
        match &self.backing {
            Backing::Static(_) => false,
            Backing::Counted(block) => match &block.keeper {
                Keeper::Alloc { .. } => handles == 1 && holders == 1,
                Keeper::Owner(_) => handles == 1,
            },
        }
    }

    /// Returns true if this is the only reference to the underlying data.
    ///
    /// It never is for a static slice.
    pub fn is_unique(&self) -> (unique: bool)
        ensures
            exists|sole: bool|
                {
                    &&& #[trigger] self.counted_sole(sole)
                    &&& self.asked(sole)
                    &&& unique == self.origin().unique(sole)
                },
        no_unwind
    {
        let sole = self.sole_holder();
        self.is_unique_given(sole)
    }

    /// Returns true if this is the only reference to the underlying data; `sole`
    /// says whether no other handle or buffer holds a part of it.
    pub fn is_unique_given(&self, sole: bool) -> (unique: bool)
        ensures
            unique == self.origin().unique(sole),
        no_unwind
    {
        match &self.backing {
            Backing::Static(_) => false,
            Backing::Counted(_) => sole,
        }
    }

    /// Tries to convert this `Bytes` to a `BytesMut`.
    ///
    /// It takes the only reference to an allocation. The buffer gets the rest of
    /// the allocation as capacity.
    pub fn try_into_mut(self) -> (result: Result<BytesMut, Bytes>)
        ensures
            exists|sole: bool|
                {
                    &&& #[trigger] self.counted_sole(sole)
                    &&& self.asked(sole)
                    &&& result is Ok <==> self.origin().convertible(sole)
                },
            match result {
                Ok(buf) => self.origin() matches Origin::Shared(slot) && buf.region()
                    == Region::thaw(self@, slot) && buf.region().wf(),
                Err(bytes) => bytes == self,
            },
    {
        let sole = self.sole_holder();
        self.try_into_mut_given(sole)
    }

    /// Tries to convert this `Bytes` to a `BytesMut`; `sole` says whether no other
    /// handle or buffer holds a part of the allocation.
    pub fn try_into_mut_given(self, sole: bool) -> (result: Result<BytesMut, Bytes>)
        ensures
            result is Ok <==> self.origin().convertible(sole),
            match result {
                Ok(buf) => self.origin() matches Origin::Shared(slot) && buf.region()
                    == Region::thaw(self@, slot) && buf.region().wf(),
                Err(bytes) => bytes == self,
            },
    {
        proof {
            use_type_invariant(&self);
        }
        if !self.is_unique_given(sole) {
            return Err(self);
        }
        let Bytes { backing, start, len, mark } = self;
        match backing {
            Backing::Static(_) => Err(Bytes { backing, start, len, mark }),
            Backing::Counted(block) => {
                let (alloc, base) = match &block.keeper {
                    Keeper::Alloc { alloc, base } => (alloc.clone(), *base),
                    Keeper::Owner(_) => {
                        return Err(Bytes { backing: Backing::Counted(block), start, len, mark });
                    },
                };
                let (data, first) = unwrap_window(block, start, len);
                let base = base + (start - first);
                let mem = stretched(data, alloc.size - base);
                let lease = Lease { alloc, base, start: first };
                Ok(BytesMut { mem, len, lease: Some(Box::new(lease)) })
            },
        }
    }

    /// Returns the number of bytes that can be read.
    pub fn remaining(&self) -> (remaining: usize)
        ensures
            remaining == self@.len(),
    {
        self.len()
    }

    /// Returns the bytes that can be read.
    pub fn chunk(&self) -> (chunk: &[u8])
        ensures
            chunk@ == self@,
    {
        self.as_slice()
    }

    /// Drops the first `cnt` bytes.
    pub fn advance(&mut self, cnt: usize)
        requires
            cnt <= old(self)@.len(),
        ensures
            final(self)@ == old(self)@.skip(cnt as int),
            final(self).origin() == old(self).origin().advance(cnt as int),
            final(self).lies_in(*old(self), cnt as int),
    {
        proof {
            use_type_invariant(&*self);
        }
        self.len = self.len - cnt;
        self.start = self.start + cnt;
    }
}

} // verus!
