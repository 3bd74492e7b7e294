//! The growable buffer.
//!
//! Each buffer has memory of its own to write to, so splitting and joining copy bytes.
//! The allocation that the parts of a split buffer share, and their places in it, are a
//! record that is counted once for each holder: it decides how a part grows, what it
//! can reclaim, and which parts can be joined with the capacity of both.

use std::rc::Rc;

use vstd::prelude::*;

use crate::buf::{Backing, Block, Bytes, Keeper};
use crate::memory::{at_least, copy_within, enlarged, fill_at, fresh, move_to_front, write_at};
use crate::outside::{into_boxed_slice, same_allocation, strong_count, window_mut};
use crate::range::{end_position, first_position, resolve, within, ByteRange};
use crate::region::{Origin, Region, Slot, MIN_GROWTH};

verus! {

/// An allocation that several buffers may hold parts of.
pub struct Alloc {
    /// Number of bytes of the whole allocation.
    pub(crate) size: usize,
}

/// The part that a buffer holds of an allocation open to sharing.
pub(crate) struct Lease {
    /// The allocation, counted once for each buffer that holds a part of it.
    pub(crate) alloc: Rc<Alloc>,
    /// Distance of the buffer's memory from the start of the allocation.
    pub(crate) base: usize,
    /// Distance of the first byte from the start of the buffer's memory.
    pub(crate) start: usize,
}

/// A unique reference to a contiguous slice of memory.
///
/// A buffer's view is the sequence of its bytes; `region` tells in addition what
/// its capacity is and where it lies in its allocation.
pub struct BytesMut {
    /// The memory, up to the end of the capacity.
    pub(crate) mem: Box<[u8]>,
    /// Number of bytes in the buffer.
    pub(crate) len: usize,
    /// The place in a shared allocation; a buffer without one has `mem` as its
    /// whole allocation and starts at its front.
    pub(crate) lease: Option<Box<Lease>>,
}

/// The larger of two numbers.
fn max(a: usize, b: usize) -> (m: usize)
    ensures
        m == crate::region::larger(a as int, b as int),
{
    if a >= b {
        a
    } else {
        b
    }
}

impl BytesMut {
    /// The bytes lie within the memory, and the memory within the allocation.
    #[verifier::type_invariant]
    pub(crate) open(crate) spec fn inv(self) -> bool {
        &&& self.first() + self.len <= self.mem@.len()
        &&& self.lease matches Some(lease) ==> lease.base + self.mem@.len() <= lease.alloc.size
    }

    /// Position of the first byte in the memory.
    pub(crate) open(crate) spec fn first(self) -> int {
        match self.lease {
            Some(lease) => lease.start as int,
            None => 0,
        }
    }

    /// The memory that belongs to the buffer: its bytes, then its spare capacity.
    pub open(crate) spec fn window(self) -> Seq<u8> {
        self.mem@.skip(self.first())
    }

    /// The buffer's bytes, its capacity and its place in the allocation.
    pub open(crate) spec fn region(self) -> Region {
        Region {
            bytes: self.window().take(self.len as int),
            capacity: self.window().len() as int,
            slot: match self.lease {
                Some(lease) => Some(
                    Slot { offset: lease.base + lease.start, size: lease.alloc.size as int },
                ),
                None => None,
            },
        }
    }
}

impl BytesMut {
    /// Whether `sole` may be the answer, by counting, to whether nothing else holds a
    /// part of the buffer's allocation.
    pub open(crate) spec fn counted_sole(self, sole: bool) -> bool {
        match self.lease {
            Some(lease) => exists|holders: usize|
                {
                    &&& #[trigger] call_ensures(strong_count::<Alloc>, (&lease.alloc,), holders)
                    &&& sole == (holders == 1)
                },
            None => sole,
        }
    }

    /// Whether `same` may be the answer, by comparing places, to whether both buffers
    /// hold parts of the same allocation.
    pub open(crate) spec fn identified_alloc(self, other: BytesMut, same: bool) -> bool {
        match (self.lease, other.lease) {
            (Some(mine), Some(others)) => call_ensures(
                same_allocation::<Alloc>,
                (&mine.alloc, &others.alloc),
                same,
            ),
            _ => !same,
        }
    }

    /// Whether `after` is this buffer with room for `additional` more bytes, made as
    /// the holders of its allocation, counted, decide.
    pub open spec fn reserved(self, additional: int, after: Region) -> bool {
        exists|sole: bool|
            {
                &&& #[trigger] self.counted_sole(sole)
                &&& after == self.region().reserve(additional, sole)
            }
    }

    /// Whether `after` is this buffer with `data` behind its bytes, put there as the
    /// holders of its allocation, counted, decide.
    pub open spec fn appended(self, data: Seq<u8>, after: Region) -> bool {
        exists|sole: bool|
            {
                &&& #[trigger] self.counted_sole(sole)
                &&& after == self.region().append(data, sole)
            }
    }

    /// Whether `after` is this buffer after the bytes of `data` have been put in one at
    /// a time, each as the holders of its allocation, counted then, decide.
    pub open spec fn extended(self, data: Seq<u8>, after: BytesMut) -> bool
        decreases data.len(),
    {
        if data.len() == 0 {
            after == self
        } else {
            exists|before: BytesMut|
                {
                    &&& self.extended(data.drop_last(), before)
                    &&& #[trigger] before.appended(seq![data.last()], after.region())
                }
        }
    }

    /// Whether a buffer that tried to take `data` behind its bytes is as `after` and
    /// has told by `taken` whether it could, as the holders of its allocation,
    /// counted, decide.
    pub open spec fn tried_to_append(self, data: Seq<u8>, taken: bool, after: Region) -> bool {
        exists|sole: bool|
            {
                &&& #[trigger] self.counted_sole(sole)
                &&& self.region().tries_to_append(data, sole, taken, after)
            }
    }
}

impl View for BytesMut {
    type V = Seq<u8>;

    open(crate) spec fn view(&self) -> Seq<u8> {
        self.region().bytes
    }
}

impl BytesMut {
    /// Creates a new `BytesMut` with the specified capacity.
    pub fn with_capacity(capacity: usize) -> (buf: Self)
        requires
            capacity <= isize::MAX,
        ensures
            buf.region() == Region::empty(capacity as int),
            buf@ == Seq::<u8>::empty(),
            buf.region().capacity == capacity,
    {
        BytesMut { mem: fresh(capacity), len: 0, lease: None }
    }

    /// Creates a new empty `BytesMut` instance.
    pub fn new() -> (buf: Self)
        ensures
            buf.region() == Region::empty(0),
            buf@ == Seq::<u8>::empty(),
            buf.region().capacity == 0,
    {
        BytesMut { mem: fresh(0), len: 0, lease: None }
    }

    /// Creates a buffer that holds a copy of `data` and has no spare capacity.
    pub(crate) fn holding(data: &[u8]) -> (buf: Self)
        ensures
            buf.region() == Region::exact(data@),
    {
        let len = data.len();
        let mem = enlarged(data, len);
        BytesMut { mem, len, lease: None }
    }

    /// Returns the number of bytes contained in this `BytesMut`.
    pub fn len(&self) -> (len: usize)
        ensures
            len == self@.len(),
    {
        proof {
            use_type_invariant(self);
        }
        self.len
    }

    /// Returns true if the `BytesMut` has a length of 0.
    pub fn is_empty(&self) -> (empty: bool)
        ensures
            empty == (self@.len() == 0),
    {
        proof {
            use_type_invariant(self);
        }
        self.len == 0
    }

    /// Returns how many bytes the buffer can hold before it has to grow.
    pub fn capacity(&self) -> (capacity: usize)
        ensures
            capacity == self.region().capacity,
            capacity == self.window().len(),
            self.region().wf(),
            self@ == self.window().take(self@.len() as int),
    {
        proof {
            use_type_invariant(self);
        }
        self.mem.len() - self.start()
    }

    /// Position of the first byte in the memory.
    fn start(&self) -> (start: usize)
        ensures
            start == self.first(),
    {
        match &self.lease {
            Some(lease) => lease.start,
            None => 0,
        }
    }

    /// Moves the buffer out, leaving an empty one in its place.
    fn take(&mut self) -> (buf: BytesMut)
        ensures
            buf == *old(self),
            final(self).region() == Region::empty(0),
    {
        let mut buf = BytesMut::new();
        core::mem::swap(self, &mut buf);
        buf
    }

    /// Opens the buffer's allocation to sharing if it is not yet.
    fn promote(&mut self)
        ensures
            final(self).region() == old(self).region().promote(),
            final(self).window() == old(self).window(),
            final(self).lease is Some,
    {
        proof {
            use_type_invariant(&*self);
        }
        if self.lease.is_none() {
            let BytesMut { mem, len, lease } = self.take();
            let alloc = Rc::new(Alloc { size: mem.len() });
            *self = BytesMut { mem, len, lease: Some(Box::new(Lease { alloc, base: 0, start: 0 })) };
        }
    }

    /// Whether nothing else holds a part of the buffer's allocation.
    ///
    /// Of an allocation open to sharing, that depends on which others are alive. What
    /// follows from their number is what `sole_holder_given` states.
    pub(crate) fn sole_holder(&self) -> (sole: bool)
        ensures
            self.counted_sole(sole),
        no_unwind
    {
        let holders = match &self.lease {
            Some(lease) => strong_count(&lease.alloc),
            None => 1,
        };
        self.sole_holder_given(holders)
    }

    /// Returns whether nothing else holds a part of the buffer's allocation;
    /// `holders` is the number of parts that an allocation open to sharing is in.
    pub fn sole_holder_given(&self, holders: usize) -> (sole: bool)
        ensures
            sole == (self.region().slot is None || holders == 1),
        no_unwind
    {
        match &self.lease {
            Some(_) => holders == 1,
            None => true,
        }
    }

    /// Returns whether room for `additional` more bytes can be had, whoever else
    /// holds the allocation: no new allocation is larger than `isize::MAX` bytes.
    pub fn can_reserve(&self, additional: usize) -> (can: bool)
        ensures
            can == self.region().can_reserve(additional as int),
    {
        self.can_reserve_given(additional, true) && self.can_reserve_given(additional, false)
    }

    /// Returns whether room for `additional` more bytes can be had; `unique` says
    /// whether nothing else holds a part of the allocation.
    pub fn can_reserve_given(&self, additional: usize, unique: bool) -> (can: bool)
        ensures
            can == self.region().can_reserve_given(additional as int, unique),
    {
        proof {
            use_type_invariant(self);
        }
        let capacity = self.capacity();
        if additional <= capacity - self.len {
            return true;
        }
        let limit = isize::MAX as usize;
        match &self.lease {
            None => capacity <= limit / 2 && additional <= limit - self.len,
            Some(lease) => {
                let offset = lease.base + lease.start;
                let size = lease.alloc.size;
                if unique && offset > 0 && additional <= size - self.len {
                    return true;
                }
                let taken = if unique {
                    offset + self.len
                } else {
                    self.len
                };
                size <= limit / 2 && additional <= limit - taken
            },
        }
    }

    /// Reserves capacity for at least `additional` more bytes to be inserted.
    pub fn reserve(&mut self, additional: usize)
        requires
            old(self).region().can_reserve(additional as int),
        ensures
            old(self).reserved(additional as int, final(self).region()),
            final(self).region().fits(additional as int),
            final(self)@.len() + additional <= final(self).region().capacity,
            final(self)@ == old(self)@,
            old(self)@.len() + additional <= old(self).region().capacity ==> {
                &&& final(self).region() == old(self).region()
                &&& final(self).window() == old(self).window()
            },
    {
        let unique = self.sole_holder();
        self.reserve_given(additional, unique);
    }

    /// Reserves capacity for at least `additional` more bytes to be inserted;
    /// `unique` says whether nothing else holds a part of the allocation.
    pub fn reserve_given(&mut self, additional: usize, unique: bool)
        requires
            old(self).region().can_reserve_given(additional as int, unique),
        ensures
            final(self).region() == old(self).region().reserve(additional as int, unique),
            final(self).region().fits(additional as int),
            final(self)@.len() + additional <= final(self).region().capacity,
            final(self)@ == old(self)@,
            old(self)@.len() + additional <= old(self).region().capacity ==> {
                &&& final(self).region() == old(self).region()
                &&& final(self).window() == old(self).window()
            },
    {
        proof {
            use_type_invariant(&*self);
        }
        let capacity = self.capacity();
        if additional <= capacity - self.len {
            return;
        }
        let BytesMut { mem, len, lease } = self.take();
        match lease {
            None => {
                let needed = len + additional;
                let size = max(max(capacity * 2, needed), MIN_GROWTH);
                *self = BytesMut { mem: enlarged(&mem, size), len, lease: None };
            },
            Some(lease) => {
                let Lease { alloc, base, start } = *lease;
                let offset = base + start;
                if !unique {
                    let needed = len + additional;
                    let size = max(max(alloc.size * 2, needed), MIN_GROWTH);
                    let (_, window) = mem.split_at(start);
                    let (bytes, _) = window.split_at(len);
                    *self = BytesMut { mem: enlarged(bytes, size), len, lease: None };
                } else if offset > 0 && alloc.size - len >= additional {
                    *self = BytesMut::reclaimed(mem, len, Lease { alloc, base, start });
                } else {
                    let needed = len + additional;
                    let grown = max(max(alloc.size * 2, needed), MIN_GROWTH);
                    let size = max(grown, offset + needed);
                    let mem = enlarged(&mem, size - base);
                    let alloc = Rc::new(Alloc { size });
                    let lease = Lease { alloc, base, start };
                    *self = BytesMut { mem, len, lease: Some(Box::new(lease)) };
                }
            },
        }
    }

    /// Reserves capacity for at least `additional` more bytes where that can be had,
    /// and returns whether it could.
    pub fn try_reserve(&mut self, additional: usize) -> (reserved: bool)
        ensures
            exists|sole: bool|
                {
                    &&& #[trigger] old(self).counted_sole(sole)
                    &&& old(self).region().tries_to_reserve(
                        additional as int,
                        sole,
                        reserved,
                        final(self).region(),
                    )
                },
            old(self).region().can_reserve(additional as int) ==> reserved,
            reserved ==> final(self).region().fits(additional as int),
            reserved ==> final(self)@.len() + additional <= final(self).region().capacity,
            final(self)@ == old(self)@,
            !reserved ==> *final(self) == *old(self),
    {
        let unique = self.sole_holder();
        self.try_reserve_given(additional, unique)
    }

    /// Reserves capacity for at least `additional` more bytes where that can be had,
    /// and returns whether it could; `unique` says whether nothing else holds a part
    /// of the allocation.
    pub fn try_reserve_given(&mut self, additional: usize, unique: bool) -> (reserved: bool)
        ensures
            old(self).region().tries_to_reserve(
                additional as int,
                unique,
                reserved,
                final(self).region(),
            ),
            reserved ==> final(self).region().fits(additional as int),
            reserved ==> final(self)@.len() + additional <= final(self).region().capacity,
            final(self)@ == old(self)@,
            !reserved ==> *final(self) == *old(self),
    {
        let can = self.can_reserve_given(additional, unique);
        if can {
            self.reserve_given(additional, unique);
        }
        can
    }

    /// Puts `src` behind the bytes where room for it can be had, and returns whether
    /// it could.
    pub(crate) fn try_append(&mut self, src: &[u8]) -> (taken: bool)
        ensures
            old(self).tried_to_append(src@, taken, final(self).region()),
            taken ==> final(self)@ == old(self)@ + src@,
            !taken ==> *final(self) == *old(self),
    {
        let unique = self.sole_holder();
        self.try_append_given(src, unique)
    }

    /// Puts `src` behind the bytes where room for it can be had, and returns whether
    /// it could; `unique` says whether nothing else holds a part of the allocation.
    pub fn try_append_given(&mut self, src: &[u8], unique: bool) -> (taken: bool)
        ensures
            old(self).region().tries_to_append(src@, unique, taken, final(self).region()),
            taken ==> final(self)@ == old(self)@ + src@,
            !taken ==> *final(self) == *old(self),
    {
        let reserved = self.try_reserve_given(src.len(), unique);
        if reserved {
            self.put_in_place(src);
        }
        reserved
    }

    /// The buffer of `len` bytes in `mem`, moved to the front of its allocation.
    fn reclaimed(mem: Box<[u8]>, len: usize, lease: Lease) -> (buf: BytesMut)
        requires
            lease.start + len <= mem@.len(),
            lease.base + mem@.len() <= lease.alloc.size,
        ensures
            buf.region() == (Region {
                bytes: mem@.subrange(lease.start as int, lease.start + len),
                capacity: lease.alloc.size as int,
                slot: Some(Slot { offset: 0, size: lease.alloc.size as int }),
            }),
    {
        let Lease { alloc, base, start } = lease;
        let mut mem = mem;
        move_to_front(&mut mem, start, len);
        let moved = at_least(mem, alloc.size);
        assert(moved@.take(len as int) == mem@.take(len as int));
        BytesMut { mem: moved, len, lease: Some(Box::new(Lease { alloc, base: 0, start: 0 })) }
    }

    /// Try to reclaim capacity without a larger allocation.
    ///
    /// Reclaiming moves the bytes to the front of the allocation. The allocation is a
    /// record: a buffer whose own memory is smaller gets new memory of that size and
    /// its bytes are copied. It takes a buffer that has been advanced, that is the only holder of its allocation
    /// and whose allocation has room for its bytes and `additional` more.
    pub fn try_reclaim(&mut self, additional: usize) -> (reclaimed: bool)
        ensures
            exists|sole: bool|
                {
                    &&& #[trigger] old(self).counted_sole(sole)
                    &&& reclaimed == (sole && old(self).region().reclaimable(additional as int))
                },
            reclaimed ==> final(self).region() == old(self).region().reclaim(),
            reclaimed ==> final(self)@.len() + additional <= final(self).region().capacity,
            final(self)@ == old(self)@,
            !reclaimed ==> *final(self) == *old(self),
    {
        let unique = self.sole_holder();
        self.try_reclaim_given(additional, unique)
    }

    /// Try to reclaim capacity without a larger allocation; `unique` says whether nothing
    /// else holds a part of the allocation.
    pub fn try_reclaim_given(&mut self, additional: usize, unique: bool) -> (reclaimed: bool)
        ensures
            reclaimed == (unique && old(self).region().reclaimable(additional as int)),
            reclaimed ==> final(self).region() == old(self).region().reclaim(),
            reclaimed ==> final(self)@.len() + additional <= final(self).region().capacity,
            final(self)@ == old(self)@,
            !reclaimed ==> *final(self) == *old(self),
    {
        proof {
            use_type_invariant(&*self);
        }
        let reclaimable = match &self.lease {
            Some(lease) => {
                unique && lease.base + lease.start > 0 && lease.alloc.size - self.len >= additional
            },
            None => false,
        };
        if reclaimable {
            let BytesMut { mem, len, lease } = self.take();
            if let Some(lease) = lease {
                *self = BytesMut::reclaimed(mem, len, *lease);
            }
        }
        reclaimable
    }

    /// Puts `src` behind the bytes, where it fits.
    fn put_in_place(&mut self, src: &[u8])
        requires
            old(self).region().fits(src@.len() as int),
        ensures
            final(self).region() == (Region {
                bytes: old(self)@ + src@,
                ..old(self).region()
            }),
    {
        proof {
            use_type_invariant(&*self);
        }
        let start = self.start();
        let BytesMut { mem, len, lease } = self.take();
        let mut mem = mem;
        let size = mem.len();
        assert(start + len + src@.len() <= size);
        write_at(&mut mem, start + len, src);
        *self = BytesMut { mem, len: len + src.len(), lease };
    }

    /// Puts `count` times the byte `value` behind the bytes, where they fit.
    fn fill_in_place(&mut self, count: usize, value: u8)
        requires
            old(self).region().fits(count as int),
        ensures
            final(self).region() == (Region {
                bytes: old(self)@ + Seq::new(count as nat, |i: int| value),
                ..old(self).region()
            }),
    {
        proof {
            use_type_invariant(&*self);
        }
        let start = self.start();
        let BytesMut { mem, len, lease } = self.take();
        let mut mem = mem;
        let size = mem.len();
        assert(start + len + count <= size);
        fill_at(&mut mem, start + len, count, value);
        *self = BytesMut { mem, len: len + count, lease };
    }

    /// Puts the `count` bytes from position `from` on behind the bytes once more,
    /// where they fit.
    fn copy_in_place(&mut self, from: usize, count: usize)
        requires
            from + count <= old(self)@.len(),
            old(self).region().fits(count as int),
        ensures
            final(self).region() == (Region {
                bytes: old(self)@ + old(self)@.subrange(from as int, from + count),
                ..old(self).region()
            }),
    {
        proof {
            use_type_invariant(&*self);
        }
        let start = self.start();
        let BytesMut { mem, len, lease } = self.take();
        let mut mem = mem;
        let size = mem.len();
        assert(start + len + count <= size);
        copy_within(&mut mem, start + from, start + len, count);
        *self = BytesMut { mem, len: len + count, lease };
    }

    /// Extends the buffer with the given slice.
    pub fn extend_from_slice(&mut self, extend: &[u8])
        requires
            old(self).region().can_reserve(extend@.len() as int),
        ensures
            old(self).appended(extend@, final(self).region()),
            final(self)@ == old(self)@ + extend@,
    {
        self.reserve(extend.len());
        self.put_in_place(extend);
    }

    /// Extends the buffer from within itself.
    pub fn extend_from_within<R: ByteRange>(&mut self, range: R)
        requires
            within(range, old(self)@.len() as int),
            old(self).region().can_reserve(
                end_position(range.upper(), old(self)@.len() as int) - first_position(
                    range.lower(),
                ),
            ),
        ensures
            ({
                let copied = old(self)@.subrange(
                    first_position(range.lower()),
                    end_position(range.upper(), old(self)@.len() as int),
                );
                &&& old(self).appended(copied, final(self).region())
                &&& final(self)@ == old(self)@ + copied
            }),
    {
        let (from, end) = resolve(&range, self.len());
        let count = end - from;
        self.reserve(count);
        self.copy_in_place(from, count);
    }

    /// Puts a single byte at the end of the buffer.
    pub fn put_u8(&mut self, n: u8)
        requires
            old(self).region().can_reserve(1),
        ensures
            old(self).appended(seq![n], final(self).region()),
            final(self)@ == old(self)@.push(n),
    {
        self.reserve(1);
        self.fill_in_place(1, n);
        assert(Seq::new(1, |i: int| n) == seq![n]);
    }

    /// Splits the buffer into two at the given index: `self` keeps the bytes in
    /// front of it, and the rest is returned.
    pub fn split_off(&mut self, at: usize) -> (rest: BytesMut)
        requires
            at <= old(self)@.len(),
        ensures
            final(self).region() == old(self).region().front(at as int),
            rest.region() == old(self).region().back(at as int),
            final(self)@ == old(self)@.take(at as int),
            rest@ == old(self)@.skip(at as int),
            final(self).region().capacity == at,
            rest.region().capacity == old(self).region().capacity - at,
            final(self).window() == old(self).window().take(at as int),
            rest.window() == old(self).window().skip(at as int),
    {
        self.promote();
        proof {
            use_type_invariant(&*self);
        }
        let BytesMut { mem, len, lease } = self.take();
        match lease {
            Some(lease) => {
                let Lease { alloc, base, start } = *lease;
                let mut front = mem.into_vec();
                let back = front.split_off(start + at);
                let rest = BytesMut {
                    mem: into_boxed_slice(back),
                    len: len - at,
                    lease: Some(
                        Box::new(Lease { alloc: alloc.clone(), base: base + start + at, start: 0 }),
                    ),
                };
                *self = BytesMut {
                    mem: into_boxed_slice(front),
                    len: at,
                    lease: Some(Box::new(Lease { alloc, base, start })),
                };
                rest
            },
            None => BytesMut::new(),
        }
    }

    /// Splits the buffer into two at the given index: the bytes in front of it are
    /// returned, and `self` keeps the rest.
    pub fn split_to(&mut self, at: usize) -> (front: BytesMut)
        requires
            at <= old(self)@.len(),
        ensures
            front.region() == old(self).region().front(at as int),
            final(self).region() == old(self).region().back(at as int),
            front@ == old(self)@.take(at as int),
            final(self)@ == old(self)@.skip(at as int),
            front.region().capacity == at,
            final(self).region().capacity == old(self).region().capacity - at,
            front.window() == old(self).window().take(at as int),
            final(self).window() == old(self).window().skip(at as int),
    {
        self.promote();
        proof {
            use_type_invariant(&*self);
        }
        let BytesMut { mem, len, lease } = self.take();
        match lease {
            Some(lease) => {
                let Lease { alloc, base, start } = *lease;
                let (_, window) = mem.split_at(start);
                let (bytes, _) = window.split_at(at);
                let front = BytesMut {
                    mem: enlarged(bytes, at),
                    len: at,
                    lease: Some(
                        Box::new(Lease { alloc: alloc.clone(), base: base + start, start: 0 }),
                    ),
                };
                *self = BytesMut {
                    mem,
                    len: len - at,
                    lease: Some(Box::new(Lease { alloc, base, start: start + at })),
                };
                front
            },
            None => BytesMut::new(),
        }
    }

    /// Splits the buffer into two at the current length: all bytes are returned,
    /// and `self` keeps the spare capacity.
    pub fn split(&mut self) -> (front: BytesMut)
        ensures
            front.region() == old(self).region().front(old(self)@.len() as int),
            final(self).region() == old(self).region().back(old(self)@.len() as int),
            front@ == old(self)@,
            final(self)@ == Seq::<u8>::empty(),
            final(self).window() == old(self).window().skip(old(self)@.len() as int),
    {
        let len = self.len();
        self.split_to(len)
    }

    /// Unsplits the buffer: the bytes of `other` go behind those of `self`.
    ///
    /// Two parts of one allocation that lie side by side become one again, with
    /// the capacity of both.
    pub fn unsplit(&mut self, other: BytesMut)
        requires
            old(self)@.len() > 0 && other@.len() > 0 ==> old(self).region().can_reserve(
                other@.len() as int,
            ),
        ensures
            exists|same_alloc: bool, sole: bool|
                {
                    &&& #[trigger] old(self).identified_alloc(other, same_alloc)
                    &&& #[trigger] old(self).counted_sole(sole)
                    &&& final(self).region() == old(self).region().unsplit(
                        other.region(),
                        same_alloc,
                        sole,
                    )
                },
            final(self)@ == old(self)@ + other@,
    {
        let same_alloc = self.is_part_of_same(&other);
        let unique = self.sole_holder();
        self.unsplit_given(other, same_alloc, unique);
    }

    /// Unsplits the buffer; `same_alloc` says whether both buffers hold parts of
    /// the same allocation, and `unique` whether nothing else holds a part of the
    /// allocation of `self`.
    pub fn unsplit_given(&mut self, other: BytesMut, same_alloc: bool, unique: bool)
        requires
            old(self).region().can_unsplit(other.region(), same_alloc, unique),
        ensures
            final(self).region() == old(self).region().unsplit(other.region(), same_alloc, unique),
            final(self)@ == old(self)@ + other@,
    {
        proof {
            use_type_invariant(&*self);
            use_type_invariant(&other);
        }
        if self.is_empty() {
            *self = other;
            return;
        }
        if other.is_empty() {
            return;
        }
        if same_alloc && self.is_followed_by(&other) {
            self.join(other);
        } else {
            self.reserve_given(other.len(), unique);
            self.put_in_place(other.as_slice());
        }
    }

    /// Unsplits the buffer where nothing has to grow for it or room can be had, and
    /// gives `other` back where not.
    pub fn try_unsplit(&mut self, other: BytesMut) -> (result: Result<(), BytesMut>)
        ensures
            exists|same_alloc: bool, sole: bool|
                {
                    &&& #[trigger] old(self).identified_alloc(other, same_alloc)
                    &&& #[trigger] old(self).counted_sole(sole)
                    &&& result is Ok <==> old(self).region().can_unsplit(
                        other.region(),
                        same_alloc,
                        sole,
                    )
                    &&& result is Ok ==> final(self).region() == old(self).region().unsplit(
                        other.region(),
                        same_alloc,
                        sole,
                    )
                },
            result is Ok ==> final(self)@ == old(self)@ + other@,
            result matches Err(back) ==> back == other && *final(self) == *old(self),
    {
        let same_alloc = self.is_part_of_same(&other);
        let unique = self.sole_holder();
        self.try_unsplit_given(other, same_alloc, unique)
    }

    /// Unsplits the buffer where nothing has to grow for it or room can be had, and
    /// gives `other` back where not; `same_alloc` says whether both buffers hold parts of
    /// the same allocation, and `unique` whether nothing else holds a part of the
    /// allocation of `self`.
    pub fn try_unsplit_given(&mut self, other: BytesMut, same_alloc: bool, unique: bool) -> (result:
        Result<(), BytesMut>)
        ensures
            result is Ok <==> old(self).region().can_unsplit(other.region(), same_alloc, unique),
            result is Ok ==> final(self).region() == old(self).region().unsplit(
                other.region(),
                same_alloc,
                unique,
            ),
            result is Ok ==> final(self)@ == old(self)@ + other@,
            result matches Err(back) ==> back == other && *final(self) == *old(self),
    {
        if self.is_empty() || other.is_empty() || same_alloc && self.is_followed_by(&other)
            || self.can_reserve_given(other.len(), unique) {
            self.unsplit_given(other, same_alloc, unique);
            Ok(())
        } else {
            Err(other)
        }
    }

    /// Whether both buffers hold parts of the same allocation.
    fn is_part_of_same(&self, other: &BytesMut) -> (same_alloc: bool)
        ensures
            self.identified_alloc(*other, same_alloc),
    {
        match (&self.lease, &other.lease) {
            (Some(mine), Some(others)) => same_allocation(&mine.alloc, &others.alloc),
            _ => false,
        }
    }

    /// Whether `other` begins in the allocation where the capacity of `self`,
    /// filled to the last byte, ends.
    fn is_followed_by(&self, other: &BytesMut) -> (follows: bool)
        ensures
            follows == self.region().adjoins(other.region()),
    {
        proof {
            use_type_invariant(self);
            use_type_invariant(other);
        }
        match (&self.lease, &other.lease) {
            (Some(mine), Some(others)) => {
                let size = self.mem.len();
                let other_size = other.mem.len();
                assert(others.start <= other_size);
                mine.alloc.size == others.alloc.size && mine.start + self.len == size && mine.base
                    + size == others.base + others.start
            },
            _ => false,
        }
    }

    /// Takes over the memory of a buffer that begins where this one ends.
    fn join(&mut self, other: BytesMut)
        requires
            old(self).region().adjoins(other.region()),
        ensures
            final(self).region() == old(self).region().join(other.region()),
    {
        proof {
            use_type_invariant(&*self);
            use_type_invariant(&other);
        }
        let start = other.start();
        let BytesMut { mem, len, lease } = self.take();
        let size = mem.len();
        let (_, tail) = other.mem.split_at(start);
        let mut joined = enlarged(&mem, size + tail.len());
        write_at(&mut joined, size, tail);
        assert(joined@.take(size as int) == mem@);
        *self = BytesMut { mem: joined, len: len + other.len, lease };
    }

    /// Shortens the buffer, keeping the first `len` bytes and dropping the
    /// rest.
    pub fn truncate(&mut self, len: usize)
        ensures
            final(self).region() == old(self).region().truncate(len as int),
            final(self)@ == (if len < old(self)@.len() {
                old(self)@.take(len as int)
            } else {
                old(self)@
            }),
            final(self).region().capacity == old(self).region().capacity,
            final(self).window() == old(self).window(),
    {
        proof {
            use_type_invariant(&*self);
        }
        if len <= self.len {
            self.len = len;
        }
    }

    /// Clears the buffer, removing all data.
    pub fn clear(&mut self)
        ensures
            final(self).region() == old(self).region().truncate(0),
            final(self).region().capacity == old(self).region().capacity,
            final(self)@ == Seq::<u8>::empty(),
            final(self).window() == old(self).window(),
    {
        self.truncate(0);
    }

    /// Sets the length of the buffer.
    ///
    /// Bytes of the spare capacity that nothing has been written to have no
    /// particular value.
    pub fn set_len(&mut self, len: usize)
        requires
            len <= old(self).region().capacity,
        ensures
            final(self).region() == (Region {
                bytes: old(self).window().take(len as int),
                ..old(self).region()
            }),
            final(self).window() == old(self).window(),
    {
        proof {
            use_type_invariant(&*self);
        }
        self.len = len;
    }

    /// Freezes the `BytesMut` into a `Bytes`.
    pub fn freeze(self) -> (bytes: Bytes)
        ensures
            bytes@ == self@,
            bytes.origin() == Origin::Shared(self.region().place()),
    {
        let mut buf = self;
        buf.promote();
        proof {
            use_type_invariant(&buf);
        }
        let BytesMut { mem, len, lease } = buf;
        match lease {
            Some(lease) => {
                let Lease { alloc, base, start } = *lease;
                let block = Block { data: mem.into_vec(), keeper: Keeper::Alloc { alloc, base } };
                let backing = Backing::Counted(Rc::new(block));
                Bytes { backing, start, len, mark: Ghost(0) }
            },
            None => Bytes::new(),
        }
    }

    /// Resizes the buffer: it is cut off at `new_len` bytes, or filled up to that
    /// length with `value`.
    pub fn resize(&mut self, new_len: usize, value: u8)
        requires
            new_len > old(self)@.len() ==> old(self).region().can_reserve(
                new_len - old(self)@.len(),
            ),
        ensures
            new_len <= old(self)@.len() ==> final(self).region() == old(self).region().truncate(
                new_len as int,
            ),
            new_len > old(self)@.len() ==> old(self).appended(
                Seq::new((new_len - old(self)@.len()) as nat, |i: int| value),
                final(self).region(),
            ),
            final(self)@ == (if new_len <= old(self)@.len() {
                old(self)@.take(new_len as int)
            } else {
                old(self)@ + Seq::new((new_len - old(self)@.len()) as nat, |i: int| value)
            }),
    {
        let len = self.len();
        if new_len > len {
            let additional = new_len - len;
            self.reserve(additional);
            self.fill_in_place(additional, value);
        } else {
            self.truncate(new_len);
        }
    }

    /// Returns a slice to the bytes in the buffer.
    pub fn as_slice(&self) -> (slice: &[u8])
        ensures
            slice@ == self@,
    {
        proof {
            use_type_invariant(self);
        }
        let (_, window) = self.mem.split_at(self.start());
        let (bytes, _) = window.split_at(self.len);
        bytes
    }

    /// Returns a mutable slice to the bytes in the buffer.
    pub fn as_mut_slice(&mut self) -> (slice: &mut [u8])
        ensures
            slice@ == old(self)@,
            final(slice)@.len() == old(self)@.len(),
            final(self).region() == (Region { bytes: final(slice)@, ..old(self).region() }),
            final(self).window() == final(slice)@ + old(self).window().skip(
                old(self)@.len() as int,
            ),
    {
        proof {
            use_type_invariant(&*self);
        }
        let start = self.start();
        let len = self.len;
        let size = self.mem.len();
        assert(start + len <= size);
        window_mut(&mut self.mem, start, start + len)
    }

    /// Returns the number of bytes that can be read.
    pub fn remaining(&self) -> (remaining: usize)
        ensures
            remaining == self@.len(),
    {
        self.len()
    }

    /// Returns the bytes that can be read.
    pub fn chunk(&self) -> (chunk: &[u8])
        ensures
            chunk@ == self@,
    {
        self.as_slice()
    }

    /// Drops the first `cnt` bytes.
    pub fn advance(&mut self, cnt: usize)
        requires
            cnt <= old(self)@.len(),
        ensures
            final(self).region() == old(self).region().advance(cnt as int),
            final(self)@ == old(self)@.skip(cnt as int),
            final(self).region().capacity == old(self).region().capacity - cnt,
            final(self).window() == old(self).window().skip(cnt as int),
    {
        if cnt == 0 {
            assert(self.window().skip(0) == self.window());
            return;
        }
        self.promote();
        proof {
            use_type_invariant(&*self);
        }
        let BytesMut { mem, len, lease } = self.take();
        if let Some(lease) = lease {
            let Lease { alloc, base, start } = *lease;
            let lease = Lease { alloc, base, start: start + cnt };
            *self = BytesMut { mem, len: len - cnt, lease: Some(Box::new(lease)) };
        }
    }

    /// Returns how many more bytes a buffer can be asked to hold.
    pub fn remaining_mut(&self) -> (remaining: usize)
        ensures
            remaining == usize::MAX - self@.len(),
    {
        usize::MAX - self.len()
    }

    /// Adds the first `cnt` bytes of the spare capacity to the buffer.
    pub fn advance_mut(&mut self, cnt: usize)
        requires
            cnt <= old(self).region().capacity - old(self)@.len(),
        ensures
            final(self).region() == (Region {
                bytes: old(self).window().take(old(self)@.len() + cnt),
                ..old(self).region()
            }),
            final(self).window() == old(self).window(),
    {
        proof {
            use_type_invariant(&*self);
        }
        let size = self.mem.len();
        assert(self.len + cnt <= size);
        self.len = self.len + cnt;
    }

    /// Returns the spare capacity, making some first if there is none.
    pub fn chunk_mut(&mut self) -> (spare: &mut [u8])
        requires
            old(self)@.len() == old(self).region().capacity ==> old(self).region().can_reserve(
                MIN_GROWTH as int,
            ),
        ensures
            spare@.len() > 0,
            final(spare)@.len() == spare@.len(),
            ({
                if old(self)@.len() == old(self).region().capacity {
                    old(self).reserved(MIN_GROWTH as int, final(self).region())
                } else {
                    final(self).region() == old(self).region()
                }
            }),
            final(self)@ == old(self)@,
            final(self).region().capacity == old(self)@.len() + spare@.len(),
            final(self).window() == old(self)@ + final(spare)@,
            old(self)@.len() < old(self).region().capacity ==> spare@ == old(self).window().skip(
                old(self)@.len() as int,
            ),
    {
        if self.capacity() == self.len() {
            self.reserve(MIN_GROWTH);
        }
        self.spare_mut()
    }

    /// Returns the spare capacity.
    fn spare_mut(&mut self) -> (spare: &mut [u8])
        ensures
            spare@ == old(self).window().skip(old(self)@.len() as int),
            final(spare)@.len() == spare@.len(),
            final(self).region() == old(self).region(),
            final(self).window() == old(self)@ + final(spare)@,
    {
        proof {
            use_type_invariant(&*self);
        }
        let size = self.mem.len();
        let from = self.start() + self.len;
        window_mut(&mut self.mem, from, size)
    }

    /// Extends the buffer with the given slice.
    pub fn put_slice(&mut self, src: &[u8])
        requires
            old(self).region().can_reserve(src@.len() as int),
        ensures
            old(self).appended(src@, final(self).region()),
            final(self)@ == old(self)@ + src@,
    {
        self.extend_from_slice(src);
    }
}

} // verus!
