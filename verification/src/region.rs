//! A mathematical model of growable buffers.

use vstd::prelude::*;

verus! {

/// The smallest capacity that a growing buffer takes.
pub const MIN_GROWTH: usize = 64;

/// Where a buffer lies inside an allocation that it may share with others.
pub struct Slot {
    /// Distance of the buffer's first byte from the start of the allocation.
    pub offset: int,
    /// Number of bytes of the whole allocation.
    pub size: int,
}

/// What a growable buffer holds and where it lies.
///
/// A buffer whose `slot` is `None` has its allocation to itself, and the
/// allocation is exactly as large as the buffer's capacity.
#[verifier::ext_equal]
pub struct Region {
    /// The bytes in the buffer.
    pub bytes: Seq<u8>,
    /// How many bytes the buffer can hold before it has to grow.
    pub capacity: int,
    /// The buffer's place in a shared allocation.
    pub slot: Option<Slot>,
}

/// Where the bytes of a handle that cannot write to them lie.
pub enum Origin {
    /// In a slice that lives as long as the program.
    Static,
    /// With an owner that is kept until the last handle is gone.
    Owner,
    /// In an allocation that may be shared with other handles.
    Shared(Slot),
}

impl Origin {
    /// The origin of what lies `count` bytes further on.
    pub open spec fn advance(self, count: int) -> Origin {
        match self {
            Origin::Shared(slot) => Origin::Shared(
                Slot { offset: slot.offset + count, size: slot.size },
            ),
            other => other,
        }
    }

    /// The origin of bytes that are taken over with their allocation of `capacity`
    /// bytes; no bytes are taken over as a static slice.
    pub open spec fn taken_over(bytes: Seq<u8>, capacity: int) -> Origin {
        if bytes.len() == 0 {
            Origin::Static
        } else {
            Origin::Shared(Slot { offset: 0, size: capacity })
        }
    }

    /// Whether one of `handles` handles has the memory to itself, where its allocation
    /// is in `holders` parts. A static slice is nobody's alone, and the bytes of an
    /// owner are in no allocation.
    pub open spec fn sole(self, handles: usize, holders: usize) -> bool {
        match self {
            Origin::Static => false,
            Origin::Owner => handles == 1,
            Origin::Shared(_) => handles == 1 && holders == 1,
        }
    }

    /// Whether a handle is the only reference to the data; `sole` says whether it has
    /// the memory to itself.
    pub open spec fn unique(self, sole: bool) -> bool {
        sole && !(self is Static)
    }

    /// Whether a handle can be taken back as a buffer; `sole` says whether it has the
    /// memory to itself.
    pub open spec fn convertible(self, sole: bool) -> bool {
        sole && self is Shared
    }
}

/// The larger of two integers.
pub open spec fn larger(a: int, b: int) -> int {
    if a >= b {
        a
    } else {
        b
    }
}

impl Region {
    /// The number of bytes of the allocation.
    pub open spec fn size(self) -> int {
        match self.slot {
            Some(slot) => slot.size,
            None => self.capacity,
        }
    }

    /// Distance of the first byte from the start of the allocation.
    pub open spec fn offset(self) -> int {
        match self.slot {
            Some(slot) => slot.offset,
            None => 0,
        }
    }

    /// The bytes fit the capacity, and the capacity fits the allocation.
    pub open spec fn wf(self) -> bool {
        &&& self.bytes.len() <= self.capacity
        &&& 0 <= self.offset()
        &&& self.offset() + self.capacity <= self.size()
    }

    /// An empty buffer that has an allocation of `capacity` bytes to itself.
    pub open spec fn empty(capacity: int) -> Region {
        Region { bytes: Seq::empty(), capacity, slot: None }
    }

    /// A buffer that has an allocation just as large as its bytes to itself.
    pub open spec fn exact(bytes: Seq<u8>) -> Region {
        Region { bytes, capacity: bytes.len() as int, slot: None }
    }

    /// A buffer that took over bytes with their allocation of `capacity` bytes.
    pub open spec fn taken_over(bytes: Seq<u8>, capacity: int) -> Region {
        Region { bytes, capacity, slot: None }
    }

    /// Where the buffer lies in its allocation.
    pub open spec fn place(self) -> Slot {
        Slot { offset: self.offset(), size: self.size() }
    }

    /// The same buffer with its allocation open to sharing.
    pub open spec fn promote(self) -> Region {
        Region { slot: Some(self.place()), ..self }
    }

    /// Whether `additional` more bytes fit without growing.
    pub open spec fn fits(self, additional: int) -> bool {
        self.bytes.len() + additional <= self.capacity
    }

    /// The size of the next allocation when `additional` more bytes do not fit.
    pub open spec fn growth(self, additional: int) -> int {
        larger(larger(2 * self.size(), self.bytes.len() + additional), MIN_GROWTH as int)
    }

    /// Whether the bytes in front of a buffer that alone holds its allocation
    /// make enough room for `additional` more.
    pub open spec fn reclaimable(self, additional: int) -> bool {
        &&& self.slot is Some
        &&& self.offset() > 0
        &&& self.bytes.len() + additional <= self.size()
    }

    /// The buffer moved to the front of its allocation, with all of it as capacity.
    pub open spec fn reclaim(self) -> Region {
        Region {
            capacity: self.size(),
            slot: Some(Slot { offset: 0, size: self.size() }),
            ..self
        }
    }

    /// The buffer after it made room for `additional` more bytes; `unique` says
    /// whether nothing else holds the allocation.
    pub open spec fn reserve(self, additional: int, unique: bool) -> Region {
        if self.fits(additional) {
            self
        } else if self.slot is None || !unique {
            Region { capacity: self.growth(additional), slot: None, ..self }
        } else if self.reclaimable(additional) {
            self.reclaim()
        } else {
            let size = larger(
                self.growth(additional),
                self.offset() + self.bytes.len() + additional,
            );
            Region {
                capacity: size - self.offset(),
                slot: Some(Slot { offset: self.offset(), size }),
                ..self
            }
        }
    }

    /// Whether room for `additional` more bytes can be had: no new allocation is
    /// larger than `isize::MAX` bytes.
    pub open spec fn can_reserve_given(self, additional: int, unique: bool) -> bool {
        let size = self.reserve(additional, unique).size();
        size == self.size() || size <= isize::MAX
    }

    /// Whether room for `additional` more bytes can be had, whoever else holds the
    /// allocation.
    pub open spec fn can_reserve(self, additional: int) -> bool {
        self.can_reserve_given(additional, true) && self.can_reserve_given(additional, false)
    }

    /// Whether a buffer that tried to make room for `additional` more bytes is as
    /// `after` and has told by `reserved` whether it could.
    pub open spec fn tries_to_reserve(
        self,
        additional: int,
        unique: bool,
        reserved: bool,
        after: Region,
    ) -> bool {
        &&& reserved == self.can_reserve_given(additional, unique)
        &&& after == if reserved {
            self.reserve(additional, unique)
        } else {
            self
        }
    }

    /// The buffer with `data` behind its bytes.
    pub open spec fn append(self, data: Seq<u8>, unique: bool) -> Region {
        let room = self.reserve(data.len() as int, unique);
        Region { bytes: room.bytes + data, ..room }
    }

    /// Whether `after` is this buffer with `data` behind its bytes, whoever else
    /// holds the allocation.
    pub open spec fn appends(self, data: Seq<u8>, after: Region) -> bool {
        ||| after == self.append(data, true)
        ||| after == self.append(data, false)
    }

    /// Whether a buffer that tried to take `data` behind its bytes is as `after` and
    /// has told by `taken` whether it could.
    pub open spec fn tries_to_append(
        self,
        data: Seq<u8>,
        unique: bool,
        taken: bool,
        after: Region,
    ) -> bool {
        &&& taken == self.can_reserve_given(data.len() as int, unique)
        &&& after == if taken {
            self.append(data, unique)
        } else {
            self
        }
    }

    /// Whether room can be had for each of `count` more bytes that are put in one at a
    /// time, whatever they are and whoever else holds the allocation at each of them.
    pub open spec fn can_put(self, count: int) -> bool
        decreases count,
    {
        count <= 0 || {
            &&& self.can_reserve(1)
            &&& forall|byte: u8, unique: bool|
                (#[trigger] self.append(seq![byte], unique)).can_put(count - 1)
        }
    }

    /// Whether `count` more bytes can be put in one at a time. The bytes fit, or the
    /// sizes are far from the limit, or else each step is looked at.
    pub open spec fn can_extend(self, count: int) -> bool {
        ||| self.fits(count)
        ||| {
            &&& 2 * self.size() <= isize::MAX
            &&& 2 * (self.offset() + self.bytes.len() + count) <= isize::MAX
        }
        ||| self.can_put(count)
    }

    /// Whether `after` is this buffer after the bytes of `data` have been put in one
    /// at a time, whoever else held the allocation at each of them.
    pub open spec fn extends(self, data: Seq<u8>, after: Region) -> bool
        decreases data.len(),
    {
        if data.len() == 0 {
            after == self
        } else {
            exists|before: Region|
                {
                    &&& self.extends(data.drop_last(), before)
                    &&& #[trigger] before.appends(seq![data.last()], after)
                }
        }
    }

    /// The empty buffer for an iterator that says that it gives `lower` bytes at
    /// least: one with that capacity, or with none where no allocation is that large.
    pub open spec fn announced(lower: usize) -> Region {
        Region::empty(
            if lower <= isize::MAX {
                lower as int
            } else {
                0
            },
        )
    }

    /// The first `len` bytes, or all of them where there are no more than that.
    pub open spec fn truncate(self, len: int) -> Region {
        if len <= self.bytes.len() {
            Region { bytes: self.bytes.take(len), ..self }
        } else {
            self
        }
    }

    /// The part of the buffer in front of position `at`.
    pub open spec fn front(self, at: int) -> Region {
        Region { bytes: self.bytes.take(at), capacity: at, ..self.promote() }
    }

    /// The part of the buffer from position `at` on.
    pub open spec fn back(self, at: int) -> Region {
        Region {
            bytes: self.bytes.skip(at),
            capacity: self.capacity - at,
            slot: Some(Slot { offset: self.offset() + at, size: self.size() }),
        }
    }

    /// The buffer without its first `count` bytes.
    pub open spec fn advance(self, count: int) -> Region {
        if count == 0 {
            self
        } else {
            self.back(count)
        }
    }

    /// Whether `other` begins in the allocation where this buffer's capacity,
    /// filled to the last byte, ends.
    pub open spec fn adjoins(self, other: Region) -> bool {
        &&& self.slot is Some
        &&& other.slot is Some
        &&& self.size() == other.size()
        &&& self.bytes.len() == self.capacity
        &&& self.offset() + self.capacity == other.offset()
    }

    /// The buffer and, right behind it, one that adjoins it.
    pub open spec fn join(self, other: Region) -> Region {
        Region {
            bytes: self.bytes + other.bytes,
            capacity: self.capacity + other.capacity,
            ..self
        }
    }

    /// The buffer with the bytes of `other` behind its own; `same_alloc` says
    /// whether both hold the same allocation.
    pub open spec fn unsplit(self, other: Region, same_alloc: bool, unique: bool) -> Region {
        if self.bytes.len() == 0 {
            other
        } else if other.bytes.len() == 0 {
            self
        } else if same_alloc && self.adjoins(other) {
            self.join(other)
        } else {
            self.append(other.bytes, unique)
        }
    }

    /// Whether the bytes of `other` can be put behind those of the buffer: nothing has to
    /// grow for it, or room can be had.
    pub open spec fn can_unsplit(self, other: Region, same_alloc: bool, unique: bool) -> bool {
        ||| self.bytes.len() == 0
        ||| other.bytes.len() == 0
        ||| same_alloc && self.adjoins(other)
        ||| self.can_reserve_given(other.bytes.len() as int, unique)
    }

    /// The buffer that takes over the bytes of a handle together with the rest of
    /// their allocation.
    pub open spec fn thaw(bytes: Seq<u8>, slot: Slot) -> Region {
        Region { bytes, capacity: slot.size - slot.offset, slot: Some(slot) }
    }

    /// The buffer that takes over the bytes of a handle and no more.
    pub open spec fn of(bytes: Seq<u8>, origin: Origin) -> Region {
        match origin {
            Origin::Shared(slot) => Region { slot: Some(slot), ..Region::exact(bytes) },
            _ => Region::exact(bytes),
        }
    }
}

} // verus!
