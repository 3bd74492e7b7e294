//! What each operation of the model gives, in bytes and numbers.

use core::cmp::Ordering;
use core::fmt;
use core::hash::Hasher;
use core::ops::{Bound, Range, RangeFrom, RangeFull, RangeInclusive, RangeTo, RangeToInclusive};
use std::rc::Rc;

use vstd::prelude::*;
use vstd::std_specs::cmp::{PartialEqSpec, PartialOrdSpec};

use crate::buf::{part_at, Backing, Block, Bytes, Keeper};
use crate::buf_mut::{Alloc, BytesMut, Lease};
use crate::collect::lemma_room_at_each_step;
use crate::compare::lexicographic;
use crate::outside::{
    addresses, feeds, hands, hash_slice, hinted, located, measured, same_allocation, shown_bytes,
    shows, size_hint, strong_count, vec_capacity, write_text,
};
use crate::range::{end_position, first_position, saturated, within, ByteRange};
use crate::region::{Origin, Region, Slot, MIN_GROWTH};
use crate::text::{escaped, escaped_all, literal};

verus! {

/// A buffer without a slot begins its allocation and fills it; one with a slot lies where
/// that says. Opening the allocation to sharing writes that down and changes nothing else.
pub proof fn buffer_has_its_place(region: Region)
    ensures
        MIN_GROWTH == 64,
        region.slot is None ==> region.offset() == 0 && region.size() == region.capacity,
        region.slot matches Some(slot) ==> region.offset() == slot.offset && region.size()
            == slot.size,
        region.place().offset == region.offset(),
        region.place().size == region.size(),
        region.promote().bytes == region.bytes,
        region.promote().capacity == region.capacity,
        region.promote().slot == Some(region.place()),
        region.slot is Some ==> region.promote() == region,
{
}

/// A buffer is well-formed exactly if its bytes fit its capacity and its capacity lies
/// within its allocation.
pub proof fn buffer_fits_its_allocation(region: Region, slot: Slot)
    ensures
        region.slot is None ==> (region.wf() <==> region.bytes.len() <= region.capacity),
        region.slot == Some(slot) ==> (region.wf() <==> {
            &&& region.bytes.len() <= region.capacity
            &&& 0 <= slot.offset
            &&& slot.offset + region.capacity <= slot.size
        }),
{
}

/// What a new buffer holds, how much it can hold, and where it lies.
pub proof fn new_buffers(bytes: Seq<u8>, n: int, lower: usize, slot: Slot)
    ensures
        Region::empty(n).bytes.len() == 0,
        Region::empty(n).capacity == n,
        Region::empty(n).slot is None,
        Region::exact(bytes).bytes == bytes,
        Region::exact(bytes).capacity == bytes.len(),
        Region::exact(bytes).slot is None,
        Region::taken_over(bytes, n).bytes == bytes,
        Region::taken_over(bytes, n).capacity == n,
        Region::taken_over(bytes, n).slot is None,
        Region::announced(lower).bytes.len() == 0,
        Region::announced(lower).slot is None,
        lower <= isize::MAX ==> Region::announced(lower).capacity == lower,
        lower > isize::MAX ==> Region::announced(lower).capacity == 0,
        Region::thaw(bytes, slot).bytes == bytes,
        Region::thaw(bytes, slot).slot == Some(slot),
        slot.offset + Region::thaw(bytes, slot).capacity == slot.size,
{
}

/// A buffer made from a handle has its bytes and no spare capacity; only bytes in a
/// shared allocation keep their place.
pub proof fn buffer_made_from_handle(bytes: Seq<u8>, origin: Origin, slot: Slot)
    ensures
        Region::of(bytes, origin).bytes == bytes,
        Region::of(bytes, origin).capacity == bytes.len(),
        origin == Origin::Shared(slot) ==> Region::of(bytes, origin).slot == Some(slot),
        !(origin is Shared) ==> Region::of(bytes, origin).slot is None,
{
}

/// Bytes fit exactly if there is no more of them than spare capacity. Where they fit,
/// reserving changes nothing.
pub proof fn reserve_where_it_fits(region: Region, additional: int, unique: bool)
    ensures
        region.fits(additional) <==> additional <= region.capacity - region.bytes.len(),
        additional <= region.capacity - region.bytes.len() ==> region.reserve(additional, unique)
            == region,
{
}

/// A buffer that has its allocation to itself, or that is not the only holder of one,
/// gets a new one when it has to grow: the smallest that is twice the old one's size,
/// holds the bytes with the room asked for, and has sixty-four bytes.
pub proof fn reserve_in_a_new_allocation(region: Region, additional: int, unique: bool, other: int)
    requires
        region.slot is None || !unique,
        region.bytes.len() + additional > region.capacity,
    ensures
        ({
            let after = region.reserve(additional, unique);
            let size = match region.slot {
                Some(slot) => slot.size,
                None => region.capacity,
            };
            &&& after.bytes == region.bytes
            &&& after.slot is None
            &&& after.capacity >= 2 * size
            &&& after.capacity >= region.bytes.len() + additional
            &&& after.capacity >= 64
            &&& other >= 2 * size && other >= region.bytes.len() + additional && other >= 64
                ==> other >= after.capacity
        }),
{
}

/// The only holder of an allocation reclaims what lies in front of it where that makes
/// the room asked for.
pub proof fn reserve_by_reclaiming(region: Region, slot: Slot, additional: int)
    requires
        region.slot == Some(slot),
        region.bytes.len() + additional > region.capacity,
        slot.offset > 0,
        region.bytes.len() + additional <= slot.size,
    ensures
        ({
            let after = region.reserve(additional, true);
            &&& after.bytes == region.bytes
            &&& after.capacity == slot.size
            &&& after.slot == Some(Slot { offset: 0, size: slot.size })
        }),
{
}

/// The only holder of an allocation that cannot reclaim enough keeps its place in a larger
/// one: the smallest that is twice the old one's size, has sixty-four bytes, and holds
/// the bytes with the room asked for behind what lies in front.
pub proof fn reserve_in_a_larger_allocation(
    region: Region,
    slot: Slot,
    additional: int,
    other: int,
)
    requires
        region.slot == Some(slot),
        region.wf(),
        region.bytes.len() + additional > region.capacity,
        slot.offset <= 0 || region.bytes.len() + additional > slot.size,
    ensures
        ({
            let after = region.reserve(additional, true);
            let needed = slot.offset + region.bytes.len() + additional;
            let size = slot.offset + after.capacity;
            &&& after.bytes == region.bytes
            &&& after.slot == Some(Slot { offset: slot.offset, size })
            &&& size >= 2 * slot.size && size >= needed && size >= 64
            &&& other >= 2 * slot.size && other >= needed && other >= 64 ==> other >= size
        }),
{
}

/// Room can be had exactly if no new allocation is needed for it or the one needed has at
/// most `isize::MAX` bytes.
pub proof fn room_is_limited_by_size(region: Region, slot: Slot, additional: int)
    requires
        region.wf(),
        additional >= 0,
    ensures
        ({
            let fits = region.bytes.len() + additional <= region.capacity;
            let needed = region.bytes.len() + additional;
            &&& region.slot is None ==> forall|unique: bool|
                #![trigger region.can_reserve_given(additional, unique)]
                region.can_reserve_given(additional, unique) <==> fits || 2 * region.capacity
                    <= isize::MAX && needed <= isize::MAX
            &&& region.slot == Some(slot) ==> (region.can_reserve_given(additional, false)
                <==> fits || 2 * slot.size <= isize::MAX && needed <= isize::MAX)
            &&& region.slot == Some(slot) ==> (region.can_reserve_given(additional, true) <==> fits
                || slot.offset > 0 && needed <= slot.size || 2 * slot.size <= isize::MAX
                && slot.offset + needed <= isize::MAX)
            &&& region.can_reserve(additional) <==> region.can_reserve_given(additional, true)
                && region.can_reserve_given(additional, false)
        }),
{
}

/// A buffer can be reclaimed exactly if something lies in front of it in an allocation
/// that has room for its bytes and those asked for. It then has all of it.
pub proof fn reclaiming(region: Region, slot: Slot, additional: int)
    ensures
        region.slot is None ==> !region.reclaimable(additional),
        region.slot == Some(slot) ==> (region.reclaimable(additional) <==> slot.offset > 0
            && region.bytes.len() + additional <= slot.size),
        region.reclaim().bytes == region.bytes,
        region.slot == Some(slot) ==> region.reclaim().capacity == slot.size,
        region.slot == Some(slot) ==> region.reclaim().slot == Some(
            Slot { offset: 0, size: slot.size },
        ),
{
}

/// Appending keeps what is there, puts all of the data behind it in order, and lies and
/// holds as much as reserving room for it gives.
pub proof fn appending(region: Region, data: Seq<u8>, unique: bool, i: int)
    ensures
        ({
            let after = region.append(data, unique);
            let room = region.reserve(data.len() as int, unique);
            &&& after.bytes.len() == region.bytes.len() + data.len()
            &&& 0 <= i < region.bytes.len() ==> after.bytes[i] == region.bytes[i]
            &&& 0 <= i < data.len() ==> after.bytes[region.bytes.len() + i] == data[i]
            &&& after.capacity == room.capacity
            &&& after.slot == room.slot
        }),
        forall|after: Region| #[trigger]
            region.appends(data, after) ==> after == region.append(data, true) || after
                == region.append(data, false),
        region.appends(data, region.append(data, unique)),
{
}

/// A try for room, or to append, succeeds exactly where room can be had, and leaves the
/// buffer as it is otherwise.
pub proof fn trying(region: Region, n: int, data: Seq<u8>, unique: bool, done: bool, after: Region)
    ensures
        region.tries_to_reserve(n, unique, done, after) ==> {
            &&& done <==> region.can_reserve_given(n, unique)
            &&& done ==> after == region.reserve(n, unique)
            &&& !done ==> after == region
        },
        region.tries_to_append(data, unique, done, after) ==> {
            &&& done <==> region.can_reserve_given(data.len() as int, unique)
            &&& done ==> after == region.append(data, unique)
            &&& !done ==> after == region
        },
{
}

/// Bytes put in one at a time each go behind the last.
pub proof fn extending(region: Region, data: Seq<u8>, byte: u8, after: Region)
    ensures
        region.extends(Seq::<u8>::empty(), after) <==> after == region,
        region.extends(data.push(byte), after) <==> exists|before: Region|
            {
                &&& region.extends(data, before)
                &&& #[trigger] before.appends(seq![byte], after)
            },
{
    assert(data.push(byte).drop_last() =~= data);
    assert(data.push(byte).last() == byte);
}

/// Bytes can be put in one at a time exactly if there is room at each step; bytes that fit,
/// and bytes whose number is far from the limit, always can.
pub proof fn room_for_each(region: Region, count: int)
    requires
        region.wf(),
    ensures
        region.bytes.len() + count <= region.capacity ==> region.can_extend(count),
        2 * region.size() <= isize::MAX && 2 * (region.offset() + region.bytes.len() + count)
            <= isize::MAX ==> region.can_extend(count),
        region.can_put(count) && count > 0 ==> region.can_reserve(1),
        region.can_extend(count) <==> region.can_put(count),
{
    if region.can_extend(count) {
        lemma_room_at_each_step(region, count);
    }
}

/// Room can be had for each of some bytes exactly if it can be had for the first and,
/// whatever that is and whoever holds the allocation then, for each of the others.
pub proof fn room_for_the_first_and_the_others(region: Region, count: int)
    ensures
        count <= 0 ==> region.can_put(count),
        count > 0 ==> (region.can_put(count) <==> region.can_reserve(1) && forall|
            byte: u8,
            unique: bool,
        |
            (#[trigger] region.append(seq![byte], unique)).can_put(count - 1)),
{
}

/// Truncating keeps as many of the first bytes as asked for, or all, and the capacity.
pub proof fn truncating(region: Region, len: int, i: int)
    requires
        0 <= len,
    ensures
        ({
            let after = region.truncate(len);
            &&& len <= region.bytes.len() ==> after.bytes.len() == len
            &&& len >= region.bytes.len() ==> after.bytes.len() == region.bytes.len()
            &&& 0 <= i < after.bytes.len() ==> after.bytes[i] == region.bytes[i]
            &&& after.capacity == region.capacity
            &&& after.slot == region.slot
        }),
{
}

/// The part in front of a position has the bytes up to there, is full, and stays in its
/// place; the rest has the other bytes and all spare capacity, and lies behind it.
pub proof fn splitting(region: Region, at: int, i: int)
    requires
        0 <= at <= region.bytes.len(),
    ensures
        ({
            let (front, back) = (region.front(at), region.back(at));
            let (offset, size) = match region.slot {
                Some(slot) => (slot.offset, slot.size),
                None => (0, region.capacity),
            };
            &&& front.bytes.len() == at
            &&& 0 <= i < at ==> front.bytes[i] == region.bytes[i]
            &&& front.capacity == at
            &&& front.slot == Some(Slot { offset, size })
            &&& back.bytes.len() == region.bytes.len() - at
            &&& at <= i < region.bytes.len() ==> back.bytes[i - at] == region.bytes[i]
            &&& back.capacity == region.capacity - at
            &&& back.slot == Some(Slot { offset: offset + at, size })
        }),
{
}

/// Advancing drops the first bytes and their capacity, whatever part of an allocation the
/// buffer is, and keeps all others in order.
pub proof fn advancing(region: Region, count: int, i: int)
    requires
        0 <= count <= region.bytes.len(),
    ensures
        ({
            let after = region.advance(count);
            &&& after.bytes.len() == region.bytes.len() - count
            &&& count <= i < region.bytes.len() ==> after.bytes[i - count] == region.bytes[i]
            &&& after.capacity == region.capacity - count
            &&& count == 0 ==> after == region
            &&& count > 0 ==> match region.slot {
                Some(slot) => after.slot == Some(
                    Slot { offset: slot.offset + count, size: slot.size },
                ),
                None => after.slot == Some(Slot { offset: count, size: region.capacity }),
            }
        }),
{
}

/// A buffer adjoins another exactly if both have slots in allocations of one size, it is
/// full, and the other begins where it ends.
pub proof fn adjoining(region: Region, other: Region, slot: Slot, then: Slot)
    ensures
        region.slot is None || other.slot is None ==> !region.adjoins(other),
        region.slot == Some(slot) && other.slot == Some(then) ==> (region.adjoins(other)
            <==> slot.size == then.size && region.bytes.len() == region.capacity && slot.offset
            + region.capacity == then.offset),
{
}

/// Unsplitting with nothing gives the buffer that has something; adjoining parts of one
/// allocation are joined with the capacity of both; other bytes are appended.
pub proof fn unsplitting(region: Region, other: Region, same_alloc: bool, unique: bool)
    ensures
        ({
            let after = region.unsplit(other, same_alloc, unique);
            let joins = same_alloc && region.adjoins(other);
            let neither = region.bytes.len() > 0 && other.bytes.len() > 0;
            &&& region.bytes.len() == 0 ==> after == other
            &&& region.bytes.len() > 0 && other.bytes.len() == 0 ==> after == region
            &&& after.bytes == region.bytes + other.bytes
            &&& neither && joins ==> after.capacity == region.capacity + other.capacity
            &&& neither && joins ==> after.slot == region.slot
            &&& neither && !joins ==> after == region.append(other.bytes, unique)
            &&& region.can_unsplit(other, same_alloc, unique) <==> !neither || joins
                || region.can_reserve_given(other.bytes.len() as int, unique)
        }),
{
    assert(region.bytes.len() == 0 ==> region.bytes + other.bytes =~= other.bytes);
    assert(other.bytes.len() == 0 ==> region.bytes + other.bytes =~= region.bytes);
}

/// What lies further on in a shared allocation lies that much further from its start;
/// static bytes and those of an owner stay such.
pub proof fn further_on(slot: Slot, count: int, bytes: Seq<u8>, capacity: int)
    ensures
        Origin::Static.advance(count) == Origin::Static,
        Origin::Owner.advance(count) == Origin::Owner,
        Origin::Shared(slot).advance(count) is Shared,
        Origin::Shared(slot).advance(count)->0.offset == slot.offset + count,
        Origin::Shared(slot).advance(count)->0.size == slot.size,
        bytes.len() == 0 ==> Origin::taken_over(bytes, capacity) is Static,
        bytes.len() > 0 ==> {
            &&& Origin::taken_over(bytes, capacity) is Shared
            &&& Origin::taken_over(bytes, capacity)->0.offset == 0
            &&& Origin::taken_over(bytes, capacity)->0.size == capacity
        },
{
}

/// A handle has its memory to itself exactly if it is the only one on it and, in an
/// allocation, the only part of that. Static bytes are nobody's, and only memory of an
/// allocation can be taken back.
pub proof fn having_memory_alone(slot: Slot, handles: usize, holders: usize, sole: bool)
    ensures
        !Origin::Static.sole(handles, holders),
        Origin::Owner.sole(handles, holders) <==> handles == 1,
        Origin::Shared(slot).sole(handles, holders) <==> handles == 1 && holders == 1,
        !Origin::Static.unique(sole),
        Origin::Owner.unique(sole) == sole,
        Origin::Shared(slot).unique(sole) == sole,
        !Origin::Static.convertible(sole),
        !Origin::Owner.convertible(sole),
        Origin::Shared(slot).convertible(sole) == sole,
{
}

/// Bytes at an address are found exactly if there are none or all of them lie among the
/// given ones, and what is found are those bytes.
pub proof fn finding_by_address(
    bytes: Seq<u8>,
    addr: int,
    subset_addr: int,
    subset_len: int,
    i: int,
)
    requires
        0 <= subset_len,
    ensures
        part_at(bytes, addr, subset_addr, subset_len) is Some <==> subset_len == 0 || addr
            <= subset_addr && subset_addr + subset_len <= addr + bytes.len(),
        part_at(bytes, addr, subset_addr, subset_len) matches Some(found) ==> {
            &&& found.len() == subset_len
            &&& 0 <= i < subset_len ==> found[i] == bytes[subset_addr - addr + i]
        },
{
}

/// Each kind of range has the bounds that it is written with.
pub proof fn ranges_have_their_bounds(
    a: usize,
    b: usize,
    inclusive: RangeInclusive<usize>,
    lower: Bound<usize>,
    upper: Bound<usize>,
)
    ensures
        (Range { start: a, end: b }).usable(),
        (Range { start: a, end: b }).lower() == Bound::Included(a),
        (Range { start: a, end: b }).upper() == Bound::Excluded(b),
        (RangeFrom { start: a }).usable(),
        (RangeFrom { start: a }).lower() == Bound::Included(a),
        (RangeFrom { start: a }).upper() == Bound::<usize>::Unbounded,
        (RangeTo { end: b }).usable(),
        (RangeTo { end: b }).lower() == Bound::<usize>::Unbounded,
        (RangeTo { end: b }).upper() == Bound::Excluded(b),
        (RangeToInclusive { end: b }).usable(),
        (RangeToInclusive { end: b }).lower() == Bound::<usize>::Unbounded,
        (RangeToInclusive { end: b }).upper() == Bound::Included(b),
        RangeFull.usable(),
        RangeFull.lower() == Bound::<usize>::Unbounded,
        RangeFull.upper() == Bound::<usize>::Unbounded,
        inclusive.usable() == !inclusive@.exhausted,
        inclusive.lower() == Bound::Included(inclusive@.start),
        inclusive.upper() == Bound::Included(inclusive@.end),
        (lower, upper).usable(),
        (lower, upper).lower() == lower,
        (lower, upper).upper() == upper,
{
}

/// A position is in a range exactly if it meets both bounds.
pub proof fn positions_meet_bounds(bound: Bound<usize>, n: usize, len: int, i: int)
    ensures
        first_position(Bound::Included(n)) <= i <==> n <= i,
        first_position(Bound::Excluded(n)) <= i <==> n < i,
        first_position(Bound::Unbounded) <= i <==> 0 <= i,
        i < end_position(Bound::Included(n), len) <==> i <= n,
        i < end_position(Bound::Excluded(n), len) <==> i < n,
        i < end_position(Bound::Unbounded, len) <==> i < len,
{
}

/// A range is within a sequence exactly if its bounds can be told, it does not start
/// behind its end, and it does not end behind the last byte.
pub proof fn ranges_within<R: ByteRange>(range: R, len: int, position: int)
    ensures
        within(range, len) <==> {
            &&& range.usable()
            &&& first_position(range.lower()) <= end_position(range.upper(), len)
            &&& end_position(range.upper(), len) <= len
        },
        position <= usize::MAX ==> saturated(position) == position,
        position > usize::MAX ==> saturated(position) == usize::MAX,
{
}

/// An inclusive range, the pair of its bounds, and the range up to the next position
/// name the same bytes.
pub proof fn ways_to_write_a_range(bytes: Seq<u8>, range: RangeInclusive<usize>, next: usize)
    requires
        !range@.exhausted,
        next == range@.end + 1,
    ensures
        ({
            let len = bytes.len() as int;
            let half_open = Range { start: range@.start, end: next };
            let pair = (Bound::Included(range@.start), Bound::Included(range@.end));
            &&& first_position(range.lower()) == first_position(half_open.lower())
            &&& first_position(pair.lower()) == first_position(half_open.lower())
            &&& end_position(range.upper(), len) == end_position(half_open.upper(), len)
            &&& end_position(pair.upper(), len) == end_position(half_open.upper(), len)
            &&& first_position(half_open.lower()) == range@.start
            &&& end_position(half_open.upper(), len) == range@.end + 1
            &&& within(range, len) == within(half_open, len)
            &&& within(pair, len) == within(half_open, len)
        }),
{
}

/// Handles, buffers, slices and vectors are equal exactly if they hold the same bytes.
pub proof fn equality_is_of_bytes(
    a: Bytes,
    b: Bytes,
    x: BytesMut,
    y: BytesMut,
    slice: &[u8],
    vec: Vec<u8>,
)
    ensures
        a.eq_spec(&b) <==> a@ == b@,
        a.eq_spec(&x) <==> a@ == x@,
        a.eq_spec(slice) <==> a@ == slice@,
        a.eq_spec(&slice) <==> a@ == slice@,
        a.eq_spec(&vec) <==> a@ == vec@,
        (&slice).eq_spec(&a) <==> slice@ == a@,
        (*slice).eq_spec(&a) <==> slice@ == a@,
        vec.eq_spec(&a) <==> vec@ == a@,
        x.eq_spec(&y) <==> x@ == y@,
        x.eq_spec(&a) <==> x@ == a@,
        x.eq_spec(slice) <==> x@ == slice@,
        x.eq_spec(&slice) <==> x@ == slice@,
        x.eq_spec(&vec) <==> x@ == vec@,
        (&slice).eq_spec(&x) <==> slice@ == x@,
        (*slice).eq_spec(&x) <==> slice@ == x@,
        vec.eq_spec(&x) <==> vec@ == x@,
{
}

/// The first byte in which two sequences differ decides their order, by its number.
pub proof fn first_difference_decides(a: Seq<u8>, b: Seq<u8>, i: int)
    requires
        0 <= i < a.len(),
        i < b.len(),
        forall|j: int| 0 <= j < i ==> a[j] == b[j],
        a[i] < b[i],
    ensures
        lexicographic(a, b) == Ordering::Less,
        lexicographic(b, a) == Ordering::Greater,
    decreases i,
{
    if i > 0 {
        assert(a[0] == b[0]);
        assert forall|j: int| 0 <= j < i - 1 implies a.skip(1)[j] == b.skip(1)[j] by {
            assert(a[j + 1] == b[j + 1]);
        }
        first_difference_decides(a.skip(1), b.skip(1), i - 1);
    }
}

/// Handles are ordered as their bytes are, and any two can be compared.
pub proof fn handles_are_ordered_by_bytes(a: Bytes, b: Bytes)
    ensures
        a.partial_cmp_spec(&b) == Some(lexicographic(a@, b@)),
{
}

/// Of two handles that agree up to a position, the one with the smaller byte there comes
/// first.
pub proof fn handles_are_ordered_by_first_difference(a: Bytes, b: Bytes, i: int)
    requires
        0 <= i < a@.len(),
        i < b@.len(),
        forall|j: int| 0 <= j < i ==> a@[j] == b@[j],
        a@[i] < b@[i],
    ensures
        a.partial_cmp_spec(&b) == Some(Ordering::Less),
        b.partial_cmp_spec(&a) == Some(Ordering::Greater),
{
    first_difference_decides(a@, b@, i);
}

/// A byte appears in a literal as itself where it is printable and no quote or backslash,
/// behind a backslash where it is one of these, and otherwise as a letter for tab,
/// carriage return and line feed or as the two hexadecimal digits that it is made of.
pub proof fn escapes_stand_for_bytes(b: u8)
    ensures
        32 <= b <= 126 && b != 34 && b != 39 && b != 92 ==> escaped(b).len() == 1 && escaped(b)[0]
            as int == b,
        b == 34 || b == 39 || b == 92 ==> escaped(b).len() == 2 && escaped(b)[0] == '\\'
            && escaped(b)[1] as int == b,
        b == 9 ==> escaped(b) == seq!['\\', 't'],
        b == 10 ==> escaped(b) == seq!['\\', 'n'],
        b == 13 ==> escaped(b) == seq!['\\', 'r'],
        b < 32 && b != 9 && b != 10 && b != 13 || b > 126 ==> {
            let (high, low) = (escaped(b)[2] as int, escaped(b)[3] as int);
            let tens = if high <= 57 {
                high - 48
            } else {
                high - 87
            };
            let ones = if low <= 57 {
                low - 48
            } else {
                low - 87
            };
            &&& escaped(b).len() == 4
            &&& escaped(b)[0] == '\\'
            &&& escaped(b)[1] == 'x'
            &&& 48 <= high <= 57 || 97 <= high <= 102
            &&& 48 <= low <= 57 || 97 <= low <= 102
            &&& b == 16 * tens + ones
        },
{
}

/// A literal holds the escapes of all bytes in order, between quotes and behind a `b`.
pub proof fn literals_hold_escapes_in_order(front: Seq<u8>, b: u8, back: Seq<u8>)
    ensures
        literal(front) == seq!['b', '"'] + escaped_all(front) + seq!['"'],
        escaped_all(Seq::<u8>::empty()) == Seq::<char>::empty(),
        escaped_all(seq![b]) == escaped(b),
        escaped_all(front + back) == escaped_all(front) + escaped_all(back),
    decreases back.len(),
{
    assert(seq![b].drop_last() =~= Seq::<u8>::empty());
    assert(escaped_all(Seq::<u8>::empty()) =~= Seq::<char>::empty());
    assert(escaped_all(seq![b]) =~= escaped(b));
    if back.len() == 0 {
        assert(front + back =~= front);
        assert(escaped_all(front) + escaped_all(back) =~= escaped_all(front));
    } else {
        literals_hold_escapes_in_order(front, b, back.drop_last());
        assert((front + back).drop_last() =~= front + back.drop_last());
        assert(escaped_all(front) + escaped_all(back.drop_last()) + escaped(back.last())
            =~= escaped_all(front) + (escaped_all(back.drop_last()) + escaped(back.last())));
    }
}

/// A buffer grows as the only holder of its allocation exactly if the count has said that
/// it is; one without a slot always is.
pub proof fn growing_follows_the_count(
    buf: BytesMut,
    n: int,
    data: Seq<u8>,
    taken: bool,
    after: Region,
    sole: bool,
)
    ensures
        buf.reserved(n, after) ==> (exists|s: bool| #[trigger]
            buf.counted_sole(s) && after == buf.region().reserve(n, s)),
        buf.appended(data, after) ==> (exists|s: bool| #[trigger]
            buf.counted_sole(s) && after == buf.region().append(data, s)),
        buf.tried_to_append(data, taken, after) ==> (exists|s: bool| #[trigger]
            buf.counted_sole(s) && buf.region().tries_to_append(data, s, taken, after)),
        buf.region().slot is None && buf.counted_sole(sole) ==> sole,
        buf.reserved(n, after) ==> after.bytes == buf@,
        buf.appended(data, after) ==> after.bytes == buf@ + data,
{
}

/// Bytes put in one at a time each go behind the last, as the count says then.
pub proof fn extending_follows_the_count(
    buf: BytesMut,
    data: Seq<u8>,
    byte: u8,
    after: BytesMut,
)
    ensures
        buf.extended(Seq::<u8>::empty(), after) <==> after == buf,
        buf.extended(data.push(byte), after) <==> exists|before: BytesMut|
            {
                &&& buf.extended(data, before)
                &&& #[trigger] before.appended(seq![byte], after.region())
            },
{
    assert(data.push(byte).drop_last() =~= data);
    assert(data.push(byte).last() == byte);
}

/// The count that decides for a handle is that of the handles on its very block and, in
/// an allocation, that of the parts of its very allocation.
pub(crate) proof fn handle_counts_its_own_memory(
    bytes: Bytes,
    block: Rc<Block>,
    alloc: Rc<Alloc>,
    base: usize,
    sole: bool,
)
    requires
        bytes.counted_sole(sole),
    ensures
        bytes.origin() is Static ==> !sole,
        bytes.backing == Backing::Counted(block) ==> exists|handles: usize|
            {
                &&& #[trigger] call_ensures(strong_count::<Block>, (&block,), handles)
                &&& sole ==> handles == 1
            },
        bytes.backing == Backing::Counted(block) && block.keeper is Owner ==> exists|handles: usize|
            {
                &&& #[trigger] call_ensures(strong_count::<Block>, (&block,), handles)
                &&& sole <==> handles == 1
            },
        bytes.backing == Backing::Counted(block) && block.keeper == (Keeper::Alloc { alloc, base })
            ==> exists|handles: usize, holders: usize|
            {
                &&& #[trigger] call_ensures(strong_count::<Block>, (&block,), handles)
                &&& #[trigger] call_ensures(strong_count::<Alloc>, (&alloc,), holders)
                &&& sole <==> handles == 1 && holders == 1
            },
{
}

/// The count that decides for a buffer with a slot is that of the parts of its very
/// allocation, and two buffers are told apart by their very allocations.
pub(crate) proof fn buffer_counts_its_own_memory(
    buf: BytesMut,
    lease: Box<Lease>,
    other: BytesMut,
    others: Box<Lease>,
    answer: bool,
)
    requires
        buf.lease == Some(lease),
    ensures
        buf.counted_sole(answer) ==> exists|holders: usize|
            {
                &&& #[trigger] call_ensures(strong_count::<Alloc>, (&lease.alloc,), holders)
                &&& answer <==> holders == 1
            },
        other.lease is None && buf.identified_alloc(other, answer) ==> !answer,
        other.lease == Some(others) && buf.identified_alloc(other, answer) ==> call_ensures(
            same_allocation::<Alloc>,
            (&lease.alloc, &others.alloc),
            answer,
        ),
{
}

/// A handle lies in the memory of another exactly if both have one backing, at the
/// distance of their positions in it; it is kept by what its block is kept by, and a
/// handle is another one exactly if it is marked so.
pub(crate) proof fn handles_lie_in_backings(a: Bytes, b: Bytes, at: int, keeper: Keeper)
    ensures
        a.shares(b) <==> a.backing == b.backing,
        a.lies_in(b, at) <==> a.backing == b.backing && a.start == b.start + at,
        a.backing is Static ==> !a.kept(keeper),
        a.backing matches Backing::Counted(block) ==> (a.kept(keeper) <==> block.keeper == keeper),
        a.is_another(b) <==> a.mark@ != b.mark@,
{
}

/// What is handed to a call, or asked of it, is handed to or asked of just that call.
pub(crate) proof fn answers_come_from_calls<V: AsRef<[u8]>, H: Hasher, I: Iterator>(
    handle: Bytes,
    sole: bool,
    bytes: Seq<u8>,
    inner: &[u8],
    addrs: (usize, usize),
    owner: V,
    vec: Vec<u8>,
    n: usize,
    iter: I,
)
    ensures
        handle.asked(sole) ==> call_ensures(Bytes::sole_holder, (&handle,), sole),
        located(bytes, inner, addrs) ==> exists|outer: &[u8]|
            outer@ == bytes && #[trigger] call_ensures(addresses, (outer, inner), addrs),
        shows(owner, bytes) ==> exists|shown: &[u8]|
            shown@ == bytes && #[trigger] call_ensures(shown_bytes::<V>, (&owner,), shown),
        measured(vec, n) ==> call_ensures(vec_capacity, (&vec,), n),
        hinted(iter, n) ==> call_ensures(size_hint::<I>, (&iter,), n),
        forall|slice: &[u8], state: &mut H| #[trigger]
            feeds(slice, state) ==> call_ensures(hash_slice::<H>, (slice, state), ()),
        forall|sink: &mut fmt::Formatter<'_>, text: &str, result: fmt::Result| #[trigger]
            hands(sink, text, result) ==> call_ensures(write_text, (sink, text), result),
{
}

} // verus!
