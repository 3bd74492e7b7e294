//! What holds of the operations taken together.

use core::cmp::Ordering;

use vstd::prelude::*;

use crate::buf::{part_at, Bytes, Keeper};
use crate::compare::lexicographic;
use crate::region::{larger, Origin, Region, MIN_GROWTH};
use crate::text::{escaped, escaped_all, literal};

verus! {

/// Whatever is done to a well-formed buffer, the outcome is well-formed.
pub proof fn operations_keep_wf(region: Region, n: int, unique: bool, data: Seq<u8>)
    requires
        region.wf(),
        n >= 0,
    ensures
        region.promote().wf(),
        region.reclaim().wf(),
        region.reserve(n, unique).wf(),
        region.append(data, unique).wf(),
        region.truncate(n).wf(),
        n <= region.bytes.len() ==> region.front(n).wf(),
        n <= region.bytes.len() ==> region.back(n).wf(),
        n <= region.bytes.len() ==> region.advance(n).wf(),
{
}

/// Putting two well-formed buffers back together gives a well-formed one.
pub proof fn unsplit_keeps_wf(region: Region, other: Region, same_alloc: bool, unique: bool)
    requires
        region.wf(),
        other.wf(),
    ensures
        region.unsplit(other, same_alloc, unique).wf(),
{
    operations_keep_wf(region, 0, unique, other.bytes);
}

/// Reserving makes the room that was asked for, keeps the bytes, takes no capacity
/// away and changes nothing where the room was there.
pub proof fn reserve_makes_room(region: Region, additional: int, unique: bool)
    requires
        region.wf(),
        additional >= 0,
    ensures
        region.reserve(additional, unique).fits(additional),
        region.reserve(additional, unique).bytes == region.bytes,
        region.reserve(additional, unique).capacity >= region.capacity,
        region.fits(additional) ==> region.reserve(additional, unique) == region,
{
}

/// Reserving the same room once more, or less, changes nothing.
pub proof fn reserve_is_idempotent(
    region: Region,
    additional: int,
    less: int,
    unique: bool,
    then_unique: bool,
)
    requires
        region.wf(),
        0 <= less <= additional,
    ensures
        region.reserve(additional, unique).reserve(less, then_unique) == region.reserve(
            additional,
            unique,
        ),
{
}

/// A new allocation is at least twice as large as the old one and never smaller
/// than the smallest one that a growing buffer takes.
pub proof fn growth_at_least_doubles(region: Region, additional: int, unique: bool)
    requires
        region.wf(),
        additional >= 0,
    ensures
        ({
            let size = region.reserve(additional, unique).size();
            size == region.size() || size >= larger(2 * region.size(), MIN_GROWTH as int)
        }),
{
}

/// Where room can be had, less room can be had too.
pub proof fn less_room_can_be_had(region: Region, additional: int, less: int)
    requires
        region.wf(),
        0 <= less <= additional,
        region.can_reserve(additional),
    ensures
        region.can_reserve(less),
{
}

/// Appending puts the bytes behind those that are there, whoever else holds the
/// allocation, and appending twice puts in the same bytes as appending both at once.
pub proof fn append_twice(
    region: Region,
    first: Seq<u8>,
    second: Seq<u8>,
    unique: bool,
    then_unique: bool,
)
    ensures
        region.append(first, unique).bytes == region.bytes + first,
        region.append(first, unique).append(second, then_unique).bytes == region.bytes + (first
            + second),
{
    assert(region.bytes + first + second =~= region.bytes + (first + second));
}

/// Bytes put in one at a time end up as if they had been appended at once.
pub proof fn extend_appends(region: Region, data: Seq<u8>, after: Region)
    requires
        region.wf(),
        region.extends(data, after),
    ensures
        after.bytes == region.bytes + data,
        after.wf(),
    decreases data.len(),
{
    if data.len() == 0 {
        assert(region.bytes + data =~= region.bytes);
    } else {
        let before = choose|before: Region|
            {
                &&& region.extends(data.drop_last(), before)
                &&& #[trigger] before.appends(seq![data.last()], after)
            };
        extend_appends(region, data.drop_last(), before);
        assert(region.bytes + data.drop_last() + seq![data.last()] =~= region.bytes + data);
    }
}

/// The two parts of a split buffer hold all its bytes in order, share its capacity
/// and lie side by side in its allocation.
pub proof fn split_partitions(region: Region, at: int)
    requires
        region.wf(),
        0 <= at <= region.bytes.len(),
    ensures
        region.front(at).bytes + region.back(at).bytes == region.bytes,
        region.front(at).capacity + region.back(at).capacity == region.capacity,
        region.front(at).size() == region.size(),
        region.back(at).size() == region.size(),
        region.front(at).offset() == region.offset(),
        region.front(at).adjoins(region.back(at)),
{
    assert(region.bytes.take(at) + region.bytes.skip(at) =~= region.bytes);
}

/// Unsplitting undoes a split: the bytes are those from before, whoever holds the two
/// allocations.
pub proof fn unsplit_restores_bytes(region: Region, at: int, same_alloc: bool, unique: bool)
    requires
        region.wf(),
        0 <= at <= region.bytes.len(),
    ensures
        region.front(at).unsplit(region.back(at), same_alloc, unique).bytes == region.bytes,
{
    split_partitions(region, at);
    assert(region.bytes.take(0) + region.bytes =~= region.bytes);
    assert(region.bytes.skip(0) =~= region.bytes);
    assert(region.bytes.take(region.bytes.len() as int) =~= region.bytes);
}

/// Unsplitting parts of the same allocation undoes a split in front of the last
/// byte altogether, capacity and place included.
pub proof fn unsplit_restores_buffer(region: Region, at: int, unique: bool)
    requires
        region.wf(),
        0 <= at < region.bytes.len(),
    ensures
        region.front(at).unsplit(region.back(at), true, unique) == region.promote(),
{
    split_partitions(region, at);
    assert(region.bytes.skip(0) =~= region.bytes);
}

/// A buffer split in three is whole again when the parts of the same allocation are
/// put together from the front.
pub proof fn unsplit_restores_three(region: Region, at: int, then_at: int, unique: bool)
    requires
        region.wf(),
        0 < at < then_at < region.bytes.len(),
    ensures
        ({
            let first = region.front(at);
            let second = region.back(at).front(then_at - at);
            let third = region.back(at).back(then_at - at);
            first.unsplit(second, true, unique).unsplit(third, true, unique) == region.promote()
        }),
{
    let rest = region.back(at);
    assert(region.bytes.take(at) + rest.bytes.take(then_at - at) + rest.bytes.skip(then_at - at)
        =~= region.bytes);
}

/// Splitting off all bytes leaves the spare capacity and no bytes.
pub proof fn split_leaves_spare_capacity(region: Region)
    requires
        region.wf(),
    ensures
        region.front(region.bytes.len() as int).bytes == region.bytes,
        region.back(region.bytes.len() as int).bytes == Seq::<u8>::empty(),
        region.back(region.bytes.len() as int).capacity == region.capacity - region.bytes.len(),
{
    assert(region.bytes.take(region.bytes.len() as int) =~= region.bytes);
}

/// Advancing twice is advancing by the sum.
pub proof fn advance_adds_up(region: Region, first: int, second: int)
    requires
        0 <= first,
        0 <= second,
        first + second <= region.bytes.len(),
    ensures
        region.advance(first).advance(second) == region.advance(first + second),
{
    assert(region.bytes.skip(first).skip(second) =~= region.bytes.skip(first + second));
}

/// Reclaiming keeps the bytes, makes no new allocation, and gives back the capacity
/// that advancing a buffer with its allocation to itself has cost.
pub proof fn reclaim_undoes_advance(region: Region, count: int)
    requires
        region.wf(),
        region.slot is None,
        0 < count <= region.bytes.len(),
    ensures
        region.advance(count).reclaimable(count),
        region.advance(count).reclaim().bytes == region.bytes.skip(count),
        region.advance(count).reclaim().size() == region.size(),
        region.advance(count).reclaim().capacity == region.capacity,
{
}

/// Reserving reclaims, and makes no new allocation, wherever a buffer that alone
/// holds its allocation can reclaim and the room is not there.
pub proof fn reserve_reclaims_first(region: Region, additional: int)
    requires
        region.reclaimable(additional),
        !region.fits(additional),
    ensures
        region.reserve(additional, true) == region.reclaim(),
        region.reserve(additional, true).size() == region.size(),
{
}

/// Truncating twice is truncating to the shorter length.
pub proof fn truncate_to_shorter(region: Region, first: int, second: int)
    requires
        0 <= first,
        0 <= second,
    ensures
        region.truncate(first).truncate(second) == region.truncate(
            if first <= second {
                first
            } else {
                second
            },
        ),
{
    if second <= first <= region.bytes.len() {
        assert(region.bytes.take(first).take(second) =~= region.bytes.take(second));
    }
    if first <= second && first <= region.bytes.len() {
        assert(region.bytes.take(first).take(first) =~= region.bytes.take(first));
    }
}

/// Truncating takes back what has been appended; the capacity stays.
pub proof fn truncate_undoes_append(region: Region, data: Seq<u8>, unique: bool)
    ensures
        region.append(data, unique).truncate(region.bytes.len() as int).bytes == region.bytes,
        region.append(data, unique).truncate(region.bytes.len() as int).capacity == region.append(
            data,
            unique,
        ).capacity,
{
    assert((region.bytes + data).take(region.bytes.len() as int) =~= region.bytes);
}

/// What is written to the spare capacity and then added to the buffer has been
/// appended.
pub proof fn written_spare_is_appended(bytes: Seq<u8>, spare: Seq<u8>, count: int)
    requires
        0 <= count <= spare.len(),
    ensures
        (bytes + spare).take(bytes.len() + count) == bytes + spare.take(count),
{
}

/// Taking a frozen buffer back gives the same bytes at the same place, with at least
/// the same capacity; a buffer that reached to the end of its allocation comes back
/// as it was.
pub proof fn thaw_undoes_freeze(region: Region)
    requires
        region.wf(),
    ensures
        Region::thaw(region.bytes, region.place()).wf(),
        Region::thaw(region.bytes, region.place()).bytes == region.bytes,
        Region::thaw(region.bytes, region.place()).slot == region.promote().slot,
        Region::thaw(region.bytes, region.place()).capacity >= region.capacity,
        region.offset() + region.capacity == region.size() ==> Region::thaw(
            region.bytes,
            region.place(),
        ) == region.promote(),
{
}

/// A buffer made from a frozen one has the same bytes at the same place, and no
/// spare capacity.
pub proof fn conversion_drops_spare_capacity(region: Region)
    requires
        region.wf(),
    ensures
        ({
            let made = Region::of(region.bytes, Origin::Shared(region.place()));
            &&& made.wf()
            &&& made.bytes == region.bytes
            &&& made.slot == region.promote().slot
            &&& made.capacity == region.bytes.len()
        }),
{
}

/// On one and the same count, a handle that is not on the bytes of an owner can be taken
/// back as a buffer exactly if it is unique.
pub proof fn conversion_agrees_with_uniqueness(origin: Origin, sole: bool)
    requires
        !(origin is Owner),
    ensures
        origin.convertible(sole) == origin.unique(sole),
{
}

/// A handle is unique on the counts exactly if it is alone: a second handle, or a second
/// part of its allocation, makes it not unique.
pub proof fn unique_means_alone(origin: Origin, handles: usize, holders: usize)
    ensures
        origin.unique(origin.sole(handles, holders)) ==> handles == 1,
        origin.unique(origin.sole(handles, holders)) && origin is Shared ==> holders == 1,
        handles == 1 && holders == 1 && !(origin is Static) ==> origin.unique(
            origin.sole(handles, holders),
        ),
{
}

/// Handles on the same memory keep the same owner.
pub proof fn shared_memory_has_one_keeper(a: Bytes, b: Bytes, keeper: Keeper)
    requires
        a.shares(b),
    ensures
        a.kept(keeper) == b.kept(keeper),
{
}

/// A part of a part lies in the memory of the whole, as far behind as both together.
pub proof fn part_of_part_lies_in_whole(whole: Bytes, part: Bytes, at: int, inner: Bytes, then_at: int)
    requires
        part.lies_in(whole, at),
        inner.lies_in(part, then_at),
    ensures
        inner.lies_in(whole, at + then_at),
{
}

/// A slice of a slice is a slice of the whole, at the same place.
pub proof fn slice_of_slice(bytes: Seq<u8>, origin: Origin, start: int, end: int, from: int, to: int)
    requires
        0 <= start <= end <= bytes.len(),
        0 <= from <= to <= end - start,
    ensures
        bytes.subrange(start, end).subrange(from, to) == bytes.subrange(start + from, start + to),
        origin.advance(start).advance(from) == origin.advance(start + from),
{
}

/// By its address, a part of a handle's own bytes is always found, and it is the slice
/// at its position; no bytes are found wherever they lie.
pub proof fn own_part_is_found(bytes: Seq<u8>, addr: int, from: int, to: int, elsewhere: int)
    requires
        0 <= from <= to <= bytes.len(),
    ensures
        part_at(bytes, addr, addr + from, to - from) == Some(bytes.subrange(from, to)),
        part_at(bytes, addr, elsewhere, 0) == Some(Seq::<u8>::empty()),
{
    assert(bytes.subrange(from, from) =~= Seq::empty());
}

/// The parts of a split handle are the whole when put together, and a handle on the
/// whole finds each of them at its place.
pub proof fn handle_parts(bytes: Seq<u8>, at: int)
    requires
        0 <= at <= bytes.len(),
    ensures
        bytes.take(at) + bytes.skip(at) == bytes,
        bytes.take(at) == bytes.subrange(0, at),
        bytes.skip(at) == bytes.subrange(at, bytes.len() as int),
{
}

/// Two sequences compare as equal exactly if they are equal.
pub proof fn order_agrees_with_equality(a: Seq<u8>, b: Seq<u8>)
    ensures
        lexicographic(a, b) == Ordering::Equal <==> a == b,
    decreases a.len(),
{
    if a.len() > 0 && b.len() > 0 && a[0] == b[0] {
        order_agrees_with_equality(a.skip(1), b.skip(1));
        assert(a =~= seq![a[0]] + a.skip(1));
        assert(b =~= seq![b[0]] + b.skip(1));
    } else if a.len() == 0 && b.len() == 0 {
        assert(a =~= b);
    }
}

/// Comparing the other way round gives the opposite.
pub proof fn order_is_antisymmetric(a: Seq<u8>, b: Seq<u8>)
    ensures
        lexicographic(a, b) == Ordering::Less <==> lexicographic(b, a) == Ordering::Greater,
        lexicographic(a, b) == Ordering::Equal <==> lexicographic(b, a) == Ordering::Equal,
    decreases a.len(),
{
    if a.len() > 0 && b.len() > 0 && a[0] == b[0] {
        order_is_antisymmetric(a.skip(1), b.skip(1));
    }
}

/// What comes before something comes before all that comes after it.
pub proof fn order_is_transitive(a: Seq<u8>, b: Seq<u8>, c: Seq<u8>)
    requires
        lexicographic(a, b) == Ordering::Less,
        lexicographic(b, c) == Ordering::Less,
    ensures
        lexicographic(a, c) == Ordering::Less,
    decreases a.len(),
{
    if a.len() > 0 && b.len() > 0 && c.len() > 0 && a[0] == b[0] && b[0] == c[0] {
        order_is_transitive(a.skip(1), b.skip(1), c.skip(1));
    }
}

/// A sequence comes before every longer one that starts with it.
pub proof fn prefix_comes_first(a: Seq<u8>, tail: Seq<u8>)
    requires
        tail.len() > 0,
    ensures
        lexicographic(a, a + tail) == Ordering::Less,
    decreases a.len(),
{
    if a.len() > 0 {
        assert((a + tail).skip(1) =~= a.skip(1) + tail);
        prefix_comes_first(a.skip(1), tail);
    }
}

/// Byte string literals are made of printable ASCII characters.
pub proof fn literal_is_printable(bytes: Seq<u8>)
    ensures
        forall|i: int|
            0 <= i < literal(bytes).len() ==> ' ' <= #[trigger] literal(bytes)[i] <= '~',
{
    escapes_are_printable(bytes);
}

/// The escapes of bytes are made of printable ASCII characters.
proof fn escapes_are_printable(bytes: Seq<u8>)
    ensures
        forall|i: int|
            0 <= i < escaped_all(bytes).len() ==> ' ' <= #[trigger] escaped_all(bytes)[i] <= '~',
    decreases bytes.len(),
{
    if bytes.len() > 0 {
        escapes_are_printable(bytes.drop_last());
        let front = escaped_all(bytes.drop_last());
        let last = escaped(bytes.last());
        assert forall|i: int| 0 <= i < escaped_all(bytes).len() implies ' '
            <= #[trigger] escaped_all(bytes)[i] <= '~' by {
            if i >= front.len() {
                assert(escaped_all(bytes)[i] == last[i - front.len()]);
            } else {
                assert(escaped_all(bytes)[i] == front[i]);
            }
        }
    }
}

/// Different sequences of bytes have different byte string literals.
pub proof fn literal_is_injective(a: Seq<u8>, b: Seq<u8>)
    requires
        literal(a) == literal(b),
    ensures
        a == b,
{
    let (x, y) = (escaped_all(a), escaped_all(b));
    assert(literal(a).len() == x.len() + 3);
    assert(literal(b).len() == y.len() + 3);
    assert(x =~= literal(a).subrange(2, x.len() as int + 2));
    assert(y =~= literal(b).subrange(2, y.len() as int + 2));
    escapes_are_injective(a, b);
}

/// The escapes of bytes start with the escape of the first one.
proof fn escapes_from_front(bytes: Seq<u8>)
    requires
        bytes.len() > 0,
    ensures
        escaped_all(bytes) == escaped(bytes[0]) + escaped_all(bytes.skip(1)),
    decreases bytes.len(),
{
    if bytes.len() == 1 {
        assert(bytes.drop_last() =~= Seq::empty());
        assert(bytes.skip(1) =~= Seq::empty());
    } else {
        escapes_from_front(bytes.drop_last());
        assert(bytes.drop_last().skip(1) =~= bytes.skip(1).drop_last());
        assert(escaped(bytes[0]) + escaped_all(bytes.skip(1).drop_last()) + escaped(bytes.last())
            =~= escaped(bytes[0]) + (escaped_all(bytes.skip(1).drop_last()) + escaped(
            bytes.last(),
        )));
    }
}

/// The escape at the front of a text tells which byte it stands for.
proof fn escape_is_prefix_free(a: u8, b: u8, x: Seq<char>, y: Seq<char>)
    requires
        escaped(a) + x == escaped(b) + y,
    ensures
        a == b,
        x == y,
{
    let s = escaped(a) + x;
    assert(s[0] == escaped(a)[0] && s[0] == escaped(b)[0]);
    if escaped(a).len() > 1 && escaped(b).len() > 1 {
        assert(s[1] == escaped(a)[1] && s[1] == escaped(b)[1]);
        if escaped(a).len() > 2 && escaped(b).len() > 2 {
            assert(s[2] == escaped(a)[2] && s[2] == escaped(b)[2]);
            assert(s[3] == escaped(a)[3] && s[3] == escaped(b)[3]);
            assert(a / 16 == b / 16 && a % 16 == b % 16);
        }
    }
    assert(a == b);
    assert(x =~= s.skip(escaped(a).len() as int));
    assert(y =~= s.skip(escaped(b).len() as int));
}

/// Different sequences of bytes have different escapes.
proof fn escapes_are_injective(a: Seq<u8>, b: Seq<u8>)
    requires
        escaped_all(a) == escaped_all(b),
    ensures
        a == b,
    decreases a.len(),
{
    if a.len() > 0 {
        escapes_from_front(a);
        assert(escaped_all(a).len() >= escaped(a[0]).len() >= 1);
    }
    if b.len() > 0 {
        escapes_from_front(b);
        assert(escaped_all(b).len() >= escaped(b[0]).len() >= 1);
    }
    if a.len() > 0 && b.len() > 0 {
        escape_is_prefix_free(a[0], b[0], escaped_all(a.skip(1)), escaped_all(b.skip(1)));
        escapes_are_injective(a.skip(1), b.skip(1));
        assert(a =~= seq![a[0]] + a.skip(1));
        assert(b =~= seq![b[0]] + b.skip(1));
    } else {
        assert(a =~= b);
    }
}

} // verus!
