//! The functions of the standard library whose contracts are taken on trust.

use core::fmt;
use core::hash::{Hash, Hasher};
use core::ops::RangeInclusive;
use std::rc::Rc;

use vstd::prelude::*;

verus! {

/// `Rc::strong_count`: how many handles hold the value behind `rc`.
///
/// The caller's own handle is one of them, so the count is at least one. What it
/// is beyond that depends on which other handles are alive.
#[verifier::external_body]
pub(crate) fn strong_count<V>(rc: &Rc<V>) -> (count: usize)
    ensures
        count >= 1,
    no_unwind
{
    Rc::strong_count(rc)
}

/// `Vec::into_boxed_slice`: the elements of `vec`, in order, without spare capacity.
#[verifier::external_body]
pub(crate) fn into_boxed_slice(vec: Vec<u8>) -> (boxed: Box<[u8]>)
    ensures
        boxed@ == vec@,
{
    vec.into_boxed_slice()
}

/// `IndexMut` with a range on a byte slice: mutable access to the bytes from
/// `start` up to `end`.
///
/// What is written through the result shows in `mem` at those positions and
/// nowhere else, and a slice keeps its length.
#[verifier::external_body]
pub(crate) fn window_mut(mem: &mut Box<[u8]>, start: usize, end: usize) -> (window: &mut [u8])
    requires
        start <= end <= old(mem)@.len(),
    ensures
        window@ == old(mem)@.subrange(start as int, end as int),
        final(window)@.len() == end - start,
        final(mem)@ == old(mem)@.take(start as int) + final(window)@ + old(mem)@.skip(end as int),
    no_unwind
{
    &mut mem[start..end]
}

/// `Rc::ptr_eq`: whether both handles hold the same value in the same place.
///
/// If so, the two values are equal; equal values may still lie in two places.
#[verifier::external_body]
pub(crate) fn same_allocation<V>(a: &Rc<V>, b: &Rc<V>) -> (same: bool)
    ensures
        same ==> *a == *b,
{
    Rc::ptr_eq(a, b)
}

/// `RangeInclusive::start`: the first position of a range that has not been
/// iterated to its end.
#[verifier::external_body]
pub(crate) fn inclusive_start(range: &RangeInclusive<usize>) -> (start: usize)
    ensures
        !range@.exhausted ==> start == range@.start,
{
    *range.start()
}

/// `RangeInclusive::end`: the last position of a range that has not been iterated
/// to its end.
#[verifier::external_body]
pub(crate) fn inclusive_end(range: &RangeInclusive<usize>) -> (end: usize)
    ensures
        !range@.exhausted ==> end == range@.end,
{
    *range.end()
}

/// The bound of a range.
#[verifier::external_type_specification]
pub struct ExBound<V>(core::ops::Bound<V>);

/// The range `start..`.
#[verifier::external_type_specification]
pub struct ExRangeFrom<V>(core::ops::RangeFrom<V>);

/// The range `..end`.
#[verifier::external_type_specification]
pub struct ExRangeTo<V>(core::ops::RangeTo<V>);

/// The range `..=end`.
#[verifier::external_type_specification]
pub struct ExRangeToInclusive<V>(core::ops::RangeToInclusive<V>);

/// The range `..`.
#[verifier::external_type_specification]
pub struct ExRangeFull(core::ops::RangeFull);

/// `<[u8]>::as_ptr`, on two slices: the addresses at which they begin.
///
/// The byte at index `i` of a slice lies `i` bytes behind its address, and no slice
/// wraps around the address space. So a slice that lies in the address range of
/// another holds the same bytes as that part of the other. The addresses themselves
/// differ from run to run.
#[verifier::external_body]
pub(crate) fn addresses(outer: &[u8], inner: &[u8]) -> (addrs: (usize, usize))
    ensures
        addrs.0 + outer@.len() <= usize::MAX,
        addrs.1 + inner@.len() <= usize::MAX,
        addrs.0 <= addrs.1 && addrs.1 + inner@.len() <= addrs.0 + outer@.len() ==> inner@
            == outer@.subrange(addrs.1 - addrs.0, addrs.1 - addrs.0 + inner@.len()),
{
    (outer.as_ptr() as usize, inner.as_ptr() as usize)
}

/// Whether `addrs` may be what `addresses` says of a slice with the given bytes and of
/// `inner`.
pub open(crate) spec fn located(bytes: Seq<u8>, inner: &[u8], addrs: (usize, usize)) -> bool {
    exists|outer: &[u8]|
        {
            &&& outer@ == bytes
            &&& #[trigger] call_ensures(addresses, (outer, inner), addrs)
        }
}

/// `AsRef::as_ref`: the bytes that `owner` shows.
///
/// What they are is up to the owner's own implementation.
#[verifier::external_body]
pub(crate) fn shown_bytes<V: AsRef<[u8]>>(owner: &V) -> (bytes: &[u8]) {
    owner.as_ref()
}

/// Whether `bytes` may be what `owner` shows.
pub open(crate) spec fn shows<V: AsRef<[u8]>>(owner: V, bytes: Seq<u8>) -> bool {
    exists|shown: &[u8]|
        {
            &&& #[trigger] call_ensures(shown_bytes::<V>, (&owner,), shown)
            &&& shown@ == bytes
        }
}

/// `Vec::capacity`: how many bytes `vec` can hold without reallocating.
///
/// That is never less than it holds, and no vector has an allocation of more than
/// `isize::MAX` bytes; how much it is beyond that is up to the allocator.
#[verifier::external_body]
pub(crate) fn vec_capacity(vec: &Vec<u8>) -> (capacity: usize)
    ensures
        vec@.len() <= capacity <= isize::MAX,
{
    vec.capacity()
}

/// Whether `capacity` may be what `vec_capacity` says of `vec`.
pub open(crate) spec fn measured(vec: Vec<u8>, capacity: usize) -> bool {
    call_ensures(vec_capacity, (&vec,), capacity)
}

/// `String::into_bytes`: the UTF-8 encoding of the text.
pub assume_specification[ std::string::String::into_bytes ](text: std::string::String) -> (bytes:
    std::vec::Vec<u8>)
    ensures
        bytes@ == vstd::utf8::encode_utf8(text@),
;

/// `<[u8] as Hash>::hash`: feeds the bytes of `slice` to the hasher.
///
/// What the hasher makes of them is up to its own implementation.
#[verifier::external_body]
pub(crate) fn hash_slice<H: Hasher>(slice: &[u8], state: &mut H) {
    slice.hash(state)
}

/// Whether `hash_slice` may do to the hasher behind `state` what is done to it.
pub open(crate) spec fn feeds<H: Hasher>(slice: &[u8], state: &mut H) -> bool {
    call_ensures(hash_slice::<H>, (slice, state), ())
}

/// `String::push`: puts a character behind the text.
pub assume_specification[ std::string::String::push ](text: &mut std::string::String, c: char)
    ensures
        final(text)@ == old(text)@.push(c),
;

/// The sink of a formatting call.
#[verifier::external_type_specification]
#[verifier::external_body]
pub struct ExFormatter<'a>(core::fmt::Formatter<'a>);

/// The error of a formatting call.
#[verifier::external_type_specification]
pub struct ExFmtError(core::fmt::Error);

/// `Formatter::write_str`: hands the text to the sink.
///
/// Whether the sink takes it is up to the sink.
#[verifier::external_body]
pub(crate) fn write_text(f: &mut fmt::Formatter<'_>, text: &str) -> (result: fmt::Result) {
    f.write_str(text)
}

/// Whether `write_text` may do to the formatter what is done to it, and return
/// `result`.
pub open(crate) spec fn hands(f: &mut fmt::Formatter<'_>, text: &str, result: fmt::Result) -> bool {
    call_ensures(write_text, (f, text), result)
}

/// `Iterator::size_hint`: how many items the iterator says that it has at least.
///
/// Nothing holds an iterator to what it says.
#[verifier::external_body]
pub(crate) fn size_hint<I: Iterator>(iter: &I) -> (lower: usize) {
    iter.size_hint().0
}

/// Whether `lower` may be what `size_hint` says of `iter`.
pub open(crate) spec fn hinted<I: Iterator>(iter: I, lower: usize) -> bool {
    call_ensures(size_hint::<I>, (&iter,), lower)
}

} // verus!
