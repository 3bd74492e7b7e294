//! Operations on the memory behind a buffer.

use vstd::prelude::*;
use vstd::slice::slice_subrange;

use crate::outside::{into_boxed_slice, vec_capacity, window_mut};

verus! {

/// Fresh memory of `size` bytes.
pub(crate) fn fresh(size: usize) -> (mem: Box<[u8]>)
    ensures
        mem@.len() == size,
{
    into_boxed_slice(vec![0u8; size])
}

/// Memory of `size` bytes that starts with the bytes of `mem`.
pub(crate) fn enlarged(mem: &[u8], size: usize) -> (larger: Box<[u8]>)
    requires
        mem@.len() <= size,
    ensures
        larger@.len() == size,
        larger@.take(mem@.len() as int) == mem@,
        mem@.len() == size ==> larger@ == mem@,
{
    let mut vec: Vec<u8> = Vec::with_capacity(size);
    vec.extend_from_slice(mem);
    assert(vec@ == mem@);
    vec.resize(size, 0u8);
    assert(vec@.take(mem@.len() as int) == mem@);
    into_boxed_slice(vec)
}

/// The memory `mem`, or where that is shorter than `size` bytes, memory of that
/// size that starts with the bytes of `mem`.
pub(crate) fn at_least(mem: Box<[u8]>, size: usize) -> (larger: Box<[u8]>)
    requires
        mem@.len() <= size,
    ensures
        larger@.len() == size,
        larger@.take(mem@.len() as int) == mem@,
{
    if mem.len() == size {
        mem
    } else {
        enlarged(&mem, size)
    }
}

/// Copies `src` over the bytes of `mem` from position `at` on.
pub(crate) fn write_at(mem: &mut Box<[u8]>, at: usize, src: &[u8])
    requires
        at + src@.len() <= old(mem)@.len(),
    ensures
        final(mem)@ == old(mem)@.take(at as int) + src@ + old(mem)@.skip(at + src@.len()),
{
    let size = mem.len();
    let count = src.len();
    assert(at + count <= size);
    let window = window_mut(mem, at, at + count);
    let mut i: usize = 0;
    while i < count
        invariant
            i <= count,
            count == src@.len(),
            window@.len() == count,
            forall|j: int| 0 <= j < i ==> window@[j] == src@[j],
        decreases count - i,
    {
        window[i] = src[i];
        i += 1;
    }
    assert(window@ =~= src@);
}

/// Moves the `count` bytes from position `from` on to the front of `mem`.
pub(crate) fn move_to_front(mem: &mut Box<[u8]>, from: usize, count: usize)
    requires
        from + count <= old(mem)@.len(),
    ensures
        final(mem)@.len() == old(mem)@.len(),
        final(mem)@.take(count as int) == old(mem)@.subrange(from as int, from + count),
{
    let size = mem.len();
    let ghost before = mem@;
    let window = window_mut(mem, 0, size);
    let mut i: usize = 0;
    while i < count
        invariant
            i <= count,
            from + count <= size,
            before.len() == size,
            window@.len() == size,
            forall|j: int| 0 <= j < i ==> window@[j] == before[from + j],
            forall|j: int| i <= j < size ==> window@[j] == before[j],
        decreases count - i,
    {
        window[i] = window[from + i];
        i += 1;
    }
    assert(window@.take(count as int) =~= before.subrange(from as int, from + count));
}

/// Sets the `count` bytes of `mem` from position `at` on to `value`.
pub(crate) fn fill_at(mem: &mut Box<[u8]>, at: usize, count: usize, value: u8)
    requires
        at + count <= old(mem)@.len(),
    ensures
        final(mem)@ == old(mem)@.take(at as int) + Seq::new(count as nat, |i: int| value)
            + old(mem)@.skip(at + count),
{
    let size = mem.len();
    assert(at + count <= size);
    let window = window_mut(mem, at, at + count);
    let mut i: usize = 0;
    while i < count
        invariant
            i <= count,
            window@.len() == count,
            forall|j: int| 0 <= j < i ==> window@[j] == value,
        decreases count - i,
    {
        window[i] = value;
        i += 1;
    }
    assert(window@ =~= Seq::new(count as nat, |i: int| value));
}

/// Copies the `count` bytes of `mem` from position `from` on to position `to`.
pub(crate) fn copy_within(mem: &mut Box<[u8]>, from: usize, to: usize, count: usize)
    requires
        from + count <= to,
        to + count <= old(mem)@.len(),
    ensures
        final(mem)@ == old(mem)@.take(to as int) + old(mem)@.subrange(from as int, from + count)
            + old(mem)@.skip(to + count),
{
    let size = mem.len();
    let ghost before = mem@;
    let window = window_mut(mem, 0, size);
    let mut i: usize = 0;
    while i < count
        invariant
            i <= count,
            from + count <= to,
            to + count <= size,
            before.len() == size,
            window@.len() == size,
            forall|j: int| to <= j < to + i ==> window@[j] == before[from + j - to],
            forall|j: int| 0 <= j < to ==> window@[j] == before[j],
            forall|j: int| to + i <= j < size ==> window@[j] == before[j],
        decreases count - i,
    {
        window[to + i] = window[from + i];
        i += 1;
    }
    assert(window@ =~= before.take(to as int) + before.subrange(from as int, from + count)
        + before.skip(to + count));
}

/// The memory of `vec`, filled up to `size` bytes.
pub(crate) fn stretched(vec: Vec<u8>, size: usize) -> (mem: Box<[u8]>)
    requires
        vec@.len() <= size,
    ensures
        mem@.len() == size,
        mem@.take(vec@.len() as int) == vec@,
{
    let mut filled = vec;
    filled.resize(size, 0u8);
    assert(filled@.take(vec@.len() as int) == vec@);
    into_boxed_slice(filled)
}

/// The `len` bytes of `vec` from position `start` on, in a vector with the capacity
/// for `size` bytes: that of `vec`, where it has it.
pub(crate) fn cut_out(vec: Vec<u8>, start: usize, len: usize, size: usize) -> (part: Vec<u8>)
    requires
        start + len <= vec@.len(),
    ensures
        part@ == vec@.subrange(start as int, start + len),
{
    let end = vec.len();
    assert(start + len <= end);
    if vec_capacity(&vec) < size {
        let mut part: Vec<u8> = Vec::with_capacity(size);
        part.extend_from_slice(slice_subrange(vec.as_slice(), start, start + len));
        assert(part@ =~= vec@.subrange(start as int, start + len));
        return part;
    }
    let mut part = vec;
    let mut i: usize = 0;
    while i < len
        invariant
            i <= len,
            start + len <= end,
            part@.len() == vec@.len() == end,
            forall|j: int| 0 <= j < i ==> part@[j] == vec@[start + j],
            forall|j: int| i <= j < end ==> part@[j] == vec@[j],
        decreases len - i,
    {
        part[i] = part[start + i];
        i += 1;
    }
    part.truncate(len);
    assert(part@ =~= vec@.subrange(start as int, start + len));
    part
}

} // verus!
