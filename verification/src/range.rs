//! The ranges by which parts of a buffer are named.

use core::ops::{Bound, Range, RangeFrom, RangeFull, RangeInclusive, RangeTo, RangeToInclusive};

use vstd::prelude::*;

use crate::outside::{inclusive_end, inclusive_start};

verus! {

/// A range of positions in a sequence of bytes.
pub trait ByteRange {
    /// Whether the bounds can still be told: a `RangeInclusive` that has been
    /// iterated to its end does not say where it began.
    spec fn usable(&self) -> bool;

    /// The bound at the start.
    spec fn lower(&self) -> Bound<usize>;

    /// The bound at the end.
    spec fn upper(&self) -> Bound<usize>;

    /// Returns the bound at the start.
    fn start_bound(&self) -> (bound: Bound<usize>)
        requires
            self.usable(),
        ensures
            bound == self.lower(),
    ;

    /// Returns the bound at the end.
    fn end_bound(&self) -> (bound: Bound<usize>)
        requires
            self.usable(),
        ensures
            bound == self.upper(),
    ;
}

/// The first position of a range that starts at `bound`.
pub open spec fn first_position(bound: Bound<usize>) -> int {
    match bound {
        Bound::Included(n) => n as int,
        Bound::Excluded(n) => n + 1,
        Bound::Unbounded => 0,
    }
}

/// The position behind a range that ends at `bound`, in a sequence of `len` bytes.
pub open spec fn end_position(bound: Bound<usize>, len: int) -> int {
    match bound {
        Bound::Included(n) => n + 1,
        Bound::Excluded(n) => n as int,
        Bound::Unbounded => len,
    }
}

/// Whether `range` names a part of a sequence of `len` bytes.
pub open spec fn within<R: ByteRange>(range: R, len: int) -> bool {
    &&& range.usable()
    &&& first_position(range.lower()) <= end_position(range.upper(), len) <= len
}

/// A position, or the largest `usize` where it is larger than that.
pub open spec fn saturated(position: int) -> int {
    if position <= usize::MAX {
        position
    } else {
        usize::MAX as int
    }
}

/// Why a range names no part of a sequence of bytes.
#[derive(Clone, Copy, Debug, PartialEq, Eq, Structural)]
pub enum RangeError {
    /// The range starts behind its end.
    StartBehindEnd,
    /// The range ends behind the last byte.
    EndOutOfBounds,
}

/// Returns the first position of `range` and the position behind it, in a sequence
/// of `len` bytes.
fn ends<R: ByteRange>(range: &R, len: usize) -> (ends: (usize, usize))
    requires
        range.usable(),
    ensures
        ends.0 == saturated(first_position(range.lower())),
        ends.1 == saturated(end_position(range.upper(), len as int)),
{
    let start = match range.start_bound() {
        Bound::Included(n) => n,
        Bound::Excluded(n) => n.saturating_add(1),
        Bound::Unbounded => 0,
    };
    let end = match range.end_bound() {
        Bound::Included(n) => n.saturating_add(1),
        Bound::Excluded(n) => n,
        Bound::Unbounded => len,
    };
    (start, end)
}

/// Returns the first position and the position behind a range that names a part of
/// a sequence of `len` bytes.
pub(crate) fn resolve<R: ByteRange>(range: &R, len: usize) -> (ends: (usize, usize))
    requires
        within(*range, len as int),
    ensures
        ends.0 == first_position(range.lower()),
        ends.1 == end_position(range.upper(), len as int),
{
    self::ends(range, len)
}

/// Returns the first position of `range` and the position behind it, in a sequence
/// of `len` bytes, or why it names no part of it.
pub fn checked_ends<R: ByteRange>(range: &R, len: usize) -> (ends: Result<
    (usize, usize),
    RangeError,
>)
    requires
        range.usable(),
    ensures
        ({
            let start = saturated(first_position(range.lower()));
            let end = saturated(end_position(range.upper(), len as int));
            match ends {
                Ok(pair) => pair.0 == start && pair.1 == end && start <= end <= len,
                Err(RangeError::StartBehindEnd) => start > end,
                Err(RangeError::EndOutOfBounds) => start <= end && end > len,
            }
        }),
        len < usize::MAX ==> (ends is Ok <==> within(*range, len as int)),
{
    let (start, end) = self::ends(range, len);
    if start > end {
        Err(RangeError::StartBehindEnd)
    } else if end > len {
        Err(RangeError::EndOutOfBounds)
    } else {
        Ok((start, end))
    }
}

impl ByteRange for Range<usize> {
    open spec fn usable(&self) -> bool {
        true
    }

    open spec fn lower(&self) -> Bound<usize> {
        Bound::Included(self.start)
    }

    open spec fn upper(&self) -> Bound<usize> {
        Bound::Excluded(self.end)
    }

    fn start_bound(&self) -> Bound<usize> {
        Bound::Included(self.start)
    }

    fn end_bound(&self) -> Bound<usize> {
        Bound::Excluded(self.end)
    }
}

impl ByteRange for RangeFrom<usize> {
    open spec fn usable(&self) -> bool {
        true
    }

    open spec fn lower(&self) -> Bound<usize> {
        Bound::Included(self.start)
    }

    open spec fn upper(&self) -> Bound<usize> {
        Bound::Unbounded
    }

    fn start_bound(&self) -> Bound<usize> {
        Bound::Included(self.start)
    }

    fn end_bound(&self) -> Bound<usize> {
        Bound::Unbounded
    }
}

impl ByteRange for RangeTo<usize> {
    open spec fn usable(&self) -> bool {
        true
    }

    open spec fn lower(&self) -> Bound<usize> {
        Bound::Unbounded
    }

    open spec fn upper(&self) -> Bound<usize> {
        Bound::Excluded(self.end)
    }

    fn start_bound(&self) -> Bound<usize> {
        Bound::Unbounded
    }

    fn end_bound(&self) -> Bound<usize> {
        Bound::Excluded(self.end)
    }
}

impl ByteRange for RangeToInclusive<usize> {
    open spec fn usable(&self) -> bool {
        true
    }

    open spec fn lower(&self) -> Bound<usize> {
        Bound::Unbounded
    }

    open spec fn upper(&self) -> Bound<usize> {
        Bound::Included(self.end)
    }

    fn start_bound(&self) -> Bound<usize> {
        Bound::Unbounded
    }

    fn end_bound(&self) -> Bound<usize> {
        Bound::Included(self.end)
    }
}

impl ByteRange for RangeFull {
    open spec fn usable(&self) -> bool {
        true
    }

    open spec fn lower(&self) -> Bound<usize> {
        Bound::Unbounded
    }

    open spec fn upper(&self) -> Bound<usize> {
        Bound::Unbounded
    }

    fn start_bound(&self) -> Bound<usize> {
        Bound::Unbounded
    }

    fn end_bound(&self) -> Bound<usize> {
        Bound::Unbounded
    }
}

impl ByteRange for RangeInclusive<usize> {
    open spec fn usable(&self) -> bool {
        !self@.exhausted
    }

    open spec fn lower(&self) -> Bound<usize> {
        Bound::Included(self@.start)
    }

    open spec fn upper(&self) -> Bound<usize> {
        Bound::Included(self@.end)
    }

    fn start_bound(&self) -> Bound<usize> {
        Bound::Included(inclusive_start(self))
    }

    fn end_bound(&self) -> Bound<usize> {
        Bound::Included(inclusive_end(self))
    }
}

impl ByteRange for (Bound<usize>, Bound<usize>) {
    open spec fn usable(&self) -> bool {
        true
    }

    open spec fn lower(&self) -> Bound<usize> {
        self.0
    }

    open spec fn upper(&self) -> Bound<usize> {
        self.1
    }

    fn start_bound(&self) -> Bound<usize> {
        self.0
    }

    fn end_bound(&self) -> Bound<usize> {
        self.1
    }
}

} // verus!
