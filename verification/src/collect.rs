//! Filling buffers from iterators, and iterating over bytes.

use vstd::prelude::*;
use vstd::std_specs::iter::IteratorSpec;

use crate::buf::Bytes;
use crate::buf_mut::BytesMut;
use crate::outside::{hinted, size_hint};
use crate::region::{Origin, Region};

verus! {

/// Where the bytes fit or the sizes are far from the limit, there is room at each step.
pub(crate) proof fn lemma_room_at_each_step(region: Region, count: int)
    requires
        region.wf(),
        region.can_extend(count),
    ensures
        region.can_put(count),
    decreases count,
{
    if count > 0 && !region.can_put(count) {
        assert forall|byte: u8, unique: bool|
            (#[trigger] region.append(seq![byte], unique)).can_put(count - 1) by {
            let after = region.append(seq![byte], unique);
            assert(after.wf());
            lemma_room_at_each_step(after, count - 1);
        }
    }
}

/// Putting one more byte in extends what was put in by that byte.
proof fn lemma_extends_push(
    region: Region,
    data: Seq<u8>,
    before: Region,
    byte: u8,
    after: Region,
)
    requires
        region.extends(data, before),
        before.appends(seq![byte], after),
    ensures
        region.extends(data.push(byte), after),
{
    assert(data.push(byte).drop_last() == data);
    assert(data.push(byte).last() == byte);
}

/// Putting one more byte in, as the count decides, extends what was put in so.
proof fn lemma_extended_push(
    buf: BytesMut,
    data: Seq<u8>,
    before: BytesMut,
    byte: u8,
    after: BytesMut,
)
    requires
        buf.extended(data, before),
        before.appended(seq![byte], after.region()),
    ensures
        buf.extended(data.push(byte), after),
{
    assert(data.push(byte).drop_last() == data);
    assert(data.push(byte).last() == byte);
}

/// A buffer with its allocation to itself keeps it so when it is extended.
proof fn lemma_extends_alone(region: Region, data: Seq<u8>, after: Region)
    requires
        region.extends(data, after),
        region.slot is None,
    ensures
        after.slot is None,
    decreases data.len(),
{
    if data.len() > 0 {
        let before = choose|before: Region|
            {
                &&& region.extends(data.drop_last(), before)
                &&& #[trigger] before.appends(seq![data.last()], after)
            };
        lemma_extends_alone(region, data.drop_last(), before);
    }
}

impl BytesMut {
    /// Extends the buffer with the bytes that an iterator gives.
    pub fn extend<I: Iterator<Item = u8>>(&mut self, iter: I)
        requires
            IteratorSpec::obeys_prophetic_iter_laws(&iter),
            IteratorSpec::decrease(&iter) is Some,
            old(self).region().can_extend(IteratorSpec::remaining(&iter).len() as int),
        ensures
            old(self).extended(IteratorSpec::remaining(&iter), *final(self)),
            old(self).region().extends(IteratorSpec::remaining(&iter), final(self).region()),
            final(self)@ == old(self)@ + IteratorSpec::remaining(&iter),
    {
        let mut rest = iter;
        let ghost all = IteratorSpec::remaining(&iter);
        let ghost mut done: int = 0;
        proof {
            use_type_invariant(&*self);
            lemma_room_at_each_step(self.region(), all.len() as int);
        }
        assert(all.take(0) == Seq::<u8>::empty());
        assert(all.skip(0) == all);
        loop
            invariant
                IteratorSpec::obeys_prophetic_iter_laws(&rest),
                IteratorSpec::decrease(&rest) is Some,
                all == IteratorSpec::remaining(&iter),
                0 <= done <= all.len(),
                IteratorSpec::remaining(&rest) == all.skip(done),
                self.region().can_put(all.len() - done),
                old(self).extended(all.take(done), *self),
                old(self).region().extends(all.take(done), self.region()),
                self@ == old(self)@ + all.take(done),
            ensures
                done == all.len(),
            decreases IteratorSpec::decrease(&rest)->0,
        {
            match rest.next() {
                Some(byte) => {
                    let ghost held = *self;
                    let ghost before = self.region();
                    self.put_u8(byte);
                    proof {
                        lemma_extended_push(*old(self), all.take(done), held, byte, *self);
                        lemma_extends_push(
                            old(self).region(),
                            all.take(done),
                            before,
                            byte,
                            self.region(),
                        );
                        assert(all.take(done + 1) == all.take(done).push(byte));
                        done = done + 1;
                    }
                },
                None => {
                    break;
                },
            }
        }
        assert(all.take(done) == all);
    }

    /// Extends the buffer with the bytes that an iterator over references gives.
    pub fn extend_from_refs<'a, I: Iterator<Item = &'a u8>>(&mut self, iter: I)
        requires
            IteratorSpec::obeys_prophetic_iter_laws(&iter),
            IteratorSpec::decrease(&iter) is Some,
            old(self).region().can_extend(IteratorSpec::remaining(&iter).len() as int),
        ensures
            old(self).extended(IteratorSpec::remaining(&iter).unref(), *final(self)),
            old(self).region().extends(
                IteratorSpec::remaining(&iter).unref(),
                final(self).region(),
            ),
            final(self)@ == old(self)@ + IteratorSpec::remaining(&iter).unref(),
    {
        let mut rest = iter;
        let ghost refs = IteratorSpec::remaining(&iter);
        let ghost all = refs.unref();
        let ghost mut done: int = 0;
        proof {
            use_type_invariant(&*self);
            lemma_room_at_each_step(self.region(), all.len() as int);
        }
        assert(all.take(0) == Seq::<u8>::empty());
        assert(refs.skip(0) == refs);
        loop
            invariant
                IteratorSpec::obeys_prophetic_iter_laws(&rest),
                IteratorSpec::decrease(&rest) is Some,
                refs == IteratorSpec::remaining(&iter),
                all == refs.unref(),
                0 <= done <= all.len(),
                IteratorSpec::remaining(&rest) == refs.skip(done),
                self.region().can_put(all.len() - done),
                old(self).extended(all.take(done), *self),
                old(self).region().extends(all.take(done), self.region()),
                self@ == old(self)@ + all.take(done),
            ensures
                done == all.len(),
            decreases IteratorSpec::decrease(&rest)->0,
        {
            match rest.next() {
                Some(byte) => {
                    let byte = *byte;
                    let ghost held = *self;
                    let ghost before = self.region();
                    self.put_u8(byte);
                    proof {
                        lemma_extended_push(*old(self), all.take(done), held, byte, *self);
                        lemma_extends_push(
                            old(self).region(),
                            all.take(done),
                            before,
                            byte,
                            self.region(),
                        );
                        assert(all.take(done + 1) == all.take(done).push(byte));
                        done = done + 1;
                    }
                },
                None => {
                    break;
                },
            }
        }
        assert(all.take(done) == all);
    }

    /// Returns an empty buffer with the capacity for `lower` bytes, or with none
    /// where no allocation is that large.
    fn sized(lower: usize) -> (buf: Self)
        ensures
            buf.region() == Region::announced(lower),
    {
        if lower <= isize::MAX as usize {
            BytesMut::with_capacity(lower)
        } else {
            BytesMut::new()
        }
    }

    /// Collects the bytes that an iterator gives in a buffer.
    ///
    /// The buffer starts with the capacity for as many bytes as the iterator says
    /// that it has at least.
    pub fn from_iter<I: Iterator<Item = u8>>(iter: I) -> (buf: Self)
        requires
            IteratorSpec::obeys_prophetic_iter_laws(&iter),
            IteratorSpec::decrease(&iter) is Some,
            forall|lower: usize| #[trigger]
                hinted(iter, lower) ==> Region::announced(lower).can_extend(
                    IteratorSpec::remaining(&iter).len() as int,
                ),
        ensures
            exists|lower: usize|
                {
                    &&& #[trigger] hinted(iter, lower)
                    &&& Region::announced(lower).extends(
                        IteratorSpec::remaining(&iter),
                        buf.region(),
                    )
                },
            buf@ == IteratorSpec::remaining(&iter),
            buf.region().slot is None,
    {
        let lower = size_hint(&iter);
        assert(hinted(iter, lower));
        BytesMut::from_iter_given(iter, lower)
    }

    /// Collects the bytes that an iterator gives in a buffer that starts with the
    /// capacity for `lower` bytes, or with none where no allocation is that large.
    pub fn from_iter_given<I: Iterator<Item = u8>>(iter: I, lower: usize) -> (buf: Self)
        requires
            IteratorSpec::obeys_prophetic_iter_laws(&iter),
            IteratorSpec::decrease(&iter) is Some,
            Region::announced(lower).can_extend(IteratorSpec::remaining(&iter).len() as int),
        ensures
            Region::announced(lower).extends(IteratorSpec::remaining(&iter), buf.region()),
            buf@ == IteratorSpec::remaining(&iter),
            buf.region().slot is None,
    {
        let mut buf = BytesMut::sized(lower);
        let ghost start = buf.region();
        buf.extend(iter);
        proof {
            lemma_extends_alone(start, IteratorSpec::remaining(&iter), buf.region());
        }
        buf
    }
}

impl Bytes {
    /// Collects the bytes that an iterator gives.
    pub fn from_iter<I: Iterator<Item = u8>>(iter: I) -> (bytes: Self)
        requires
            IteratorSpec::obeys_prophetic_iter_laws(&iter),
            IteratorSpec::decrease(&iter) is Some,
            forall|lower: usize| #[trigger]
                hinted(iter, lower) ==> Region::announced(lower).can_extend(
                    IteratorSpec::remaining(&iter).len() as int,
                ),
        ensures
            bytes@ == IteratorSpec::remaining(&iter),
            exists|lower: usize, region: Region|
                {
                    &&& #[trigger] hinted(iter, lower)
                    &&& #[trigger] Region::announced(lower).extends(
                        IteratorSpec::remaining(&iter),
                        region,
                    )
                    &&& bytes.origin() == Origin::Shared(region.place())
                },
    {
        BytesMut::from_iter(iter).freeze()
    }
}

impl Bytes {
    /// Collects the bytes that an iterator over references gives.
    pub fn from_refs<'a, I: Iterator<Item = &'a u8>>(iter: I) -> (bytes: Self)
        requires
            IteratorSpec::obeys_prophetic_iter_laws(&iter),
            IteratorSpec::decrease(&iter) is Some,
            forall|lower: usize| #[trigger]
                hinted(iter, lower) ==> Region::announced(lower).can_extend(
                    IteratorSpec::remaining(&iter).len() as int,
                ),
        ensures
            bytes@ == IteratorSpec::remaining(&iter).unref(),
            exists|lower: usize, region: Region|
                {
                    &&& #[trigger] hinted(iter, lower)
                    &&& #[trigger] Region::announced(lower).extends(
                        IteratorSpec::remaining(&iter).unref(),
                        region,
                    )
                    &&& bytes.origin() == Origin::Shared(region.place())
                },
    {
        let lower = size_hint(&iter);
        assert(hinted(iter, lower));
        let mut buf = BytesMut::sized(lower);
        buf.extend_from_refs(iter);
        assert(Region::announced(lower).extends(
            IteratorSpec::remaining(&iter).unref(),
            buf.region(),
        ));
        buf.freeze()
    }
}

impl<'a> IntoIterator for &'a Bytes {
    type IntoIter = core::slice::Iter<'a, u8>;

    type Item = &'a u8;

    fn into_iter(self) -> (iter: core::slice::Iter<'a, u8>)
        ensures
            IteratorSpec::remaining(&iter).unref() == self@,
    {
        self.as_slice().iter()
    }
}

impl IntoIterator for Bytes {
    type IntoIter = std::vec::IntoIter<u8>;

    type Item = u8;

    fn into_iter(self) -> (iter: std::vec::IntoIter<u8>)
        ensures
            IteratorSpec::remaining(&iter) == self@,
    {
        Vec::from(self).into_iter()
    }
}

} // verus!
