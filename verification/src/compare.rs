//! Equality, order and hash of the bytes.

use core::cmp::Ordering;
use core::hash::{Hash, Hasher};

use vstd::prelude::*;

use crate::buf::Bytes;
use crate::buf_mut::BytesMut;
use crate::laws::order_agrees_with_equality;
use crate::outside::{feeds, hash_slice};

verus! {

/// The lexicographic order of two sequences of bytes: the first byte in which they
/// differ decides, and a proper prefix comes before the longer sequence.
pub open spec fn lexicographic(a: Seq<u8>, b: Seq<u8>) -> Ordering
    decreases a.len(),
{
    if a.len() == 0 && b.len() == 0 {
        Ordering::Equal
    } else if a.len() == 0 {
        Ordering::Less
    } else if b.len() == 0 {
        Ordering::Greater
    } else if a[0] < b[0] {
        Ordering::Less
    } else if a[0] > b[0] {
        Ordering::Greater
    } else {
        lexicographic(a.skip(1), b.skip(1))
    }
}

/// Returns whether two slices hold the same bytes.
fn same_bytes(a: &[u8], b: &[u8]) -> (same: bool)
    ensures
        same == (a@ == b@),
{
    if a.len() != b.len() {
        return false;
    }
    let len = a.len();
    let mut i: usize = 0;
    while i < len
        invariant
            i <= len,
            len == a@.len(),
            len == b@.len(),
            forall|j: int| 0 <= j < i ==> a@[j] == b@[j],
        decreases len - i,
    {
        if a[i] != b[i] {
            return false;
        }
        i += 1;
    }
    assert(a@ =~= b@);
    true
}

/// What is left of a sequence from position `i` on.
spec fn tail(bytes: Seq<u8>, i: usize) -> Seq<u8> {
    bytes.skip(i as int)
}

/// Returns the lexicographic order of two slices.
fn order(a: &[u8], b: &[u8]) -> (order: Ordering)
    ensures
        order == lexicographic(a@, b@),
{
    let mut i: usize = 0;
    assert(tail(a@, i) =~= a@);
    assert(tail(b@, i) =~= b@);
    while i < a.len() && i < b.len()
        invariant
            i <= a@.len(),
            i <= b@.len(),
            lexicographic(a@, b@) == lexicographic(tail(a@, i), tail(b@, i)),
        decreases a@.len() - i,
    {
        if a[i] < b[i] {
            return Ordering::Less;
        }
        if a[i] > b[i] {
            return Ordering::Greater;
        }
        let next: usize = i + 1;
        assert(tail(a@, i).skip(1) =~= tail(a@, next));
        assert(tail(b@, i).skip(1) =~= tail(b@, next));
        i = next;
    }
    if i < b.len() {
        Ordering::Less
    } else if i < a.len() {
        Ordering::Greater
    } else {
        Ordering::Equal
    }
}

impl PartialEq for Bytes {
    fn eq(&self, other: &Self) -> (same: bool)
        ensures
            same == (self@ == other@),
    {
        same_bytes(self.as_slice(), other.as_slice())
    }
}

impl vstd::std_specs::cmp::PartialEqSpecImpl for Bytes {
    open spec fn obeys_eq_spec() -> bool {
        true
    }

    open spec fn eq_spec(&self, other: &Self) -> bool {
        self@ == other@
    }
}

impl Eq for Bytes {

}

impl PartialEq<BytesMut> for Bytes {
    fn eq(&self, other: &BytesMut) -> (same: bool)
        ensures
            same == (self@ == other@),
    {
        same_bytes(self.as_slice(), other.as_slice())
    }
}

impl vstd::std_specs::cmp::PartialEqSpecImpl<BytesMut> for Bytes {
    open spec fn obeys_eq_spec() -> bool {
        true
    }

    open spec fn eq_spec(&self, other: &BytesMut) -> bool {
        self@ == other@
    }
}

impl PartialEq<[u8]> for Bytes {
    fn eq(&self, other: &[u8]) -> (same: bool)
        ensures
            same == (self@ == other@),
    {
        same_bytes(self.as_slice(), other)
    }
}

impl vstd::std_specs::cmp::PartialEqSpecImpl<[u8]> for Bytes {
    open spec fn obeys_eq_spec() -> bool {
        true
    }

    open spec fn eq_spec(&self, other: &[u8]) -> bool {
        self@ == other@
    }
}

impl PartialEq<&[u8]> for Bytes {
    fn eq(&self, other: &&[u8]) -> (same: bool)
        ensures
            same == (self@ == other@),
    {
        same_bytes(self.as_slice(), *other)
    }
}

impl vstd::std_specs::cmp::PartialEqSpecImpl<&[u8]> for Bytes {
    open spec fn obeys_eq_spec() -> bool {
        true
    }

    open spec fn eq_spec(&self, other: &&[u8]) -> bool {
        self@ == other@
    }
}

impl PartialEq<Vec<u8>> for Bytes {
    fn eq(&self, other: &Vec<u8>) -> (same: bool)
        ensures
            same == (self@ == other@),
    {
        same_bytes(self.as_slice(), other.as_slice())
    }
}

impl vstd::std_specs::cmp::PartialEqSpecImpl<Vec<u8>> for Bytes {
    open spec fn obeys_eq_spec() -> bool {
        true
    }

    open spec fn eq_spec(&self, other: &Vec<u8>) -> bool {
        self@ == other@
    }
}

impl PartialEq<Bytes> for [u8] {
    fn eq(&self, other: &Bytes) -> (same: bool)
        ensures
            same == (self@ == other@),
    {
        same_bytes(self, other.as_slice())
    }
}

impl vstd::std_specs::cmp::PartialEqSpecImpl<Bytes> for [u8] {
    open spec fn obeys_eq_spec() -> bool {
        true
    }

    open spec fn eq_spec(&self, other: &Bytes) -> bool {
        self@ == other@
    }
}

impl PartialEq<Bytes> for &[u8] {
    fn eq(&self, other: &Bytes) -> (same: bool)
        ensures
            same == (self@ == other@),
    {
        same_bytes(*self, other.as_slice())
    }
}

impl vstd::std_specs::cmp::PartialEqSpecImpl<Bytes> for &[u8] {
    open spec fn obeys_eq_spec() -> bool {
        true
    }

    open spec fn eq_spec(&self, other: &Bytes) -> bool {
        self@ == other@
    }
}

impl PartialEq<Bytes> for Vec<u8> {
    fn eq(&self, other: &Bytes) -> (same: bool)
        ensures
            same == (self@ == other@),
    {
        same_bytes(self.as_slice(), other.as_slice())
    }
}

impl vstd::std_specs::cmp::PartialEqSpecImpl<Bytes> for Vec<u8> {
    open spec fn obeys_eq_spec() -> bool {
        true
    }

    open spec fn eq_spec(&self, other: &Bytes) -> bool {
        self@ == other@
    }
}

impl PartialEq for BytesMut {
    fn eq(&self, other: &Self) -> (same: bool)
        ensures
            same == (self@ == other@),
    {
        same_bytes(self.as_slice(), other.as_slice())
    }
}

impl vstd::std_specs::cmp::PartialEqSpecImpl for BytesMut {
    open spec fn obeys_eq_spec() -> bool {
        true
    }

    open spec fn eq_spec(&self, other: &Self) -> bool {
        self@ == other@
    }
}

impl PartialEq<Bytes> for BytesMut {
    fn eq(&self, other: &Bytes) -> (same: bool)
        ensures
            same == (self@ == other@),
    {
        same_bytes(self.as_slice(), other.as_slice())
    }
}

impl vstd::std_specs::cmp::PartialEqSpecImpl<Bytes> for BytesMut {
    open spec fn obeys_eq_spec() -> bool {
        true
    }

    open spec fn eq_spec(&self, other: &Bytes) -> bool {
        self@ == other@
    }
}

impl PartialEq<[u8]> for BytesMut {
    fn eq(&self, other: &[u8]) -> (same: bool)
        ensures
            same == (self@ == other@),
    {
        same_bytes(self.as_slice(), other)
    }
}

impl vstd::std_specs::cmp::PartialEqSpecImpl<[u8]> for BytesMut {
    open spec fn obeys_eq_spec() -> bool {
        true
    }

    open spec fn eq_spec(&self, other: &[u8]) -> bool {
        self@ == other@
    }
}

impl PartialEq<&[u8]> for BytesMut {
    fn eq(&self, other: &&[u8]) -> (same: bool)
        ensures
            same == (self@ == other@),
    {
        same_bytes(self.as_slice(), *other)
    }
}

impl vstd::std_specs::cmp::PartialEqSpecImpl<&[u8]> for BytesMut {
    open spec fn obeys_eq_spec() -> bool {
        true
    }

    open spec fn eq_spec(&self, other: &&[u8]) -> bool {
        self@ == other@
    }
}

impl PartialEq<Vec<u8>> for BytesMut {
    fn eq(&self, other: &Vec<u8>) -> (same: bool)
        ensures
            same == (self@ == other@),
    {
        same_bytes(self.as_slice(), other.as_slice())
    }
}

impl vstd::std_specs::cmp::PartialEqSpecImpl<Vec<u8>> for BytesMut {
    open spec fn obeys_eq_spec() -> bool {
        true
    }

    open spec fn eq_spec(&self, other: &Vec<u8>) -> bool {
        self@ == other@
    }
}

impl PartialEq<BytesMut> for [u8] {
    fn eq(&self, other: &BytesMut) -> (same: bool)
        ensures
            same == (self@ == other@),
    {
        same_bytes(self, other.as_slice())
    }
}

impl vstd::std_specs::cmp::PartialEqSpecImpl<BytesMut> for [u8] {
    open spec fn obeys_eq_spec() -> bool {
        true
    }

    open spec fn eq_spec(&self, other: &BytesMut) -> bool {
        self@ == other@
    }
}

impl PartialEq<BytesMut> for &[u8] {
    fn eq(&self, other: &BytesMut) -> (same: bool)
        ensures
            same == (self@ == other@),
    {
        same_bytes(*self, other.as_slice())
    }
}

impl vstd::std_specs::cmp::PartialEqSpecImpl<BytesMut> for &[u8] {
    open spec fn obeys_eq_spec() -> bool {
        true
    }

    open spec fn eq_spec(&self, other: &BytesMut) -> bool {
        self@ == other@
    }
}

impl PartialEq<BytesMut> for Vec<u8> {
    fn eq(&self, other: &BytesMut) -> (same: bool)
        ensures
            same == (self@ == other@),
    {
        same_bytes(self.as_slice(), other.as_slice())
    }
}

impl vstd::std_specs::cmp::PartialEqSpecImpl<BytesMut> for Vec<u8> {
    open spec fn obeys_eq_spec() -> bool {
        true
    }

    open spec fn eq_spec(&self, other: &BytesMut) -> bool {
        self@ == other@
    }
}

impl PartialOrd for Bytes {
    fn partial_cmp(&self, other: &Self) -> (order: Option<Ordering>)
        ensures
            order == Some(lexicographic(self@, other@)),
            order == Some(Ordering::Equal) <==> self@ == other@,
    {
        proof {
            order_agrees_with_equality(self@, other@);
        }
        Some(order(self.as_slice(), other.as_slice()))
    }
}

impl vstd::std_specs::cmp::PartialOrdSpecImpl for Bytes {
    open spec fn obeys_partial_cmp_spec() -> bool {
        true
    }

    open spec fn partial_cmp_spec(&self, other: &Self) -> Option<Ordering> {
        Some(lexicographic(self@, other@))
    }
}

impl Hash for Bytes {
    /// Feeds the bytes to the hasher as a slice of bytes does.
    fn hash<H: Hasher>(&self, state: &mut H)
        ensures
            exists|slice: &[u8], fed: &mut H|
                {
                    &&& slice@ == self@
                    &&& *fed == *old(state)
                    &&& *final(fed) == *final(state)
                    &&& #[trigger] feeds(slice, fed)
                },
    {
        hash_slice(self.as_slice(), state);
        assert(forall|slice: &[u8], fed: &mut H| #[trigger]
            call_ensures(hash_slice::<H>, (slice, fed), ()) ==> feeds(slice, fed));
    }
}

} // verus!
