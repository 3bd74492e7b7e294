use std::cell::Cell;
use std::fmt::Write;
use std::rc::Rc;

use rcbytes::{Bytes, BytesMut};

#[test]
fn layout() {
    assert_eq!(
        core::mem::size_of::<Bytes>(),
        core::mem::size_of::<usize>() * 4,
        "Bytes size should be 4 words",
    );
    assert_eq!(
        core::mem::size_of::<BytesMut>(),
        core::mem::size_of::<usize>() * 4,
        "BytesMut should be 4 words",
    );
}

#[test]
fn bytes_mut_advance_remaining_capacity() {
    let max_capacity = 256;
    for capacity in 0..=max_capacity {
        for len in 0..=capacity {
            for advance in 0..=len {
                let mut buf = BytesMut::with_capacity(capacity);
                buf.resize(len, 42);
                assert_eq!(buf.len(), len);
                assert_eq!(buf.remaining(), len);
                buf.advance(advance);
                assert_eq!(buf.remaining(), len - advance);
                assert_eq!(buf.capacity(), capacity - advance);
            }
        }
    }
}

#[test]
fn bytes_into_vec() {
    let content = b"helloworld";
    let mut bytes = BytesMut::new();
    bytes.put_slice(content);
    let vec: Vec<u8> = bytes.into();
    assert_eq!(&vec, content);
}

#[test]
fn freeze_clone_shared() {
    let s = &b"abcdefgh"[..];
    let b = BytesMut::from(s).split().freeze();
    assert_eq!(b, s);
    let c = b.clone();
    assert_eq!(c, s);
}

#[test]
fn split_to_2() {
    let mut a = Bytes::from(b"mary had a little lamb, little lamb, little lamb".to_vec());
    let b = a.split_to(1);
    assert_eq!(b"ary had a little lamb, little lamb, little lamb"[..], a);
    drop(b);
}

#[test]
fn bytesmut_from_bytes_promotable_even_arc_1() {
    let vec = vec![33u8; 1024];
    let b1 = Bytes::from(vec.clone());
    drop(b1.clone());
    let b1m = BytesMut::from(b1);
    assert_eq!(b1m, vec);
}

#[test]
fn bytes_mut_unsplit_basic() {
    let mut buf = BytesMut::with_capacity(64);
    buf.extend_from_slice(b"aaabbbcccddd");
    let splitted = buf.split_off(6);
    assert_eq!(b"aaabbb", &buf[..]);
    assert_eq!(b"cccddd", &splitted[..]);
    buf.unsplit(splitted);
    assert_eq!(b"aaabbbcccddd", &buf[..]);
}

#[test]
fn try_reclaim_vec() {
    let mut buf = BytesMut::with_capacity(6);
    buf.put_slice(b"abc");
    assert_eq!(false, buf.try_reclaim(usize::MAX));
    assert_eq!(false, buf.try_reclaim(6));
    buf.advance(2);
    assert_eq!(4, buf.capacity());
    assert_eq!(false, buf.try_reclaim(6));
    assert_eq!(true, buf.try_reclaim(5));
    buf.advance(1);
    assert_eq!(true, buf.try_reclaim(6));
    assert_eq!(6, buf.capacity());
}

#[test]
fn try_into_mut_restores_capacity() {
    let mut bytes = BytesMut::with_capacity(100);
    bytes.put_slice(b"hello world");
    let frozen = bytes.freeze();

    let unfrozen = frozen.try_into_mut().unwrap();
    assert_eq!(unfrozen.capacity(), 100);
}

#[test]
fn slice_ref() {
    let b = Bytes::from_static(b"hello world");
    let sub_slice = &b[6..];
    let sub_bytes = b.slice_ref(sub_slice).unwrap();
    assert_eq!(sub_bytes.as_slice(), b"world");
}

#[derive(Clone)]
struct SharedAtomicCounter(Rc<Cell<usize>>);

impl SharedAtomicCounter {
    pub fn new() -> Self {
        SharedAtomicCounter(Rc::new(Cell::new(0)))
    }

    pub fn increment(&self) {
        self.0.set(self.0.get() + 1);
    }

    pub fn get(&self) -> usize {
        self.0.get()
    }
}

struct OwnedTester<const L: usize> {
    buf:        [u8; L],
    drop_count: SharedAtomicCounter,
}

impl<const L: usize> OwnedTester<L> {
    fn new(buf: [u8; L], drop_count: SharedAtomicCounter) -> Self {
        Self {
            buf,
            drop_count,
        }
    }
}

impl<const L: usize> AsRef<[u8]> for OwnedTester<L> {
    fn as_ref(&self) -> &[u8] {
        self.buf.as_slice()
    }
}

impl<const L: usize> Drop for OwnedTester<L> {
    fn drop(&mut self) {
        self.drop_count.increment();
    }
}

#[test]
fn owned_dropped_exactly_once() {
    let buf: [u8; 5] = [1, 2, 3, 4, 5];
    let drop_counter = SharedAtomicCounter::new();
    let owner = OwnedTester::new(buf, drop_counter.clone());
    let b1 = Bytes::from_owner(owner);
    let b2 = b1.clone();
    assert_eq!(drop_counter.get(), 0);
    drop(b1);
    assert_eq!(drop_counter.get(), 0);
    let b3 = b2.slice(1..b2.len() - 1);
    drop(b2);
    assert_eq!(drop_counter.get(), 0);
    drop(b3);
    assert_eq!(drop_counter.get(), 1);
}

#[test]
fn bytes_new_empty() {
    let b = Bytes::new();
    assert!(b.is_empty());
    assert_eq!(b.len(), 0);
    assert_eq!(b.as_slice(), b"");
}

#[test]
fn bytes_from_static() {
    let b = Bytes::from_static(b"hello");
    assert_eq!(b.len(), 5);
    assert_eq!(b.as_slice(), b"hello");
    assert!(!b.is_unique());
}

#[test]
fn bytes_copy_from_slice() {
    let original = b"world";
    let b = Bytes::copy_from_slice(original);
    assert_eq!(b.as_slice(), original);
    assert!(b.is_unique());
}

#[test]
fn bytes_slice_various() {
    let b = Bytes::from_static(b"hello world");

    let sub1 = b.slice(0..5);
    assert_eq!(sub1.as_slice(), b"hello");

    let sub2 = b.slice(6 ..);
    assert_eq!(sub2.as_slice(), b"world");

    let sub3 = b.slice(..);
    assert_eq!(sub3.as_slice(), b"hello world");

    let sub4 = b.slice(3..3);
    assert!(sub4.is_empty());
}

#[test]
fn bytes_split_off() {
    let mut b = Bytes::from_static(b"helloworld");
    let other = b.split_off(5);
    assert_eq!(b.as_slice(), b"hello");
    assert_eq!(other.as_slice(), b"world");
}

#[test]
fn bytes_split_to() {
    let mut b = Bytes::from_static(b"helloworld");
    let other = b.split_to(5);
    assert_eq!(other.as_slice(), b"hello");
    assert_eq!(b.as_slice(), b"world");
}

#[test]
fn bytes_truncate_clear() {
    let mut b = Bytes::from_static(b"hello");
    b.truncate(3);
    assert_eq!(b.as_slice(), b"hel");
    b.clear();
    assert!(b.is_empty());
}

#[test]
fn bytes_mut_with_capacity_zero() {
    let b = BytesMut::with_capacity(0);
    assert_eq!(b.capacity(), 0);
    assert!(b.is_empty());
}

#[test]
fn bytes_mut_reserve_and_put() {
    let mut b = BytesMut::new();
    assert_eq!(b.capacity(), 0);

    b.reserve(10);
    assert!(b.capacity() >= 10);

    b.put_u8(b'a');
    b.extend_from_slice(b"bc");
    assert_eq!(b.as_ref(), b"abc");
    assert_eq!(b.len(), 3);
}

#[test]
fn bytes_mut_reserve_shared() {
    let mut b1 = BytesMut::with_capacity(10);
    b1.put_slice(b"hello");
    let b2 = b1.clone(); // triggers promotion/sharing

    b1.reserve(20); // should reallocate independently since it is shared
    b1.put_slice(b" world");

    assert_eq!(b1.as_ref(), b"hello world");
    assert_eq!(b2.as_ref(), b"hello");
}

#[test]
fn bytes_mut_extend_from_within() {
    let mut b = BytesMut::with_capacity(20);
    b.put_slice(b"hello");
    b.extend_from_within(1..4);
    assert_eq!(b.as_ref(), b"helloell");
}

#[test]
fn buf_trait_impl() {
    let mut b = Bytes::copy_from_slice(b"abcdef");
    assert_eq!(b.remaining(), 6);
    assert_eq!(b.chunk(), b"abcdef");

    b.advance(2);
    assert_eq!(b.remaining(), 4);
    assert_eq!(b.chunk(), b"cdef");
}

#[test]
fn buf_mut_trait_impl() {
    let mut b = BytesMut::with_capacity(10);
    assert_eq!(b.remaining_mut(), usize::MAX);

    b.put_slice(b"abc");
    assert_eq!(b.as_ref(), b"abc");

    b.advance_mut(2); // directly advance length
    assert_eq!(b.len(), 5);
}

#[test]
fn conversions_vec_and_box() {
    let original_vec = vec![1, 2, 3, 4, 5];

    // Vec -> Bytes -> Vec
    let b = Bytes::from(original_vec.clone());
    let roundtrip_vec: Vec<u8> = b.into();
    assert_eq!(roundtrip_vec, original_vec);

    // Box -> BytesMut -> Vec
    let original_box: Box<[u8]> = vec![6, 7, 8].into_boxed_slice();
    let bm = BytesMut::from(original_box);
    let roundtrip_vec2: Vec<u8> = bm.into();
    assert_eq!(roundtrip_vec2, vec![6, 7, 8]);
}

#[test]
fn string_conversion() {
    let s = String::from("hello string");
    let b = Bytes::from(s.clone());
    assert_eq!(b.as_slice(), s.as_bytes());

    let bm = BytesMut::from(s.clone());
    assert_eq!(bm.as_ref(), s.as_bytes());
}

#[test]
fn comparisons() {
    let b = Bytes::from_static(b"abc");
    let bm = BytesMut::from(b"abc" as &[u8]);

    assert_eq!(b, bm);
    assert_eq!(bm, b);

    assert_eq!(b, b"abc"[..]);
    assert_eq!(bm, b"abc"[..]);

    let vec = vec![97, 98, 99];
    assert_eq!(bm, vec);
}

#[test]
fn fmt_write() {
    let mut b = BytesMut::with_capacity(20);
    b.write_str(&format!("hello {}", 42)).unwrap();
    assert_eq!(b.as_ref(), b"hello 42");
}

#[test]
fn from_iter_behavior() {
    let data = vec![1, 2, 3];
    let b = Bytes::from_iter(data.clone().into_iter());
    assert_eq!(b.as_slice(), &data[..]);

    let bm = BytesMut::from_iter(data.clone().into_iter());
    assert_eq!(bm.as_ref(), &data[..]);
}

#[test]
fn test_unsplit_empty_variants() {
    // Both empty
    let mut b1 = BytesMut::new();
    let b2 = BytesMut::new();
    b1.unsplit(b2);
    assert!(b1.is_empty());

    // Self empty, other non-empty
    let mut b1 = BytesMut::new();
    let mut b2 = BytesMut::with_capacity(10);
    b2.put_slice(b"hello");
    b1.unsplit(b2);
    assert_eq!(b1.as_ref(), b"hello");

    // Self non-empty, other empty
    let mut b1 = BytesMut::with_capacity(10);
    b1.put_slice(b"world");
    let b2 = BytesMut::new();
    b1.unsplit(b2);
    assert_eq!(b1.as_ref(), b"world");
}

#[test]
fn test_split_boundary_indices() {
    let mut b = BytesMut::from(&b"hello"[..]);

    // split_to at 0
    let s0 = b.split_to(0);
    assert!(s0.is_empty());
    assert_eq!(b.as_ref(), b"hello");

    // split_to at len
    let s_len = b.split_to(b.len());
    assert_eq!(s_len.as_ref(), b"hello");
    assert!(b.is_empty());

    // reset
    let mut b = BytesMut::from(&b"world"[..]);

    // split_off at len
    let s_off_len = b.split_off(b.len());
    assert!(s_off_len.is_empty());
    assert_eq!(b.as_ref(), b"world");

    // split_off at 0
    let s_off_0 = b.split_off(0);
    assert_eq!(s_off_0.as_ref(), b"world");
    assert!(b.is_empty());
}

#[test]
fn test_slice_ref_overlapping_and_empty() {
    let b = Bytes::from_static(b"hello world");

    // slice_ref with empty slice
    let empty_slice = &b[0..0];
    let empty_bytes = b.slice_ref(empty_slice).unwrap();
    assert!(empty_bytes.is_empty());

    // slice_ref on full slice
    let full_slice = &b[..];
    let full_bytes = b.slice_ref(full_slice).unwrap();
    assert_eq!(full_bytes.as_slice(), b"hello world");
}

#[test]
#[should_panic(expected = "subset is out of bounds or not part of this allocation")]
fn test_slice_ref_non_overlapping_panic() {
    let b = Bytes::from_static(b"hello");
    let alien_slice = b"world" as &[u8];
    let _ = b.slice_ref(alien_slice).expect("subset is out of bounds or not part of this allocation");
}

#[test]
fn test_bytes_mut_cow_behavior() {
    let mut b1 = BytesMut::with_capacity(10);
    b1.put_slice(b"abc");

    let mut b2 = b1.clone(); // both point to same shared data internally

    // Write to b1, triggering copy-on-write (detaching from b2)
    b1.put_slice(b"def");

    assert_eq!(b1.as_ref(), b"abcdef");
    assert_eq!(b2.as_ref(), b"abc");

    // Ensure further mutations on b2 are clean
    b2.put_slice(b"xyz");
    assert_eq!(b2.as_ref(), b"abcxyz");
}

#[test]
fn test_from_vec_excess_capacity() {
    let mut vec = Vec::with_capacity(100);
    vec.extend_from_slice(b"short");

    let b = Bytes::from(vec);
    assert_eq!(b.as_slice(), b"short");

    let bm = BytesMut::from(b);
    assert_eq!(bm.as_ref(), b"short");
    // Capacity of reconstructed unfrozen mut bytes starts as the length of the
    // slice
    assert_eq!(bm.capacity(), 5);
}

#[test]
fn test_range_overflow_handling() {
    let b = Bytes::from_static(b"abc");

    // Bounded range checks using maximum bounds
    let s = b.slice(..);
    assert_eq!(s.as_slice(), b"abc");

    let s_from_max = b.slice(0..3);
    assert_eq!(s_from_max.as_slice(), b"abc");
}

#[test]
fn test_zero_reserve_no_op() {
    let mut b = BytesMut::with_capacity(10);
    b.put_slice(b"abc");
    let initial_cap = b.capacity();

    b.reserve(0);
    assert_eq!(b.capacity(), initial_cap);
}
