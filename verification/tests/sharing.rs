use std::cell::Cell;
use std::rc::Rc;

use rcbytes::{Bytes, BytesMut};

struct Noisy {
    bytes: Vec<u8>,
    drops: Rc<Cell<usize>>,
}

impl AsRef<[u8]> for Noisy {
    fn as_ref(&self) -> &[u8] {
        &self.bytes
    }
}

impl Drop for Noisy {
    fn drop(&mut self) {
        self.drops.set(self.drops.get() + 1);
    }
}

#[test]
fn unique_until_cloned() {
    let bytes = Bytes::from(vec![1, 2, 3]);
    assert!(bytes.is_unique());
    let other = bytes.clone();
    assert!(!bytes.is_unique());
    assert!(!other.is_unique());
    drop(other);
    assert!(bytes.is_unique());
    let part = bytes.slice(1..);
    assert!(!bytes.is_unique());
    drop(bytes);
    assert!(part.is_unique());
}

#[test]
fn buffer_in_the_same_allocation_counts() {
    let mut buf = BytesMut::with_capacity(10);
    buf.extend_from_slice(b"abcdef");
    let front = buf.split_to(3).freeze();
    assert!(!front.is_unique());
    drop(buf);
    assert!(front.is_unique());
}

#[test]
fn static_bytes_are_never_unique() {
    assert!(!Bytes::new().is_unique());
    assert!(!Bytes::from_static(b"abc").is_unique());
    assert!(!Bytes::from_static(b"abc").is_unique_given(true));
    assert!(Bytes::copy_from_slice(b"abc").is_unique_given(true));
    assert!(!Bytes::copy_from_slice(b"abc").is_unique_given(false));
}

#[test]
fn owned_bytes_are_unique_until_cloned() {
    let bytes = Bytes::from_owner(vec![1u8, 2, 3]);
    assert!(bytes.is_unique());
    let other = bytes.slice(1..);
    assert!(!bytes.is_unique());
    assert!(!other.is_unique());
    drop(bytes);
    assert!(other.is_unique());
    assert!(other.is_unique_given(true));
    assert!(!other.is_unique_given(false));
    assert!(other.try_into_mut().is_err());
}

#[test]
fn sole_holders_by_number() {
    let shared = Bytes::copy_from_slice(b"abc");
    assert!(shared.sole_holder_given(1, 1));
    assert!(!shared.sole_holder_given(2, 1));
    assert!(!shared.sole_holder_given(1, 2));
    assert!(!shared.sole_holder_given(0, 1));
    let owned = Bytes::from_owner(vec![1u8]);
    assert!(owned.sole_holder_given(1, 0));
    assert!(!owned.sole_holder_given(2, 0));
    assert!(!Bytes::from_static(b"abc").sole_holder_given(1, 1));
    let mut buf = BytesMut::from("abc");
    assert!(buf.sole_holder_given(2));
    buf.advance(1);
    assert!(!buf.sole_holder_given(2));
    assert!(buf.sole_holder_given(1));
}

#[test]
fn only_a_sole_handle_becomes_a_buffer() {
    let bytes = Bytes::from(vec![1, 2, 3]);
    let other = bytes.clone();
    let bytes = bytes.try_into_mut().unwrap_err();
    assert_eq!(bytes, vec![1, 2, 3]);
    drop(other);
    let buf = bytes.try_into_mut().unwrap();
    assert_eq!(buf, vec![1, 2, 3]);
    assert!(Bytes::from_static(b"abc").try_into_mut().is_err());
    assert!(Bytes::from_owner(vec![1u8]).try_into_mut().is_err());
    assert!(Bytes::copy_from_slice(b"abc").try_into_mut_given(false).is_err());
}

#[test]
fn thawed_buffer_reaches_to_the_end_of_the_allocation() {
    let mut buf = BytesMut::with_capacity(100);
    buf.extend_from_slice(b"hello world");
    let mut bytes = buf.freeze();
    bytes.advance(6);
    bytes.truncate(3);
    let mut buf = bytes.try_into_mut().unwrap();
    assert_eq!(buf, b"wor"[..]);
    assert_eq!(buf.capacity(), 94);
    assert!(buf.try_reclaim(97));
    assert_eq!(buf.capacity(), 100);
    assert_eq!(buf, b"wor"[..]);
}

#[test]
fn thawed_part_takes_over_freed_capacity() {
    let mut buf = BytesMut::with_capacity(10);
    buf.extend_from_slice(b"abcdef");
    let front = buf.split_to(3).freeze();
    drop(buf);
    let front = front.try_into_mut().unwrap();
    assert_eq!(front, b"abc"[..]);
    assert_eq!(front.capacity(), 10);
}

#[test]
fn converted_buffer_is_on_its_own() {
    let bytes = Bytes::from(vec![1, 2, 3]);
    let other = bytes.clone();
    let mut buf = BytesMut::from(bytes);
    buf[0] = 9;
    assert_eq!(buf, vec![9, 2, 3]);
    assert_eq!(other, vec![1, 2, 3]);
    assert_eq!(buf.capacity(), 3);
}

#[test]
fn converted_buffer_keeps_its_place() {
    let mut buf = BytesMut::with_capacity(100);
    buf.extend_from_slice(b"hello world");
    let mut bytes = buf.freeze();
    bytes.advance(6);
    let mut buf = BytesMut::from(bytes);
    assert_eq!(buf.capacity(), 5);
    buf.reserve(1);
    assert_eq!(buf.capacity(), 100);
    assert_eq!(buf, b"world"[..]);
}

#[test]
fn conversion_of_static_and_owned_bytes_copies() {
    let buf = BytesMut::from(Bytes::from_static(b"abc"));
    assert_eq!(buf, b"abc"[..]);
    assert_eq!(buf.capacity(), 3);
    let buf = BytesMut::from(Bytes::from_owner(b"defg".to_vec()).slice(1..3));
    assert_eq!(buf, b"ef"[..]);
    assert_eq!(buf.capacity(), 2);
}

#[test]
fn frozen_bytes_do_not_change() {
    let mut buf = BytesMut::with_capacity(10);
    buf.extend_from_slice(b"abcdef");
    let front = buf.split_to(3).freeze();
    let again = front.slice(1..);
    buf[0] = b'x';
    buf.extend_from_slice(b"gh");
    assert_eq!(front, b"abc"[..]);
    assert_eq!(again, b"bc"[..]);
    assert_eq!(buf, b"xefgh"[..]);
}

#[test]
fn owner_lives_as_long_as_its_last_handle() {
    let drops = Rc::new(Cell::new(0));
    let owner = Noisy { bytes: vec![1, 2, 3, 4], drops: drops.clone() };
    let bytes = Bytes::from_owner(owner);
    assert_eq!(bytes, vec![1, 2, 3, 4]);
    let mut rest = bytes.clone();
    let front = rest.split_to(2);
    drop(bytes);
    drop(rest);
    assert_eq!(drops.get(), 0);
    assert_eq!(front, vec![1, 2]);
    assert_eq!(Vec::from(front), vec![1, 2]);
    assert_eq!(drops.get(), 1);
}

#[test]
fn owner_with_given_bytes() {
    let drops = Rc::new(Cell::new(0));
    let owner = Noisy { bytes: vec![], drops: drops.clone() };
    let bytes = Bytes::with_owner(vec![7, 8], owner);
    assert_eq!(bytes, vec![7, 8]);
    assert_eq!(drops.get(), 0);
    drop(bytes);
    assert_eq!(drops.get(), 1);
}

#[test]
fn vectors_hand_over_their_capacity() {
    let mut vec = Vec::with_capacity(100);
    vec.extend_from_slice(b"abc");
    let capacity = vec.capacity();
    let buf = BytesMut::from(vec.clone());
    assert_eq!(buf, b"abc"[..]);
    assert!(buf.capacity() >= 3);
    let bytes = Bytes::from(vec);
    let buf = bytes.try_into_mut().unwrap();
    assert_eq!(buf.capacity(), capacity);
    assert_eq!(buf, b"abc"[..]);
}

#[test]
fn vectors_with_a_given_capacity() {
    let buf = BytesMut::from_vec_given(vec![1, 2, 3], 10);
    assert_eq!(buf, vec![1, 2, 3]);
    assert_eq!(buf.capacity(), 10);
    let bytes = Bytes::from_vec_given(vec![1, 2, 3], 10);
    assert_eq!(bytes.try_into_mut().unwrap().capacity(), 10);
    assert!(!Bytes::from_vec_given(vec![], 10).is_unique());
}

#[test]
fn empty_sources_hold_nothing() {
    assert!(!Bytes::from(Vec::with_capacity(10)).is_unique());
    assert!(!Bytes::copy_from_slice(b"").is_unique());
    assert!(!Bytes::from(String::new()).is_unique());
    assert_eq!(BytesMut::from(Vec::new()).capacity(), 0);
    assert_eq!(BytesMut::default().capacity(), 0);
    assert!(Bytes::default().is_empty());
}

#[test]
fn vectors_from_shared_and_sole_holders() {
    let bytes = Bytes::from(vec![1, 2, 3, 4]);
    let part = bytes.slice(1..3);
    assert_eq!(Vec::from(bytes), vec![1, 2, 3, 4]);
    assert_eq!(Vec::from(part), vec![2, 3]);
    let mut buf = BytesMut::from(vec![1, 2, 3, 4]);
    buf.advance(1);
    let back = buf.split_off(2);
    assert_eq!(Vec::from(buf), vec![2, 3]);
    assert_eq!(Vec::from(back), vec![4]);
    assert_eq!(Vec::from(Bytes::from_static(b"ab")), b"ab".to_vec());
}

#[test]
fn sole_holder_hands_over_the_whole_allocation() {
    let mut buf = BytesMut::with_capacity(100);
    buf.extend_from_slice(b"hello world");
    buf.advance(6);
    let vec = Vec::from(buf);
    assert_eq!(vec, b"world");
    assert_eq!(vec.capacity(), 100);
    let mut buf = BytesMut::with_capacity(100);
    buf.extend_from_slice(b"hello world");
    let mut bytes = buf.freeze();
    bytes.advance(6);
    bytes.truncate(3);
    let vec = Vec::from(bytes);
    assert_eq!(vec, b"wor");
    assert_eq!(vec.capacity(), 100);
    let mut buf = BytesMut::with_capacity(100);
    buf.extend_from_slice(b"hello world");
    drop(buf.split_off(6));
    let vec = Vec::from(buf);
    assert_eq!(vec, b"hello ");
    assert_eq!(vec.capacity(), 100);
}

#[test]
fn shared_holder_hands_over_a_copy() {
    let mut buf = BytesMut::with_capacity(100);
    buf.extend_from_slice(b"hello world");
    let back = buf.split_off(6);
    let vec = Vec::from(buf);
    assert_eq!(vec, b"hello ");
    assert!(vec.capacity() < 100);
    assert_eq!(back, b"world"[..]);
}
