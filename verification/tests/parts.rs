use std::ops::Bound;

use rcbytes::range::{checked_ends, RangeError};
use rcbytes::{Bytes, BytesMut};

fn letters() -> BytesMut {
    let mut buf = BytesMut::with_capacity(64);
    buf.extend_from_slice(b"aaabbbcccddd");
    buf
}

#[test]
fn split_parts_share_the_capacity() {
    let mut front = letters();
    let back = front.split_off(6);
    assert_eq!(front.capacity(), 6);
    assert_eq!(back.capacity(), 58);
    let mut back = letters();
    let front = back.split_to(6);
    assert_eq!(front, b"aaabbb"[..]);
    assert_eq!(back, b"cccddd"[..]);
    assert_eq!(front.capacity(), 6);
    assert_eq!(back.capacity(), 58);
}

#[test]
fn split_at_the_ends() {
    let mut buf = letters();
    let all = buf.split_off(0);
    assert!(buf.is_empty());
    assert_eq!(buf.capacity(), 0);
    assert_eq!(all, b"aaabbbcccddd"[..]);
    assert_eq!(all.capacity(), 64);
    let mut buf = letters();
    let none = buf.split_to(0);
    assert!(none.is_empty());
    assert_eq!(buf.capacity(), 64);
    let mut buf = letters();
    let all = buf.split();
    assert_eq!(all, b"aaabbbcccddd"[..]);
    assert_eq!(all.capacity(), 12);
    assert!(buf.is_empty());
    assert_eq!(buf.capacity(), 52);
}

#[test]
fn unsplit_gives_the_capacity_back() {
    let mut buf = letters();
    let back = buf.split_off(6);
    buf.unsplit(back);
    assert_eq!(buf, b"aaabbbcccddd"[..]);
    assert_eq!(buf.capacity(), 64);
    let mut back = letters();
    let mut front = back.split_to(6);
    front.unsplit(back);
    assert_eq!(front, b"aaabbbcccddd"[..]);
    assert_eq!(front.capacity(), 64);
}

#[test]
fn unsplit_restores_an_empty_front() {
    let mut buf = letters();
    let all = buf.split_off(0);
    buf.unsplit(all);
    assert_eq!(buf, b"aaabbbcccddd"[..]);
    assert_eq!(buf.capacity(), 64);
}

#[test]
fn unsplit_of_nothing_leaves_the_spare_capacity_behind() {
    let mut buf = letters();
    let spare = buf.split_off(12);
    assert_eq!(spare.capacity(), 52);
    buf.unsplit(spare);
    assert_eq!(buf, b"aaabbbcccddd"[..]);
    assert_eq!(buf.capacity(), 12);
}

#[test]
fn unsplit_three_parts() {
    let mut first = letters();
    let mut second = first.split_off(3);
    let third = second.split_off(6);
    first.unsplit(second);
    first.unsplit(third);
    assert_eq!(first, b"aaabbbcccddd"[..]);
    assert_eq!(first.capacity(), 64);
}

#[test]
fn unsplit_out_of_order_copies() {
    let mut first = letters();
    let mut back = first.split_off(6);
    back.unsplit(first);
    assert_eq!(back, b"cccdddaaabbb"[..]);
    assert_eq!(back.capacity(), 58);
    let mut first = letters();
    let mut second = first.split_off(3);
    let third = second.split_off(3);
    first.unsplit(third);
    assert_eq!(first, b"aaacccddd"[..]);
    assert_eq!(first.capacity(), 128);
    assert_eq!(second, b"bbb"[..]);
}

#[test]
fn unsplit_of_two_allocations_copies() {
    let mut buf = BytesMut::from("abc");
    buf.unsplit(BytesMut::from("def"));
    assert_eq!(buf, b"abcdef"[..]);
    assert_eq!(buf.capacity(), 64);
}

#[test]
fn unsplit_after_the_front_was_written() {
    let mut buf = letters();
    let mut back = buf.split_off(6);
    buf[0] = b'x';
    back[0] = b'y';
    back.put_u8(b'z');
    buf.unsplit(back);
    assert_eq!(buf, b"xaabbbyccdddz"[..]);
    assert_eq!(buf.capacity(), 64);
}

#[test]
fn unsplit_given_each_case() {
    let mut buf = letters();
    let back = buf.split_off(6);
    buf.unsplit_given(back, true, false);
    assert_eq!(buf.capacity(), 64);
    let mut buf = letters();
    let back = buf.split_off(6);
    buf.unsplit_given(back, false, false);
    assert_eq!(buf, b"aaabbbcccddd"[..]);
    assert_eq!(buf.capacity(), 128);
}

#[test]
fn advancing_adds_up() {
    let mut buf = letters();
    buf.advance(3);
    buf.advance(0);
    buf.advance(4);
    assert_eq!(buf, b"ccddd"[..]);
    assert_eq!(buf.capacity(), 57);
    let mut once = letters();
    once.advance(7);
    assert_eq!(once, buf);
    assert_eq!(once.capacity(), 57);
}

#[test]
fn every_kind_of_range() {
    let bytes = Bytes::from_static(b"0123456789");
    assert_eq!(bytes.slice(2..5), b"234"[..]);
    assert_eq!(bytes.slice(8..), b"89"[..]);
    assert_eq!(bytes.slice(..2), b"01"[..]);
    assert_eq!(bytes.slice(..=2), b"012"[..]);
    assert_eq!(bytes.slice(4..=6), b"456"[..]);
    assert_eq!(bytes.slice(..), bytes);
    assert_eq!(bytes.slice((Bound::Excluded(0), Bound::Included(2))), b"12"[..]);
    assert_eq!(bytes.slice((Bound::Excluded(9), Bound::Unbounded)), b""[..]);
    assert_eq!(bytes.slice((Bound::Included(9), Bound::Excluded(10))), b"9"[..]);
}

#[test]
fn slice_of_a_slice() {
    let bytes = Bytes::copy_from_slice(b"0123456789");
    assert_eq!(bytes.slice(2..8).slice(1..4), bytes.slice(3..6));
    assert_eq!(bytes.slice(3..6), b"345"[..]);
}

#[test]
fn empty_slice_holds_nothing() {
    let bytes = Bytes::copy_from_slice(b"0123456789");
    let none = bytes.slice(4..4);
    assert!(none.is_empty());
    assert!(bytes.is_unique());
    assert!(!none.is_unique());
}

#[test]
fn slice_ref_finds_parts_only() {
    let bytes = Bytes::copy_from_slice(b"0123456789");
    let part = bytes.slice(2..6);
    assert_eq!(part.slice_ref(&bytes[3..5]).unwrap(), b"34"[..]);
    assert_eq!(part.slice_ref(&bytes[2..6]).unwrap(), b"2345"[..]);
    assert!(part.slice_ref(&bytes[1..3]).is_none());
    assert!(part.slice_ref(&bytes[5..7]).is_none());
    assert!(part.slice_ref(b"23").is_none());
    assert!(part.slice_ref(b"").unwrap().is_empty());
}

#[test]
fn slice_ref_at_addresses() {
    let bytes = Bytes::from_static(b"0123456789");
    assert_eq!(bytes.slice_ref_at(1000, 1003, 4).unwrap(), b"3456"[..]);
    assert_eq!(bytes.slice_ref_at(1000, 1000, 10).unwrap(), bytes);
    assert!(bytes.slice_ref_at(1000, 999, 2).is_none());
    assert!(bytes.slice_ref_at(1000, 1009, 2).is_none());
    assert!(bytes.slice_ref_at(1000, 5, 0).unwrap().is_empty());
}

#[test]
fn handles_split_at_the_ends() {
    let mut bytes = Bytes::copy_from_slice(b"abc");
    let none = bytes.split_off(3);
    assert!(none.is_empty());
    assert_eq!(bytes, b"abc"[..]);
    let all = bytes.split_off(0);
    assert!(bytes.is_empty());
    assert_eq!(all, b"abc"[..]);
    let mut bytes = all;
    assert!(bytes.split_to(0).is_empty());
    assert_eq!(bytes, b"abc"[..]);
    let all = bytes.split_to(3);
    assert!(bytes.is_empty());
    assert_eq!(all, b"abc"[..]);
    bytes.truncate(7);
    assert!(bytes.is_empty());
}

#[test]
fn ranges_are_checked() {
    assert_eq!(checked_ends(&(1..3), 3), Ok((1, 3)));
    assert_eq!(checked_ends(&(..), 3), Ok((0, 3)));
    assert_eq!(checked_ends(&(0..=2), 3), Ok((0, 3)));
    assert_eq!(checked_ends(&(3..), 3), Ok((3, 3)));
    assert_eq!(checked_ends(&(4..), 3), Err(RangeError::StartBehindEnd));
    assert_eq!(checked_ends(&(3..2), 3), Err(RangeError::StartBehindEnd));
    assert_eq!(checked_ends(&(0..4), 3), Err(RangeError::EndOutOfBounds));
    assert_eq!(checked_ends(&(..=usize::MAX), 3), Err(RangeError::EndOutOfBounds));
    let bounds = (Bound::Excluded(usize::MAX), Bound::Unbounded);
    assert_eq!(checked_ends(&bounds, 3), Err(RangeError::StartBehindEnd));
}

#[test]
fn slice_ref_finds_every_part_of_its_own() {
    let mut bytes = Bytes::copy_from_slice(b"0123456789");
    bytes.advance(2);
    for i in 0..=bytes.len() {
        for j in i..=bytes.len() {
            let part = bytes.slice_ref(&bytes[i..j]).unwrap();
            assert_eq!(part, bytes.slice(i..j));
            if i < j {
                assert_eq!(part.as_slice().as_ptr(), bytes[i..].as_ptr());
            }
        }
    }
}

#[test]
fn unsplit_is_tried() {
    let mut buf = letters();
    let back = buf.split_off(6);
    assert!(buf.try_unsplit(back).is_ok());
    assert_eq!(buf, b"aaabbbcccddd"[..]);
    assert_eq!(buf.capacity(), 64);
    assert!(buf.try_unsplit(BytesMut::new()).is_ok());
    assert_eq!(buf.capacity(), 64);
    let back = buf.split_off(6);
    assert!(buf.try_unsplit_given(back, false, false).is_ok());
    assert_eq!(buf, b"aaabbbcccddd"[..]);
    assert_eq!(buf.capacity(), 128);
}
