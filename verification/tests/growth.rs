use rcbytes::BytesMut;

fn filled(capacity: usize, len: usize) -> BytesMut {
    let mut buf = BytesMut::with_capacity(capacity);
    for i in 0..len {
        buf.put_u8(i as u8);
    }
    assert_eq!(buf.capacity(), capacity);
    buf
}

fn numbers(from: usize, to: usize) -> Vec<u8> {
    (from..to).map(|i| i as u8).collect()
}

#[test]
fn first_allocation_has_the_smallest_size() {
    let mut buf = BytesMut::new();
    buf.reserve(10);
    assert_eq!(buf.capacity(), 64);
    let mut buf = BytesMut::new();
    buf.reserve(65);
    assert_eq!(buf.capacity(), 65);
}

#[test]
fn growth_doubles() {
    let mut buf = filled(100, 100);
    buf.reserve(1);
    assert_eq!(buf.capacity(), 200);
    assert_eq!(buf, numbers(0, 100));
    let mut buf = filled(100, 100);
    buf.reserve(500);
    assert_eq!(buf.capacity(), 600);
    let mut buf = filled(3, 3);
    buf.put_u8(9);
    assert_eq!(buf.capacity(), 64);
    assert_eq!(buf, vec![0, 1, 2, 9]);
}

#[test]
fn reserve_twice_changes_nothing() {
    let mut buf = filled(10, 10);
    buf.reserve(20);
    let capacity = buf.capacity();
    buf.reserve(20);
    buf.reserve(3);
    assert_eq!(buf.capacity(), capacity);
}

#[test]
fn sole_holder_reclaims_the_front() {
    let mut buf = filled(100, 100);
    buf.advance(60);
    assert_eq!(buf.capacity(), 40);
    buf.reserve(10);
    assert_eq!(buf.capacity(), 100);
    assert_eq!(buf, numbers(60, 100));
}

#[test]
fn sole_holder_keeps_its_offset_when_it_grows() {
    let mut buf = filled(100, 100);
    buf.advance(60);
    buf.reserve(61);
    assert_eq!(buf.capacity(), 140);
    assert_eq!(buf, numbers(60, 100));
}

#[test]
fn advanced_buffer_gets_all_the_room_it_asks_for() {
    let mut buf = filled(10, 10);
    buf.advance(9);
    buf.reserve(100);
    assert_eq!(buf.capacity(), 101);
    buf.extend_from_slice(&[7; 100]);
    assert_eq!(buf.len(), 101);
    assert_eq!(buf[0], 9);
    assert_eq!(buf[1..], [7; 100][..]);
}

#[test]
fn shared_buffer_moves_out() {
    let mut front = filled(100, 100);
    let back = front.split_off(50);
    front.reserve(1);
    assert_eq!(front.capacity(), 200);
    assert_eq!(front, numbers(0, 50));
    assert_eq!(back, numbers(50, 100));
    assert_eq!(back.capacity(), 50);
}

#[test]
fn reserve_given_either_case() {
    let mut buf = filled(100, 100);
    buf.advance(60);
    let mut other = filled(100, 100);
    other.advance(60);
    buf.reserve_given(10, true);
    other.reserve_given(10, false);
    assert_eq!(buf.capacity(), 100);
    assert_eq!(other.capacity(), 200);
    assert_eq!(buf, numbers(60, 100));
    assert_eq!(other, numbers(60, 100));
}

#[test]
fn room_is_limited() {
    let buf = filled(4, 1);
    assert!(buf.can_reserve(3));
    assert!(buf.can_reserve(isize::MAX as usize - 1));
    assert!(!buf.can_reserve(isize::MAX as usize));
    assert!(!buf.can_reserve(usize::MAX));
}

#[test]
fn room_is_limited_behind_an_offset() {
    let mut buf = filled(4, 4);
    buf.advance(2);
    assert!(buf.can_reserve(2));
    assert!(buf.can_reserve(isize::MAX as usize - 4));
    assert!(!buf.can_reserve(isize::MAX as usize - 3));
}

#[test]
fn reclaim_takes_the_only_holder() {
    let mut buf = filled(8, 8);
    let front = buf.split_to(6);
    assert!(!buf.try_reclaim(1));
    assert_eq!(buf.capacity(), 2);
    drop(front);
    assert!(!buf.try_reclaim(7));
    assert!(buf.try_reclaim(6));
    assert_eq!(buf.capacity(), 8);
    assert_eq!(buf, numbers(6, 8));
}

#[test]
fn reclaim_given_either_case() {
    let mut buf = filled(8, 8);
    buf.advance(6);
    assert!(!buf.try_reclaim_given(6, false));
    assert_eq!(buf.capacity(), 2);
    assert!(buf.try_reclaim_given(6, true));
    assert_eq!(buf.capacity(), 8);
    assert!(!buf.try_reclaim_given(0, true));
}

#[test]
fn frozen_part_keeps_the_allocation_shared() {
    let mut buf = filled(8, 8);
    let front = buf.split_to(6).freeze();
    let again = front.clone();
    drop(front);
    assert!(!buf.try_reclaim(6));
    drop(again);
    assert!(buf.try_reclaim(6));
    assert_eq!(buf, numbers(6, 8));
}

#[test]
fn resize_exact_values() {
    let mut buf = filled(4, 3);
    buf.resize(5, 9);
    assert_eq!(buf, vec![0, 1, 2, 9, 9]);
    assert_eq!(buf.capacity(), 64);
    buf.resize(2, 7);
    assert_eq!(buf, vec![0, 1]);
    assert_eq!(buf.capacity(), 64);
    buf.resize(2, 7);
    assert_eq!(buf, vec![0, 1]);
}

#[test]
fn truncate_takes_back_what_was_appended() {
    let mut buf = filled(4, 3);
    buf.extend_from_slice(&[1; 10]);
    let capacity = buf.capacity();
    buf.truncate(3);
    assert_eq!(buf, vec![0, 1, 2]);
    assert_eq!(buf.capacity(), capacity);
    buf.truncate(30);
    assert_eq!(buf, vec![0, 1, 2]);
    buf.truncate(2);
    buf.truncate(1);
    assert_eq!(buf, vec![0]);
    buf.clear();
    assert!(buf.is_empty());
    assert_eq!(buf.capacity(), capacity);
}

#[test]
fn extend_from_within_ranges() {
    let mut buf = filled(4, 4);
    buf.extend_from_within(..);
    assert_eq!(buf, vec![0, 1, 2, 3, 0, 1, 2, 3]);
    buf.extend_from_within(2..=3);
    assert_eq!(buf, vec![0, 1, 2, 3, 0, 1, 2, 3, 2, 3]);
    buf.extend_from_within(10..);
    assert_eq!(buf.len(), 10);
    buf.advance(8);
    buf.extend_from_within(..1);
    assert_eq!(buf, vec![2, 3, 2]);
}

#[test]
fn spare_capacity_can_be_written() {
    let mut buf = BytesMut::new();
    {
        let spare = buf.chunk_mut();
        assert_eq!(spare.len(), 64);
        spare[0] = 5;
        spare[1] = 6;
    }
    buf.advance_mut(1);
    assert_eq!(buf, vec![5]);
    buf.set_len(2);
    assert_eq!(buf, vec![5, 6]);
    assert_eq!(buf.chunk_mut().len(), 62);
    buf.set_len(0);
    assert!(buf.is_empty());
    assert_eq!(buf.remaining_mut(), usize::MAX);
}

#[test]
fn full_buffer_grows_for_spare_capacity() {
    let mut buf = filled(3, 3);
    assert_eq!(buf.chunk_mut().len(), 64);
    assert_eq!(buf.capacity(), 67);
    assert_eq!(buf, vec![0, 1, 2]);
}

#[test]
fn bytes_can_be_overwritten() {
    let mut buf = filled(8, 8);
    buf.advance(2);
    let back = buf.split_off(3);
    buf[0] = 100;
    buf.as_mut()[1] = 101;
    buf.as_mut_slice()[2] = 102;
    let borrowed: &mut [u8] = std::borrow::BorrowMut::borrow_mut(&mut buf);
    borrowed[2] += 1;
    assert_eq!(buf, vec![100, 101, 103]);
    assert_eq!(back, vec![5, 6, 7]);
}

#[test]
fn clone_has_its_own_allocation() {
    let mut buf = filled(8, 4);
    let mut copy = buf.clone();
    assert_eq!(copy.capacity(), 4);
    copy[0] = 50;
    buf.advance(1);
    assert_eq!(buf, vec![1, 2, 3]);
    assert_eq!(copy, vec![50, 1, 2, 3]);
    assert!(buf.try_reclaim(5));
}

#[test]
fn iterators_extend_one_byte_at_a_time() {
    let mut buf = filled(3, 3);
    buf.extend(vec![7u8; 62].into_iter());
    assert_eq!(buf.len(), 65);
    assert_eq!(buf.capacity(), 128);
    let mut buf = filled(3, 3);
    buf.extend_from_refs([8u8, 9].iter());
    assert_eq!(buf, vec![0, 1, 2, 8, 9]);
    assert_eq!(buf.capacity(), 64);
}

#[test]
fn collecting_takes_the_announced_capacity() {
    let buf = BytesMut::from_iter(vec![1u8, 2, 3].into_iter());
    assert_eq!(buf, vec![1, 2, 3]);
    assert_eq!(buf.capacity(), 3);
    let buf = BytesMut::from_iter_given(vec![1u8, 2, 3].into_iter(), 0);
    assert_eq!(buf, vec![1, 2, 3]);
    assert_eq!(buf.capacity(), 64);
    let buf = BytesMut::from_iter_given(vec![1u8, 2, 3].into_iter(), 10);
    assert_eq!(buf.capacity(), 10);
}

#[test]
fn room_in_either_case() {
    let mut buf = filled(4, 4);
    buf.advance(2);
    assert!(buf.can_reserve_given(isize::MAX as usize - 2, false));
    assert!(!buf.can_reserve_given(isize::MAX as usize - 1, false));
    assert!(buf.can_reserve_given(isize::MAX as usize - 4, true));
    assert!(!buf.can_reserve_given(isize::MAX as usize - 3, true));
}

#[test]
fn room_is_tried_for() {
    let mut buf = filled(4, 4);
    buf.advance(2);
    assert!(!buf.try_reserve(usize::MAX));
    assert_eq!(buf.capacity(), 2);
    assert!(buf.try_reserve(2));
    assert_eq!(buf.capacity(), 4);
    assert!(!buf.try_reserve_given(isize::MAX as usize, false));
    assert!(buf.try_reserve_given(3, false));
    assert_eq!(buf.capacity(), 64);
    assert_eq!(buf, vec![2, 3]);
    assert!(buf.try_append_given(&[9; 63], true));
    assert_eq!(buf.len(), 65);
    assert_eq!(buf.capacity(), 128);
}
