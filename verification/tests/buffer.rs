use bytes::BytesMut;
use may_minihttp::buffer::{can_hold, fits, growth, reserve_buf, BUF_LEN, MIN_SPARE};

#[test]
fn growth_brings_spare_room_back_to_the_full_length() {
    assert_eq!(growth(BUF_LEN, 0), None);
    assert_eq!(growth(2000, 976), None);
    assert_eq!(growth(2000, 977), Some(BUF_LEN - 1023));
    assert_eq!(growth(2000, 2000), Some(32768));
    assert_eq!(growth(0, 0), Some(32768));
}

#[test]
fn reserving_keeps_the_contents_and_gives_room() {
    let mut buf = BytesMut::with_capacity(16);
    buf.extend_from_slice(b"0123456789");
    reserve_buf(&mut buf);
    assert_eq!(&buf[..], b"0123456789");
    assert!(buf.capacity() - buf.len() >= MIN_SPARE);

    let roomy = buf.capacity();
    reserve_buf(&mut buf);
    assert_eq!(buf.capacity(), roomy);
    assert_eq!(&buf[..], b"0123456789");
}

#[test]
fn making_room_a_second_time_changes_nothing() {
    let mut buf = BytesMut::with_capacity(100);
    buf.extend_from_slice(&[7; 90]);
    reserve_buf(&mut buf);
    let (capacity, contents) = (buf.capacity(), buf.to_vec());
    assert!(capacity - buf.len() >= BUF_LEN - 10);
    reserve_buf(&mut buf);
    assert_eq!((buf.capacity(), buf.to_vec()), (capacity, contents));
}

#[test]
fn a_quarter_of_the_largest_allocation_fits() {
    assert!(fits(0));
    assert!(fits(isize::MAX as usize / 4));
    assert!(!fits(isize::MAX as usize / 4 + 1));
    assert!(!fits(usize::MAX));
}

#[test]
fn no_more_can_be_held_than_can_be_allocated() {
    assert!(can_hold(0));
    assert!(can_hold(isize::MAX as usize));
    assert!(!can_hold(isize::MAX as usize + 1));
}
