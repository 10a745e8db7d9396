use bytes::BytesMut;
use may_minihttp::error::ServeError;
use may_minihttp::transfer::{read_once, Outcome, Progress, Transfer};
use std::io;

#[test]
fn writes_keep_the_order() {
    let mut buf = BytesMut::new();
    buf.extend_from_slice(b"abcdefgh");
    let mut peer = Vec::new();
    let mut transfer = Transfer::writing(&buf);
    assert!(transfer.unfinished());
    for n in [3usize, 2] {
        peer.extend_from_slice(&transfer.unwritten(&buf)[..n]);
        assert!(matches!(transfer.step(Outcome::Moved(n)), Progress::More));
    }
    assert!(matches!(transfer.step(Outcome::WouldBlock), Progress::Stop));
    assert_eq!(transfer.consume(&mut buf), 5);
    assert_eq!(peer, b"abcde");
    assert_eq!(&buf[..], b"fgh");
}

#[test]
fn a_transfer_stops_when_all_is_moved() {
    let mut transfer = Transfer::reading(4);
    assert!(matches!(transfer.step(Outcome::Moved(1)), Progress::More));
    assert!(transfer.unfinished());
    assert!(matches!(transfer.step(Outcome::Moved(3)), Progress::Stop));
    assert!(!transfer.unfinished());
    assert_eq!(transfer.done(), 4);
    assert!(!Transfer::reading(0).unfinished());
    assert!(!Transfer::writing(&BytesMut::new()).unfinished());
}

#[test]
fn a_call_that_moves_nothing_means_a_closed_peer() {
    let mut reading = Transfer::reading(4);
    assert!(matches!(
        reading.step(Outcome::Moved(0)),
        Progress::Fail(ServeError::ReadClosed)
    ));
    let mut buf = BytesMut::new();
    buf.extend_from_slice(b"x");
    let mut writing = Transfer::writing(&buf);
    assert!(matches!(
        writing.step(Outcome::Moved(0)),
        Progress::Fail(ServeError::WriteClosed)
    ));
}

#[test]
fn a_failed_call_fails_the_transfer() {
    let mut transfer = Transfer::reading(4);
    let reset = io::Error::new(io::ErrorKind::ConnectionReset, "reset");
    match transfer.step(Outcome::Failed(reset)) {
        Progress::Fail(ServeError::Io(e)) => assert_eq!(e.to_string(), "reset"),
        other => panic!("{:?}", other),
    }
    assert_eq!(transfer.done(), 0);
}

#[test]
fn a_single_read_tells_whether_there_may_be_more() {
    assert!(matches!(read_once(10, Outcome::Moved(4)), Ok((4, true))));
    assert!(matches!(read_once(10, Outcome::Moved(10)), Ok((10, false))));
    assert!(matches!(read_once(10, Outcome::WouldBlock), Ok((0, true))));
    assert!(matches!(read_once(10, Outcome::Moved(0)), Err(ServeError::ReadClosed)));
    let reset = io::Error::new(io::ErrorKind::ConnectionReset, "reset");
    assert!(matches!(read_once(10, Outcome::Failed(reset)), Err(ServeError::Io(_))));
}

/// Reads into a room as a socket does that delivers these parts, one for each call.
fn read_parts(parts: &[Option<&[u8]>], room: usize) -> (Vec<u8>, Progress) {
    let mut area = vec![0; room];
    let mut transfer = Transfer::reading(room);
    let mut progress = Progress::More;
    let mut parts = parts.iter();
    while transfer.unfinished() && matches!(progress, Progress::More) {
        let outcome = match parts.next().unwrap() {
            Some(part) => {
                area[transfer.done()..][..part.len()].copy_from_slice(part);
                Outcome::Moved(part.len())
            }
            None => Outcome::WouldBlock,
        };
        progress = transfer.step(outcome);
    }
    area.truncate(transfer.kept(&progress));
    (area, progress)
}

#[test]
fn reads_keep_the_order() {
    let (kept, progress) = read_parts(&[Some(b"ab"), Some(b"cde"), None], 8);
    assert_eq!(kept, b"abcde");
    assert!(matches!(progress, Progress::Stop));
    let (kept, _) = read_parts(&[Some(b"ab"), Some(b"cde"), Some(b"fgh")], 8);
    assert_eq!(kept, b"abcdefgh");
}

#[test]
fn a_failed_reading_keeps_nothing() {
    let (kept, progress) = read_parts(&[Some(b"ab"), Some(b"")], 8);
    assert!(kept.is_empty());
    assert!(matches!(progress, Progress::Fail(ServeError::ReadClosed)));
}
