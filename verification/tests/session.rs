use bytes::BytesMut;
use may_minihttp::error::ServeError;
use may_minihttp::session::{WsAction, WsEvent, WsSession};
use may_minihttp::WsContext;
use std::io;

/// Runs a session over one read, with a service that accepts everything, and writes down
/// what it asks for.
fn run(read: &[u8], blocked: bool) -> (Vec<String>, Vec<u8>) {
    let mut read_buf = BytesMut::new();
    let mut write_buf = BytesMut::new();
    let mut ctx = WsContext::new(&mut write_buf);
    let mut session = WsSession::new("/chat".to_string());
    let mut log = Vec::new();
    let mut reads = 0;
    let mut event = WsEvent::Opened;
    loop {
        event = match session.step(event, &mut read_buf, &mut ctx) {
            WsAction::Connect { path } => {
                assert_eq!(path, "/chat");
                log.push("connect".to_string());
                WsEvent::Connected(Ok(()))
            }
            WsAction::Read => {
                reads += 1;
                if reads > 1 {
                    log.push("read".to_string());
                    break;
                }
                read_buf.extend_from_slice(read);
                WsEvent::Read(Ok(blocked))
            }
            WsAction::Message { opcode, payload } => {
                log.push(format!("message {} {:?}", opcode, payload));
                WsEvent::Handled(Ok(()))
            }
            WsAction::Close { code, reason } => {
                log.push(format!("close {} {}", code, reason));
                WsEvent::Closed(Ok(()))
            }
            WsAction::Send => {
                log.push(format!("send {:?}", ctx.pending()));
                ctx.sent();
                WsEvent::Sent
            }
            WsAction::Wait => {
                log.push("wait".to_string());
                break;
            }
            WsAction::Finish => {
                log.push("finish".to_string());
                break;
            }
            WsAction::Fail(e) => {
                log.push(format!("fail {:?}", e));
                break;
            }
            WsAction::Oversized => {
                log.push("oversized".to_string());
                break;
            }
        };
    }
    (log, read_buf.to_vec())
}

#[test]
fn messages_reach_the_service_in_order() {
    let mut read = vec![0x81, 0x02, b'h', b'i'];
    read.extend_from_slice(&[0x82, 0x83, 1, 2, 3, 4, 9 ^ 1, 8 ^ 2, 7 ^ 3]);
    read.extend_from_slice(&[0x81, 0x05, b'h']);
    let (log, left) = run(&read, true);
    assert_eq!(log, vec!["connect", "message 1 [104, 105]", "message 2 [9, 8, 7]", "wait"]);
    assert_eq!(left, vec![0x81, 0x05, b'h']);
}

#[test]
fn without_a_block_the_next_read_follows_at_once() {
    let (log, left) = run(&[0x81, 0x00], false);
    assert_eq!(log, vec!["connect", "message 1 []", "read"]);
    assert!(left.is_empty());
    let (log, _) = run(&[], true);
    assert_eq!(log, vec!["connect", "wait"]);
}

#[test]
fn a_ping_is_echoed_as_it_was_sent() {
    let (log, _) = run(&[0x89, 0x03, 1, 2, 3], true);
    assert_eq!(log, vec!["connect", "send [138, 3, 1, 2, 3]", "wait"]);
    let (log, _) = run(&[0x89, 0x81, 5, 5, 5, 5, 0x41], true);
    assert_eq!(log, vec!["connect", "send [138, 1, 65]", "wait"]);
}

#[test]
fn a_pong_is_answered_with_a_text() {
    let (log, _) = run(&[0x8A, 0x00], true);
    assert_eq!(log, vec!["connect", "send [129, 4, 112, 111, 110, 103]", "wait"]);
}

#[test]
fn an_opcode_without_meaning_is_named() {
    let (log, _) = run(&[0x80, 0x00, 0x8F, 0x01, 0x00], true);
    let mut first = vec![129, 17];
    first.extend_from_slice(b"Unknown opcode: 0");
    let mut second = vec![129, 18];
    second.extend_from_slice(b"Unknown opcode: 15");
    assert_eq!(
        log,
        vec![
            "connect".to_string(),
            format!("send {:?}", first),
            format!("send {:?}", second),
            "wait".to_string(),
        ]
    );
}

#[test]
fn a_close_frame_ends_the_session() {
    let (log, _) = run(&[0x88, 0x00, 0x81, 0x00], true);
    assert_eq!(log, vec!["connect", "close 1000 ", "send [136, 0]", "finish"]);
    let (log, _) = run(&[0x88, 0x01, 3], true);
    assert_eq!(log[1], "close 1000 ");
    let (log, _) = run(&[0x88, 0x02, 3, 0xE9], true);
    assert_eq!(log[1], "close 1001 ");
    let (log, _) = run(&[0x88, 0x05, 3, 0xE8, b'b', b'y', b'e'], true);
    assert_eq!(log[1], "close 1000 bye");
    let (log, _) = run(&[0x88, 0x04, 0xFF, 0xFF, b'b', 0xFF], true);
    assert_eq!(log[1], "close 65535 ");
}

#[test]
fn an_oversized_frame_is_reported() {
    let mut read = vec![0x81, 0x01, b'a', 0x82, 127];
    read.extend_from_slice(&[0xFF; 8]);
    let (log, _) = run(&read, true);
    assert_eq!(log, vec!["connect", "message 1 [97]", "oversized"]);
}

#[test]
fn cuts_between_reads_do_not_change_what_the_session_does() {
    let mut read = vec![0x81, 0x02, b'h', b'i'];
    read.extend_from_slice(&[0x89, 0x01, 7]);
    read.extend_from_slice(&[0x82, 0x83, 1, 2, 3, 4, 9, 8, 7]);
    let (together, _) = run(&read, true);
    let together = &together[1..together.len() - 1];
    for cut in 0..=read.len() {
        let (first, left) = run(&read[..cut], true);
        let mut rest = left;
        rest.extend_from_slice(&read[cut..]);
        let (second, left) = run(&rest, true);
        let mut split = first[1..first.len() - 1].to_vec();
        split.extend_from_slice(&second[1..second.len() - 1]);
        assert_eq!(split, together);
        assert!(left.is_empty());
    }
}

#[test]
fn every_failure_of_the_service_ends_the_session() {
    let mut read_buf = BytesMut::new();
    let mut write_buf = BytesMut::new();
    let mut ctx = WsContext::new(&mut write_buf);
    let broken = || io::Error::new(io::ErrorKind::Other, "broken");
    for event in [
        WsEvent::Connected(Err(broken())),
        WsEvent::Handled(Err(broken())),
        WsEvent::Closed(Err(broken())),
    ] {
        let mut session = WsSession::new(String::new());
        match session.step(event, &mut read_buf, &mut ctx) {
            WsAction::Fail(ServeError::Io(e)) => assert_eq!(e.to_string(), "broken"),
            other => panic!("{:?}", other),
        }
    }
    let mut session = WsSession::new(String::new());
    let action = session.step(WsEvent::Waited, &mut read_buf, &mut ctx);
    assert!(matches!(action, WsAction::Read));
}

#[test]
fn a_peer_that_hangs_up_is_told_to_the_service() {
    let mut read_buf = BytesMut::new();
    let mut write_buf = BytesMut::new();
    let mut ctx = WsContext::new(&mut write_buf);
    let mut session = WsSession::new(String::new());
    let hung_up = WsEvent::Read(Err(ServeError::ReadClosed));
    match session.step(hung_up, &mut read_buf, &mut ctx) {
        WsAction::Close { code, reason } => assert_eq!((code, reason.as_str()), (1006, "")),
        other => panic!("{:?}", other),
    }
    let action = session.step(WsEvent::Closed(Ok(())), &mut read_buf, &mut ctx);
    assert!(matches!(action, WsAction::Fail(ServeError::ReadClosed)));
    assert!(ctx.pending().is_empty());
}

#[test]
fn a_connection_that_breaks_is_told_to_the_service() {
    let mut read_buf = BytesMut::new();
    let mut write_buf = BytesMut::new();
    let mut ctx = WsContext::new(&mut write_buf);
    let reset = || io::Error::new(io::ErrorKind::ConnectionReset, "reset");
    let broken = || io::Error::new(io::ErrorKind::Other, "broken");
    for (told, words) in [(Ok(()), "reset"), (Err(broken()), "broken")] {
        let mut session = WsSession::new(String::new());
        let failed = WsEvent::Read(Err(ServeError::Io(reset())));
        let action = session.step(failed, &mut read_buf, &mut ctx);
        assert!(matches!(action, WsAction::Close { code: 1006, .. }));
        match session.step(WsEvent::Closed(told), &mut read_buf, &mut ctx) {
            WsAction::Fail(ServeError::Io(e)) => assert_eq!(e.to_string(), words),
            other => panic!("{:?}", other),
        }
        assert!(ctx.pending().is_empty());
    }
}
