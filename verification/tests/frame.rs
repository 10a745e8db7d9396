use bytes::BytesMut;
use may_minihttp::frame::{scan_frame, unmasked_payload, Frame, Scan, BINARY, CLOSE, PING, PONG, TEXT};
use may_minihttp::WsContext;

fn built(opcode: u8, payload: &[u8]) -> Vec<u8> {
    let mut buf = BytesMut::new();
    let mut ctx = WsContext::new(&mut buf);
    ctx.send_frame(opcode, payload);
    ctx.pending().to_vec()
}

fn masked(opcode: u8, mask: [u8; 4], payload: &[u8]) -> Vec<u8> {
    let mut bytes = vec![0x80 | opcode];
    if payload.len() < 126 {
        bytes.push(0x80 | payload.len() as u8);
    } else if payload.len() < 65536 {
        bytes.push(0x80 | 126);
        bytes.extend_from_slice(&(payload.len() as u16).to_be_bytes());
    } else {
        bytes.push(0x80 | 127);
        bytes.extend_from_slice(&(payload.len() as u64).to_be_bytes());
    }
    bytes.extend_from_slice(&mask);
    for (i, b) in payload.iter().enumerate() {
        bytes.push(b ^ mask[i % 4]);
    }
    bytes
}

fn whole(scan: Scan) -> Frame {
    match scan {
        Scan::Whole(frame) => frame,
        other => panic!("no whole frame: {:?}", other),
    }
}

fn frames(bytes: &[u8]) -> (Vec<(u8, Vec<u8>)>, usize) {
    let mut found = Vec::new();
    let mut at = 0;
    while let Scan::Whole(frame) = scan_frame(bytes, at) {
        found.push((frame.opcode, unmasked_payload(bytes, &frame)));
        at = frame.end;
    }
    (found, at)
}

#[test]
fn opcodes_are_those_of_the_protocol() {
    assert_eq!((TEXT, BINARY, CLOSE, PING, PONG), (1, 2, 8, 9, 10));
}

#[test]
fn a_text_message_is_one_unmasked_frame() {
    let mut buf = BytesMut::new();
    buf.extend_from_slice(b"left over");
    let mut ctx = WsContext::new(&mut buf);
    assert_eq!(ctx.pending(), b"left over");
    ctx.send_text("Hello");
    assert_eq!(ctx.pending(), &[0x81, 0x05, b'H', b'e', b'l', b'l', b'o'][..]);
    ctx.sent();
    assert_eq!(ctx.pending(), b"");
    assert!(buf.is_empty());
}

#[test]
fn a_binary_message_is_one_unmasked_frame() {
    let mut buf = BytesMut::new();
    let mut ctx = WsContext::new(&mut buf);
    ctx.send_binary(&[0, 255, 7]);
    assert_eq!(ctx.pending(), &[0x82, 0x03, 0, 255, 7][..]);
    ctx.send_binary(&[]);
    assert_eq!(ctx.pending(), &[0x82, 0x00][..]);
}

#[test]
fn the_length_takes_one_three_or_nine_bytes() {
    let short = built(TEXT, &[b'a'; 125]);
    assert_eq!(&short[..2], &[0x81, 125][..]);
    assert_eq!(short.len(), 127);

    let medium = built(TEXT, &[b'a'; 126]);
    assert_eq!(&medium[..4], &[0x81, 126, 0, 126][..]);
    assert_eq!(medium.len(), 130);

    let largest_medium = built(BINARY, &vec![1; 65535]);
    assert_eq!(&largest_medium[..4], &[0x82, 126, 0xFF, 0xFF][..]);
    assert_eq!(largest_medium.len(), 65539);

    let long = built(BINARY, &vec![1; 65536]);
    assert_eq!(&long[..10], &[0x82, 127, 0, 0, 0, 0, 0, 1, 0, 0][..]);
    assert_eq!(long.len(), 65546);
    assert!(long[10..].iter().all(|b| *b == 1));
}

#[test]
fn a_sent_frame_reads_back() {
    for length in [0usize, 1, 125, 126, 127, 65535, 65536, 70000] {
        let payload: Vec<u8> = (0..length).map(|i| (i * 7 % 251) as u8).collect();
        let mut bytes = built(PONG, &payload);
        let end = bytes.len();
        bytes.extend_from_slice(b"more");
        let frame = whole(scan_frame(&bytes, 0));
        assert!(frame.fin);
        assert_eq!(frame.opcode, PONG);
        assert!(!frame.masked);
        assert_eq!(frame.end, end);
        assert_eq!(&bytes[frame.payload_at..frame.end], &payload[..]);
        assert_eq!(unmasked_payload(&bytes, &frame), payload);
    }
}

#[test]
fn only_four_bits_of_an_opcode_survive() {
    let bytes = built(0x71, b"x");
    assert_eq!(bytes[0], 0xF1);
    assert_eq!(whole(scan_frame(&bytes, 0)).opcode, 1);
}

#[test]
fn a_masked_frame_reads_back() {
    let hello = [0x81, 0x85, 0x37, 0xfa, 0x21, 0x3d, 0x7f, 0x9f, 0x4d, 0x51, 0x58];
    let frame = whole(scan_frame(&hello, 0));
    assert_eq!(
        frame,
        Frame { fin: true, opcode: TEXT, masked: true, payload_at: 6, end: 11 }
    );
    assert_eq!(unmasked_payload(&hello, &frame), b"Hello");

    for length in [0usize, 3, 125, 126, 65535, 65536] {
        let payload: Vec<u8> = (0..length).map(|i| (i % 256) as u8).collect();
        let bytes = masked(BINARY, [0xA5, 0x00, 0x5A, 0xFF], &payload);
        let frame = whole(scan_frame(&bytes, 0));
        assert!(frame.masked);
        assert_eq!(frame.end, bytes.len());
        assert_eq!(unmasked_payload(&bytes, &frame), payload);
    }
}

#[test]
fn masking_twice_restores_the_data() {
    let mask = [1, 2, 3, 4];
    let once = masked(BINARY, mask, b"secret words");
    let raw = &once[6..];
    assert_ne!(raw, b"secret words");
    let twice = masked(BINARY, mask, raw);
    assert_eq!(&twice[6..], b"secret words");
}

#[test]
fn an_unfinished_frame_is_partial() {
    for bytes in [built(TEXT, &[9; 5]), built(TEXT, &[9; 300]), masked(TEXT, [1, 2, 3, 4], &[9; 200])] {
        for cut in 0..bytes.len() {
            assert_eq!(scan_frame(&bytes[..cut], 0), Scan::Partial);
        }
        assert!(matches!(scan_frame(&bytes, 0), Scan::Whole(_)));
    }
    assert_eq!(scan_frame(&[], 0), Scan::Partial);
}

#[test]
fn a_frame_that_no_index_can_end_is_oversized() {
    let mut bytes = vec![0x82, 127];
    bytes.extend_from_slice(&u64::MAX.to_be_bytes());
    assert_eq!(scan_frame(&bytes, 0), Scan::Oversized);

    let mut announced = vec![0x82, 127];
    announced.extend_from_slice(&(u64::MAX - 10).to_be_bytes());
    assert_eq!(scan_frame(&announced, 0), Scan::Partial);
    announced.insert(0, 0);
    assert_eq!(scan_frame(&announced, 1), Scan::Oversized);
}

#[test]
fn a_frame_may_be_no_last_one() {
    let frame = whole(scan_frame(&[0x01, 0x01, b'a'], 0));
    assert!(!frame.fin);
    assert_eq!(frame.opcode, TEXT);
}

#[test]
fn frames_lie_behind_one_another() {
    let mut bytes = built(TEXT, b"one");
    bytes.extend_from_slice(&built(PING, b""));
    bytes.extend_from_slice(&masked(BINARY, [7, 7, 7, 7], b"three"));
    let whole_len = bytes.len();
    bytes.extend_from_slice(&[0x81, 0x02, b'x']);
    let (found, end) = frames(&bytes);
    assert_eq!(
        found,
        vec![(TEXT, b"one".to_vec()), (PING, vec![]), (BINARY, b"three".to_vec())]
    );
    assert_eq!(end, whole_len);
    for (_, payload) in &found {
        assert!(payload.len() <= bytes.len());
    }
}

#[test]
fn cuts_between_reads_do_not_matter() {
    let mut bytes = built(TEXT, b"first");
    bytes.extend_from_slice(&masked(BINARY, [1, 2, 3, 4], &[5; 130]));
    bytes.extend_from_slice(&built(PONG, b"last"));
    let (together, _) = frames(&bytes);
    assert_eq!(together.len(), 3);
    for cut in 0..=bytes.len() {
        let (mut found, end) = frames(&bytes[..cut]);
        let (later, _) = frames(&bytes[end..]);
        found.extend(later);
        assert_eq!(found, together);
    }
}

#[test]
fn more_bytes_leave_a_found_frame_alone() {
    let mut bytes = masked(TEXT, [9, 8, 7, 6], b"steady");
    let frame = whole(scan_frame(&bytes, 0));
    bytes.extend_from_slice(&[0xFF; 40]);
    assert_eq!(whole(scan_frame(&bytes, 0)), frame);
    assert_eq!(unmasked_payload(&bytes, &frame), b"steady");
}
