use bytes::BytesMut;
use may_minihttp::connection::{Buffers, ConnAction, ConnEvent, Connection};
use may_minihttp::error::ServeError;
use may_minihttp::handshake::{accept_key, answer_upgrade, switching_protocols, MAGIC_STRING};
use may_minihttp::request::{get_websocket_key, is_websocket_upgrade, Header};
use may_minihttp::response::{encode, encode_error_message, encoded_len, error_len, MAX_HEADERS};
use may_minihttp::service::{encode_answer, encode_error, respond};
use may_minihttp::transfer::{Outcome, Transfer};
use may_minihttp::{HttpServer, HttpService, Request, Response};
use std::io;

const DATE: &[u8] = b"Sun, 06 Nov 1994 08:49:37 GMT";

fn request(path: &str, headers: &[(&str, &str)]) -> Request<u32> {
    let headers = headers
        .iter()
        .map(|(name, value)| Header { name: name.to_string(), value: value.as_bytes().to_vec() })
        .collect();
    Request::new(path.to_string(), headers, 7)
}

fn upgrade_request() -> Request<u32> {
    request(
        "/chat",
        &[
            ("Host", "example.com"),
            ("UPGRADE", "WebSocket"),
            ("connection", "keep-alive, Upgrade"),
            ("Sec-Websocket-Key", "dGhlIHNhbXBsZSBub25jZQ=="),
        ],
    )
}

/// Reads an answer as a client does: the lines up to the blank line, and what follows it.
fn read_answer(bytes: &[u8]) -> (Vec<String>, Vec<u8>) {
    let mut lines = Vec::new();
    let mut rest = bytes;
    loop {
        let n = rest.windows(2).position(|w| w == b"\r\n").unwrap();
        let line = &rest[..n];
        rest = &rest[n + 2..];
        if line.is_empty() {
            return (lines, rest.to_vec());
        }
        lines.push(String::from_utf8(line.to_vec()).unwrap());
    }
}

fn encoded(rsp: &mut Response) -> Vec<u8> {
    let mut buf = BytesMut::new();
    let body = rsp.get_body().to_vec();
    assert_eq!(rsp.body_len(), body.len());
    let len = encoded_len(rsp, DATE);
    encode(rsp, DATE, &mut buf);
    assert_eq!(len, buf.len() as u128);
    assert!(buf.ends_with(&body));
    buf.to_vec()
}

#[test]
fn a_request_hands_out_its_parts() {
    let req = request("/a?b", &[("Host", "h"), ("Accept", "*")]);
    assert_eq!(req.path(), "/a?b");
    assert_eq!(req.headers().len(), 2);
    assert_eq!(req.headers()[1].name, "Accept");
    assert_eq!(req.headers()[1].value, b"*");
    assert_eq!(*req.rest(), 7);
    assert_eq!(req.into_rest(), 7);
}

#[test]
fn the_first_key_counts() {
    let req = request("/", &[("A", "1"), ("sec-websocket-key", "one"), ("Sec-WebSocket-Key", "two")]);
    assert_eq!(get_websocket_key(&req), Some(&b"one"[..]));
    assert_eq!(get_websocket_key(&request("/", &[("Sec-WebSocket-Keys", "one")])), None);
    assert_eq!(get_websocket_key(&request("/", &[])), None);
}

#[test]
fn an_upgrade_needs_all_three_headers() {
    assert!(is_websocket_upgrade(&upgrade_request()));
    assert!(get_websocket_key(&upgrade_request()).is_some());
    let parts = [("Connection", "Upgrade"), ("Upgrade", "websocket"), ("Sec-WebSocket-Key", "")];
    assert!(is_websocket_upgrade(&request("/", &parts)));
    for missing in 0..3 {
        let mut some = parts.to_vec();
        some.remove(missing);
        assert!(!is_websocket_upgrade(&request("/", &some)));
    }
    let close = [("Connection", "close"), ("Upgrade", "websocket"), ("Sec-WebSocket-Key", "k")];
    assert!(!is_websocket_upgrade(&request("/", &close)));
    let longer = [("Connection", "upgrade"), ("Upgrade", "websocket2"), ("Sec-WebSocket-Key", "k")];
    assert!(!is_websocket_upgrade(&request("/", &longer)));
}

#[test]
fn the_key_is_answered_with_its_accept_text() {
    assert_eq!(MAGIC_STRING, "258EAFA5-E914-47DA-95CA-C5AB0DC85B11");
    assert_eq!(accept_key(b"dGhlIHNhbXBsZSBub25jZQ=="), "s3pPLMBiTxaQ9kYGzzhZRbK+xOo=");
    assert_eq!(accept_key(b"").len(), 28);
    assert_ne!(accept_key(b""), accept_key(b"a"));
}

#[test]
fn an_upgrade_answer_reads_back() {
    let mut buf = BytesMut::new();
    buf.extend_from_slice(b"not yet written");
    switching_protocols("abc", &mut buf);
    assert_eq!(
        &buf[..],
        &b"HTTP/1.1 101 Switching Protocols\r\nUpgrade: websocket\r\nConnection: Upgrade\r\nSec-WebSocket-Accept: abc\r\n\r\n"[..]
    );
    assert!(answer_upgrade(&upgrade_request(), &mut buf).is_ok());
    buf.extend_from_slice(b"frames");
    let (lines, rest) = read_answer(&buf);
    assert_eq!(
        lines,
        vec![
            "HTTP/1.1 101 Switching Protocols",
            "Upgrade: websocket",
            "Connection: Upgrade",
            "Sec-WebSocket-Accept: s3pPLMBiTxaQ9kYGzzhZRbK+xOo=",
        ]
    );
    assert_eq!(rest, b"frames");
}

#[test]
fn an_upgrade_without_a_key_is_refused() {
    let mut buf = BytesMut::new();
    buf.extend_from_slice(b"kept");
    let r = answer_upgrade(&request("/", &[]), &mut buf);
    assert!(matches!(r, Err(ServeError::MissingKey)));
    assert_eq!(&buf[..], b"kept");
}

#[test]
fn a_fresh_response_is_an_empty_ok() {
    let mut body = BytesMut::new();
    let mut rsp = Response::new(&mut body);
    assert_eq!(
        encoded(&mut rsp),
        b"HTTP/1.1 200 Ok\r\nServer: M\r\nDate: Sun, 06 Nov 1994 08:49:37 GMT\r\nContent-Length: 0\r\n\r\n"
    );
}

#[test]
fn a_response_reads_back_as_it_was_filled_in() {
    let mut body = BytesMut::new();
    let mut rsp = Response::new(&mut body);
    rsp.status_code(404, "Not Found")
        .header("Content-Type: text/plain")
        .header_str(format!("X-Count: {}", 3))
        .header("X-Last: yes");
    rsp.body("gone\r\n\r\nfor good");
    let mut bytes = encoded(&mut rsp);
    bytes.extend_from_slice(b"next answer");
    let (lines, rest) = read_answer(&bytes);
    assert_eq!(
        lines,
        vec![
            "HTTP/1.1 404 Not Found",
            "Server: M",
            "Date: Sun, 06 Nov 1994 08:49:37 GMT",
            "Content-Length: 16",
            "Content-Type: text/plain",
            "X-Count: 3",
            "X-Last: yes",
        ]
    );
    let length: usize = lines[3]["Content-Length: ".len()..].parse().unwrap();
    assert_eq!(&rest[..length], b"gone\r\n\r\nfor good");
    assert_eq!(&rest[length..], b"next answer");
}

#[test]
fn the_message_of_status_200_is_always_the_same() {
    let mut body = BytesMut::new();
    let mut rsp = Response::new(&mut body);
    rsp.status_code(200, "Fine");
    assert!(encoded(&mut rsp).starts_with(b"HTTP/1.1 200 Ok\r\n"));
    rsp.status_code(usize::MAX, "");
    let first = format!("HTTP/1.1 {} \r\n", usize::MAX);
    assert!(encoded(&mut rsp).starts_with(first.as_bytes()));
    rsp.status_code(0, "Zero");
    assert!(encoded(&mut rsp).starts_with(b"HTTP/1.1 0 Zero\r\n"));
}

#[test]
fn a_response_takes_thirty_two_header_lines() {
    let mut body = BytesMut::new();
    let mut rsp = Response::new(&mut body);
    assert_eq!(MAX_HEADERS, 32);
    for i in 0..MAX_HEADERS {
        if i % 2 == 0 {
            rsp.header_str(format!("X-{}: {}", i, i));
        } else {
            rsp.header("X-Odd: 1");
        }
    }
    let (lines, _) = read_answer(&encoded(&mut rsp));
    assert_eq!(lines.len(), 36);
    assert_eq!(lines[4], "X-0: 0");
    assert_eq!(lines[5], "X-Odd: 1");
    assert_eq!(lines[34], "X-30: 30");
}

#[test]
fn the_last_body_set_counts() {
    let mut body = BytesMut::new();
    let mut rsp = Response::new(&mut body);
    rsp.body("one");
    rsp.body_string("zw\u{f6}lf".to_string());
    assert_eq!(read_answer(&encoded(&mut rsp)).1, "zw\u{f6}lf".as_bytes());
    assert_eq!(read_answer(&encoded(&mut rsp)).0[3], "Content-Length: 6");
    rsp.body_vec(vec![1, 2, 3]);
    assert_eq!(read_answer(&encoded(&mut rsp)).1, vec![1, 2, 3]);
}

#[test]
fn the_body_buffer_takes_over_what_was_set() {
    let mut body = BytesMut::new();
    let mut rsp = Response::new(&mut body);
    rsp.body_mut().extend_from_slice(b"a");
    rsp.body("b");
    assert_eq!(rsp.get_body(), b"b");
    rsp.body_mut().extend_from_slice(b"c");
    assert_eq!(rsp.get_body(), b"abc");
    rsp.body_string("d".to_string());
    rsp.body_mut();
    rsp.body_vec(b"e".to_vec());
    rsp.body_mut().extend_from_slice(b"f");
    assert_eq!(rsp.body_len(), 6);
    assert_eq!(read_answer(&encoded(&mut rsp)).1, b"abcdef");
}

#[test]
fn writing_a_response_out_empties_its_buffer() {
    let mut body = BytesMut::new();
    let mut rsp = Response::new(&mut body);
    rsp.body_mut().extend_from_slice(b"once");
    assert_eq!(read_answer(&encoded(&mut rsp)).1, b"once");
    assert_eq!(rsp.body_len(), 0);
    rsp.body_mut().extend_from_slice(b"again");
    let lost = io::Error::new(io::ErrorKind::Other, "lost");
    assert!(encode_answer(&mut rsp, Err(lost), DATE, &mut BytesMut::new()));
    assert_eq!(rsp.body_len(), 0);
}

#[test]
fn letting_go_of_a_response_empties_its_buffer() {
    let mut body = BytesMut::new();
    let mut rsp = Response::new(&mut body);
    rsp.body_mut().extend_from_slice(b"through the buffer");
    drop(rsp);
    assert!(body.is_empty());

    let mut rsp = Response::new(&mut body);
    assert_eq!(rsp.body_len(), 0);
    rsp.body_mut().extend_from_slice(b"below");
    rsp.status_code(404, "Not Found").header("A: b");
    rsp.body("set");
    drop(rsp);
    assert!(body.is_empty());

    let mut rsp = Response::new(&mut body);
    encoded(&mut rsp);
    rsp.body_mut().extend_from_slice(b"after it was written");
    drop(rsp);
    assert!(body.is_empty());
}

#[test]
fn the_length_counts_bytes_whatever_else_is_filled_in() {
    let mut body = BytesMut::new();
    let mut rsp = Response::new(&mut body);
    rsp.header("").header("Broken: a\r\n\r\nb");
    rsp.body("\u{20ac}");
    assert_eq!(rsp.body_len(), 3);
    let bytes = encoded(&mut rsp);
    assert!(bytes.windows(19).any(|w| w == b"Content-Length: 3\r\n"));
    assert!(bytes.ends_with("\u{20ac}".as_bytes()));
}

#[test]
fn an_error_reads_back_as_an_internal_server_error() {
    let mut buf = BytesMut::new();
    encode_error_message("no such table", DATE, &mut buf);
    assert_eq!(
        &buf[..],
        &b"HTTP/1.1 500 Internal Server Error\r\nServer: M\r\nDate: Sun, 06 Nov 1994 08:49:37 GMT\r\nContent-Length: 13\r\n\r\nno such table"[..]
    );
    assert_eq!(error_len("no such table", DATE), buf.len() as u128);
    let (lines, body) = read_answer(&buf);
    assert_eq!(lines.len(), 4);
    assert_eq!(body, b"no such table");

    let mut shown = BytesMut::new();
    assert!(encode_error(io::Error::new(io::ErrorKind::Other, "no such table"), DATE, &mut shown));
    assert_eq!(shown, buf);
}

struct Echo {
    calls: usize,
}

impl HttpService<u32> for Echo {
    fn call(&mut self, req: Request<u32>, rsp: &mut Response) -> io::Result<()> {
        self.calls += 1;
        if req.path() == "/fail" {
            rsp.body("thrown away");
            return Err(io::Error::new(io::ErrorKind::NotFound, "lost"));
        }
        rsp.header("X-Echo: 1");
        rsp.body_mut().extend_from_slice(req.path().as_bytes());
        Ok(())
    }
}

#[test]
fn a_service_answers_requests_one_behind_the_other() {
    let HttpServer(mut echo, _) = HttpServer(Echo { calls: 0 }, ());
    let mut buffers = Buffers::new();
    assert!(buffers.requests.is_empty() && buffers.responses.is_empty() && buffers.body.is_empty());
    assert!(buffers.requests.capacity() >= 32768 && buffers.responses.capacity() >= 32768);
    assert!(buffers.body.capacity() >= 4096);
    let mut answer = |path: &str| {
        assert!(respond(
            &mut echo,
            request(path, &[]),
            || DATE.to_vec(),
            &mut buffers.body,
            &mut buffers.responses,
        ));
        assert!(buffers.body.is_empty());
        buffers.responses.to_vec()
    };
    answer("/one");
    answer("/fail");
    let all = answer("/two");
    let (lines, rest) = read_answer(&all);
    assert_eq!(lines[0], "HTTP/1.1 200 Ok");
    assert_eq!(lines[4], "X-Echo: 1");
    assert_eq!(&rest[..4], b"/one");
    let (lines, rest) = read_answer(&rest[4..]);
    assert_eq!(lines[0], "HTTP/1.1 500 Internal Server Error");
    assert_eq!(&rest[..4], b"lost");
    let (lines, rest) = read_answer(&rest[4..]);
    assert_eq!(lines[3], "Content-Length: 4");
    assert_eq!(rest, b"/two");
    assert_eq!(echo.calls, 3);
}

#[test]
fn how_the_call_ended_decides_the_answer() {
    let mut body = BytesMut::new();
    let mut rsp = Response::new(&mut body);
    rsp.body("fine");
    let mut buf = BytesMut::new();
    assert!(encode_answer(&mut rsp, Ok(()), DATE, &mut buf));
    assert_eq!(buf, encoded(&mut rsp));
    buf.clear();
    let lost = io::Error::new(io::ErrorKind::Other, "lost");
    assert!(encode_answer(&mut rsp, Err(lost), DATE, &mut buf));
    assert_eq!(read_answer(&buf).1, b"lost");
}

fn buffers(requests: &[u8], responses: &[u8]) -> (BytesMut, BytesMut) {
    let mut req_buf = BytesMut::new();
    let mut rsp_buf = BytesMut::new();
    req_buf.extend_from_slice(requests);
    rsp_buf.extend_from_slice(responses);
    (req_buf, rsp_buf)
}

#[test]
fn a_connection_reads_parses_serves_and_writes() {
    let (mut req_buf, mut rsp_buf) = buffers(b"GET / ...", b"");
    let mut connection = Connection::new();
    let mut step = |event| connection.step::<u32>(event, &mut req_buf, &mut rsp_buf);
    assert!(matches!(step(ConnEvent::Opened), ConnAction::Read));
    assert!(matches!(step(ConnEvent::Read(Ok(true))), ConnAction::Decode));
    match step(ConnEvent::Decoded(Ok(Some(request("/x", &[]))))) {
        ConnAction::Serve(req) => assert_eq!(req.path(), "/x"),
        other => panic!("{:?}", other),
    }
    assert!(matches!(step(ConnEvent::Served), ConnAction::Decode));
    assert!(matches!(step(ConnEvent::Decoded(Ok(None))), ConnAction::Write));
    assert!(matches!(step(ConnEvent::Written(Ok(3))), ConnAction::Wait));
    assert!(matches!(step(ConnEvent::Waited), ConnAction::Read));
    assert!(matches!(step(ConnEvent::Read(Ok(false))), ConnAction::Decode));
    assert!(matches!(step(ConnEvent::Decoded(Ok(None))), ConnAction::Write));
    assert!(matches!(step(ConnEvent::Written(Ok(0))), ConnAction::Read));
    assert!(req_buf.is_empty());
}

#[test]
fn an_upgrade_request_is_answered_with_the_handshake() {
    let (mut req_buf, mut rsp_buf) = buffers(b"frames", b"unsent");
    let mut connection = Connection::new();
    let upgrade = ConnEvent::Decoded(Ok(Some(upgrade_request())));
    assert!(matches!(
        connection.step(upgrade, &mut req_buf, &mut rsp_buf),
        ConnAction::WriteHandshake
    ));
    let (lines, rest) = read_answer(&rsp_buf);
    assert_eq!(lines[3], "Sec-WebSocket-Accept: s3pPLMBiTxaQ9kYGzzhZRbK+xOo=");
    assert!(rest.is_empty());
    let written = ConnEvent::<u32>::HandshakeWritten(Ok(()));
    match connection.step(written, &mut req_buf, &mut rsp_buf) {
        ConnAction::Upgrade { path } => assert_eq!(path, "/chat"),
        other => panic!("{:?}", other),
    }
    assert!(rsp_buf.is_empty());
    assert_eq!(&req_buf[..], b"frames");
}

#[test]
fn every_failure_ends_the_connection() {
    let broken = || io::Error::new(io::ErrorKind::Other, "broken");
    for event in [
        ConnEvent::<u32>::Decoded(Err(broken())),
        ConnEvent::HandshakeWritten(Err(broken())),
        ConnEvent::Read(Err(ServeError::Io(broken()))),
        ConnEvent::Written(Err(ServeError::Io(broken()))),
    ] {
        let (mut req_buf, mut rsp_buf) = buffers(b"r", b"s");
        match Connection::new().step(event, &mut req_buf, &mut rsp_buf) {
            ConnAction::Fail(ServeError::Io(e)) => assert_eq!(e.to_string(), "broken"),
            other => panic!("{:?}", other),
        }
        assert_eq!((&req_buf[..], &rsp_buf[..]), (&b"r"[..], &b"s"[..]));
    }
    let (mut req_buf, mut rsp_buf) = buffers(b"", b"");
    let closed = ConnEvent::<u32>::Written(Err(ServeError::WriteClosed));
    assert!(matches!(
        Connection::new().step(closed, &mut req_buf, &mut rsp_buf),
        ConnAction::Fail(ServeError::WriteClosed)
    ));
}

/// Runs a connection on which the peer sends these paths, one request for each read, and takes
/// no more than a few bytes at a time.
fn run_connection(paths: &[&str], taken_at_once: usize) -> (Vec<u8>, Vec<u8>, usize) {
    let mut echo = Echo { calls: 0 };
    let mut buffers = Buffers::new();
    let mut connection = Connection::new();
    let mut peer = Vec::new();
    let mut unread = paths.iter();
    let mut parsed = None;
    let mut event = ConnEvent::Opened;
    loop {
        event = match connection.step(event, &mut buffers.requests, &mut buffers.responses) {
            ConnAction::Read => match unread.next() {
                Some(path) => {
                    parsed = Some(request(path, &[]));
                    ConnEvent::Read(Ok(true))
                }
                None => ConnEvent::Read(Err(ServeError::ReadClosed)),
            },
            ConnAction::Decode => ConnEvent::Decoded(Ok(parsed.take())),
            ConnAction::Serve(req) => {
                let (body, responses) = (&mut buffers.body, &mut buffers.responses);
                assert!(respond(&mut echo, req, || DATE.to_vec(), body, responses));
                ConnEvent::Served
            }
            ConnAction::Write => {
                let mut transfer = Transfer::writing(&buffers.responses);
                if transfer.unfinished() {
                    let unwritten = transfer.unwritten(&buffers.responses);
                    let n = taken_at_once.min(unwritten.len());
                    peer.extend_from_slice(&unwritten[..n]);
                    transfer.step(Outcome::Moved(n));
                    transfer.step(Outcome::WouldBlock);
                }
                ConnEvent::Written(Ok(transfer.consume(&mut buffers.responses)))
            }
            ConnAction::Wait => ConnEvent::Waited,
            ConnAction::Fail(ServeError::ReadClosed) => break,
            other => panic!("{:?}", other),
        };
    }
    (peer, buffers.responses.to_vec(), echo.calls)
}

#[test]
fn answers_go_out_in_order_however_slowly_the_peer_takes_them() {
    let paths = ["/one", "/fail", "/two", "/three"];
    let (all, left, calls) = run_connection(&paths, usize::MAX);
    assert!(left.is_empty());
    assert_eq!(calls, 4);
    for taken_at_once in [1, 10, 100, 150] {
        let (mut peer, left, calls) = run_connection(&paths, taken_at_once);
        assert_eq!(calls, 4);
        assert!(all.starts_with(&peer));
        peer.extend_from_slice(&left);
        assert_eq!(peer, all);
    }
}
