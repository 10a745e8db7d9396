//! How a client reads an answer: line by line up to the blank line, and then the body.

use vstd::prelude::*;
use vstd::utf8::{encode_utf8, is_ascii_chars, is_ascii_chars_encode_utf8};

use crate::handshake::{is_base64_text, switching_protocols_bytes};
use crate::response::{
    error_bytes, head_bytes, header_lines, response_bytes, status_line, ResponseView,
};
use crate::text::{decimal, decimal_value, law_decimal_reads_back};

verus! {

/// Whether a line break stands at index `i`.
pub open spec fn breaks_at(bytes: Seq<u8>, i: int) -> bool {
    0 <= i < bytes.len() - 1 && bytes[i] == 13 && bytes[i + 1] == 10
}

/// The number of bytes in front of the first line break, or of all bytes if there is none.
pub open spec fn line_len(bytes: Seq<u8>) -> nat
    decreases bytes.len(),
{
    if bytes.len() == 0 || breaks_at(bytes, 0) {
        0
    } else {
        1 + line_len(bytes.drop_first())
    }
}

/// The lines in front of the first blank line, and what follows it; nothing if there is no
/// blank line.
pub open spec fn read_answer(bytes: Seq<u8>) -> Option<(Seq<Seq<u8>>, Seq<u8>)>
    decreases bytes.len(),
{
    let n = line_len(bytes) as int;
    if !breaks_at(bytes, n) {
        None
    } else if n == 0 {
        Some((Seq::empty(), bytes.skip(2)))
    } else {
        match read_answer(bytes.skip(n + 2)) {
            Some((lines, body)) => Some((seq![bytes.take(n)] + lines, body)),
            None => None,
        }
    }
}

/// Whether the bytes hold no line break.
pub open spec fn unbroken(bytes: Seq<u8>) -> bool {
    forall|i: int| !breaks_at(bytes, i)
}

/// The lines one after another, each with a line break behind it.
pub open spec fn joined(lines: Seq<Seq<u8>>) -> Seq<u8>
    decreases lines.len(),
{
    if lines.len() == 0 {
        Seq::empty()
    } else {
        lines[0] + seq![13u8, 10u8] + joined(lines.drop_first())
    }
}

proof fn lemma_line_len(line: Seq<u8>, rest: Seq<u8>)
    requires
        unbroken(line),
    ensures
        line_len(line + seq![13u8, 10u8] + rest) == line.len(),
        breaks_at(line + seq![13u8, 10u8] + rest, line.len() as int),
    decreases line.len(),
{
    let bytes = line + seq![13u8, 10u8] + rest;
    if line.len() > 0 {
        let shorter = line.drop_first();
        assert forall|i: int| !breaks_at(shorter, i) by {
            assert(!breaks_at(line, i + 1));
        }
        lemma_line_len(shorter, rest);
        assert(bytes.drop_first() =~= shorter + seq![13u8, 10u8] + rest);
        assert(!breaks_at(line, 0));
    }
}

proof fn lemma_joined_reads_back(lines: Seq<Seq<u8>>, body: Seq<u8>)
    requires
        forall|i: int| 0 <= i < lines.len() ==> #[trigger] lines[i].len() > 0 && unbroken(lines[i]),
    ensures
        read_answer(joined(lines) + seq![13u8, 10u8] + body) == Some((lines, body)),
    decreases lines.len(),
{
    let bytes = joined(lines) + seq![13u8, 10u8] + body;
    if lines.len() == 0 {
        lemma_line_len(Seq::empty(), body);
        assert(bytes =~= Seq::<u8>::empty() + seq![13u8, 10u8] + body);
        assert(bytes.skip(2) =~= body);
        assert(lines =~= Seq::empty());
    } else {
        let others = lines.drop_first();
        let rest = joined(others) + seq![13u8, 10u8] + body;
        let n = lines[0].len() as int;
        lemma_line_len(lines[0], rest);
        assert(bytes =~= lines[0] + seq![13u8, 10u8] + rest);
        assert(bytes.skip(n + 2) =~= rest);
        assert(bytes.take(n) =~= lines[0]);
        assert forall|i: int| 0 <= i < others.len() implies #[trigger] others[i].len() > 0
            && unbroken(others[i]) by {
            assert(others[i] == lines[i + 1]);
        }
        lemma_joined_reads_back(others, body);
        assert(seq![lines[0]] + others =~= lines);
    }
}

/// The lines that every answer of a service has, and then its own header lines.
pub open spec fn answer_lines(
    status: Seq<u8>,
    date: Seq<u8>,
    length: nat,
    headers: Seq<Seq<char>>,
) -> Seq<Seq<u8>> {
    seq![
        status,
        encode_utf8("Server: M"@),
        encode_utf8("Date: "@) + date,
        encode_utf8("Content-Length: "@) + decimal(length),
    ] + headers.map_values(|line: Seq<char>| encode_utf8(line))
}

/// The length of the body, as the lines in front of it give it.
pub open spec fn content_length(lines: Seq<Seq<u8>>) -> int {
    decimal_value(lines[3].skip(16))
}

proof fn lemma_joined_push(lines: Seq<Seq<u8>>, line: Seq<u8>)
    ensures
        joined(lines.push(line)) == joined(lines) + line + seq![13u8, 10u8],
    decreases lines.len(),
{
    let all = lines.push(line);
    if lines.len() == 0 {
        assert(all.drop_first() =~= Seq::empty());
        assert(joined(Seq::empty()) =~= Seq::empty());
        assert(joined(all) =~= joined(lines) + line + seq![13u8, 10u8]);
    } else {
        lemma_joined_push(lines.drop_first(), line);
        assert(all.drop_first() =~= lines.drop_first().push(line));
        assert(joined(all) =~= joined(lines) + line + seq![13u8, 10u8]);
    }
}

proof fn lemma_head_is_joined(
    status: Seq<u8>,
    date: Seq<u8>,
    length: nat,
    headers: Seq<Seq<char>>,
)
    ensures
        head_bytes(status, date, length, headers) + seq![13u8, 10u8] == joined(
            answer_lines(status, date, length, headers),
        ),
    decreases headers.len(),
{
    let lines = answer_lines(status, date, length, headers);
    reveal_strlit("\r\n");
    is_ascii_chars_encode_utf8("\r\n"@);
    assert(encode_utf8("\r\n"@) =~= seq![13u8, 10u8]);
    if headers.len() == 0 {
        reveal_strlit("\r\nServer: M\r\nDate: ");
        reveal_strlit("Server: M");
        reveal_strlit("Date: ");
        reveal_strlit("\r\nContent-Length: ");
        reveal_strlit("Content-Length: ");
        is_ascii_chars_encode_utf8("\r\nServer: M\r\nDate: "@);
        is_ascii_chars_encode_utf8("Server: M"@);
        is_ascii_chars_encode_utf8("Date: "@);
        is_ascii_chars_encode_utf8("\r\nContent-Length: "@);
        is_ascii_chars_encode_utf8("Content-Length: "@);
        assert(encode_utf8("\r\nServer: M\r\nDate: "@) =~= seq![13u8, 10u8] + encode_utf8(
            "Server: M"@,
        ) + seq![13u8, 10u8] + encode_utf8("Date: "@));
        assert(encode_utf8("\r\nContent-Length: "@) =~= seq![13u8, 10u8] + encode_utf8(
            "Content-Length: "@,
        ));
        let none = Seq::<Seq<u8>>::empty();
        let one = none.push(lines[0]);
        let two = one.push(lines[1]);
        let three = two.push(lines[2]);
        lemma_joined_push(none, lines[0]);
        lemma_joined_push(one, lines[1]);
        lemma_joined_push(two, lines[2]);
        lemma_joined_push(three, lines[3]);
        assert(lines =~= three.push(lines[3]));
        assert(joined(none) =~= Seq::empty());
        assert(head_bytes(status, date, length, headers) + seq![13u8, 10u8] =~= joined(lines));
    } else {
        let fewer = headers.drop_last();
        lemma_head_is_joined(status, date, length, fewer);
        let before = answer_lines(status, date, length, fewer);
        lemma_joined_push(before, encode_utf8(headers.last()));
        assert(lines =~= before.push(encode_utf8(headers.last())));
        assert(head_bytes(status, date, length, headers) + seq![13u8, 10u8] =~= joined(lines));
    }
}

/// Whether the parts that come from outside each make one line, and no blank one.
pub open spec fn makes_lines(date: Seq<u8>, headers: Seq<Seq<char>>) -> bool {
    &&& unbroken(date)
    &&& forall|i: int|
        0 <= i < headers.len() ==> encode_utf8(#[trigger] headers[i]).len() > 0 && unbroken(
            encode_utf8(headers[i]),
        )
}

/// A prefix without a carriage return adds no line break to what follows it.
proof fn lemma_unbroken_behind(prefix: Seq<u8>, bytes: Seq<u8>)
    requires
        forall|i: int| 0 <= i < prefix.len() ==> prefix[i] != 13,
        unbroken(bytes),
    ensures
        unbroken(prefix + bytes),
{
    let all = prefix + bytes;
    assert forall|i: int| !breaks_at(all, i) by {
        if i >= prefix.len() {
            assert(!breaks_at(bytes, i - prefix.len()));
        }
    }
}

proof fn lemma_answer_reads_back(
    status: Seq<u8>,
    date: Seq<u8>,
    headers: Seq<Seq<char>>,
    body: Seq<u8>,
    rest: Seq<u8>,
)
    requires
        status.len() > 0,
        unbroken(status),
        makes_lines(date, headers),
    ensures
        ({
            let lines = answer_lines(status, date, body.len(), headers);
            let bytes = head_bytes(status, date, body.len(), headers) + encode_utf8("\r\n\r\n"@)
                + body;
            &&& read_answer(bytes + rest) == Some((lines, body + rest))
            &&& content_length(lines) == body.len()
        }),
{
    let lines = answer_lines(status, date, body.len(), headers);
    let head = head_bytes(status, date, body.len(), headers);
    lemma_head_is_joined(status, date, body.len(), headers);
    reveal_strlit("\r\n\r\n");
    is_ascii_chars_encode_utf8("\r\n\r\n"@);
    assert(head + encode_utf8("\r\n\r\n"@) + body + rest =~= joined(lines) + seq![13u8, 10u8] + (body
        + rest));
    reveal_strlit("Server: M");
    reveal_strlit("Date: ");
    reveal_strlit("Content-Length: ");
    is_ascii_chars_encode_utf8("Server: M"@);
    is_ascii_chars_encode_utf8("Date: "@);
    is_ascii_chars_encode_utf8("Content-Length: "@);
    law_decimal_reads_back(body.len());
    assert(lines[3].skip(16) =~= decimal(body.len()));
    lemma_unbroken_behind(encode_utf8("Date: "@), date);
    lemma_unbroken_behind(encode_utf8("Content-Length: "@), decimal(body.len()));
    assert forall|i: int| 0 <= i < lines.len() implies #[trigger] lines[i].len() > 0 && unbroken(
        lines[i],
    ) by {
        if i >= 4 {
            assert(lines[i] == encode_utf8(headers[i - 4]));
        }
    }
    lemma_joined_reads_back(lines, body + rest);
}

/// A client reads a response back as the service filled it in, whatever follows it: the status
/// line, the lines that every response has, the service's header lines in their order, and
/// behind the first blank line the body, whose length the fourth line gives. The date, the
/// status message and the header lines must not hold line breaks of their own, and no header
/// line may be empty.
pub proof fn law_response_reads_back(rsp: ResponseView, date: Seq<u8>, rest: Seq<u8>)
    requires
        makes_lines(date, rsp.headers),
        rsp.code == 200 || unbroken(encode_utf8(rsp.message)),
    ensures
        ({
            let status = status_line(rsp.code, rsp.message);
            let lines = answer_lines(status, date, rsp.body().len(), rsp.headers);
            &&& read_answer(response_bytes(rsp, date) + rest) == Some((lines, rsp.body() + rest))
            &&& content_length(lines) == rsp.body().len()
        }),
{
    let status = status_line(rsp.code, rsp.message);
    assert(status.len() > 0 && unbroken(status)) by {
        reveal_strlit("HTTP/1.1 200 Ok");
        reveal_strlit("HTTP/1.1 ");
        reveal_strlit(" ");
        is_ascii_chars_encode_utf8("HTTP/1.1 200 Ok"@);
        is_ascii_chars_encode_utf8("HTTP/1.1 "@);
        is_ascii_chars_encode_utf8(" "@);
        law_decimal_reads_back(rsp.code);
        if rsp.code != 200 {
            lemma_unbroken_behind(
                encode_utf8("HTTP/1.1 "@) + decimal(rsp.code) + encode_utf8(" "@),
                encode_utf8(rsp.message),
            );
        }
    }
    lemma_answer_reads_back(status, date, rsp.headers, rsp.body(), rest);
}

/// A client reads back, behind the first blank line, exactly the bytes that were set as the
/// body, whatever their number, and before it their number.
pub proof fn law_the_body_set_reads_back(
    rsp: ResponseView,
    set: Seq<u8>,
    date: Seq<u8>,
    rest: Seq<u8>,
)
    requires
        rsp.set_body == Some(set),
        makes_lines(date, rsp.headers),
        rsp.code == 200 || unbroken(encode_utf8(rsp.message)),
    ensures
        read_answer(response_bytes(rsp, date) + rest) matches Some((lines, body)) && body == set
            + rest && lines.len() == 4 + rsp.headers.len() && lines[3] == encode_utf8(
            "Content-Length: "@,
        ) + decimal(set.len()),
{
    law_response_reads_back(rsp, date, rest);
}

/// Whatever the service filled in, the length that is written in front of the header lines is
/// the number of body bytes that are written behind them.
pub proof fn law_length_counts_the_body(rsp: ResponseView, date: Seq<u8>)
    ensures
        ({
            let status = status_line(rsp.code, rsp.message);
            let front = status + encode_utf8("\r\nServer: M\r\nDate: "@) + date + encode_utf8(
                "\r\nContent-Length: "@,
            );
            let digits = decimal(rsp.body().len());
            &&& response_bytes(rsp, date) == front + digits + header_lines(rsp.headers)
                + encode_utf8("\r\n\r\n"@) + rsp.body()
            &&& decimal_value(digits) == rsp.body().len()
        }),
{
    law_decimal_reads_back(rsp.body().len());
}

/// A client reads the answer to a request whose service failed as an internal server error
/// with the message as its body, whatever follows it.
pub proof fn law_error_reads_back(message: Seq<char>, date: Seq<u8>, rest: Seq<u8>)
    requires
        unbroken(date),
    ensures
        ({
            let status = encode_utf8("HTTP/1.1 500 Internal Server Error"@);
            let body = encode_utf8(message);
            let lines = answer_lines(status, date, body.len(), Seq::empty());
            &&& read_answer(error_bytes(message, date) + rest) == Some((lines, body + rest))
            &&& content_length(lines) == body.len()
        }),
{
    let status = encode_utf8("HTTP/1.1 500 Internal Server Error"@);
    reveal_strlit("HTTP/1.1 500 Internal Server Error");
    is_ascii_chars_encode_utf8("HTTP/1.1 500 Internal Server Error"@);
    lemma_answer_reads_back(status, date, Seq::empty(), encode_utf8(message), rest);
}

/// The lines of the answer to an upgrade request.
pub open spec fn upgrade_lines(accept: Seq<char>) -> Seq<Seq<u8>> {
    seq![
        encode_utf8("HTTP/1.1 101 Switching Protocols"@),
        encode_utf8("Upgrade: websocket"@),
        encode_utf8("Connection: Upgrade"@),
        encode_utf8("Sec-WebSocket-Accept: "@) + encode_utf8(accept),
    ]
}

/// A client reads the answer to an upgrade request back with the accept text as it was
/// computed, and finds the frames directly behind it.
pub proof fn law_upgrade_answer_reads_back(accept: Seq<char>, rest: Seq<u8>)
    requires
        is_base64_text(accept),
    ensures
        read_answer(switching_protocols_bytes(accept) + rest) == Some(
            (upgrade_lines(accept), rest),
        ),
{
    let lines = upgrade_lines(accept);
    reveal_strlit("HTTP/1.1 101 Switching Protocols\r\n");
    reveal_strlit("Upgrade: websocket\r\n");
    reveal_strlit("Connection: Upgrade\r\n");
    reveal_strlit("HTTP/1.1 101 Switching Protocols");
    reveal_strlit("Upgrade: websocket");
    reveal_strlit("Connection: Upgrade");
    reveal_strlit("Sec-WebSocket-Accept: ");
    reveal_strlit("\r\n\r\n");
    is_ascii_chars_encode_utf8("HTTP/1.1 101 Switching Protocols\r\n"@);
    is_ascii_chars_encode_utf8("Upgrade: websocket\r\n"@);
    is_ascii_chars_encode_utf8("Connection: Upgrade\r\n"@);
    is_ascii_chars_encode_utf8("HTTP/1.1 101 Switching Protocols"@);
    is_ascii_chars_encode_utf8("Upgrade: websocket"@);
    is_ascii_chars_encode_utf8("Connection: Upgrade"@);
    is_ascii_chars_encode_utf8("Sec-WebSocket-Accept: "@);
    is_ascii_chars_encode_utf8("\r\n\r\n"@);
    assert(is_ascii_chars(accept));
    is_ascii_chars_encode_utf8(accept);
    let line_break = seq![13u8, 10u8];
    assert(encode_utf8("HTTP/1.1 101 Switching Protocols\r\n"@) =~= lines[0] + line_break);
    assert(encode_utf8("Upgrade: websocket\r\n"@) =~= lines[1] + line_break);
    assert(encode_utf8("Connection: Upgrade\r\n"@) =~= lines[2] + line_break);
    assert(encode_utf8("\r\n\r\n"@) =~= line_break + line_break);
    let none = Seq::<Seq<u8>>::empty();
    let one = none.push(lines[0]);
    let two = one.push(lines[1]);
    let three = two.push(lines[2]);
    lemma_joined_push(none, lines[0]);
    lemma_joined_push(one, lines[1]);
    lemma_joined_push(two, lines[2]);
    lemma_joined_push(three, lines[3]);
    assert(lines =~= three.push(lines[3]));
    assert(joined(none) =~= Seq::empty());
    assert(switching_protocols_bytes(accept) + rest =~= joined(lines) + line_break + rest);
    assert forall|i: int| 0 <= i < encode_utf8(accept).len() implies encode_utf8(accept)[i] != 13 by {
        assert(encode_utf8(accept)[i] == accept[i] as u8);
    }
    assert forall|i: int| 0 <= i < lines.len() implies #[trigger] lines[i].len() > 0 && unbroken(
        lines[i],
    ) by {
        assert(forall|j: int| 0 <= j < lines[i].len() ==> lines[i][j] != 13);
    }
    lemma_joined_reads_back(lines, rest);
}

} // verus!
