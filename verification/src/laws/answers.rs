//! Responses, and what goes over the wire for them.

use bytes::BytesMut;
use vstd::prelude::*;
use vstd::string::to_string_from_display_ensures;
use vstd::utf8::encode_utf8;

use crate::buffer::buffer_bytes;
use crate::reading::{law_response_reads_back, makes_lines, read_answer, unbroken};
use crate::request::Request;
use crate::response::{
    encode, encode_error_message, encoded_len, error_len, header_lines, response_bytes, Response,
    ResponseView,
};
use crate::service::{encode_answer, encode_error, respond, HttpService};
use crate::text::decimal;

verus! {

/// The status, the lines that every response has, the response's own lines, each behind a line
/// break, a blank line, and the body.
pub open spec fn on_the_wire(
    code: nat,
    message: Seq<char>,
    headers: Seq<Seq<char>>,
    date: Seq<u8>,
    body: Seq<u8>,
) -> Seq<u8> {
    let status = if code == 200 {
        encode_utf8("HTTP/1.1 200 Ok"@)
    } else {
        encode_utf8("HTTP/1.1 "@) + decimal(code) + encode_utf8(" "@) + encode_utf8(message)
    };
    let lines = headers.fold_left(
        Seq::<u8>::empty(),
        |lines: Seq<u8>, line: Seq<char>| lines + encode_utf8("\r\n"@) + encode_utf8(line),
    );
    status + encode_utf8("\r\nServer: M\r\nDate: "@) + date + encode_utf8("\r\nContent-Length: "@)
        + decimal(body.len()) + lines + encode_utf8("\r\n\r\n"@) + body
}

/// What goes over the wire when a service fails with this message.
pub open spec fn failure_on_the_wire(message: Seq<u8>, date: Seq<u8>) -> Seq<u8> {
    encode_utf8("HTTP/1.1 500 Internal Server Error"@) + encode_utf8("\r\nServer: M\r\nDate: "@)
        + date + encode_utf8("\r\nContent-Length: "@) + decimal(message.len()) + encode_utf8(
        "\r\n\r\n"@,
    ) + message
}

/// Whether these bytes are the body: those that were set, or what the buffer holds where none
/// were.
pub open spec fn has_body(rsp: ResponseView, body: Seq<u8>) -> bool {
    match rsp.set_body {
        Some(set) => body == set,
        None => body == rsp.buffer,
    }
}

proof fn lemma_lines(headers: Seq<Seq<char>>)
    ensures
        header_lines(headers) == headers.fold_left(
            Seq::<u8>::empty(),
            |lines: Seq<u8>, line: Seq<char>| lines + encode_utf8("\r\n"@) + encode_utf8(line),
        ),
    decreases headers.len(),
{
    if headers.len() > 0 {
        lemma_lines(headers.drop_last());
    }
}

pub(crate) proof fn lemma_wire(rsp: ResponseView, date: Seq<u8>, body: Seq<u8>)
    requires
        has_body(rsp, body),
    ensures
        response_bytes(rsp, date) == on_the_wire(
            rsp.code,
            rsp.message,
            rsp.headers,
            date,
            body,
        ),
{
    lemma_lines(rsp.headers);
}

pub(crate) proof fn lemma_failure_wire(message: Seq<char>, date: Seq<u8>)
    ensures
        crate::response::error_bytes(message, date) == failure_on_the_wire(
            encode_utf8(message),
            date,
        ),
{
    let lines = header_lines(Seq::empty());
    assert(lines =~= Seq::<u8>::empty());
    assert(crate::response::error_bytes(message, date) =~= failure_on_the_wire(
        encode_utf8(message),
        date,
    ));
}

/// A new response has status 200 and no headers, and its body is what its buffer holds. It will
/// leave the buffer empty.
pub proof fn law_a_new_response(rsp: Response, body: &[u8])
    ensures
        forall|buf: &mut BytesMut|
            {
                &&& #[trigger] call_ensures(Response::new, (buf,), rsp)
                &&& call_ensures(Response::get_body, (&rsp,), body)
            } ==> {
                &&& rsp@.code == 200
                &&& rsp@.headers.len() == 0
                &&& rsp@.set_body is None
                &&& rsp@.buffer == buffer_bytes(*buf)
                &&& rsp@.left_behind.len() == 0
                &&& body@ == buffer_bytes(*buf)
            },
{
}

/// Setting the status sets the code and the message that were given, and nothing else.
pub proof fn law_the_status_given_is_set(code: usize, msg: &'static str)
    ensures
        forall|rsp: &mut Response, r: &mut Response| #[trigger]
            call_ensures(Response::status_code, (rsp, code, msg), r) ==> {
                &&& r@.code == code
                &&& r@.message == msg@
                &&& r@.headers == rsp@.headers
                &&& r@.set_body == rsp@.set_body
                &&& r@.buffer == rsp@.buffer
                &&& r@.left_behind == rsp@.left_behind
                &&& *final(rsp) == *final(r)
            },
{
}

/// A header line is added whole, behind those that were added before, and nothing else changes.
pub proof fn law_the_header_given_is_added(line: &'static str, made: String)
    ensures
        forall|rsp: &mut Response, r: &mut Response|
            #![trigger call_ensures(Response::header, (rsp, line), r)]
            call_ensures(Response::header, (rsp, line), r) ==> {
                &&& r@.headers == rsp@.headers.push(line@)
                &&& r@.code == rsp@.code
                &&& r@.message == rsp@.message
                &&& r@.set_body == rsp@.set_body
                &&& r@.buffer == rsp@.buffer
                &&& r@.left_behind == rsp@.left_behind
                &&& *final(rsp) == *final(r)
            },
        forall|rsp: &mut Response, r: &mut Response|
            #![trigger call_ensures(Response::header_str, (rsp, made), r)]
            call_ensures(Response::header_str, (rsp, made), r) ==> {
                &&& r@.headers == rsp@.headers.push(made@)
                &&& r@.code == rsp@.code
                &&& r@.message == rsp@.message
                &&& r@.set_body == rsp@.set_body
                &&& r@.buffer == rsp@.buffer
                &&& r@.left_behind == rsp@.left_behind
                &&& *final(rsp) == *final(r)
            },
{
}

/// After a body was set, the body is exactly the bytes that were given, whatever their number,
/// and its length is their number. Nothing else changes.
pub proof fn law_the_body_given_is_the_body(text: &'static str, made: String, bytes: Vec<u8>)
    ensures
        forall|rsp: &mut Response, body: &[u8], n: usize|
            {
                &&& #[trigger] call_ensures(Response::body, (rsp, text), ())
                &&& #[trigger] call_ensures(Response::get_body, (&*final(rsp),), body)
                &&& #[trigger] call_ensures(Response::body_len, (&*final(rsp),), n)
            } ==> {
                &&& body@ == encode_utf8(text@)
                &&& n == encode_utf8(text@).len()
                &&& final(rsp)@.set_body == Some(encode_utf8(text@))
                &&& same_but_body(rsp@, final(rsp)@)
            },
        forall|rsp: &mut Response, body: &[u8], n: usize|
            {
                &&& #[trigger] call_ensures(Response::body_string, (rsp, made), ())
                &&& #[trigger] call_ensures(Response::get_body, (&*final(rsp),), body)
                &&& #[trigger] call_ensures(Response::body_len, (&*final(rsp),), n)
            } ==> {
                &&& body@ == encode_utf8(made@)
                &&& n == encode_utf8(made@).len()
                &&& final(rsp)@.set_body == Some(encode_utf8(made@))
                &&& same_but_body(rsp@, final(rsp)@)
            },
        forall|rsp: &mut Response, body: &[u8], n: usize|
            {
                &&& #[trigger] call_ensures(Response::body_vec, (rsp, bytes), ())
                &&& #[trigger] call_ensures(Response::get_body, (&*final(rsp),), body)
                &&& #[trigger] call_ensures(Response::body_len, (&*final(rsp),), n)
            } ==> {
                &&& body@ == bytes@
                &&& n == bytes@.len()
                &&& final(rsp)@.set_body == Some(bytes@)
                &&& same_but_body(rsp@, final(rsp)@)
            },
{
}

/// Whether two responses differ in nothing but the body that was set.
pub open spec fn same_but_body(a: ResponseView, b: ResponseView) -> bool {
    &&& a.code == b.code
    &&& a.message == b.message
    &&& a.headers == b.headers
    &&& a.buffer == b.buffer
    &&& a.left_behind == b.left_behind
}

/// The body that a response reports is the one that was set, whole, or what its buffer holds
/// where none was.
pub proof fn law_the_body_is_reported_whole(rsp: &Response, body: &[u8], n: usize)
    requires
        call_ensures(Response::get_body, (rsp,), body),
        call_ensures(Response::body_len, (rsp,), n),
    ensures
        has_body(rsp@, body@),
        n == body@.len(),
{
}

/// The buffer that is lent out as the body holds what it held, and behind it the body that was
/// set. What is put into it is the body from then on, and it will be left empty.
pub proof fn law_the_buffer_takes_the_body_over(body: &[u8])
    ensures
        forall|rsp: &mut Response, lent: &mut BytesMut|
            {
                &&& #[trigger] call_ensures(Response::body_mut, (rsp,), lent)
                &&& call_ensures(Response::get_body, (&*final(rsp),), body)
            } ==> {
                &&& rsp@.set_body is None ==> buffer_bytes(*lent) == rsp@.buffer
                &&& rsp@.set_body is Some ==> buffer_bytes(*lent) == rsp@.buffer
                    + rsp@.set_body->0
                &&& body@ == buffer_bytes(*final(lent))
                &&& final(rsp)@.buffer == buffer_bytes(*final(lent))
                &&& final(rsp)@.set_body is None
                &&& final(rsp)@.code == rsp@.code
                &&& final(rsp)@.message == rsp@.message
                &&& final(rsp)@.headers == rsp@.headers
                &&& final(rsp)@.left_behind.len() == 0
            },
{
}

/// A response goes over the wire with its status, its header lines in their order, all of its
/// body, and the number of bytes in its body; the buffer that it is appended to keeps what it
/// held, and the response's own buffer is emptied.
pub proof fn law_a_response_goes_out_whole(date: &[u8], body: Seq<u8>)
    ensures
        forall|rsp: &mut Response, buf: &mut BytesMut|
            {
                &&& #[trigger] call_ensures(encode, (rsp, date, buf), ())
                &&& has_body(rsp@, body)
            } ==> {
                &&& buffer_bytes(*final(buf)) == buffer_bytes(*buf) + on_the_wire(
                    rsp@.code,
                    rsp@.message,
                    rsp@.headers,
                    date@,
                    body,
                )
                &&& final(rsp)@.buffer.len() == 0
                &&& final(rsp)@.left_behind.len() == 0
                &&& final(rsp)@.set_body == rsp@.set_body
                &&& final(rsp)@.code == rsp@.code
                &&& final(rsp)@.message == rsp@.message
                &&& final(rsp)@.headers == rsp@.headers
            },
{
    assert forall|rsp: &mut Response, buf: &mut BytesMut|
        {
            &&& #[trigger] call_ensures(encode, (rsp, date, buf), ())
            &&& has_body(rsp@, body)
        } implies buffer_bytes(*final(buf)) == buffer_bytes(*buf) + on_the_wire(
        rsp@.code,
        rsp@.message,
        rsp@.headers,
        date@,
        body,
    ) by {
        lemma_wire(rsp@, date@, body);
    }
}

/// A client that reads line by line gets a response back as it was filled in: its status, the
/// lines that every response has, with the date and the number of bytes in the body, its header
/// lines in their order, and behind the blank line all of its body. The date, the status message
/// and the header lines must not hold line breaks of their own, and no header line may be empty.
pub proof fn law_a_client_reads_what_was_filled_in(date: &[u8], body: Seq<u8>)
    requires
        unbroken(date@),
    ensures
        forall|rsp: &mut Response, buf: &mut BytesMut|
            {
                &&& #[trigger] call_ensures(encode, (rsp, date, buf), ())
                &&& buffer_bytes(*buf).len() == 0
                &&& rsp@.set_body == Some(body) || (rsp@.set_body is None && rsp@.buffer == body)
                &&& rsp@.code == 200 || unbroken(encode_utf8(rsp@.message))
                &&& makes_lines(date@, rsp@.headers)
            } ==> {
                &&& read_answer(buffer_bytes(*final(buf))) matches Some((lines, rest))
                &&& rest == body
                &&& lines.len() == 4 + rsp@.headers.len()
                &&& rsp@.code == 200 ==> lines[0] == encode_utf8("HTTP/1.1 200 Ok"@)
                &&& rsp@.code != 200 ==> lines[0] == encode_utf8("HTTP/1.1 "@) + decimal(rsp@.code)
                    + encode_utf8(" "@) + encode_utf8(rsp@.message)
                &&& lines[1] == encode_utf8("Server: M"@)
                &&& lines[2] == encode_utf8("Date: "@) + date@
                &&& lines[3] == encode_utf8("Content-Length: "@) + decimal(body.len())
                &&& forall|i: int|
                    0 <= i < rsp@.headers.len() ==> lines[4 + i] == encode_utf8(
                        #[trigger] rsp@.headers[i],
                    )
            },
{
    assert forall|rsp: &mut Response, buf: &mut BytesMut|
        {
            &&& #[trigger] call_ensures(encode, (rsp, date, buf), ())
            &&& buffer_bytes(*buf).len() == 0
            &&& rsp@.set_body == Some(body) || (rsp@.set_body is None && rsp@.buffer == body)
            &&& rsp@.code == 200 || unbroken(encode_utf8(rsp@.message))
            &&& makes_lines(date@, rsp@.headers)
        } implies {
        &&& read_answer(buffer_bytes(*final(buf))) matches Some((lines, rest))
        &&& rest == body
        &&& lines.len() == 4 + rsp@.headers.len()
        &&& rsp@.code == 200 ==> lines[0] == encode_utf8("HTTP/1.1 200 Ok"@)
        &&& rsp@.code != 200 ==> lines[0] == encode_utf8("HTTP/1.1 "@) + decimal(rsp@.code)
            + encode_utf8(" "@) + encode_utf8(rsp@.message)
        &&& lines[1] == encode_utf8("Server: M"@)
        &&& lines[2] == encode_utf8("Date: "@) + date@
        &&& lines[3] == encode_utf8("Content-Length: "@) + decimal(body.len())
        &&& forall|i: int|
            0 <= i < rsp@.headers.len() ==> lines[4 + i] == encode_utf8(
                #[trigger] rsp@.headers[i],
            )
    } by {
        law_response_reads_back(rsp@, date@, Seq::empty());
        let bytes = response_bytes(rsp@, date@);
        assert(buffer_bytes(*buf) + bytes =~= bytes + Seq::<u8>::empty());
        assert(rsp@.body() + Seq::<u8>::empty() =~= body);
    }
}

/// The number of bytes that a response takes is the number that writing it out appends.
pub proof fn law_the_length_is_that_of_what_goes_out(
    rsp: &Response,
    date: &[u8],
    body: Seq<u8>,
    n: u128,
)
    requires
        call_ensures(encoded_len, (rsp, date), n),
        has_body(rsp@, body),
    ensures
        n == on_the_wire(rsp@.code, rsp@.message, rsp@.headers, date@, body).len(),
{
    lemma_wire(rsp@, date@, body);
}

/// A failure goes over the wire with all of its message, and its length is that of what goes
/// out.
pub proof fn law_a_failure_goes_out_whole(message: &str, date: &[u8], n: u128)
    requires
        call_ensures(error_len, (message, date), n),
    ensures
        forall|buf: &mut BytesMut| #[trigger]
            call_ensures(encode_error_message, (message, date, buf), ()) ==> buffer_bytes(
                *final(buf),
            ) == buffer_bytes(*buf) + failure_on_the_wire(encode_utf8(message@), date@),
        n == failure_on_the_wire(encode_utf8(message@), date@).len(),
{
    lemma_failure_wire(message@, date@);
}

/// A service's error goes over the wire with the text that it shows itself as, if the whole can
/// be held, and else the buffer is left alone.
pub proof fn law_an_error_goes_out_as_it_shows(e: std::io::Error, date: &[u8])
    ensures
        forall|buf: &mut BytesMut, done: bool| #[trigger]
            call_ensures(encode_error, (e, date, buf), done) ==> exists|msg: String|
                {
                    let bytes = failure_on_the_wire(encode_utf8(msg@), date@);
                    &&& #[trigger] to_string_from_display_ensures::<std::io::Error>(&e, msg)
                    &&& done == (buffer_bytes(*buf).len() + bytes.len() <= isize::MAX)
                    &&& buffer_bytes(*final(buf)) == if done {
                        buffer_bytes(*buf) + bytes
                    } else {
                        buffer_bytes(*buf)
                    }
                },
{
    assert forall|buf: &mut BytesMut, done: bool| #[trigger]
        call_ensures(encode_error, (e, date, buf), done) implies exists|msg: String|
            {
                let bytes = failure_on_the_wire(encode_utf8(msg@), date@);
                &&& #[trigger] to_string_from_display_ensures::<std::io::Error>(&e, msg)
                &&& done == (buffer_bytes(*buf).len() + bytes.len() <= isize::MAX)
                &&& buffer_bytes(*final(buf)) == if done {
                    buffer_bytes(*buf) + bytes
                } else {
                    buffer_bytes(*buf)
                }
            } by {
        let msg = choose|msg: String| #[trigger]
            crate::service::shows_as(e, msg) && crate::service::appended_if_fitting(
                buffer_bytes(*buf),
                crate::response::error_bytes(msg@, date@),
                done,
                buffer_bytes(*final(buf)),
            );
        lemma_failure_wire(msg@, date@);
        assert(to_string_from_display_ensures::<std::io::Error>(&e, msg));
    }
}

/// Whether `after` is what appending the answer to `before` comes to: the response if the call
/// ended well, else the error as it shows itself, whole if that can be held, and nothing
/// otherwise.
pub open spec fn answered(
    rsp: ResponseView,
    outcome: std::io::Result<()>,
    date: Seq<u8>,
    before: Seq<u8>,
    done: bool,
    after: Seq<u8>,
) -> bool {
    exists|bytes: Seq<u8>|
        {
            &&& done == (before.len() + bytes.len() <= isize::MAX)
            &&& after == if done {
                #[trigger] (before + bytes)
            } else {
                before
            }
            &&& match outcome {
                Ok(_) => exists|body: Seq<u8>|
                    #[trigger] has_body(rsp, body) && bytes == on_the_wire(
                        rsp.code,
                        rsp.message,
                        rsp.headers,
                        date,
                        body,
                    ),
                Err(e) => exists|msg: String| #[trigger]
                    to_string_from_display_ensures::<std::io::Error>(&e, msg) && bytes
                        == failure_on_the_wire(encode_utf8(msg@), date),
            }
        }
}

proof fn lemma_answered(
    rsp: ResponseView,
    outcome: std::io::Result<()>,
    date: Seq<u8>,
    before: Seq<u8>,
    done: bool,
    after: Seq<u8>,
)
    requires
        crate::service::answer_appended(rsp, outcome, date, before, done, after),
    ensures
        answered(rsp, outcome, date, before, done, after),
{
    match outcome {
        Ok(_) => {
            let body = match rsp.set_body {
                Some(set) => set,
                None => rsp.buffer,
            };
            assert(has_body(rsp, body));
            lemma_wire(rsp, date, body);
            let bytes = response_bytes(rsp, date);
            assert(before + bytes == before + bytes);
        },
        Err(e) => {
            let msg = choose|msg: String| #[trigger]
                crate::service::shows_as(e, msg) && crate::service::appended_if_fitting(
                    before,
                    crate::response::error_bytes(msg@, date),
                    done,
                    after,
                );
            lemma_failure_wire(msg@, date);
            assert(to_string_from_display_ensures::<std::io::Error>(&e, msg));
            let bytes = crate::response::error_bytes(msg@, date);
            assert(before + bytes == before + bytes);
        },
    }
}

/// How the service's call ended decides between the response and the error, and the response's
/// buffer is emptied either way.
pub proof fn law_the_outcome_decides_the_answer(outcome: std::io::Result<()>, date: &[u8])
    ensures
        forall|rsp: &mut Response, buf: &mut BytesMut, done: bool| #[trigger]
            call_ensures(encode_answer, (rsp, outcome, date, buf), done) ==> {
                &&& answered(
                    rsp@,
                    outcome,
                    date@,
                    buffer_bytes(*buf),
                    done,
                    buffer_bytes(*final(buf)),
                )
                &&& final(rsp)@.buffer.len() == 0
                &&& final(rsp)@.left_behind.len() == 0
            },
{
    assert forall|rsp: &mut Response, buf: &mut BytesMut, done: bool| #[trigger]
        call_ensures(encode_answer, (rsp, outcome, date, buf), done) implies answered(
        rsp@,
        outcome,
        date@,
        buffer_bytes(*buf),
        done,
        buffer_bytes(*final(buf)),
    ) by {
        lemma_answered(
            rsp@,
            outcome,
            date@,
            buffer_bytes(*buf),
            done,
            buffer_bytes(*final(buf)),
        );
    }
}

/// A request is answered by one call of the service, with that request and a new response over
/// the body buffer: what goes behind the responses that wait is the answer that the call leads
/// to, at the date that the clock gives. The body buffer is left empty.
pub proof fn law_the_service_answers_the_request<B, T: HttpService<B>, C: FnOnce() -> Vec<u8>>(
    req: Request<B>,
    clock: C,
)
    ensures
        forall|service: &mut T, body_buf: &mut BytesMut, rsp_buf: &mut BytesMut, done: bool|
            #[trigger]
            call_ensures(respond::<B, T, C>, (service, req, clock, body_buf, rsp_buf), done) ==> {
                &&& buffer_bytes(*final(body_buf)).len() == 0
                &&& exists|
                    called: &mut T,
                    rsp: &mut Response,
                    outcome: std::io::Result<()>,
                    date: Vec<u8>,
                |
                    {
                        &&& #[trigger] call_ensures(T::call, (called, req, rsp), outcome)
                        &&& #[trigger] call_ensures(clock, (), date)
                        &&& *called == *service
                        &&& *final(called) == *final(service)
                        &&& rsp@.code == 200
                        &&& rsp@.headers.len() == 0
                        &&& rsp@.set_body is None
                        &&& rsp@.buffer == buffer_bytes(*body_buf)
                        &&& rsp@.left_behind.len() == 0
                        &&& answered(
                            final(rsp)@,
                            outcome,
                            date@,
                            buffer_bytes(*rsp_buf),
                            done,
                            buffer_bytes(*final(rsp_buf)),
                        )
                    }
            },
{
    assert forall|service: &mut T, body_buf: &mut BytesMut, rsp_buf: &mut BytesMut, done: bool|
        #[trigger]
        call_ensures(respond::<B, T, C>, (service, req, clock, body_buf, rsp_buf), done) implies
            exists|
                called: &mut T,
                rsp: &mut Response,
                outcome: std::io::Result<()>,
                date: Vec<u8>,
            |
                {
                    &&& #[trigger] call_ensures(T::call, (called, req, rsp), outcome)
                    &&& #[trigger] call_ensures(clock, (), date)
                    &&& *called == *service
                    &&& *final(called) == *final(service)
                    &&& rsp@.code == 200
                    &&& rsp@.headers.len() == 0
                    &&& rsp@.set_body is None
                    &&& rsp@.buffer == buffer_bytes(*body_buf)
                    &&& rsp@.left_behind.len() == 0
                    &&& answered(
                        final(rsp)@,
                        outcome,
                        date@,
                        buffer_bytes(*rsp_buf),
                        done,
                        buffer_bytes(*final(rsp_buf)),
                    )
                } by {
        let (called, rsp, outcome, date) = choose|
            called: &mut T,
            rsp: &mut Response,
            outcome: std::io::Result<()>,
            date: Vec<u8>,
        |
            {
                &&& #[trigger] call_ensures(T::call, (called, req, rsp), outcome)
                &&& #[trigger] call_ensures(clock, (), date)
                &&& *called == *service
                &&& *final(called) == *final(service)
                &&& rsp@ == crate::response::fresh_view(buffer_bytes(*body_buf))
                &&& crate::service::answer_appended(
                    final(rsp)@,
                    outcome,
                    date@,
                    buffer_bytes(*rsp_buf),
                    done,
                    buffer_bytes(*final(rsp_buf)),
                )
            };
        lemma_answered(
            final(rsp)@,
            outcome,
            date@,
            buffer_bytes(*rsp_buf),
            done,
            buffer_bytes(*final(rsp_buf)),
        );
    }
}

} // verus!
