//! What may be asked of whom: the operations take every input that a machine can hold.

use bytes::BytesMut;
use vstd::prelude::*;
use vstd::utf8::encode_utf8;

use crate::buffer::{buffer_bytes, growth, reserve_buf};
use crate::connection::{ConnEvent, Connection};
use crate::frame::{scan_frame, unmasked_payload, Frame, WsContext};
use crate::handshake::{accept_key, answer_upgrade};
use crate::laws::answers::{failure_on_the_wire, has_body, on_the_wire};
use crate::request::{get_websocket_key, is_websocket_upgrade, Request};
use crate::response::{encode, encode_error_message, encoded_len, error_len, Response};
use crate::service::{encode_answer, encode_error, respond, HttpService};
use crate::session::{WsEvent, WsSession};
use crate::text::{contains_ignore_ascii_case, eq_ignore_ascii_case, lenient_text};
use crate::transfer::{read_once, Direction, Outcome, Progress, Transfer};

verus! {

/// Any bytes can be compared, searched and read as text.
pub proof fn law_any_text_is_taken(a: &[u8], b: &[u8])
    ensures
        call_requires(eq_ignore_ascii_case, (a, b)),
        call_requires(contains_ignore_ascii_case, (a, b)),
        call_requires(lenient_text, (a,)),
{
}

/// Frames can be looked for at any index, and any payload can be taken out that lies within the
/// bytes.
pub proof fn law_any_bytes_are_scanned(bytes: &[u8], at: usize, frame: &Frame)
    ensures
        at <= bytes@.len() ==> call_requires(scan_frame, (bytes, at)),
        frame.payload_at <= frame.end <= bytes@.len() && (frame.masked ==> frame.payload_at >= 4)
            ==> call_requires(unmasked_payload, (bytes, frame)),
{
}

/// Any message can be sent that, with its header, can be held at all.
pub proof fn law_any_message_is_sent(text: &str, data: &[u8], opcode: u8)
    ensures
        data@.len() + 10 <= isize::MAX ==> forall|ctx: &mut WsContext| #[trigger]
            call_requires(WsContext::send_frame, (ctx, opcode, data)),
        data@.len() + 10 <= isize::MAX ==> forall|ctx: &mut WsContext| #[trigger]
            call_requires(WsContext::send_binary, (ctx, data)),
        encode_utf8(text@).len() + 10 <= isize::MAX ==> forall|ctx: &mut WsContext| #[trigger]
            call_requires(WsContext::send_text, (ctx, text)),
{
}

/// Any request can be asked whether it wants an upgrade and for its key, and is answered if a
/// quarter of the largest allocation holds the key.
pub proof fn law_any_request_is_looked_at<B>(req: &Request<B>, key: &[u8])
    ensures
        call_requires(get_websocket_key::<B>, (req,)),
        call_requires(is_websocket_upgrade::<B>, (req,)),
        4 * (key@.len() + 36) <= isize::MAX ==> call_requires(accept_key, (key,)),
        call_ensures(get_websocket_key::<B>, (req,), Some(key)) && 4 * (key@.len() + 36)
            <= isize::MAX ==> forall|buf: &mut BytesMut| #[trigger]
            call_requires(answer_upgrade::<B>, (req, buf)),
        call_ensures(get_websocket_key::<B>, (req,), None) ==> forall|buf: &mut BytesMut|
            #[trigger]
            call_requires(answer_upgrade::<B>, (req, buf)),
{
}

/// A response takes any status and any body, and header lines up to thirty-two.
pub proof fn law_any_response_is_filled_in(
    code: usize,
    msg: &'static str,
    made: String,
    bytes: Vec<u8>,
    rsp: &Response,
    date: &[u8],
)
    ensures
        forall|r: &mut Response| #[trigger] call_requires(Response::status_code, (r, code, msg)),
        forall|r: &mut Response|
            r@.headers.len() < 32 ==> #[trigger] call_requires(Response::header, (r, msg)),
        forall|r: &mut Response|
            r@.headers.len() < 32 ==> #[trigger] call_requires(Response::header_str, (r, made)),
        forall|r: &mut Response| #[trigger] call_requires(Response::body, (r, msg)),
        forall|r: &mut Response| #[trigger] call_requires(Response::body_string, (r, made)),
        forall|r: &mut Response| #[trigger] call_requires(Response::body_vec, (r, bytes)),
        forall|r: &mut Response|
            (r@.set_body matches Some(set) ==> r@.buffer.len() + set.len() <= isize::MAX)
                ==> #[trigger] call_requires(Response::body_mut, (r,)),
        call_requires(Response::get_body, (rsp,)),
        call_requires(Response::body_len, (rsp,)),
        call_requires(encoded_len, (rsp, date)),
        call_requires(error_len, (msg, date)),
{
}

/// Any answer can be asked to be appended; it is written at once where a quarter of the largest
/// allocation holds the whole.
pub proof fn law_any_answer_is_appended(
    e: std::io::Error,
    outcome: std::io::Result<()>,
    message: &str,
    date: &[u8],
    body: Seq<u8>,
)
    ensures
        forall|buf: &mut BytesMut| #[trigger] call_requires(encode_error, (e, date, buf)),
        forall|r: &mut Response, buf: &mut BytesMut| #[trigger]
            call_requires(encode_answer, (r, outcome, date, buf)),
        forall|r: &mut Response, buf: &mut BytesMut|
            has_body(r@, body) && 4 * (buffer_bytes(*buf).len() + on_the_wire(
                r@.code,
                r@.message,
                r@.headers,
                date@,
                body,
            ).len()) <= isize::MAX ==> #[trigger] call_requires(encode, (r, date, buf)),
        forall|buf: &mut BytesMut|
            4 * (buffer_bytes(*buf).len() + failure_on_the_wire(encode_utf8(message@), date@).len())
                <= isize::MAX ==> #[trigger] call_requires(
                encode_error_message,
                (message, date, buf),
            ),
{
    assert forall|r: &mut Response, buf: &mut BytesMut|
        has_body(r@, body) && 4 * (buffer_bytes(*buf).len() + on_the_wire(
            r@.code,
            r@.message,
            r@.headers,
            date@,
            body,
        ).len()) <= isize::MAX implies #[trigger] call_requires(encode, (r, date, buf)) by {
        crate::laws::answers::lemma_wire(r@, date@, body);
    }
    crate::laws::answers::lemma_failure_wire(message@, date@);
}

/// Any request is answered while the responses that wait leave room for 32768 bytes more in a
/// quarter of the largest allocation, and room is made while they do.
pub proof fn law_any_request_is_answered<B, T: HttpService<B>, C: FnOnce() -> Vec<u8>>(
    req: Request<B>,
    clock: C,
    capacity: usize,
    len: usize,
)
    ensures
        call_requires(clock, ()) ==> forall|service: &mut T, body: &mut BytesMut, buf: &mut BytesMut|
            4 * (buffer_bytes(*buf).len() + 32768) <= isize::MAX ==> #[trigger] call_requires(
                respond::<B, T, C>,
                (service, req, clock, body, buf),
            ),
        forall|buf: &mut BytesMut|
            4 * (buffer_bytes(*buf).len() + 32768) <= isize::MAX ==> #[trigger] call_requires(
                reserve_buf,
                (buf,),
            ),
        len <= capacity ==> call_requires(growth, (capacity, len)),
{
}

/// A session takes any event while the bytes received, with the header of a frame, can be held,
/// and has not dealt with more than there are.
pub proof fn law_a_session_takes_any_event(event: WsEvent, path: String)
    ensures
        call_requires(WsSession::new, (path,)),
        forall|s: &mut WsSession, read_buf: &mut BytesMut, ctx: &mut WsContext|
            s.dealt_with() <= buffer_bytes(*read_buf).len() && buffer_bytes(*read_buf).len() + 10
                <= isize::MAX ==> #[trigger] call_requires(
                WsSession::step,
                (s, event, read_buf, ctx),
            ),
{
}

/// A connection takes any event, and of requests any whose key is not beyond a quarter of the
/// largest allocation.
pub proof fn law_a_connection_takes_any_event<B>(event: ConnEvent<B>, key: &[u8])
    requires
        event matches ConnEvent::Decoded(Ok(Some(req))) ==> call_ensures(
            get_websocket_key::<B>,
            (&req,),
            None,
        ) || call_ensures(get_websocket_key::<B>, (&req,), Some(key)) && 4 * (key@.len() + 36)
            <= isize::MAX,
    ensures
        forall|c: &mut Connection, req_buf: &mut BytesMut, rsp_buf: &mut BytesMut| #[trigger]
            call_requires(Connection::step::<B>, (c, event, req_buf, rsp_buf)),
{
}

/// A transfer takes any outcome that does not move more than is left.
pub proof fn law_a_transfer_takes_any_outcome(outcome: Outcome, room: usize, buf: &BytesMut)
    ensures
        call_requires(Transfer::reading, (room,)),
        call_requires(Transfer::writing, (buf,)),
        call_requires(read_once, (room, outcome)),
        forall|t: &mut Transfer|
            t.moved() <= t.wanted() && (outcome matches Outcome::Moved(n) ==> n <= t.wanted()
                - t.moved()) ==> #[trigger] call_requires(Transfer::step, (t, outcome)),
        forall|t: &Transfer|
            t.moved() <= buffer_bytes(*buf).len() ==> #[trigger] call_requires(
                Transfer::unwritten,
                (t, buf),
            ),
        forall|t: &Transfer, into: &mut BytesMut|
            t.moved() <= buffer_bytes(*into).len() ==> #[trigger] call_requires(
                Transfer::consume,
                (t, into),
            ),
        forall|t: &Transfer, ended: &Progress|
            t.moved() <= t.wanted() && t.way() == Direction::Reading ==> #[trigger] call_requires(
                Transfer::kept,
                (t, ended),
            ),
{
}

} // verus!
