//! Services, and how a request is answered with what a service makes of it.

use bytes::BytesMut;
use vstd::prelude::*;
use vstd::string::to_string_from_display_ensures;

use crate::buffer::{buffer_bytes, fits_buffer, holdable, make_room, reserve_buf, BUF_LEN};
use crate::request::Request;
use crate::response::{
    encode, encode_error_message, encoded_len, error_bytes, error_len, fresh_view, response_bytes,
    Response, ResponseView,
};

verus! {

/// An HTTP server: a service for requests, and one for WebSocket connections.
pub struct HttpServer<T, W>(pub T, pub W);

/// What answers requests. `B` is what the request parser hands over beside path and headers.
pub trait HttpService<B> {
    /// Fills in the response to a request, or fails.
    fn call(&mut self, req: Request<B>, rsp: &mut Response) -> std::io::Result<()>;
}

/// Whether `msg` is how the error shows itself as text.
pub open spec fn shows_as(e: std::io::Error, msg: String) -> bool {
    to_string_from_display_ensures::<std::io::Error>(&e, msg)
}

/// What appending `bytes` to a buffer comes to: they are appended if the whole can be held, and
/// else the contents are left alone.
pub open spec fn appended_if_fitting(
    before: Seq<u8>,
    bytes: Seq<u8>,
    done: bool,
    after: Seq<u8>,
) -> bool {
    &&& done == holdable(before.len() + bytes.len())
    &&& after == if done {
        before + bytes
    } else {
        before
    }
}

/// Appends the answer to a request whose service failed with this error. Says whether a buffer
/// can hold it, and leaves the contents alone if not.
pub fn encode_error(e: std::io::Error, date: &[u8], buf: &mut BytesMut) -> (done: bool)
    ensures
        exists|msg: String| #[trigger]
            shows_as(e, msg) && appended_if_fitting(
                buffer_bytes(*old(buf)),
                error_bytes(msg@, date@),
                done,
                buffer_bytes(*final(buf)),
            ),
{
    let msg = e.to_string();
    assert(shows_as(e, msg));
    if !make_room(buf, error_len(msg.as_str(), date)) {
        return false;
    }
    encode_error_message(msg.as_str(), date, buf);
    true
}

/// What the answer comes to, given how the service filled in the response and how its call
/// ended.
pub open spec fn answer_appended(
    rsp: ResponseView,
    outcome: std::io::Result<()>,
    date: Seq<u8>,
    before: Seq<u8>,
    done: bool,
    after: Seq<u8>,
) -> bool {
    match outcome {
        Ok(_) => appended_if_fitting(before, response_bytes(rsp, date), done, after),
        Err(e) => exists|msg: String| #[trigger]
            shows_as(e, msg) && appended_if_fitting(before, error_bytes(msg@, date), done, after),
    }
}

/// Appends the answer to a request: the response if the service's call ended well, else what
/// tells the client of the error. Says whether a buffer can hold the answer, and leaves the
/// contents alone if not. Either way the response's own buffer is emptied.
pub fn encode_answer(
    rsp: &mut Response,
    outcome: std::io::Result<()>,
    date: &[u8],
    buf: &mut BytesMut,
) -> (done: bool)
    ensures
        answer_appended(
            old(rsp)@,
            outcome,
            date@,
            buffer_bytes(*old(buf)),
            done,
            buffer_bytes(*final(buf)),
        ),
        final(rsp)@ == old(rsp)@.emptied(),
{
    match outcome {
        Ok(_) => {
            if !make_room(buf, encoded_len(rsp, date)) {
                rsp.clear_buffer();
                return false;
            }
            encode(rsp, date, buf);
            true
        },
        Err(e) => {
            rsp.clear_buffer();
            encode_error(e, date, buf)
        },
    }
}

/// Has a request answered by the service: `rsp_buf` is seen to have spare room, the answer is
/// appended to it, and `body_buf`, in which the body may grow, is left empty for the next
/// request. Says whether `rsp_buf` can hold the answer, and leaves its contents as they were if
/// not.
///
/// The service is called once, with the request and a response that nobody has filled in, and
/// then the clock is asked for the date. What they make of that is their own affair: the answer
/// is the one that [`encode_answer`] gives for the response as the call leaves it, for how the
/// call ends, and for the date.
pub fn respond<B, T: HttpService<B>, C: FnOnce() -> Vec<u8>>(
    service: &mut T,
    req: Request<B>,
    clock: C,
    body_buf: &mut BytesMut,
    rsp_buf: &mut BytesMut,
) -> (done: bool)
    requires
        call_requires(clock, ()),
        fits_buffer(buffer_bytes(*old(rsp_buf)).len() + BUF_LEN as nat),
    ensures
        exists|
            called: &mut T,
            rsp: &mut Response,
            outcome: std::io::Result<()>,
            date: Vec<u8>,
        |
            {
                &&& #[trigger] call_ensures(T::call, (called, req, rsp), outcome)
                &&& #[trigger] call_ensures(clock, (), date)
                &&& *called == *old(service)
                &&& *final(called) == *final(service)
                &&& rsp@ == fresh_view(buffer_bytes(*old(body_buf)))
                &&& answer_appended(
                    final(rsp)@,
                    outcome,
                    date@,
                    buffer_bytes(*old(rsp_buf)),
                    done,
                    buffer_bytes(*final(rsp_buf)),
                )
            },
        exists|roomy: &mut BytesMut| #[trigger]
            call_ensures(reserve_buf, (roomy,), ()) && *roomy == *old(rsp_buf),
        buffer_bytes(*final(body_buf)) == Seq::<u8>::empty(),
{
    reserve_buf(rsp_buf);
    let done: bool;
    {
        let mut rsp = Response::new(body_buf);
        let outcome = service.call(req, &mut rsp);
        let date = clock();
        done = encode_answer(&mut rsp, outcome, date.as_slice(), rsp_buf);
    }
    // The service may have put a response with another buffer in the place of its own.
    body_buf.clear();
    done
}

} // verus!
