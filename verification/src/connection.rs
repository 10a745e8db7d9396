//! What an HTTP connection does with the requests it receives.

use bytes::BytesMut;
use vstd::prelude::*;

use crate::buffer::{buffer_bytes, fits_buffer, BUF_LEN};
use crate::error::ServeError;
use crate::handshake::{accept_text, answer_upgrade, switching_protocols_bytes};
use crate::request::{asks_for_websocket, is_websocket_upgrade, websocket_key, Request};

verus! {

/// The room that the buffer for a response's body starts with.
pub const BODY_BUF_LEN: usize = 4096;

/// The buffers of a connection.
#[derive(Debug)]
pub struct Buffers {
    /// What has been received and not been parsed.
    pub requests: BytesMut,
    /// What waits to be written.
    pub responses: BytesMut,
    /// Where the body of a response may grow.
    pub body: BytesMut,
}

impl Buffers {
    /// The empty buffers of a new connection, made with [`BUF_LEN`] bytes of room for requests
    /// and for responses and [`BODY_BUF_LEN`] for bodies.
    pub fn new() -> (buffers: Buffers)
        ensures
            call_ensures(BytesMut::with_capacity, (BUF_LEN,), buffers.requests),
            call_ensures(BytesMut::with_capacity, (BUF_LEN,), buffers.responses),
            call_ensures(BytesMut::with_capacity, (BODY_BUF_LEN,), buffers.body),
            buffer_bytes(buffers.requests) == Seq::<u8>::empty(),
            buffer_bytes(buffers.responses) == Seq::<u8>::empty(),
            buffer_bytes(buffers.body) == Seq::<u8>::empty(),
    {
        Buffers {
            requests: BytesMut::with_capacity(BUF_LEN),
            responses: BytesMut::with_capacity(BUF_LEN),
            body: BytesMut::with_capacity(BODY_BUF_LEN),
        }
    }
}

/// What the connection asks for next.
#[derive(Debug)]
pub enum ConnAction<B> {
    /// Read from the socket what it has to give, behind what the request buffer holds.
    Read,
    /// Parse a request out of the request buffer.
    Decode,
    /// Have the service answer a request.
    Serve(Request<B>),
    /// Write all of the response buffer to the socket: the handshake of a WebSocket
    /// connection.
    WriteHandshake,
    /// Go on as a WebSocket connection to this path.
    Upgrade { path: String },
    /// Write as much of the response buffer to the socket as it takes.
    Write,
    /// Wait until the socket is ready.
    Wait,
    /// The connection has ended with this error.
    Fail(ServeError),
}

/// What came of the action that the connection asked for.
#[derive(Debug)]
pub enum ConnEvent<B> {
    /// The connection is new; nothing has been asked for yet.
    Opened,
    /// A read has ended; the flag says whether the socket had no more to give.
    Read(Result<bool, ServeError>),
    /// The parser has looked at the request buffer; there may be no whole request in it.
    Decoded(std::io::Result<Option<Request<B>>>),
    /// The service has answered the request.
    Served,
    /// The handshake has been written.
    HandshakeWritten(std::io::Result<()>),
    /// A write has ended.
    Written(Result<usize, ServeError>),
    /// The socket is ready.
    Waited,
}

/// [`ConnAction`] in terms of its contents.
pub enum ConnActionView<B> {
    Read,
    Decode,
    Serve(Request<B>),
    WriteHandshake,
    Upgrade { path: Seq<char> },
    Write,
    Wait,
    Fail(ServeError),
}

impl<B> View for ConnAction<B> {
    type V = ConnActionView<B>;

    open spec fn view(&self) -> ConnActionView<B> {
        match *self {
            ConnAction::Read => ConnActionView::Read,
            ConnAction::Decode => ConnActionView::Decode,
            ConnAction::Serve(req) => ConnActionView::Serve(req),
            ConnAction::WriteHandshake => ConnActionView::WriteHandshake,
            ConnAction::Upgrade { path } => ConnActionView::Upgrade { path: path@ },
            ConnAction::Write => ConnActionView::Write,
            ConnAction::Wait => ConnActionView::Wait,
            ConnAction::Fail(e) => ConnActionView::Fail(e),
        }
    }
}

/// A connection and the contents of its buffers.
pub struct ConnState {
    /// Whether the last read left the socket with nothing more to give.
    pub blocked: bool,
    /// The path of the upgrade request that was answered last.
    pub path: Seq<char>,
    /// The bytes received that have not been parsed.
    pub requests: Seq<u8>,
    /// The bytes that wait to be written.
    pub responses: Seq<u8>,
}

/// What the connection does with a request: it answers an upgrade to a WebSocket connection
/// itself, and has any other request served.
pub open spec fn next_for_request<B>(state: ConnState, req: Request<B>) -> (
    ConnState,
    ConnActionView<B>,
) {
    if asks_for_websocket(req.header_views()) {
        match websocket_key(req.header_views()) {
            Some(key) => (
                ConnState {
                    path: req.path_text(),
                    responses: switching_protocols_bytes(accept_text(key)),
                    ..state
                },
                ConnActionView::WriteHandshake,
            ),
            None => (state, ConnActionView::Fail(ServeError::MissingKey)),
        }
    } else {
        (state, ConnActionView::Serve(req))
    }
}

/// What the connection does when it learns what came of the last action.
pub open spec fn next_state<B>(state: ConnState, event: ConnEvent<B>) -> (
    ConnState,
    ConnActionView<B>,
) {
    match event {
        ConnEvent::Opened => (state, ConnActionView::Read),
        ConnEvent::Read(Ok(blocked)) => (ConnState { blocked, ..state }, ConnActionView::Decode),
        ConnEvent::Read(Err(e)) => (state, ConnActionView::Fail(e)),
        ConnEvent::Decoded(Ok(Some(req))) => next_for_request(state, req),
        ConnEvent::Decoded(Ok(None)) => (state, ConnActionView::Write),
        ConnEvent::Decoded(Err(e)) => (state, ConnActionView::Fail(ServeError::Io(e))),
        ConnEvent::Served => (
            ConnState { requests: Seq::empty(), ..state },
            ConnActionView::Decode,
        ),
        ConnEvent::HandshakeWritten(Ok(_)) => (
            ConnState { responses: Seq::empty(), ..state },
            ConnActionView::Upgrade { path: state.path },
        ),
        ConnEvent::HandshakeWritten(Err(e)) => (state, ConnActionView::Fail(ServeError::Io(e))),
        ConnEvent::Written(Ok(_)) => (
            state,
            if state.blocked {
                ConnActionView::Wait
            } else {
                ConnActionView::Read
            },
        ),
        ConnEvent::Written(Err(e)) => (state, ConnActionView::Fail(e)),
        ConnEvent::Waited => (state, ConnActionView::Read),
    }
}

/// The progress of an HTTP connection.
#[derive(Debug)]
pub struct Connection {
    blocked: bool,
    path: String,
}

impl Connection {
    /// Whether the last read left the socket with nothing more to give.
    pub closed spec fn is_blocked(&self) -> bool {
        self.blocked
    }

    /// The path of the upgrade request that was answered last.
    pub closed spec fn path_text(&self) -> Seq<char> {
        self.path@
    }

    /// The connection together with its buffers.
    pub open spec fn state(&self, req_buf: BytesMut, rsp_buf: BytesMut) -> ConnState {
        ConnState {
            blocked: self.is_blocked(),
            path: self.path_text(),
            requests: buffer_bytes(req_buf),
            responses: buffer_bytes(rsp_buf),
        }
    }

    /// A connection that has seen nothing yet.
    pub fn new() -> (connection: Connection)
        ensures
            !connection.is_blocked(),
            connection.path_text() == Seq::<char>::empty(),
    {
        Connection { blocked: false, path: String::new() }
    }

    /// Takes in what came of the last action, and says what to do next.
    pub fn step<B>(
        &mut self,
        event: ConnEvent<B>,
        req_buf: &mut BytesMut,
        rsp_buf: &mut BytesMut,
    ) -> (action: ConnAction<B>)
        requires
            event matches ConnEvent::Decoded(Ok(Some(req))) ==> (websocket_key(
                req.header_views(),
            ) matches Some(key) ==> fits_buffer(key.len() + 36)),
        ensures
            (final(self).state(*final(req_buf), *final(rsp_buf)), action@) == next_state(
                old(self).state(*old(req_buf), *old(rsp_buf)),
                event,
            ),
    {
        match event {
            ConnEvent::Opened => ConnAction::Read,
            ConnEvent::Read(Ok(blocked)) => {
                self.blocked = blocked;
                ConnAction::Decode
            },
            ConnEvent::Read(Err(e)) => ConnAction::Fail(e),
            ConnEvent::Decoded(Ok(Some(req))) => {
                if is_websocket_upgrade(&req) {
                    match answer_upgrade(&req, rsp_buf) {
                        Ok(_) => {
                            self.path = req.path().to_owned();
                            ConnAction::WriteHandshake
                        },
                        Err(e) => ConnAction::Fail(e),
                    }
                } else {
                    ConnAction::Serve(req)
                }
            },
            ConnEvent::Decoded(Ok(None)) => ConnAction::Write,
            ConnEvent::Decoded(Err(e)) => ConnAction::Fail(ServeError::Io(e)),
            ConnEvent::Served => {
                req_buf.clear();
                ConnAction::Decode
            },
            ConnEvent::HandshakeWritten(Ok(_)) => {
                rsp_buf.clear();
                ConnAction::Upgrade { path: self.path.as_str().to_owned() }
            },
            ConnEvent::HandshakeWritten(Err(e)) => ConnAction::Fail(ServeError::Io(e)),
            ConnEvent::Written(Ok(_)) => if self.blocked {
                ConnAction::Wait
            } else {
                ConnAction::Read
            },
            ConnEvent::Written(Err(e)) => ConnAction::Fail(e),
            ConnEvent::Waited => ConnAction::Read,
        }
    }
}

/// An upgrade request is always answered with the handshake for its key, and no other request
/// is: the connection never fails for want of a key. Once the handshake is written, the
/// connection goes on as a WebSocket connection to the path of that request.
pub proof fn law_upgrade_is_answered<B>(
    state: ConnState,
    req: Request<B>,
    written: ConnEvent<B>,
)
    requires
        written matches ConnEvent::HandshakeWritten(Ok(_)),
    ensures
        asks_for_websocket(req.header_views()) ==> {
            let (answering, action) = next_for_request(state, req);
            &&& websocket_key(req.header_views()) matches Some(key)
            &&& answering.responses == switching_protocols_bytes(accept_text(key))
            &&& answering.requests == state.requests
            &&& action == ConnActionView::<B>::WriteHandshake
            &&& next_state(answering, written).1 == (ConnActionView::<B>::Upgrade {
                path: req.path_text(),
            })
        },
        !asks_for_websocket(req.header_views()) ==> next_for_request(state, req) == (
            state,
            ConnActionView::Serve(req),
        ),
{
    crate::request::law_upgrade_carries_a_key(req.header_views());
}

} // verus!
