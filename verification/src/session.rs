//! What a WebSocket connection does with the frames it receives.

use bytes::BytesMut;
use vstd::prelude::*;
use vstd::slice::slice_subrange;
use vstd::utf8::{encode_utf8, is_ascii_chars_encode_utf8};

use crate::buffer::{advance, as_slice, be_value, buffer_bytes, holdable, read_be};
use crate::error::ServeError;
use crate::frame::{
    scan_frame, unmasked_payload, Frame, Scan, WsContext, BINARY, CLOSE, PING, PONG, TEXT,
};
use crate::text::{format_decimal, lenient_text};

verus! {

/// The close code of a close frame that carries none.
pub const NORMAL_CLOSURE: u16 = 1000;

/// The close code of a connection that ends without a close frame.
pub const ABNORMAL_CLOSURE: u16 = 1006;

/// What the session asks for next.
#[derive(Debug)]
pub enum WsAction {
    /// Tell the service that a connection to this path is open.
    Connect { path: String },
    /// Read once from the socket, behind what the read buffer holds.
    Read,
    /// Hand a message to the service.
    Message { opcode: u8, payload: Vec<u8> },
    /// Tell the service that the connection is closed. The code and the reason are those of
    /// the peer's close frame. Where reading from the peer fails, because it hung up or for
    /// another cause, they are [`ABNORMAL_CLOSURE`] and no text.
    Close { code: u16, reason: String },
    /// Write what waits in the context to the socket, whether or not that succeeds, and
    /// clear it.
    Send,
    /// Wait until the socket is ready.
    Wait,
    /// The session has ended well.
    Finish,
    /// The session has ended with this error.
    Fail(ServeError),
    /// The peer announced a frame whose end no index can name.
    Oversized,
}

/// What came of the action that the session asked for.
#[derive(Debug)]
pub enum WsEvent {
    /// The handshake has been written; nothing has been asked for yet.
    Opened,
    /// The service has seen [`WsAction::Connect`].
    Connected(std::io::Result<()>),
    /// A read has ended; the flag says whether the socket had no more to give.
    Read(Result<bool, ServeError>),
    /// The service has seen a [`WsAction::Message`].
    Handled(std::io::Result<()>),
    /// The service has seen [`WsAction::Close`].
    Closed(std::io::Result<()>),
    /// The context has been written and cleared.
    Sent,
    /// The socket is ready.
    Waited,
}

/// [`WsAction`] in terms of its contents.
pub enum WsActionView {
    Connect { path: Seq<char> },
    Read,
    Message { opcode: u8, payload: Seq<u8> },
    Close { code: nat, reason: Seq<char> },
    Send,
    Wait,
    Finish,
    Fail(ServeError),
    Oversized,
}

impl View for WsAction {
    type V = WsActionView;

    open spec fn view(&self) -> WsActionView {
        match *self {
            WsAction::Connect { path } => WsActionView::Connect { path: path@ },
            WsAction::Read => WsActionView::Read,
            WsAction::Message { opcode, payload } => WsActionView::Message {
                opcode,
                payload: payload@,
            },
            WsAction::Close { code, reason } => WsActionView::Close {
                code: code as nat,
                reason: reason@,
            },
            WsAction::Send => WsActionView::Send,
            WsAction::Wait => WsActionView::Wait,
            WsAction::Finish => WsActionView::Finish,
            WsAction::Fail(e) => WsActionView::Fail(e),
            WsAction::Oversized => WsActionView::Oversized,
        }
    }
}

/// A session, the bytes it has not consumed yet, and the bytes that wait to be sent.
pub struct WsState {
    /// Whether the last read left the socket with nothing more to give.
    pub blocked: bool,
    /// Whether the close frame is on its way.
    pub closing: bool,
    /// Why reading has failed, while the service is told that the connection is closed.
    pub ended: Option<ServeError>,
    /// The path that the connection was opened to.
    pub path: Seq<char>,
    /// How many of the bytes have been dealt with.
    pub offset: nat,
    pub bytes: Seq<u8>,
    pub pending: Seq<u8>,
}

/// The close code in a close frame's payload.
pub open spec fn close_code(payload: Seq<u8>) -> nat {
    if payload.len() >= 2 {
        be_value(payload.take(2))
    } else {
        NORMAL_CLOSURE as nat
    }
}

/// The reason in a close frame's payload.
pub open spec fn close_reason(payload: Seq<u8>) -> Seq<char> {
    if payload.len() > 2 {
        crate::text::text_or_empty(payload.skip(2))
    } else {
        Seq::empty()
    }
}

/// The text that answers a frame with an opcode of no known meaning.
pub open spec fn unknown_opcode_text(opcode: u8) -> Seq<u8> {
    encode_utf8("Unknown opcode: "@) + crate::text::decimal(opcode as nat)
}

/// What a frame is answered with by the session itself, if that is what it asks for.
pub open spec fn automatic_reply(opcode: u8, raw: Seq<u8>) -> Option<Seq<u8>> {
    if opcode == TEXT || opcode == BINARY || opcode == CLOSE {
        None
    } else if opcode == PING {
        Some(crate::frame::frame_bytes(PONG, raw))
    } else if opcode == PONG {
        Some(crate::frame::frame_bytes(TEXT, encode_utf8("pong"@)))
    } else {
        Some(crate::frame::frame_bytes(TEXT, unknown_opcode_text(opcode)))
    }
}

/// The action that a frame with these contents leads to.
pub open spec fn action_for(frame: crate::frame::FrameData) -> WsActionView {
    if frame.opcode == TEXT || frame.opcode == BINARY {
        WsActionView::Message { opcode: frame.opcode, payload: frame.clear }
    } else if frame.opcode == CLOSE {
        WsActionView::Close { code: close_code(frame.raw), reason: close_reason(frame.raw) }
    } else {
        WsActionView::Send
    }
}

/// The next frame is dealt with; without a whole one, the bytes dealt with are dropped and
/// more are asked for.
pub open spec fn next_frame(state: WsState) -> (WsState, WsActionView) {
    match crate::frame::frame_at(state.bytes, state.offset as int) {
        Scan::Whole(frame) => {
            let data = crate::frame::frame_data(state.bytes, frame);
            let pending = match automatic_reply(data.opcode, data.raw) {
                Some(reply) => reply,
                None => state.pending,
            };
            (WsState { offset: frame.end as nat, pending, ..state }, action_for(data))
        },
        Scan::Oversized => (state, WsActionView::Oversized),
        Scan::Partial => (
            WsState { offset: 0, bytes: state.bytes.skip(state.offset as int), ..state },
            if state.blocked {
                WsActionView::Wait
            } else {
                WsActionView::Read
            },
        ),
    }
}

/// What the session does when it learns what came of the last action.
pub open spec fn next_state(state: WsState, event: WsEvent) -> (WsState, WsActionView) {
    match event {
        WsEvent::Opened => (state, WsActionView::Connect { path: state.path }),
        WsEvent::Connected(Ok(_)) => (state, WsActionView::Read),
        WsEvent::Connected(Err(e)) => (state, WsActionView::Fail(ServeError::Io(e))),
        WsEvent::Read(Ok(blocked)) => next_frame(WsState { blocked, offset: 0, ..state }),
        WsEvent::Read(Err(e)) => (
            WsState { ended: Some(e), ..state },
            WsActionView::Close { code: ABNORMAL_CLOSURE as nat, reason: Seq::empty() },
        ),
        WsEvent::Handled(Ok(_)) => next_frame(state),
        WsEvent::Handled(Err(e)) => (state, WsActionView::Fail(ServeError::Io(e))),
        WsEvent::Closed(Ok(_)) => match state.ended {
            Some(e) => (WsState { ended: None, ..state }, WsActionView::Fail(e)),
            None => (
                WsState {
                    closing: true,
                    pending: crate::frame::frame_bytes(CLOSE, Seq::empty()),
                    ..state
                },
                WsActionView::Send,
            ),
        },
        WsEvent::Closed(Err(e)) => (state, WsActionView::Fail(ServeError::Io(e))),
        WsEvent::Sent => if state.closing {
            (state, WsActionView::Finish)
        } else {
            next_frame(state)
        },
        WsEvent::Waited => (state, WsActionView::Read),
    }
}

/// The progress of a WebSocket connection through the bytes it receives.
pub struct WsSession {
    blocked: bool,
    closing: bool,
    ended: Option<ServeError>,
    path: String,
    offset: usize,
}

impl WsSession {
    /// Whether the last read left the socket with nothing more to give.
    pub closed spec fn is_blocked(&self) -> bool {
        self.blocked
    }

    /// Whether the close frame is on its way.
    pub closed spec fn is_closing(&self) -> bool {
        self.closing
    }

    /// Why reading has failed, while the service is told that the connection is closed.
    pub closed spec fn read_failure(&self) -> Option<ServeError> {
        self.ended
    }

    /// The path that the connection was opened to.
    pub closed spec fn path_text(&self) -> Seq<char> {
        self.path@
    }

    /// How many of the bytes in the read buffer have been dealt with.
    pub closed spec fn dealt_with(&self) -> nat {
        self.offset as nat
    }

    /// The session together with the buffers it works on.
    pub open spec fn state(&self, read_buf: BytesMut, ctx: WsContext) -> WsState {
        WsState {
            blocked: self.is_blocked(),
            closing: self.is_closing(),
            ended: self.read_failure(),
            path: self.path_text(),
            offset: self.dealt_with(),
            bytes: buffer_bytes(read_buf),
            pending: ctx.pending_bytes(),
        }
    }

    /// A session of a connection to this path that has seen nothing yet.
    pub fn new(path: String) -> (session: WsSession)
        ensures
            !session.is_blocked(),
            !session.is_closing(),
            session.read_failure() is None,
            session.path_text() == path@,
            session.dealt_with() == 0,
    {
        WsSession { blocked: false, closing: false, ended: None, path, offset: 0 }
    }

    /// Takes in what came of the last action, and says what to do next. Between two steps the
    /// read buffer may only grow.
    pub fn step(&mut self, event: WsEvent, read_buf: &mut BytesMut, ctx: &mut WsContext) -> (action:
        WsAction)
        requires
            old(self).dealt_with() <= buffer_bytes(*old(read_buf)).len(),
            holdable(buffer_bytes(*old(read_buf)).len() + 10),
        ensures
            (final(self).state(*final(read_buf), *final(ctx)), action@) == next_state(
                old(self).state(*old(read_buf), *old(ctx)),
                event,
            ),
            final(self).dealt_with() <= buffer_bytes(*final(read_buf)).len(),
    {
        match event {
            WsEvent::Opened => WsAction::Connect { path: self.path.as_str().to_owned() },
            WsEvent::Connected(Ok(_)) => WsAction::Read,
            WsEvent::Connected(Err(e)) => WsAction::Fail(ServeError::Io(e)),
            WsEvent::Read(Ok(blocked)) => {
                self.blocked = blocked;
                self.offset = 0;
                self.next_frame(read_buf, ctx)
            },
            WsEvent::Read(Err(e)) => {
                self.ended = Some(e);
                WsAction::Close { code: ABNORMAL_CLOSURE, reason: String::new() }
            },
            WsEvent::Handled(Ok(_)) => self.next_frame(read_buf, ctx),
            WsEvent::Handled(Err(e)) => WsAction::Fail(ServeError::Io(e)),
            WsEvent::Closed(Ok(_)) => match self.ended.take() {
                Some(e) => WsAction::Fail(e),
                None => {
                    self.closing = true;
                    let nothing: Vec<u8> = Vec::new();
                    ctx.send_frame(CLOSE, nothing.as_slice());
                    assert(nothing@ =~= Seq::<u8>::empty());
                    WsAction::Send
                },
            },
            WsEvent::Closed(Err(e)) => WsAction::Fail(ServeError::Io(e)),
            WsEvent::Sent => if self.closing {
                WsAction::Finish
            } else {
                self.next_frame(read_buf, ctx)
            },
            WsEvent::Waited => WsAction::Read,
        }
    }

    fn next_frame(&mut self, read_buf: &mut BytesMut, ctx: &mut WsContext) -> (action: WsAction)
        requires
            old(self).dealt_with() <= buffer_bytes(*old(read_buf)).len(),
            holdable(buffer_bytes(*old(read_buf)).len() + 10),
        ensures
            (final(self).state(*final(read_buf), *final(ctx)), action@) == next_frame(
                old(self).state(*old(read_buf), *old(ctx)),
            ),
            final(self).dealt_with() <= buffer_bytes(*final(read_buf)).len(),
    {
        let bytes = as_slice(read_buf);
        match scan_frame(bytes, self.offset) {
            Scan::Whole(frame) => {
                proof {
                    crate::frame::law_whole_frame_lies_within(bytes@, self.offset as int);
                }
                self.offset = frame.end;
                dispatch(bytes, &frame, ctx)
            },
            Scan::Oversized => WsAction::Oversized,
            Scan::Partial => {
                let ghost before = buffer_bytes(*read_buf);
                if self.offset > 0 {
                    advance(read_buf, self.offset);
                }
                assert(buffer_bytes(*read_buf) =~= before.skip(self.offset as int));
                self.offset = 0;
                if self.blocked {
                    WsAction::Wait
                } else {
                    WsAction::Read
                }
            },
        }
    }
}

/// Turns a whole frame into an action, and puts together the answer if that is the action.
fn dispatch(bytes: &[u8], frame: &Frame, ctx: &mut WsContext) -> (action: WsAction)
    requires
        crate::frame::lies_within(*frame, bytes@.len()),
        holdable(bytes@.len() + 10),
        frame.opcode <= 0x0F,
    ensures
        action@ == action_for(crate::frame::frame_data(bytes@, *frame)),
        final(ctx).pending_bytes() == match automatic_reply(
            frame.opcode,
            crate::frame::raw_payload(bytes@, *frame),
        ) {
            Some(reply) => reply,
            None => old(ctx).pending_bytes(),
        },
{
    let raw = slice_subrange(bytes, frame.payload_at, frame.end);
    if frame.opcode == TEXT || frame.opcode == BINARY {
        WsAction::Message { opcode: frame.opcode, payload: unmasked_payload(bytes, frame) }
    } else if frame.opcode == CLOSE {
        let (code, reason) = read_close(raw);
        WsAction::Close { code, reason }
    } else if frame.opcode == PING {
        ctx.send_frame(PONG, raw);
        WsAction::Send
    } else if frame.opcode == PONG {
        proof {
            reveal_strlit("pong");
            is_ascii_chars_encode_utf8("pong"@);
        }
        ctx.send_text("pong");
        WsAction::Send
    } else {
        let mut text: Vec<u8> = Vec::new();
        text.extend_from_slice("Unknown opcode: ".as_bytes());
        let digits = format_decimal(frame.opcode as usize);
        text.extend_from_slice(digits.as_slice());
        proof {
            reveal_strlit("Unknown opcode: ");
            is_ascii_chars_encode_utf8("Unknown opcode: "@);
            reveal_with_fuel(crate::text::decimal, 2);
        }
        assert(text@ =~= unknown_opcode_text(frame.opcode));
        ctx.send_frame(TEXT, text.as_slice());
        WsAction::Send
    }
}

/// The code and the reason in a close frame's payload.
fn read_close(payload: &[u8]) -> (r: (u16, String))
    ensures
        r.0 == close_code(payload@),
        r.1@ == close_reason(payload@),
{
    if payload.len() < 2 {
        return (NORMAL_CLOSURE, String::new());
    }
    let code: u16 = read_be(payload, 0, 2) as u16;
    proof {
        crate::buffer::lemma_be_value_bound(payload@.take(2));
        crate::buffer::lemma_pow256();
    }
    assert(payload@.subrange(0, 2) =~= payload@.take(2));
    if payload.len() > 2 {
        let text = slice_subrange(payload, 2, payload.len());
        assert(text@ =~= payload@.skip(2));
        (code, lenient_text(text))
    } else {
        (code, String::new())
    }
}

/// What is done with one frame: the action, and what the session itself sends.
pub struct Handling {
    pub action: WsActionView,
    pub reply: Option<Seq<u8>>,
}

/// What is to be done with a frame.
pub open spec fn handling(frame: crate::frame::FrameData) -> Handling {
    Handling { action: action_for(frame), reply: automatic_reply(frame.opcode, frame.raw) }
}

/// What is to be done with frames in a row: nothing behind the first close frame counts.
pub open spec fn until_close(frames: Seq<crate::frame::FrameData>) -> Seq<Handling>
    decreases frames.len(),
{
    if frames.len() == 0 {
        Seq::empty()
    } else if frames[0].opcode == CLOSE {
        seq![handling(frames[0])]
    } else {
        seq![handling(frames[0])] + until_close(frames.drop_first())
    }
}

/// What the session does from one read to the next, or to the close frame, as long as the
/// service accepts every message: after each step the next frame is dealt with, and what
/// waited has been sent.
pub open spec fn pass(state: WsState) -> Seq<Handling>
    decreases state.bytes.len() - state.offset,
{
    let (next, action) = next_frame(state);
    let reply = if action is Send {
        Some(next.pending)
    } else {
        None
    };
    if action is Close {
        seq![Handling { action, reply }]
    } else if (action is Message || action is Send) && state.offset < next.offset
        <= state.bytes.len() {
        seq![Handling { action, reply }] + pass(WsState { pending: Seq::empty(), ..next })
    } else {
        Seq::empty()
    }
}

/// The bytes that are left for the next pass.
pub open spec fn left_by_pass(state: WsState) -> Seq<u8>
    decreases state.bytes.len() - state.offset,
{
    let (next, action) = next_frame(state);
    if (action is Message || action is Send) && state.offset < next.offset <= state.bytes.len() {
        left_by_pass(WsState { pending: Seq::empty(), ..next })
    } else {
        next.bytes
    }
}

/// Whether a close frame is among the frames.
pub open spec fn holds_close(frames: Seq<crate::frame::FrameData>) -> bool {
    exists|i: int| 0 <= i < frames.len() && #[trigger] frames[i].opcode == CLOSE
}

/// Every whole frame received is dealt with once, in the order of arrival, up to the close
/// frame. Without a close frame, the bytes behind the last whole frame are kept.
pub proof fn law_pass_deals_with_every_frame(state: WsState)
    requires
        state.offset <= state.bytes.len(),
    ensures
        ({
            let frames = crate::frame::frames_from(state.bytes, state.offset as int);
            let end = crate::frame::frames_end(state.bytes, state.offset as int);
            &&& pass(state) == until_close(frames)
            &&& !holds_close(frames) && crate::frame::frame_at(state.bytes, end) is Partial
                ==> left_by_pass(state) == state.bytes.skip(end)
        }),
    decreases state.bytes.len() - state.offset,
{
    let at = state.offset as int;
    let frames = crate::frame::frames_from(state.bytes, at);
    crate::frame::law_whole_frame_lies_within(state.bytes, at);
    if let Scan::Whole(frame) = crate::frame::frame_at(state.bytes, at) {
        let data = crate::frame::frame_data(state.bytes, frame);
        let rest = crate::frame::frames_from(state.bytes, frame.end as int);
        assert(frames.drop_first() =~= rest);
        assert(frames[0] == data);
        let next = WsState { pending: Seq::empty(), ..next_frame(state).0 };
        law_pass_deals_with_every_frame(next);
        if data.opcode != CLOSE && holds_close(rest) {
            let i = choose|i: int| 0 <= i < rest.len() && #[trigger] rest[i].opcode == CLOSE;
            assert(frames[i + 1] == rest[i]);
        }
    }
}

proof fn lemma_until_close_splits(
    first: Seq<crate::frame::FrameData>,
    second: Seq<crate::frame::FrameData>,
)
    requires
        !holds_close(first),
    ensures
        until_close(first + second) == until_close(first) + until_close(second),
    decreases first.len(),
{
    if first.len() == 0 {
        assert(first + second =~= second);
        assert(until_close(first) + until_close(second) =~= until_close(second));
    } else {
        let rest = first.drop_first();
        assert(first[0].opcode != CLOSE);
        assert forall|i: int| 0 <= i < rest.len() implies #[trigger] rest[i].opcode != CLOSE by {
            assert(rest[i] == first[i + 1]);
        }
        lemma_until_close_splits(rest, second);
        assert((first + second).drop_first() =~= rest + second);
        assert(until_close(first + second) =~= until_close(first) + until_close(second));
    }
}

/// How the bytes of a connection are cut into reads does not matter: a pass over what came
/// first, and one over what it left together with what came second, do what a pass over both
/// together does.
pub proof fn law_session_does_not_depend_on_cuts(state: WsState, second: Seq<u8>)
    requires
        state.offset == 0,
        state.bytes.len() + second.len() <= usize::MAX,
        !holds_close(crate::frame::frames_from(state.bytes, 0)),
        crate::frame::frame_at(
            state.bytes,
            crate::frame::frames_end(state.bytes, 0),
        ) is Partial,
    ensures
        pass(WsState { bytes: state.bytes + second, ..state }) == pass(state) + pass(
            WsState { bytes: left_by_pass(state) + second, ..state },
        ),
{
    let end = crate::frame::frames_end(state.bytes, 0);
    let left = state.bytes.skip(end);
    crate::frame::lemma_frames_end_bounds(state.bytes, 0);
    law_pass_deals_with_every_frame(state);
    law_pass_deals_with_every_frame(WsState { bytes: state.bytes + second, ..state });
    law_pass_deals_with_every_frame(WsState { bytes: left + second, ..state });
    crate::frame::law_frames_do_not_depend_on_cuts(state.bytes, second);
    lemma_until_close_splits(
        crate::frame::frames_from(state.bytes, 0),
        crate::frame::frames_from(left + second, 0),
    );
}

/// A text or binary message reaches the service as its sender meant it, masked or not, and
/// what follows it stays.
pub proof fn law_message_is_delivered(
    state: WsState,
    opcode: u8,
    mask: Seq<u8>,
    payload: Seq<u8>,
    rest: Seq<u8>,
)
    requires
        opcode == TEXT || opcode == BINARY,
        mask.len() == 4,
        payload.len() + 14 <= usize::MAX,
        state.offset == 0,
        state.bytes == crate::frame::masked_frame_bytes(opcode, mask, payload) + rest
            || state.bytes == crate::frame::frame_bytes(opcode, payload) + rest,
    ensures
        next_frame(state).1 == (WsActionView::Message { opcode, payload }),
        next_frame(state).0.bytes.skip(next_frame(state).0.offset as int) == rest,
{
    crate::frame::law_masked_frame_reads_back(opcode, mask, payload, rest);
    crate::frame::law_sent_frame_reads_back(opcode, payload, rest);
    assert(TEXT & 0x0F == TEXT && BINARY & 0x0F == BINARY) by (bit_vector);
    let next = next_frame(state).0;
    assert(next.bytes.skip(next.offset as int) =~= rest);
}

/// A ping is answered with a pong that carries the payload of the ping as it was sent.
pub proof fn law_ping_is_echoed(state: WsState)
    requires
        holdable(state.bytes.len() + 10),
        state.offset <= state.bytes.len(),
        crate::frame::frame_at(state.bytes, state.offset as int) matches Scan::Whole(ping)
            && ping.opcode == PING,
    ensures
        ({
            let ping = crate::frame::frame_at(state.bytes, state.offset as int)->Whole_0;
            let (next, action) = next_frame(state);
            &&& action is Send
            &&& crate::frame::frame_at(next.pending, 0) matches Scan::Whole(pong)
            &&& pong.fin && pong.opcode == PONG && !pong.masked
            &&& pong.end == next.pending.len()
            &&& crate::frame::raw_payload(next.pending, pong) == crate::frame::raw_payload(
                state.bytes,
                ping,
            )
        }),
{
    let ping = crate::frame::frame_at(state.bytes, state.offset as int)->Whole_0;
    let raw = crate::frame::raw_payload(state.bytes, ping);
    crate::frame::law_whole_frame_lies_within(state.bytes, state.offset as int);
    crate::frame::law_sent_frame_reads_back(PONG, raw, Seq::empty());
    let reply = crate::frame::frame_bytes(PONG, raw);
    assert(reply + Seq::<u8>::empty() =~= reply);
    assert(PONG & 0x0F == PONG) by (bit_vector);
}

/// When the service has accepted that the peer closes the connection with a close frame, an
/// empty close frame is sent, and then the session ends well, whether or not the frame could
/// be sent.
pub proof fn law_close_is_answered(state: WsState, accepted: WsEvent, left_pending: Seq<u8>)
    requires
        accepted matches WsEvent::Closed(Ok(_)),
        state.ended is None,
    ensures
        ({
            let (next, action) = next_state(state, accepted);
            &&& action is Send
            &&& crate::frame::frame_at(next.pending, 0) matches Scan::Whole(close)
            &&& close.fin && close.opcode == CLOSE && !close.masked
            &&& close.end == next.pending.len()
            &&& crate::frame::raw_payload(next.pending, close) == Seq::<u8>::empty()
            &&& next_state(WsState { pending: left_pending, ..next }, WsEvent::Sent).1 is Finish
        }),
{
    let frame = crate::frame::frame_bytes(CLOSE, Seq::empty());
    crate::frame::law_sent_frame_reads_back(CLOSE, Seq::empty(), Seq::empty());
    assert(frame + Seq::<u8>::empty() =~= frame);
    assert(CLOSE & 0x0F == CLOSE) by (bit_vector);
}

/// When reading fails, because the peer hung up without a close frame or for another cause,
/// the service is told that the connection is closed. When it has accepted that, the session
/// ends with the failure of the read, and with the service's own failure otherwise. Nothing is
/// sent.
pub proof fn law_hanging_up_is_told(
    state: WsState,
    failure: ServeError,
    told: std::io::Result<()>,
)
    ensures
        ({
            let (telling, action) = next_state(state, WsEvent::Read(Err(failure)));
            let (done, last) = next_state(telling, WsEvent::Closed(told));
            &&& action == (WsActionView::Close {
                code: ABNORMAL_CLOSURE as nat,
                reason: Seq::empty(),
            })
            &&& telling.pending == state.pending
            &&& last == WsActionView::Fail(
                match told {
                    Ok(_) => failure,
                    Err(e) => ServeError::Io(e),
                },
            )
            &&& done.pending == state.pending
        }),
{
}

} // verus!
