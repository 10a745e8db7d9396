//! WebSocket sessions, event by event.

use bytes::BytesMut;
use vstd::prelude::*;
use vstd::utf8::{decode_utf8_encode_utf8, encode_utf8, is_ascii_chars_encode_utf8, valid_utf8};

use crate::buffer::{be_value, buffer_bytes};
use crate::error::ServeError;
use crate::frame::{scan_frame, unmasked_payload, Frame, Scan, WsContext};
use crate::laws::frames::lemma_bits;
use crate::session::{WsAction, WsEvent, WsSession};

verus! {

/// Whether after this event the session looks for a frame at index `at`: at the front when a
/// read has ended, and behind the frames that it has dealt with when the service has seen a
/// message or a reply has been sent.
pub open spec fn looks_at(session: WsSession, event: WsEvent, at: usize) -> bool {
    match event {
        WsEvent::Read(Ok(_)) => at == 0,
        WsEvent::Handled(Ok(_)) => at == session.dealt_with(),
        WsEvent::Sent => !session.is_closing() && at == session.dealt_with(),
        _ => false,
    }
}

/// Whether the session remembers what the last read said, and is otherwise as it was, but for
/// how far it has come.
pub open spec fn remembers(before: WsSession, event: WsEvent, after: WsSession) -> bool {
    &&& after.is_blocked() == match event {
        WsEvent::Read(Ok(blocked)) => blocked,
        _ => before.is_blocked(),
    }
    &&& after.is_closing() == before.is_closing()
    &&& after.read_failure() == before.read_failure()
    &&& after.path_text() == before.path_text()
}

/// A text or binary frame is handed to the service with its opcode and its payload, unmasked
/// and whole. The session goes on behind the frame, and the bytes stay until then.
pub proof fn law_messages_reach_the_service(
    event: WsEvent,
    bytes: &[u8],
    at: usize,
    frame: Frame,
    payload: Vec<u8>,
)
    requires
        call_ensures(scan_frame, (bytes, at), Scan::Whole(frame)),
        call_ensures(unmasked_payload, (bytes, &frame), payload),
        frame.opcode == 1 || frame.opcode == 2,
    ensures
        forall|s: &mut WsSession, read_buf: &mut BytesMut, ctx: &mut WsContext, action: WsAction|
            {
                &&& #[trigger] call_ensures(WsSession::step, (s, event, read_buf, ctx), action)
                &&& looks_at(*s, event, at)
                &&& buffer_bytes(*read_buf) == bytes@
            } ==> {
                &&& action matches WsAction::Message { opcode, payload: delivered }
                &&& opcode == frame.opcode
                &&& delivered@ == payload@
                &&& final(s).dealt_with() == frame.end
                &&& buffer_bytes(*final(read_buf)) == bytes@
                &&& final(ctx).pending_bytes() == ctx.pending_bytes()
                &&& remembers(*s, event, *final(s))
            },
{
}

/// A close frame is told to the service: its code is the first two bytes of the payload, or
/// 1000 if there are less, and its reason is the text that the other bytes encode, or none.
pub proof fn law_a_close_frame_is_told(event: WsEvent, bytes: &[u8], at: usize, frame: Frame)
    requires
        call_ensures(scan_frame, (bytes, at), Scan::Whole(frame)),
        frame.opcode == 8,
        frame.payload_at <= frame.end <= bytes@.len(),
    ensures
        forall|s: &mut WsSession, read_buf: &mut BytesMut, ctx: &mut WsContext, action: WsAction|
            {
                &&& #[trigger] call_ensures(WsSession::step, (s, event, read_buf, ctx), action)
                &&& looks_at(*s, event, at)
                &&& buffer_bytes(*read_buf) == bytes@
            } ==> {
                let payload = bytes@.subrange(frame.payload_at as int, frame.end as int);
                &&& action matches WsAction::Close { code, reason }
                &&& payload.len() < 2 ==> code == 1000 && reason@.len() == 0
                &&& payload.len() >= 2 ==> code == payload[0] * 256 + payload[1]
                &&& payload.len() == 2 || !valid_utf8(payload.skip(2)) ==> reason@.len() == 0
                &&& payload.len() > 2 && valid_utf8(payload.skip(2)) ==> encode_utf8(reason@)
                    == payload.skip(2)
                &&& final(s).dealt_with() == frame.end
                &&& buffer_bytes(*final(read_buf)) == bytes@
                &&& final(ctx).pending_bytes() == ctx.pending_bytes()
                &&& remembers(*s, event, *final(s))
            },
{
    let payload = bytes@.subrange(frame.payload_at as int, frame.end as int);
    if payload.len() >= 2 {
        let two = payload.take(2);
        reveal_with_fuel(be_value, 3);
        assert(two.drop_last().drop_last() =~= Seq::empty());
        assert(be_value(two) == payload[0] * 256 + payload[1]);
        if valid_utf8(payload.skip(2)) {
            decode_utf8_encode_utf8(payload.skip(2));
        }
    }
}

/// A ping is answered with a frame that has opcode 10 and the payload of the ping as it was
/// sent.
pub proof fn law_a_ping_is_answered(
    event: WsEvent,
    bytes: &[u8],
    at: usize,
    frame: Frame,
    payload: &[u8],
)
    requires
        call_ensures(scan_frame, (bytes, at), Scan::Whole(frame)),
        frame.opcode == 9,
        payload@ == bytes@.subrange(frame.payload_at as int, frame.end as int),
    ensures
        forall|
            s: &mut WsSession,
            read_buf: &mut BytesMut,
            ctx: &mut WsContext,
            action: WsAction,
            pong: &mut WsContext,
        |
            {
                &&& #[trigger] call_ensures(WsSession::step, (s, event, read_buf, ctx), action)
                &&& #[trigger] call_ensures(WsContext::send_frame, (pong, 10, payload), ())
                &&& looks_at(*s, event, at)
                &&& buffer_bytes(*read_buf) == bytes@
            } ==> {
                &&& action == WsAction::Send
                &&& final(ctx).pending_bytes() == final(pong).pending_bytes()
                &&& final(s).dealt_with() == frame.end
                &&& buffer_bytes(*final(read_buf)) == bytes@
                &&& remembers(*s, event, *final(s))
            },
{
}

/// A pong is answered with the text `pong`, and a frame with an opcode of no meaning with a text
/// that names the opcode.
pub proof fn law_other_frames_are_answered_with_a_text(
    event: WsEvent,
    bytes: &[u8],
    at: usize,
    frame: Frame,
)
    requires
        call_ensures(scan_frame, (bytes, at), Scan::Whole(frame)),
        at <= bytes@.len() <= isize::MAX,
        frame.opcode != 1 && frame.opcode != 2 && frame.opcode != 8 && frame.opcode != 9,
    ensures
        forall|s: &mut WsSession, read_buf: &mut BytesMut, ctx: &mut WsContext, action: WsAction|
            {
                &&& #[trigger] call_ensures(WsSession::step, (s, event, read_buf, ctx), action)
                &&& looks_at(*s, event, at)
                &&& buffer_bytes(*read_buf) == bytes@
            } ==> {
                &&& action == WsAction::Send
                &&& frame.opcode == 10 ==> final(ctx).pending_bytes() == seq![
                    0x81u8,
                    4,
                    112,
                    111,
                    110,
                    103,
                ]
                &&& frame.opcode < 10 ==> final(ctx).pending_bytes() == seq![0x81u8, 17]
                    + encode_utf8("Unknown opcode: "@) + seq![(48 + frame.opcode) as u8]
                &&& frame.opcode > 10 ==> final(ctx).pending_bytes() == seq![0x81u8, 18]
                    + encode_utf8("Unknown opcode: "@) + seq![49u8, (38 + frame.opcode) as u8]
                &&& final(s).dealt_with() == frame.end
                &&& buffer_bytes(*final(read_buf)) == bytes@
                &&& remembers(*s, event, *final(s))
            },
{
    lemma_bits(bytes@[at as int]);
    assert(0x80u8 | 1u8 == 0x81u8) by (bit_vector);
    reveal_strlit("pong");
    is_ascii_chars_encode_utf8("pong"@);
    reveal_strlit("Unknown opcode: ");
    is_ascii_chars_encode_utf8("Unknown opcode: "@);
    reveal_with_fuel(crate::text::decimal, 2);
    let text = crate::session::unknown_opcode_text(frame.opcode);
    if frame.opcode == 10 {
        assert(crate::frame::frame_bytes(1, encode_utf8("pong"@)) =~= seq![
            0x81u8,
            4,
            112,
            111,
            110,
            103,
        ]);
    } else if frame.opcode < 10 {
        assert(crate::frame::frame_bytes(1, text) =~= seq![0x81u8, 17] + encode_utf8(
            "Unknown opcode: "@,
        ) + seq![(48 + frame.opcode) as u8]);
    } else {
        assert(crate::text::decimal(frame.opcode as nat) =~= seq![
            49u8,
            (38 + frame.opcode) as u8,
        ]);
        assert(crate::frame::frame_bytes(1, text) =~= seq![0x81u8, 18] + encode_utf8(
            "Unknown opcode: "@,
        ) + seq![49u8, (38 + frame.opcode) as u8]);
    }
}

/// Where no whole frame is left, the bytes behind the frames dealt with are kept, all of them,
/// and nothing else; the session waits if the last read had no more to give, and else reads
/// on. A frame whose end no index can name is reported.
pub proof fn law_an_unfinished_frame_is_kept(event: WsEvent, bytes: &[u8], at: usize, scan: Scan)
    requires
        call_ensures(scan_frame, (bytes, at), scan),
    ensures
        forall|s: &mut WsSession, read_buf: &mut BytesMut, ctx: &mut WsContext, action: WsAction|
            {
                &&& #[trigger] call_ensures(WsSession::step, (s, event, read_buf, ctx), action)
                &&& looks_at(*s, event, at)
                &&& buffer_bytes(*read_buf) == bytes@
            } ==> {
                &&& scan == Scan::Partial ==> {
                    &&& buffer_bytes(*final(read_buf)) == bytes@.skip(at as int)
                    &&& final(s).dealt_with() == 0
                    &&& action == if final(s).is_blocked() {
                        WsAction::Wait
                    } else {
                        WsAction::Read
                    }
                    &&& final(ctx).pending_bytes() == ctx.pending_bytes()
                    &&& remembers(*s, event, *final(s))
                }
                &&& scan == Scan::Oversized ==> {
                    &&& buffer_bytes(*final(read_buf)) == bytes@
                    &&& action == WsAction::Oversized
                    &&& final(ctx).pending_bytes() == ctx.pending_bytes()
                    &&& remembers(*s, event, *final(s))
                }
            },
{
}

/// A session opens by telling the service the path that it was made with, and then reads. After
/// waiting it reads again. None of this touches the bytes.
pub proof fn law_a_session_opens_and_reads(path: String, made: WsSession, event: WsEvent)
    requires
        call_ensures(WsSession::new, (path,), made),
        event == WsEvent::Opened || event == WsEvent::Waited || (event matches WsEvent::Connected(
            Ok(_),
        )),
    ensures
        !made.is_closing(),
        made.read_failure() is None,
        made.dealt_with() == 0,
        made.path_text() == path@,
        forall|s: &mut WsSession, read_buf: &mut BytesMut, ctx: &mut WsContext, action: WsAction|
            #[trigger]
            call_ensures(WsSession::step, (s, event, read_buf, ctx), action) ==> {
                &&& event == WsEvent::Opened ==> {
                    &&& action matches WsAction::Connect { path: told }
                    &&& told@ == s.path_text()
                    &&& *s == made ==> told@ == path@
                }
                &&& event != WsEvent::Opened ==> action == WsAction::Read
                &&& buffer_bytes(*final(read_buf)) == buffer_bytes(*read_buf)
                &&& final(ctx).pending_bytes() == ctx.pending_bytes()
                &&& final(s).dealt_with() == s.dealt_with()
                &&& remembers(*s, event, *final(s))
            },
{
}

/// Where the service fails, the session ends with that failure, whatever it was told.
pub proof fn law_a_failing_service_ends_the_session(e: std::io::Error, event: WsEvent)
    requires
        event == WsEvent::Connected(Err(e)) || event == WsEvent::Handled(Err(e)) || event
            == WsEvent::Closed(Err(e)),
    ensures
        forall|s: &mut WsSession, read_buf: &mut BytesMut, ctx: &mut WsContext, action: WsAction|
            #[trigger]
            call_ensures(WsSession::step, (s, event, read_buf, ctx), action) ==> {
                &&& action == WsAction::Fail(ServeError::Io(e))
                &&& buffer_bytes(*final(read_buf)) == buffer_bytes(*read_buf)
                &&& final(ctx).pending_bytes() == ctx.pending_bytes()
            },
{
}

/// A close frame that the service has accepted is answered with the two bytes of an empty close
/// frame; when they have been sent, the session has ended well.
pub proof fn law_closing_ends_well(accepted: WsEvent)
    requires
        accepted matches WsEvent::Closed(Ok(_)),
    ensures
        forall|s: &mut WsSession, read_buf: &mut BytesMut, ctx: &mut WsContext, action: WsAction|
            {
                &&& #[trigger] call_ensures(WsSession::step, (s, accepted, read_buf, ctx), action)
                &&& s.read_failure() is None
            } ==> {
                &&& action == WsAction::Send
                &&& final(ctx).pending_bytes() == seq![0x88u8, 0]
                &&& final(s).is_closing()
                &&& buffer_bytes(*final(read_buf)) == buffer_bytes(*read_buf)
            },
        forall|s: &mut WsSession, read_buf: &mut BytesMut, ctx: &mut WsContext, action: WsAction|
            {
                &&& #[trigger] call_ensures(
                    WsSession::step,
                    (s, WsEvent::Sent, read_buf, ctx),
                    action,
                )
                &&& s.is_closing()
            } ==> action == WsAction::Finish,
{
    assert(0x80u8 | 8u8 == 0x88u8) by (bit_vector);
    assert(crate::frame::frame_bytes(8, Seq::empty()) =~= seq![0x88u8, 0]);
}

/// Where a read fails, for whatever reason, the service is told that the connection is closed,
/// with code 1006 and no reason. When it has accepted that, the session ends with the failure
/// of the read. Nothing is sent.
pub proof fn law_a_failed_read_is_told(failure: ServeError, accepted: WsEvent)
    requires
        accepted matches WsEvent::Closed(Ok(_)),
    ensures
        forall|
            s: &mut WsSession,
            read_buf: &mut BytesMut,
            ctx: &mut WsContext,
            action: WsAction,
            then: &mut WsSession,
            then_buf: &mut BytesMut,
            then_ctx: &mut WsContext,
            last: WsAction,
        |
            {
                &&& #[trigger] call_ensures(
                    WsSession::step,
                    (s, WsEvent::Read(Err(failure)), read_buf, ctx),
                    action,
                )
                &&& #[trigger] call_ensures(
                    WsSession::step,
                    (then, accepted, then_buf, then_ctx),
                    last,
                )
                &&& *then == *final(s)
            } ==> {
                &&& action matches WsAction::Close { code, reason }
                &&& code == 1006
                &&& reason@.len() == 0
                &&& final(ctx).pending_bytes() == ctx.pending_bytes()
                &&& buffer_bytes(*final(read_buf)) == buffer_bytes(*read_buf)
                &&& last == WsAction::Fail(failure)
                &&& final(then_ctx).pending_bytes() == then_ctx.pending_bytes()
            },
{
}

} // verus!
