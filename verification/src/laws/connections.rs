//! HTTP connections, event by event.

use bytes::BytesMut;
use vstd::prelude::*;

use crate::buffer::buffer_bytes;
use crate::connection::{ConnAction, ConnEvent, Connection};
use crate::error::ServeError;
use crate::exchange::{history, Turn};
use crate::handshake::answer_upgrade;
use crate::request::{is_websocket_upgrade, Request};

verus! {

/// The bytes received stay in the request buffer whatever happens, until a request has been
/// served; then the buffer is emptied. So a request of which a part has arrived waits, through
/// writing and waiting, for the reads that bring the rest.
pub proof fn law_unparsed_bytes_stay<B>(event: ConnEvent<B>)
    ensures
        forall|
            c: &mut Connection,
            req_buf: &mut BytesMut,
            rsp_buf: &mut BytesMut,
            action: ConnAction<B>,
        |
            #[trigger]
            call_ensures(Connection::step::<B>, (c, event, req_buf, rsp_buf), action) ==> {
                &&& event != ConnEvent::<B>::Served ==> buffer_bytes(*final(req_buf))
                    == buffer_bytes(*req_buf)
                &&& event == ConnEvent::<B>::Served ==> buffer_bytes(*final(req_buf)).len() == 0
            },
{
}

/// The responses that wait stay in the response buffer whatever happens, but for an upgrade: the
/// answer to the request takes their place, and is gone when it has been written.
pub proof fn law_waiting_responses_stay<B>(event: ConnEvent<B>)
    ensures
        forall|
            c: &mut Connection,
            req_buf: &mut BytesMut,
            rsp_buf: &mut BytesMut,
            action: ConnAction<B>,
        |
            #[trigger]
            call_ensures(Connection::step::<B>, (c, event, req_buf, rsp_buf), action) ==> {
                ||| buffer_bytes(*final(rsp_buf)) == buffer_bytes(*rsp_buf)
                ||| action is WriteHandshake
                ||| action is Upgrade
            },
{
}

/// A connection reads, has what was read parsed, and writes when there is no whole request. It
/// reads on when it has written, but first waits if the last read had no more to give.
pub proof fn law_a_connection_takes_turns<B>(event: ConnEvent<B>)
    ensures
        forall|
            c: &mut Connection,
            req_buf: &mut BytesMut,
            rsp_buf: &mut BytesMut,
            action: ConnAction<B>,
        |
            #[trigger]
            call_ensures(Connection::step::<B>, (c, event, req_buf, rsp_buf), action) ==> {
                &&& event == ConnEvent::<B>::Opened || event == ConnEvent::<B>::Waited ==> action
                    == ConnAction::<B>::Read
                &&& event matches ConnEvent::Read(Ok(blocked)) ==> action
                    == ConnAction::<B>::Decode && final(c).is_blocked() == blocked
                &&& event matches ConnEvent::Decoded(Ok(None)) ==> action
                    == ConnAction::<B>::Write
                &&& event == ConnEvent::<B>::Served ==> action == ConnAction::<B>::Decode
                &&& event matches ConnEvent::Written(Ok(_)) ==> action == if c.is_blocked() {
                    ConnAction::<B>::Wait
                } else {
                    ConnAction::<B>::Read
                }
                &&& !(event matches ConnEvent::Read(Ok(_))) ==> final(c).is_blocked()
                    == c.is_blocked()
            },
{
}

/// A new connection has no reason to wait.
pub proof fn law_a_new_connection_does_not_wait<B>(c: Connection, written: ConnEvent<B>)
    requires
        call_ensures(Connection::new, (), c),
        written matches ConnEvent::Written(Ok(_)),
    ensures
        forall|
            started: &mut Connection,
            req_buf: &mut BytesMut,
            rsp_buf: &mut BytesMut,
            action: ConnAction<B>,
        |
            {
                &&& #[trigger] call_ensures(
                    Connection::step::<B>,
                    (started, written, req_buf, rsp_buf),
                    action,
                )
                &&& *started == c
            } ==> action == ConnAction::<B>::Read,
{
}

/// Whatever fails, the connection ends with that failure.
pub proof fn law_a_failure_ends_the_connection<B>(e: std::io::Error, failure: ServeError)
    ensures
        forall|
            c: &mut Connection,
            event: ConnEvent<B>,
            req_buf: &mut BytesMut,
            rsp_buf: &mut BytesMut,
            action: ConnAction<B>,
        |
            #[trigger]
            call_ensures(Connection::step::<B>, (c, event, req_buf, rsp_buf), action) ==> {
                &&& event == ConnEvent::<B>::Read(Err(failure)) || event
                    == ConnEvent::<B>::Written(Err(failure)) ==> action == ConnAction::<B>::Fail(
                    failure,
                )
                &&& event == ConnEvent::<B>::Decoded(Err(e)) || event
                    == ConnEvent::<B>::HandshakeWritten(Err(e)) ==> action
                    == ConnAction::<B>::Fail(ServeError::Io(e))
            },
{
}

/// A request is handed to the service as it was parsed, unless it asks for an upgrade. Then it
/// is answered as an upgrade is, and when the answer has been written, the connection goes on
/// as one to the path of that request.
pub proof fn law_a_request_is_served_or_upgraded<B>(
    req: Request<B>,
    upgrade: bool,
    path: &str,
    written: ConnEvent<B>,
)
    requires
        call_ensures(is_websocket_upgrade::<B>, (&req,), upgrade),
        call_ensures(Request::<B>::path, (&req,), path),
        written matches ConnEvent::HandshakeWritten(Ok(_)),
    ensures
        forall|
            c: &mut Connection,
            req_buf: &mut BytesMut,
            rsp_buf: &mut BytesMut,
            action: ConnAction<B>,
        |
            {
                &&& #[trigger] call_ensures(
                    Connection::step::<B>,
                    (c, ConnEvent::Decoded(Ok(Some(req))), req_buf, rsp_buf),
                    action,
                )
                &&& !upgrade
            } ==> {
                &&& action == ConnAction::Serve(req)
                &&& buffer_bytes(*final(rsp_buf)) == buffer_bytes(*rsp_buf)
            },
        forall|
            c: &mut Connection,
            req_buf: &mut BytesMut,
            rsp_buf: &mut BytesMut,
            action: ConnAction<B>,
            other_buf: &mut BytesMut,
            r: Result<(), ServeError>,
            then: &mut Connection,
            then_req_buf: &mut BytesMut,
            then_rsp_buf: &mut BytesMut,
            last: ConnAction<B>,
        |
            {
                &&& #[trigger] call_ensures(
                    Connection::step::<B>,
                    (c, ConnEvent::Decoded(Ok(Some(req))), req_buf, rsp_buf),
                    action,
                )
                &&& #[trigger] call_ensures(answer_upgrade::<B>, (&req, other_buf), r)
                &&& #[trigger] call_ensures(
                    Connection::step::<B>,
                    (then, written, then_req_buf, then_rsp_buf),
                    last,
                )
                &&& upgrade
                &&& *then == *final(c)
            } ==> {
                &&& action == ConnAction::<B>::WriteHandshake
                &&& buffer_bytes(*final(rsp_buf)) == buffer_bytes(*final(other_buf))
                &&& last matches ConnAction::Upgrade { path: told }
                &&& told@ == path@
                &&& buffer_bytes(*final(then_rsp_buf)).len() == 0
            },
{
    crate::request::law_upgrade_carries_a_key(req.header_views());
}

/// What the parser has left of a request that is not whole is there when the next read is asked
/// for, however often the connection has written and waited in between; and what the parser is
/// shown next is that, followed by what the read has brought.
pub proof fn law_a_request_may_arrive_in_parts<B>(
    earlier: Seq<Turn<B>>,
    left: Seq<u8>,
    between: Seq<Turn<B>>,
    arrived: Seq<u8>,
    blocked: bool,
)
    requires
        history(earlier).action is Decode,
        forall|i: int|
            0 <= i < between.len() ==> (#[trigger] between[i]) is Written || between[i] is Waited,
        history(
            earlier.push(Turn::Decoded { requests: left, parsed: Ok(None) }) + between,
        ).action is Read,
    ensures
        ({
            let waiting = earlier.push(Turn::Decoded { requests: left, parsed: Ok(None) })
                + between;
            let after = history(
                waiting.push(
                    Turn::Read {
                        requests: history(waiting).conn.requests + arrived,
                        blocked: Ok(blocked),
                    },
                ),
            );
            &&& history(waiting).conn.requests == left
            &&& after.action is Decode
            &&& after.conn.requests == left + arrived
        }),
{
    let start = earlier.push(Turn::Decoded { requests: left, parsed: Ok(None) });
    let waiting = start + between;
    assert(start.drop_last() =~= earlier);
    lemma_waiting_keeps_requests(start, between);
    let last = Turn::<B>::Read {
        requests: history(waiting).conn.requests + arrived,
        blocked: Ok(blocked),
    };
    assert(waiting.push(last).drop_last() =~= waiting);
}

proof fn lemma_waiting_keeps_requests<B>(start: Seq<Turn<B>>, between: Seq<Turn<B>>)
    requires
        forall|i: int|
            0 <= i < between.len() ==> (#[trigger] between[i]) is Written || between[i] is Waited,
    ensures
        history(start + between).conn.requests == history(start).conn.requests,
    decreases between.len(),
{
    if between.len() == 0 {
        assert(start + between =~= start);
    } else {
        let fewer = between.drop_last();
        assert forall|i: int| 0 <= i < fewer.len() implies (#[trigger] fewer[i]) is Written
            || fewer[i] is Waited by {
            assert(fewer[i] == between[i]);
        }
        lemma_waiting_keeps_requests(start, fewer);
        assert((start + between).drop_last() =~= start + fewer);
        assert((start + between).last() == between[between.len() - 1]);
    }
}

} // verus!
