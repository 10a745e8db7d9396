//! What an HTTP connection as a whole does: every request is answered once, and the answers go
//! out in the order of the requests.

use vstd::prelude::*;

use crate::connection::{next_state, ConnActionView, ConnEvent, ConnState};
use crate::error::ServeError;
use crate::request::{asks_for_websocket, Request};
use crate::response::{error_bytes, response_bytes, ResponseView};
use crate::service::{answer_appended, shows_as};
use crate::transfer::{
    failure_of, handed_over, law_writes_keep_the_order, moved_by, possible, Direction, Outcome,
};

verus! {

/// A request that was served, and what came of it.
pub struct Exchange<B> {
    pub req: Request<B>,
    /// The response as the service left it.
    pub rsp: ResponseView,
    /// How the service's call ended.
    pub outcome: std::io::Result<()>,
    pub date: Seq<u8>,
    /// The answer as it goes over the wire.
    pub answer: Seq<u8>,
}

impl<B> Exchange<B> {
    /// Whether the answer is the one that the service's call leads to.
    pub open spec fn is_answered(self) -> bool {
        match self.outcome {
            Ok(_) => self.answer == response_bytes(self.rsp, self.date),
            Err(e) => exists|msg: String| #[trigger]
                shows_as(e, msg) && self.answer == error_bytes(msg@, self.date),
        }
    }
}

/// The answers one behind the other.
pub open spec fn all_answers<B>(exchanges: Seq<Exchange<B>>) -> Seq<u8>
    decreases exchanges.len(),
{
    if exchanges.len() == 0 {
        Seq::empty()
    } else {
        all_answers(exchanges.drop_last()) + exchanges.last().answer
    }
}

/// The requests in the order in which they were served.
pub open spec fn served<B>(exchanges: Seq<Exchange<B>>) -> Seq<Request<B>> {
    exchanges.map_values(|exchange: Exchange<B>| exchange.req)
}

/// What came of one action of the connection.
pub enum Turn<B> {
    /// A read has ended, with this in the request buffer.
    Read { requests: Seq<u8>, blocked: Result<bool, ServeError> },
    /// The parser has looked at the request buffer, and has left this in it.
    Decoded { requests: Seq<u8>, parsed: std::io::Result<Option<Request<B>>> },
    /// The service was called, and the answer is in the response buffer, which holds `after`.
    Answered {
        rsp: ResponseView,
        outcome: std::io::Result<()>,
        date: Seq<u8>,
        after: Seq<u8>,
    },
    /// Calls with these outcomes have written from the response buffer.
    Written { outcomes: Seq<Outcome> },
    /// The socket is ready.
    Waited,
}

/// A connection and all that has happened on it.
pub struct History<B> {
    pub conn: ConnState,
    /// What the connection has asked for last.
    pub action: ConnActionView<B>,
    /// The requests that were parsed.
    pub decoded: Seq<Request<B>>,
    /// The requests that were served.
    pub exchanges: Seq<Exchange<B>>,
    /// The bytes that the peer was handed.
    pub written: Seq<u8>,
}

impl<B> History<B> {
    /// The connection takes in what came of its last action.
    pub open spec fn step(self, event: ConnEvent<B>) -> History<B> {
        let (conn, action) = next_state(self.conn, event);
        History { conn, action, ..self }
    }

    /// What a turn comes to. A turn that does not follow from the last action, or that moves
    /// more bytes than there are, does not happen.
    pub open spec fn take(self, turn: Turn<B>) -> History<B> {
        match (self.action, turn) {
            (ConnActionView::Read, Turn::Read { requests, blocked }) => History {
                conn: ConnState { requests, ..self.conn },
                ..self
            }.step(ConnEvent::Read(blocked)),
            (ConnActionView::Decode, Turn::Decoded { requests, parsed }) => History {
                conn: ConnState { requests, ..self.conn },
                decoded: match parsed {
                    Ok(Some(req)) => self.decoded.push(req),
                    _ => self.decoded,
                },
                ..self
            }.step(ConnEvent::Decoded(parsed)),
            (ConnActionView::Serve(req), Turn::Answered { rsp, outcome, date, after }) => {
                let before = self.conn.responses;
                if answer_appended(rsp, outcome, date, before, true, after) {
                    let answer = after.skip(before.len() as int);
                    let exchange = Exchange { req, rsp, outcome, date, answer };
                    History {
                        conn: ConnState { responses: after, ..self.conn },
                        exchanges: self.exchanges.push(exchange),
                        ..self
                    }.step(ConnEvent::Served)
                } else {
                    self
                }
            },
            (ConnActionView::Write, Turn::Written { outcomes }) => {
                let bytes = self.conn.responses;
                let n = moved_by(Direction::Writing, 0, bytes.len(), outcomes);
                let written = self.written + handed_over(bytes, 0, outcomes);
                if !possible(Direction::Writing, 0, bytes.len(), outcomes) {
                    self
                } else {
                    match failure_of(Direction::Writing, 0, bytes.len(), outcomes) {
                        Some(e) => History { written, ..self }.step(ConnEvent::Written(Err(e))),
                        None => History {
                            conn: ConnState { responses: bytes.skip(n as int), ..self.conn },
                            written,
                            ..self
                        }.step(ConnEvent::Written(Ok(n as usize))),
                    }
                }
            },
            (ConnActionView::Wait, Turn::Waited) => self.step(ConnEvent::Waited),
            _ => self,
        }
    }
}

/// A connection on which nothing has happened, with empty buffers.
pub open spec fn opened<B>() -> History<B> {
    let conn = ConnState {
        blocked: false,
        path: Seq::empty(),
        requests: Seq::empty(),
        responses: Seq::empty(),
    };
    History {
        conn,
        action: ConnActionView::Read,
        decoded: Seq::empty(),
        exchanges: Seq::empty(),
        written: Seq::empty(),
    }.step(ConnEvent::Opened)
}

/// A connection after these turns.
pub open spec fn history<B>(turns: Seq<Turn<B>>) -> History<B>
    decreases turns.len(),
{
    if turns.len() == 0 {
        opened()
    } else {
        history(turns.drop_last()).take(turns.last())
    }
}

/// Whether no upgrade request was parsed.
pub open spec fn stays_http<B>(turns: Seq<Turn<B>>) -> bool {
    forall|i: int|
        0 <= i < turns.len() ==> match #[trigger] turns[i] {
            Turn::Decoded { parsed: Ok(Some(req)), .. } => !asks_for_websocket(req.header_views()),
            _ => true,
        }
}

/// Whether the requests were served once each and in their order, each with the answer that
/// its call leads to, and the answers went out in that order: the peer was handed a first part
/// of them, and unless the connection has failed, the rest waits in the response buffer.
pub open spec fn in_order<B>(h: History<B>) -> bool {
    &&& h.written.is_prefix_of(all_answers(h.exchanges))
    &&& !(h.action is Fail) ==> h.written + h.conn.responses == all_answers(h.exchanges)
    &&& match h.action {
        ConnActionView::Serve(req) => h.decoded == served(h.exchanges).push(req),
        _ => h.decoded == served(h.exchanges),
    }
    &&& forall|i: int| 0 <= i < h.exchanges.len() ==> (#[trigger] h.exchanges[i]).is_answered()
}

proof fn lemma_turn_keeps_order<B>(h: History<B>, turn: Turn<B>)
    requires
        in_order(h),
        turn matches Turn::Decoded { parsed: Ok(Some(req)), .. } ==> !asks_for_websocket(
            req.header_views(),
        ),
    ensures
        in_order(h.take(turn)),
{
    let next = h.take(turn);
    match (h.action, turn) {
        (ConnActionView::Serve(req), Turn::Answered { rsp, outcome, date, after }) => {
            let before = h.conn.responses;
            if answer_appended(rsp, outcome, date, before, true, after) {
                let answer = after.skip(before.len() as int);
                let exchange = Exchange { req, rsp, outcome, date, answer };
                match outcome {
                    Ok(_) => {
                        assert(answer =~= response_bytes(rsp, date));
                    },
                    Err(e) => {
                        let msg = choose|msg: String| #[trigger]
                            shows_as(e, msg) && crate::service::appended_if_fitting(
                                before,
                                error_bytes(msg@, date),
                                true,
                                after,
                            );
                        assert(answer =~= error_bytes(msg@, date));
                    },
                }
                assert(exchange.is_answered());
                assert(after =~= before + answer);
                assert(next.exchanges.drop_last() =~= h.exchanges);
                assert(h.written + after =~= (h.written + before) + answer);
                assert(served(next.exchanges) =~= served(h.exchanges).push(req));
                assert(next.written.is_prefix_of(next.written + after));
            }
        },
        (ConnActionView::Write, Turn::Written { outcomes }) => {
            let bytes = h.conn.responses;
            if possible(Direction::Writing, 0, bytes.len(), outcomes) {
                law_writes_keep_the_order(bytes, 0, outcomes);
                let n = moved_by(Direction::Writing, 0, bytes.len(), outcomes) as int;
                let part = handed_over(bytes, 0, outcomes);
                assert(part + bytes.skip(n) =~= bytes);
                assert((h.written + part) + bytes.skip(n) =~= h.written + bytes);
                assert((h.written + part).is_prefix_of((h.written + part) + bytes.skip(n)));
            }
        },
        _ => {},
    }
}

/// As long as no request asks for an upgrade, and whatever the reads, the parser, the service
/// and the writes come to: the service is called once for each request that was parsed, in
/// their order, and each answer is what its call leads to. The bytes that the peer was handed
/// are at all times a first part of the answers one behind the other: none is lost, repeated
/// or moved. Until the connection fails, the rest of the answers waits in the response buffer.
pub proof fn law_answers_go_out_in_order<B>(turns: Seq<Turn<B>>)
    requires
        stays_http(turns),
    ensures
        in_order(history(turns)),
    decreases turns.len(),
{
    if turns.len() == 0 {
        let h = history(turns);
        assert(h.written + h.conn.responses =~= all_answers(h.exchanges));
        assert(h.decoded =~= served(h.exchanges));
    } else {
        let earlier = turns.drop_last();
        assert forall|i: int| 0 <= i < earlier.len() implies match #[trigger] earlier[i] {
            Turn::Decoded { parsed: Ok(Some(req)), .. } => !asks_for_websocket(req.header_views()),
            _ => true,
        } by {
            assert(earlier[i] == turns[i]);
        }
        law_answers_go_out_in_order(earlier);
        assert(turns[turns.len() - 1] == turns.last());
        lemma_turn_keeps_order(history(earlier), turns.last());
    }
}

} // verus!
