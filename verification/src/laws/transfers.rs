//! Reading and writing, call by call.

use bytes::BytesMut;
use vstd::prelude::*;

use crate::buffer::buffer_bytes;
use crate::error::ServeError;
use crate::transfer::{
    failure_of, handed_over, moved_by, read_once, Direction, Outcome, Progress, Transfer,
};

verus! {

/// After a call that moved some bytes, exactly so many more count as moved, whichever way they
/// went, and the transfer goes on exactly as long as bytes are left.
pub proof fn law_every_byte_moved_counts(n: usize)
    requires
        n > 0,
    ensures
        forall|t: &mut Transfer, progress: Progress, before: usize, after: usize, more: bool|
            {
                &&& #[trigger] call_ensures(Transfer::step, (t, Outcome::Moved(n)), progress)
                &&& #[trigger] call_ensures(Transfer::done, (&*t,), before)
                &&& #[trigger] call_ensures(Transfer::done, (&*final(t),), after)
                &&& #[trigger] call_ensures(Transfer::unfinished, (&*final(t),), more)
            } ==> {
                &&& after == before + n
                &&& more == (after < t.wanted())
                &&& final(t).wanted() == t.wanted()
                &&& more ==> progress == Progress::More
                &&& !more ==> progress == Progress::Stop
            },
{
}

/// A call that moves nothing fails the transfer as closed by the peer, one that would block
/// stops it, and one that fails fails it with its error. None of them counts bytes.
pub proof fn law_other_outcomes_move_nothing(e: std::io::Error)
    ensures
        forall|t: &mut Transfer, outcome: Outcome, progress: Progress, before: usize, after: usize|
            {
                &&& #[trigger] call_ensures(Transfer::step, (t, outcome), progress)
                &&& #[trigger] call_ensures(Transfer::done, (&*t,), before)
                &&& #[trigger] call_ensures(Transfer::done, (&*final(t),), after)
            } ==> {
                &&& outcome == Outcome::Moved(0) || outcome == Outcome::WouldBlock || outcome
                    == Outcome::Failed(e) ==> after == before
                &&& outcome == Outcome::WouldBlock ==> progress == Progress::Stop
                &&& outcome == Outcome::Failed(e) ==> progress == Progress::Fail(
                    ServeError::Io(e),
                )
                &&& outcome == Outcome::Moved(0) && t.way() == Direction::Reading ==> progress
                    == Progress::Fail(ServeError::ReadClosed)
                &&& outcome == Outcome::Moved(0) && t.way() == Direction::Writing ==> progress
                    == Progress::Fail(ServeError::WriteClosed)
                &&& final(t).way() == t.way()
            },
{
}

/// What a write leaves unwritten is what was unwritten before it but for the bytes that it
/// moved, and the transfer goes on exactly if that is not empty.
pub proof fn law_a_write_takes_from_the_front(buf: &BytesMut, n: usize)
    ensures
        forall|t: &mut Transfer, progress: Progress, before: &[u8], after: &[u8]|
            {
                &&& #[trigger] call_ensures(Transfer::step, (t, Outcome::Moved(n)), progress)
                &&& #[trigger] call_ensures(Transfer::unwritten, (&*t, buf), before)
                &&& #[trigger] call_ensures(Transfer::unwritten, (&*final(t), buf), after)
                &&& t.wanted() == buffer_bytes(*buf).len()
                &&& 0 < n <= before@.len()
            } ==> {
                &&& before@.take(n as int) + after@ == before@
                &&& progress == Progress::More <==> after@.len() > 0
                &&& final(t).wanted() == t.wanted()
            },
{
    assert forall|t: &mut Transfer, progress: Progress, before: &[u8], after: &[u8]|
        {
            &&& #[trigger] call_ensures(Transfer::step, (t, Outcome::Moved(n)), progress)
            &&& #[trigger] call_ensures(Transfer::unwritten, (&*t, buf), before)
            &&& #[trigger] call_ensures(Transfer::unwritten, (&*final(t), buf), after)
            &&& t.wanted() == buffer_bytes(*buf).len()
            &&& 0 < n <= before@.len()
        } implies {
        &&& before@.take(n as int) + after@ == before@
        &&& progress == Progress::More <==> after@.len() > 0
        &&& final(t).wanted() == t.wanted()
    } by {
        assert(before@.take(n as int) + after@ =~= before@);
    }
}

/// A new transfer has moved nothing, all of the buffer is unwritten, and bytes are left unless
/// there are none.
pub proof fn law_a_transfer_starts_with_everything(
    buf: &BytesMut,
    room: usize,
    reading: Transfer,
    writing: Transfer,
    read: usize,
    written: usize,
    room_left: bool,
    bytes_left: bool,
    unwritten: &[u8],
)
    requires
        call_ensures(Transfer::reading, (room,), reading),
        call_ensures(Transfer::writing, (buf,), writing),
        call_ensures(Transfer::done, (&reading,), read),
        call_ensures(Transfer::done, (&writing,), written),
        call_ensures(Transfer::unfinished, (&reading,), room_left),
        call_ensures(Transfer::unfinished, (&writing,), bytes_left),
        call_ensures(Transfer::unwritten, (&writing, buf), unwritten),
    ensures
        read == 0,
        written == 0,
        room_left == (room > 0),
        bytes_left == (buffer_bytes(*buf).len() > 0),
        unwritten@ == buffer_bytes(*buf),
        reading.way() == Direction::Reading,
        writing.way() == Direction::Writing,
        reading.wanted() == room,
        writing.wanted() == buffer_bytes(*buf).len(),
{
    assert(buffer_bytes(*buf).skip(0) =~= buffer_bytes(*buf));
}

/// When a transfer is done with, the buffer is left with what was unwritten, and the number of
/// bytes written is the number of bytes that are gone.
pub proof fn law_what_is_unwritten_stays(t: &Transfer)
    ensures
        forall|buf: &mut BytesMut, n: usize, unwritten: &[u8], done: usize|
            {
                &&& #[trigger] call_ensures(Transfer::consume, (t, buf), n)
                &&& #[trigger] call_ensures(Transfer::unwritten, (t, &*buf), unwritten)
                &&& #[trigger] call_ensures(Transfer::done, (t,), done)
                &&& done <= buffer_bytes(*buf).len()
            } ==> {
                &&& buffer_bytes(*final(buf)) == unwritten@
                &&& n == done
                &&& buffer_bytes(*buf).len() == n + buffer_bytes(*final(buf)).len()
            },
{
}

/// All bytes of a reading are kept unless it failed, and then none.
pub proof fn law_a_reading_is_kept_whole_or_not_at_all(
    t: &Transfer,
    ended: &Progress,
    done: usize,
    kept: usize,
)
    requires
        call_ensures(Transfer::done, (t,), done),
        call_ensures(Transfer::kept, (t, ended), kept),
    ensures
        *ended == Progress::More || *ended == Progress::Stop ==> kept == done,
        *ended matches Progress::Fail(_) ==> kept == 0,
{
}

/// The bytes that a peer takes which, call after call, takes so many of those it has not taken
/// yet.
pub open spec fn taken(bytes: Seq<u8>, counts: Seq<usize>) -> Seq<u8>
    decreases counts.len(),
{
    if counts.len() == 0 {
        Seq::empty()
    } else {
        bytes.take(counts[0] as int) + taken(bytes.skip(counts[0] as int), counts.drop_first())
    }
}

/// The sum of the counts.
pub open spec fn sum_of(counts: Seq<usize>) -> nat
    decreases counts.len(),
{
    if counts.len() == 0 {
        0
    } else {
        counts[0] as nat + sum_of(counts.drop_first())
    }
}

/// The outcomes of calls that move so many bytes, and then of one more call, which is not made
/// if everything has been moved before.
pub open spec fn moves(counts: Seq<usize>, last: Outcome) -> Seq<Outcome> {
    counts.map_values(|n: usize| Outcome::Moved(n)).push(last)
}

/// However the bytes are cut into calls, in either direction: all bytes that the calls moved
/// count, and the last call decides whether and how the transfer fails, unless everything was
/// moved before it.
pub proof fn law_calls_add_up(
    direction: Direction,
    done: nat,
    total: nat,
    counts: Seq<usize>,
    last: Outcome,
)
    requires
        forall|i: int| 0 <= i < counts.len() ==> #[trigger] counts[i] > 0,
        done + sum_of(counts) <= total,
        last matches Outcome::Moved(n) ==> n == 0,
        done < total || counts.len() == 0,
    ensures
        moved_by(direction, done, total, moves(counts, last)) == done + sum_of(counts),
        done + sum_of(counts) < total || counts.len() == 0 ==> failure_of(
            direction,
            done,
            total,
            moves(counts, last),
        ) == match last {
            Outcome::Moved(_) => if direction == Direction::Reading {
                Some(ServeError::ReadClosed)
            } else {
                Some(ServeError::WriteClosed)
            },
            Outcome::WouldBlock => None,
            Outcome::Failed(e) => Some(ServeError::Io(e)),
        },
        done + sum_of(counts) == total && counts.len() > 0 ==> failure_of(
            direction,
            done,
            total,
            moves(counts, last),
        ) is None,
    decreases counts.len(),
{
    let outcomes = moves(counts, last);
    if counts.len() > 0 {
        let rest = counts.drop_first();
        assert(outcomes.drop_first() =~= moves(rest, last));
        assert(outcomes[0] == Outcome::Moved(counts[0]));
        assert(counts[0] > 0);
        assert forall|i: int| 0 <= i < rest.len() implies #[trigger] rest[i] > 0 by {
            assert(rest[i] == counts[i + 1]);
        }
        lemma_sum_positive(rest);
        if done + counts[0] < total {
            law_calls_add_up(direction, done + counts[0] as nat, total, rest, last);
        }
    } else {
        assert(outcomes[0] == last);
        assert(outcomes.drop_first() =~= Seq::empty());
    }
}

proof fn lemma_sum_positive(counts: Seq<usize>)
    requires
        forall|i: int| 0 <= i < counts.len() ==> #[trigger] counts[i] > 0,
    ensures
        counts.len() > 0 ==> sum_of(counts) > 0,
{
    if counts.len() > 0 {
        assert(counts[0] > 0);
    }
}

/// The bytes that a peer takes over any calls are handed to it once and in their order: what it
/// took, and then what is left, are the bytes that were to be written.
pub proof fn law_the_peer_gets_every_byte_once(bytes: Seq<u8>, counts: Seq<usize>, last: Outcome)
    requires
        forall|i: int| 0 <= i < counts.len() ==> #[trigger] counts[i] > 0,
        sum_of(counts) <= bytes.len(),
        last matches Outcome::Moved(n) ==> n == 0,
    ensures
        taken(bytes, counts) + bytes.skip(
            moved_by(Direction::Writing, 0, bytes.len(), moves(counts, last)) as int,
        ) == bytes,
        handed_over(bytes, 0, moves(counts, last)) == taken(bytes, counts),
{
    if bytes.len() > 0 || counts.len() == 0 {
        law_calls_add_up(Direction::Writing, 0, bytes.len(), counts, last);
        lemma_taken(bytes, counts);
        lemma_handed_over(bytes, 0, counts, last);
        assert(bytes.skip(0) =~= bytes);
        assert(taken(bytes, counts) + bytes.skip(sum_of(counts) as int) =~= bytes);
    } else {
        assert(counts[0] > 0);
    }
}

proof fn lemma_taken(bytes: Seq<u8>, counts: Seq<usize>)
    requires
        sum_of(counts) <= bytes.len(),
    ensures
        taken(bytes, counts) == bytes.take(sum_of(counts) as int),
    decreases counts.len(),
{
    if counts.len() > 0 {
        let n = counts[0] as int;
        lemma_taken(bytes.skip(n), counts.drop_first());
        assert(taken(bytes, counts) =~= bytes.take(sum_of(counts) as int));
    } else {
        assert(taken(bytes, counts) =~= bytes.take(0));
    }
}

proof fn lemma_handed_over(bytes: Seq<u8>, done: nat, counts: Seq<usize>, last: Outcome)
    requires
        forall|i: int| 0 <= i < counts.len() ==> #[trigger] counts[i] > 0,
        done + sum_of(counts) <= bytes.len(),
        last matches Outcome::Moved(n) ==> n == 0,
    ensures
        handed_over(bytes, done, moves(counts, last)) == taken(bytes.skip(done as int), counts),
    decreases counts.len(),
{
    let outcomes = moves(counts, last);
    if counts.len() > 0 {
        let n = counts[0] as int;
        let rest = counts.drop_first();
        assert(outcomes.drop_first() =~= moves(rest, last));
        assert(outcomes[0] == Outcome::Moved(counts[0]));
        assert(counts[0] > 0);
        assert forall|i: int| 0 <= i < rest.len() implies #[trigger] rest[i] > 0 by {
            assert(rest[i] == counts[i + 1]);
        }
        lemma_sum_positive(rest);
        assert(bytes.skip(done as int).skip(n) =~= bytes.skip(done + n));
        if done + n < bytes.len() {
            lemma_handed_over(bytes, (done + n) as nat, rest, last);
            assert(handed_over(bytes, done, outcomes) == bytes.skip(done as int).take(n)
                + handed_over(bytes, (done + n) as nat, moves(rest, last)));
        } else {
            assert(rest.len() == 0);
            assert(taken(bytes.skip(done as int).skip(n), rest) =~= Seq::<u8>::empty());
            assert(handed_over(bytes, done, outcomes) =~= bytes.skip(done as int).take(n));
            assert(taken(bytes.skip(done as int), counts) =~= bytes.skip(done as int).take(n));
        }
    } else {
        assert(outcomes[0] == last);
        assert(handed_over(bytes, done, outcomes) =~= Seq::<u8>::empty());
    }
}

/// A single read gives the number of bytes that arrived, and says that the socket has no more
/// exactly if they leave room. A read that would block brings nothing; one that brings nothing
/// means that the peer has hung up.
pub proof fn law_a_single_read(
    room: usize,
    outcome: Outcome,
    r: Result<(usize, bool), ServeError>,
    e: std::io::Error,
)
    requires
        call_ensures(read_once, (room, outcome), r),
    ensures
        forall|n: usize|
            n > 0 && outcome == Outcome::Moved(n) ==> r == Ok::<(usize, bool), ServeError>(
                (n, n < room),
            ),
        outcome == Outcome::Moved(0) ==> r == Err::<(usize, bool), ServeError>(
            ServeError::ReadClosed,
        ),
        outcome == Outcome::WouldBlock ==> r == Ok::<(usize, bool), ServeError>((0, true)),
        outcome == Outcome::Failed(e) ==> r == Err::<(usize, bool), ServeError>(ServeError::Io(e)),
{
}

} // verus!
