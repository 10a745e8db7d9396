//! Moving bytes to and from a socket that does not block.

use bytes::BytesMut;
use vstd::prelude::*;
use vstd::slice::slice_subrange;

use crate::buffer::{advance, as_slice, buffer_bytes};
use crate::error::ServeError;

verus! {

/// What came of one call that reads from a socket or writes to it.
#[derive(Debug)]
pub enum Outcome {
    /// So many bytes were moved.
    Moved(usize),
    /// Nothing can be moved now.
    WouldBlock,
    /// The call failed.
    Failed(std::io::Error),
}

/// Which way bytes are moved.
#[derive(Debug, Clone, Copy, PartialEq, Eq, Structural)]
pub enum Direction {
    Reading,
    Writing,
}

/// How a transfer goes on.
#[derive(Debug)]
pub enum Progress {
    /// Move more bytes.
    More,
    /// Everything was moved, or nothing more can be moved now.
    Stop,
    /// The transfer failed.
    Fail(ServeError),
}

/// The error of a transfer whose peer has closed the connection.
pub open spec fn closed_error(direction: Direction) -> ServeError {
    match direction {
        Direction::Reading => ServeError::ReadClosed,
        Direction::Writing => ServeError::WriteClosed,
    }
}

/// How many bytes have been moved after a call with this outcome, and how it goes on.
pub open spec fn after_call(direction: Direction, done: nat, total: nat, outcome: Outcome) -> (
    nat,
    Progress,
) {
    match outcome {
        Outcome::Moved(n) => if n == 0 {
            (done, Progress::Fail(closed_error(direction)))
        } else if done + n < total {
            (done + n as nat, Progress::More)
        } else {
            (done + n as nat, Progress::Stop)
        },
        Outcome::WouldBlock => (done, Progress::Stop),
        Outcome::Failed(e) => (done, Progress::Fail(ServeError::Io(e))),
    }
}

/// A transfer of a known number of bytes, call by call.
#[derive(Debug)]
pub struct Transfer {
    direction: Direction,
    done: usize,
    total: usize,
}

impl Transfer {
    /// Which way the bytes are moved.
    pub closed spec fn way(&self) -> Direction {
        self.direction
    }

    /// How many bytes have been moved.
    pub closed spec fn moved(&self) -> nat {
        self.done as nat
    }

    /// How many bytes there are to move.
    pub closed spec fn wanted(&self) -> nat {
        self.total as nat
    }

    /// Whether no more was moved than there was to move.
    pub open spec fn well_formed(&self) -> bool {
        self.moved() <= self.wanted()
    }

    /// The reading of as many bytes as there is room for.
    pub fn reading(room: usize) -> (transfer: Transfer)
        ensures
            transfer.well_formed(),
            transfer.way() == Direction::Reading,
            transfer.moved() == 0,
            transfer.wanted() == room,
    {
        Transfer { direction: Direction::Reading, done: 0, total: room }
    }

    /// The writing of all that a buffer holds.
    pub fn writing(buf: &BytesMut) -> (transfer: Transfer)
        ensures
            transfer.well_formed(),
            transfer.way() == Direction::Writing,
            transfer.moved() == 0,
            transfer.wanted() == buffer_bytes(*buf).len(),
    {
        Transfer { direction: Direction::Writing, done: 0, total: buf.len() }
    }

    /// How many bytes have been moved.
    pub fn done(&self) -> (n: usize)
        ensures
            n == self.moved(),
    {
        self.done
    }

    /// Whether there are bytes left to move.
    pub fn unfinished(&self) -> (r: bool)
        ensures
            r == (self.moved() < self.wanted()),
    {
        self.done < self.total
    }

    /// The part of the buffer that has not been written yet.
    pub fn unwritten<'a>(&self, buf: &'a BytesMut) -> (r: &'a [u8])
        requires
            self.moved() <= buffer_bytes(*buf).len(),
        ensures
            r@ == buffer_bytes(*buf).skip(self.moved() as int),
    {
        let bytes = as_slice(buf);
        let r = slice_subrange(bytes, self.done, bytes.len());
        assert(r@ =~= buffer_bytes(*buf).skip(self.done as int));
        r
    }

    /// Takes in what came of a call, and says how to go on.
    pub fn step(&mut self, outcome: Outcome) -> (progress: Progress)
        requires
            old(self).well_formed(),
            outcome matches Outcome::Moved(n) ==> n <= old(self).wanted() - old(self).moved(),
        ensures
            final(self).well_formed(),
            final(self).way() == old(self).way(),
            final(self).wanted() == old(self).wanted(),
            (final(self).moved(), progress) == after_call(
                old(self).way(),
                old(self).moved(),
                old(self).wanted(),
                outcome,
            ),
    {
        match outcome {
            Outcome::Moved(n) => if n == 0 {
                match self.direction {
                    Direction::Reading => Progress::Fail(ServeError::ReadClosed),
                    Direction::Writing => Progress::Fail(ServeError::WriteClosed),
                }
            } else {
                self.done = self.done + n;
                if self.done < self.total {
                    Progress::More
                } else {
                    Progress::Stop
                }
            },
            Outcome::WouldBlock => Progress::Stop,
            Outcome::Failed(e) => Progress::Fail(ServeError::Io(e)),
        }
    }

    /// How many of the bytes that were read are kept: none if the reading failed.
    pub fn kept(&self, ended: &Progress) -> (n: usize)
        requires
            self.well_formed(),
            self.way() == Direction::Reading,
        ensures
            n == match *ended {
                Progress::Fail(_) => 0,
                _ => self.moved(),
            },
    {
        match ended {
            Progress::Fail(_) => 0,
            _ => self.done,
        }
    }

    /// Drops what was written from the buffer, and says how much that was.
    pub fn consume(&self, buf: &mut BytesMut) -> (n: usize)
        requires
            self.moved() <= buffer_bytes(*old(buf)).len(),
        ensures
            n == self.moved(),
            buffer_bytes(*final(buf)) == buffer_bytes(*old(buf)).skip(self.moved() as int),
    {
        advance(buf, self.done);
        self.done
    }
}

/// What a single read comes to: how many bytes arrived, and whether the socket had no more
/// to give.
pub open spec fn single_read(room: nat, outcome: Outcome) -> Result<(usize, bool), ServeError> {
    match outcome {
        Outcome::Moved(n) => if n == 0 {
            Err(ServeError::ReadClosed)
        } else {
            Ok((n, n < room))
        },
        Outcome::WouldBlock => Ok((0, true)),
        Outcome::Failed(e) => Err(ServeError::Io(e)),
    }
}

/// Decides what a single read into this much room comes to.
pub fn read_once(room: usize, outcome: Outcome) -> (r: Result<(usize, bool), ServeError>)
    ensures
        r == single_read(room as nat, outcome),
{
    match outcome {
        Outcome::Moved(n) => if n == 0 {
            Err(ServeError::ReadClosed)
        } else {
            Ok((n, n < room))
        },
        Outcome::WouldBlock => Ok((0, true)),
        Outcome::Failed(e) => Err(ServeError::Io(e)),
    }
}

/// Whether calls with these outcomes can follow one another: none moves more than is left.
pub open spec fn possible(
    direction: Direction,
    done: nat,
    total: nat,
    outcomes: Seq<Outcome>,
) -> bool
    decreases outcomes.len(),
{
    outcomes.len() > 0 ==> {
        let (next, progress) = after_call(direction, done, total, outcomes[0]);
        &&& next <= total
        &&& progress is More ==> possible(direction, next, total, outcomes.drop_first())
    }
}

/// How many bytes have been moved when calls with these outcomes have been made, each as long
/// as the one before it says to go on.
pub open spec fn moved_by(
    direction: Direction,
    done: nat,
    total: nat,
    outcomes: Seq<Outcome>,
) -> nat
    decreases outcomes.len(),
{
    if outcomes.len() == 0 {
        done
    } else {
        let (next, progress) = after_call(direction, done, total, outcomes[0]);
        if progress is More {
            moved_by(direction, next, total, outcomes.drop_first())
        } else {
            next
        }
    }
}

/// Why the transfer fails with these calls, if it does.
pub open spec fn failure_of(
    direction: Direction,
    done: nat,
    total: nat,
    outcomes: Seq<Outcome>,
) -> Option<ServeError>
    decreases outcomes.len(),
{
    if outcomes.len() == 0 {
        None
    } else {
        match after_call(direction, done, total, outcomes[0]) {
            (next, Progress::More) => failure_of(direction, next, total, outcomes.drop_first()),
            (_, Progress::Stop) => None,
            (_, Progress::Fail(e)) => Some(e),
        }
    }
}

/// The bytes that these calls hand to the peer, each a first part of what was unwritten.
pub open spec fn handed_over(bytes: Seq<u8>, done: nat, outcomes: Seq<Outcome>) -> Seq<u8>
    decreases outcomes.len(),
{
    if outcomes.len() == 0 {
        Seq::empty()
    } else {
        let (next, progress) = after_call(Direction::Writing, done, bytes.len(), outcomes[0]);
        bytes.skip(done as int).take(next - done) + if progress is More {
            handed_over(bytes, next, outcomes.drop_first())
        } else {
            Seq::empty()
        }
    }
}

/// What the calls of a transfer hand to the peer, and what is left in the buffer when it has
/// dropped as many bytes, are the bytes that were unwritten, in their order: none is lost,
/// repeated or moved.
pub proof fn law_writes_keep_the_order(bytes: Seq<u8>, done: nat, outcomes: Seq<Outcome>)
    requires
        done <= bytes.len(),
        possible(Direction::Writing, done, bytes.len(), outcomes),
    ensures
        done <= moved_by(Direction::Writing, done, bytes.len(), outcomes) <= bytes.len(),
        handed_over(bytes, done, outcomes) + bytes.skip(
            moved_by(Direction::Writing, done, bytes.len(), outcomes) as int,
        ) == bytes.skip(done as int),
    decreases outcomes.len(),
{
    if outcomes.len() > 0 {
        let (next, progress) = after_call(Direction::Writing, done, bytes.len(), outcomes[0]);
        if progress is More {
            law_writes_keep_the_order(bytes, next, outcomes.drop_first());
        }
    }
    let end = moved_by(Direction::Writing, done, bytes.len(), outcomes) as int;
    assert(handed_over(bytes, done, outcomes) =~= bytes.subrange(done as int, end)) by {
        if outcomes.len() > 0 {
            let (next, progress) = after_call(Direction::Writing, done, bytes.len(), outcomes[0]);
            if progress is More {
                let later = handed_over(bytes, next, outcomes.drop_first());
                assert(later + bytes.skip(end) == bytes.skip(next as int));
                assert(later =~= (later + bytes.skip(end)).take(end - next));
                assert(later =~= bytes.subrange(next as int, end));
            }
        }
    }
    assert(handed_over(bytes, done, outcomes) + bytes.skip(end) =~= bytes.skip(done as int));
}

/// One read, and the bytes that it delivered if it moved any.
pub struct Arrival {
    pub outcome: Outcome,
    pub bytes: Seq<u8>,
}

impl Arrival {
    /// Whether as many bytes were delivered as the call moved.
    pub open spec fn is_consistent(self) -> bool {
        match self.outcome {
            Outcome::Moved(n) => self.bytes.len() == n,
            _ => self.bytes.len() == 0,
        }
    }
}

/// What came of each read.
pub open spec fn outcomes_of(arrivals: Seq<Arrival>) -> Seq<Outcome> {
    arrivals.map_values(|arrival: Arrival| arrival.outcome)
}

/// The bytes that these reads deliver, each read as long as the one before it says to go on.
pub open spec fn delivered(done: nat, total: nat, arrivals: Seq<Arrival>) -> Seq<u8>
    decreases arrivals.len(),
{
    if arrivals.len() == 0 {
        Seq::empty()
    } else {
        let (next, progress) = after_call(Direction::Reading, done, total, arrivals[0].outcome);
        arrivals[0].bytes + if progress is More {
            delivered(next, total, arrivals.drop_first())
        } else {
            Seq::empty()
        }
    }
}

/// The room that is read into, after these reads: each delivers behind what is there already.
pub open spec fn room_after(room: Seq<u8>, done: nat, arrivals: Seq<Arrival>) -> Seq<u8>
    decreases arrivals.len(),
{
    if arrivals.len() == 0 {
        room
    } else {
        let (next, progress) = after_call(
            Direction::Reading,
            done,
            room.len(),
            arrivals[0].outcome,
        );
        let filled = room.take(done as int) + arrivals[0].bytes + room.skip(
            done as int + arrivals[0].bytes.len(),
        );
        if progress is More {
            room_after(filled, next, arrivals.drop_first())
        } else {
            filled
        }
    }
}

/// How many bytes of a reading are kept, as [`Transfer::kept`] says.
pub open spec fn kept_of(total: nat, outcomes: Seq<Outcome>) -> nat {
    if failure_of(Direction::Reading, 0, total, outcomes) is Some {
        0
    } else {
        moved_by(Direction::Reading, 0, total, outcomes)
    }
}

proof fn lemma_room_holds_what_arrived(room: Seq<u8>, done: nat, arrivals: Seq<Arrival>)
    requires
        done <= room.len(),
        possible(Direction::Reading, done, room.len(), outcomes_of(arrivals)),
        forall|i: int| 0 <= i < arrivals.len() ==> (#[trigger] arrivals[i]).is_consistent(),
    ensures
        ({
            let end = moved_by(Direction::Reading, done, room.len(), outcomes_of(arrivals));
            &&& done <= end <= room.len()
            &&& room_after(room, done, arrivals).len() == room.len()
            &&& room_after(room, done, arrivals).take(end as int) == room.take(done as int)
                + delivered(done, room.len(), arrivals)
        }),
    decreases arrivals.len(),
{
    let outcomes = outcomes_of(arrivals);
    if arrivals.len() == 0 {
        assert(room.take(done as int) + delivered(done, room.len(), arrivals) =~= room.take(
            done as int,
        ));
    } else {
        let first = arrivals[0];
        let rest = arrivals.drop_first();
        assert(first.is_consistent());
        assert(outcomes.drop_first() =~= outcomes_of(rest));
        let (next, progress) = after_call(Direction::Reading, done, room.len(), first.outcome);
        let filled = room.take(done as int) + first.bytes + room.skip(
            done as int + first.bytes.len(),
        );
        assert(filled.len() == room.len());
        assert(filled.take(next as int) =~= room.take(done as int) + first.bytes);
        if progress is More {
            assert forall|i: int| 0 <= i < rest.len() implies (#[trigger] rest[i]).is_consistent() by {
                assert(rest[i] == arrivals[i + 1]);
            }
            lemma_room_holds_what_arrived(filled, next, rest);
            assert(room.take(done as int) + first.bytes + delivered(next, room.len(), rest)
                =~= room.take(done as int) + delivered(done, room.len(), arrivals));
        } else {
            assert(delivered(done, room.len(), arrivals) =~= first.bytes);
        }
    }
}

/// What is kept of a reading is what its reads delivered, in their order, and nothing at all
/// if the reading failed.
pub proof fn law_reads_keep_the_order(room: Seq<u8>, arrivals: Seq<Arrival>)
    requires
        possible(Direction::Reading, 0, room.len(), outcomes_of(arrivals)),
        forall|i: int| 0 <= i < arrivals.len() ==> (#[trigger] arrivals[i]).is_consistent(),
    ensures
        ({
            let outcomes = outcomes_of(arrivals);
            let kept = kept_of(room.len(), outcomes);
            &&& kept <= room.len()
            &&& room_after(room, 0, arrivals).take(kept as int) == if failure_of(
                Direction::Reading,
                0,
                room.len(),
                outcomes,
            ) is Some {
                Seq::<u8>::empty()
            } else {
                delivered(0, room.len(), arrivals)
            }
        }),
{
    lemma_room_holds_what_arrived(room, 0, arrivals);
    let delivered = delivered(0, room.len(), arrivals);
    assert(room.take(0) + delivered =~= delivered);
    assert(room_after(room, 0, arrivals).take(0) =~= Seq::<u8>::empty());
}

} // verus!
