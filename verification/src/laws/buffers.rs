//! How buffers grow.

use bytes::BytesMut;
use vstd::prelude::*;

use crate::buffer::{buffer_bytes, can_hold, fits, growth, reserve_buf};
use crate::connection::Buffers;

verus! {

/// A buffer with 1024 bytes to spare is not made to grow. One with less is asked for what, with
/// the room it has, makes 32768 bytes.
pub proof fn law_growth_fills_up_to_the_full_length(capacity: usize, len: usize, r: Option<usize>)
    requires
        call_ensures(growth, (capacity, len), r),
        len <= capacity,
    ensures
        capacity - len >= 1024 ==> r is None,
        capacity - len < 1024 ==> (r matches Some(more) && (capacity - len) + more == 32768),
{
}

/// Making room keeps the contents. A buffer that reports 1024 bytes to spare is left as it is;
/// any other has at least 32768 bytes less what it had before. So 1024 bytes are free
/// afterwards.
pub proof fn law_there_is_room_after_making_it(before: usize, after: usize)
    ensures
        forall|buf: &mut BytesMut|
            {
                &&& #[trigger] call_ensures(reserve_buf, (buf,), ())
                &&& call_ensures(BytesMut::capacity, (&*buf,), before)
                &&& call_ensures(BytesMut::capacity, (&*final(buf),), after)
            } ==> {
                let len = buffer_bytes(*buf).len();
                &&& buffer_bytes(*final(buf)) == buffer_bytes(*buf)
                &&& before - len >= 1024 ==> *final(buf) == *buf
                &&& before - len < 1024 ==> after - len >= 32768 - (before - len)
                &&& after - len >= 1024
            },
{
}

/// A buffer can be made to grow to a quarter of the largest allocation, and can hold no more
/// than that allocation.
pub proof fn law_what_fits(len: usize, r: bool)
    ensures
        call_ensures(fits, (len,), r) ==> r == (4 * len <= isize::MAX),
        call_ensures(can_hold, (len,), r) ==> r == (len <= isize::MAX),
{
}

/// The buffers of a new connection are empty, and report room for 32768 bytes of requests and of
/// responses and for 4096 bytes of a body.
pub proof fn law_a_connection_starts_with_room(
    buffers: Buffers,
    requests: usize,
    responses: usize,
    body: usize,
)
    requires
        call_ensures(Buffers::new, (), buffers),
        call_ensures(BytesMut::capacity, (&buffers.requests,), requests),
        call_ensures(BytesMut::capacity, (&buffers.responses,), responses),
        call_ensures(BytesMut::capacity, (&buffers.body,), body),
    ensures
        buffer_bytes(buffers.requests).len() == 0,
        buffer_bytes(buffers.responses).len() == 0,
        buffer_bytes(buffers.body).len() == 0,
        requests >= 32768,
        responses >= 32768,
        body >= 4096,
{
}

} // verus!
