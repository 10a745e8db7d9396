//! The growable byte buffers that requests, responses and frames travel in.

use bytes::{Buf, BufMut, BytesMut};
use vstd::arithmetic::power::{lemma_pow0, lemma_pow1, lemma_pow_adds, pow};
use vstd::prelude::*;

verus! {

/// The buffer of the `bytes` crate. Its contents are [`buffer_bytes`].
#[verifier::external_type_specification]
#[verifier::external_body]
pub struct ExBytesMut(BytesMut);

/// The bytes that a buffer holds, first to last.
pub uninterp spec fn buffer_bytes(buf: BytesMut) -> Seq<u8>;

/// How many bytes a buffer can be asked to hold on every machine without overflowing.
///
/// A buffer that runs out of room may keep the space of bytes already consumed, which is
/// at most as large as what it has to hold, and doubles the whole. That doubled size has
/// to stay within `isize::MAX`, the largest allocation there is.
pub open spec fn fits_buffer(len: nat) -> bool {
    4 * len <= isize::MAX
}

/// Whether `len` bytes fit in a buffer.
pub fn fits(len: usize) -> (r: bool)
    ensures
        r == fits_buffer(len as nat),
{
    len <= isize::MAX as usize / 4
}

/// Whether a buffer can hold so many bytes at all: no allocation is larger than `isize::MAX`.
pub open spec fn holdable(len: nat) -> bool {
    len <= isize::MAX
}

/// Whether a buffer can hold so many bytes at all.
pub fn can_hold(len: usize) -> (r: bool)
    ensures
        r == holdable(len as nat),
{
    len <= isize::MAX as usize
}

/// Whether every capacity that the buffer reports leaves room for so many bytes more.
pub open spec fn has_room(buf: BytesMut, more: nat) -> bool {
    forall|capacity: usize| #[trigger]
        call_ensures(BytesMut::capacity, (&buf,), capacity) ==> capacity >= buffer_bytes(buf).len()
            + more
}

/// Whether so many bytes more can be appended to the buffer: it can grow that far, or it has
/// the room already.
pub open spec fn can_take(buf: BytesMut, more: nat) -> bool {
    fits_buffer(buffer_bytes(buf).len() + more) || has_room(buf, more)
}

/// `BytesMut::with_capacity`: a new buffer holds nothing, and the capacity that it reports is
/// at least what it was made with.
pub assume_specification[ BytesMut::with_capacity ](capacity: usize) -> (buf: BytesMut)
    requires
        capacity <= isize::MAX,
    ensures
        buffer_bytes(buf) == Seq::<u8>::empty(),
        has_room(buf, capacity as nat),
;

/// `BytesMut::len`: the number of bytes held.
pub assume_specification[ BytesMut::len ](buf: &BytesMut) -> (n: usize)
    ensures
        n == buffer_bytes(*buf).len(),
;

/// `BytesMut::capacity`: what is allocated, which is never less than what is held. How
/// much more it is rests with the allocator.
pub assume_specification[ BytesMut::capacity ](buf: &BytesMut) -> (n: usize)
    ensures
        n >= buffer_bytes(*buf).len(),
;

/// `BytesMut::capacity`, once more: the capacity that is reported is the only one that this
/// buffer, as long as nothing changes it, reports. It is a field of the buffer.
#[verifier::external_body]
fn reported_capacity(buf: &BytesMut) -> (n: usize)
    ensures
        call_ensures(BytesMut::capacity, (buf,), n),
        forall|m: usize| #[trigger] call_ensures(BytesMut::capacity, (buf,), m) ==> m == n,
{
    buf.capacity()
}

/// `BytesMut::reserve`: leaves the contents as they are, and sees to it that the capacity
/// that the buffer reports from then on leaves room for so many bytes more.
pub assume_specification[ BytesMut::reserve ](buf: &mut BytesMut, additional: usize)
    requires
        fits_buffer(buffer_bytes(*old(buf)).len() + additional as nat),
    ensures
        buffer_bytes(*final(buf)) == buffer_bytes(*old(buf)),
        has_room(*final(buf), additional as nat),
;

/// `BytesMut::clear`: drops all contents.
pub assume_specification[ BytesMut::clear ](buf: &mut BytesMut)
    ensures
        buffer_bytes(*final(buf)) == Seq::<u8>::empty(),
;

/// `BytesMut::extend_from_slice`: appends the bytes of the slice. Where the buffer has the room
/// for them, its capacity stays, and with it the room that they leave.
pub assume_specification[ BytesMut::extend_from_slice ](buf: &mut BytesMut, extend: &[u8])
    requires
        can_take(*old(buf), extend@.len()),
    ensures
        buffer_bytes(*final(buf)) == buffer_bytes(*old(buf)) + extend@,
        forall|n: nat|
            n >= extend@.len() && #[trigger] has_room(*old(buf), n) ==> has_room(
                *final(buf),
                (n - extend@.len()) as nat,
            ),
;

/// `AsRef::as_ref` of `BytesMut`: the contents as a slice.
#[verifier::external_body]
pub(crate) fn as_slice(buf: &BytesMut) -> (r: &[u8])
    ensures
        r@ == buffer_bytes(*buf),
{
    buf.as_ref()
}

/// `Buf::advance` of `BytesMut`: drops the first `count` bytes.
#[verifier::external_body]
pub(crate) fn advance(buf: &mut BytesMut, count: usize)
    requires
        count <= buffer_bytes(*old(buf)).len(),
    ensures
        buffer_bytes(*final(buf)) == buffer_bytes(*old(buf)).skip(count as int),
{
    buf.advance(count)
}

/// `BufMut::put_u8` of `BytesMut`: appends one byte.
#[verifier::external_body]
pub(crate) fn put_u8(buf: &mut BytesMut, n: u8)
    requires
        fits_buffer(buffer_bytes(*old(buf)).len() + 1),
    ensures
        buffer_bytes(*final(buf)) == buffer_bytes(*old(buf)).push(n),
{
    buf.put_u8(n)
}

/// `BufMut::put_u16` of `BytesMut`: appends the number's two bytes, high byte first.
#[verifier::external_body]
pub(crate) fn put_u16(buf: &mut BytesMut, n: u16)
    requires
        fits_buffer(buffer_bytes(*old(buf)).len() + 2),
    ensures
        buffer_bytes(*final(buf)) == buffer_bytes(*old(buf)) + be_bytes(n as nat, 2),
{
    buf.put_u16(n)
}

/// `BufMut::put_u64` of `BytesMut`: appends the number's eight bytes, high byte first.
#[verifier::external_body]
pub(crate) fn put_u64(buf: &mut BytesMut, n: u64)
    requires
        fits_buffer(buffer_bytes(*old(buf)).len() + 8),
    ensures
        buffer_bytes(*final(buf)) == buffer_bytes(*old(buf)) + be_bytes(n as nat, 8),
{
    buf.put_u64(n)
}

/// The last `width` base-256 digits of `n`, most significant first.
pub open spec fn be_bytes(n: nat, width: nat) -> Seq<u8>
    decreases width,
{
    if width == 0 {
        Seq::empty()
    } else {
        be_bytes(n / 256, (width - 1) as nat).push((n % 256) as u8)
    }
}

/// The number whose base-256 digits are `bytes`, most significant first.
pub open spec fn be_value(bytes: Seq<u8>) -> nat
    decreases bytes.len(),
{
    if bytes.len() == 0 {
        0
    } else {
        be_value(bytes.drop_last()) * 256 + bytes.last() as nat
    }
}

pub(crate) proof fn lemma_be_bytes_len(n: nat, width: nat)
    ensures
        be_bytes(n, width).len() == width,
    decreases width,
{
    if width > 0 {
        lemma_be_bytes_len(n / 256, (width - 1) as nat);
    }
}

/// Big-endian numbers read back as written, as long as they fit the width.
pub proof fn law_be_round_trip(n: nat, width: nat)
    requires
        n < pow(256, width),
    ensures
        be_bytes(n, width).len() == width,
        be_value(be_bytes(n, width)) == n,
    decreases width,
{
    if width == 0 {
        lemma_pow0(256);
    } else {
        let narrower = (width - 1) as nat;
        lemma_pow_adds(256, narrower, 1);
        lemma_pow1(256);
        law_be_round_trip(n / 256, narrower);
        assert(be_bytes(n, width).drop_last() =~= be_bytes(n / 256, narrower));
    }
}

pub(crate) proof fn lemma_be_value_bound(bytes: Seq<u8>)
    ensures
        be_value(bytes) < pow(256, bytes.len()),
    decreases bytes.len(),
{
    if bytes.len() == 0 {
        lemma_pow0(256);
    } else {
        let prefix = bytes.drop_last();
        lemma_be_value_bound(prefix);
        lemma_pow_adds(256, prefix.len(), 1);
        lemma_pow1(256);
    }
}

pub(crate) proof fn lemma_pow256()
    ensures
        pow(256, 2) == 0x1_0000,
        pow(256, 8) == 0x1_0000_0000_0000_0000,
{
    reveal_with_fuel(pow, 9);
}

/// The number that the bytes of `data` from `from` to `to` stand for, high byte first.
pub(crate) fn read_be(data: &[u8], from: usize, to: usize) -> (n: u64)
    requires
        from <= to <= data@.len(),
        to - from <= 8,
    ensures
        n == be_value(data@.subrange(from as int, to as int)),
{
    let mut n: u64 = 0;
    let mut i: usize = from;
    while i < to
        invariant
            from <= i <= to <= data@.len(),
            to - from <= 8,
            n == be_value(data@.subrange(from as int, i as int)),
        decreases to - i,
    {
        let ghost seen = data@.subrange(from as int, i as int);
        proof {
            let next = data@.subrange(from as int, i + 1);
            assert(next.drop_last() =~= seen);
            lemma_be_value_bound(next);
            lemma_pow256();
            vstd::arithmetic::power::lemma_pow_increases(256, next.len(), 8);
        }
        n = n * 256 + data[i] as u64;
        i += 1;
    }
    n
}

/// The capacity that the buffers of a connection start from and are brought back to.
pub const BUF_LEN: usize = 32768;

/// The least spare capacity that a read or a response finds in its buffer.
pub const MIN_SPARE: usize = 1024;

/// How much a buffer with this capacity and length is asked to grow: nothing while it has
/// at least [`MIN_SPARE`] bytes to spare, else what brings its spare room to [`BUF_LEN`].
pub open spec fn wanted_growth(capacity: int, len: int) -> Option<int> {
    if capacity - len < MIN_SPARE {
        Some(BUF_LEN - (capacity - len))
    } else {
        None
    }
}

/// Decides how much to reserve, from what a buffer has and holds.
pub fn growth(capacity: usize, len: usize) -> (r: Option<usize>)
    requires
        len <= capacity,
    ensures
        match r {
            Some(n) => wanted_growth(capacity as int, len as int) == Some(n as int),
            None => wanted_growth(capacity as int, len as int) is None,
        },
{
    let rem = capacity - len;
    if rem < MIN_SPARE {
        Some(BUF_LEN - rem)
    } else {
        None
    }
}

/// Sees to it that the buffer has spare room: the capacity that the buffer reports decides,
/// as [`wanted_growth`] says, how much more it is asked to reserve, or that it is left alone.
/// What it was asked for it has to spare afterwards. The contents stay.
///
/// Which capacity the buffer reports rests with the allocator, so no number is given here.
pub fn reserve_buf(buf: &mut BytesMut)
    requires
        fits_buffer(buffer_bytes(*old(buf)).len() + BUF_LEN as nat),
    ensures
        buffer_bytes(*final(buf)) == buffer_bytes(*old(buf)),
        forall|capacity: usize| #[trigger]
            call_ensures(BytesMut::capacity, (&*old(buf),), capacity) ==> match wanted_growth(
                capacity as int,
                buffer_bytes(*old(buf)).len() as int,
            ) {
                Some(n) => {
                    &&& exists|grown: &mut BytesMut, additional: usize|
                        {
                            &&& #[trigger] call_ensures(BytesMut::reserve, (grown, additional), ())
                            &&& additional == n
                            &&& *grown == *old(buf)
                            &&& *final(grown) == *final(buf)
                        }
                    &&& forall|c: usize| #[trigger]
                        call_ensures(BytesMut::capacity, (&*final(buf),), c) ==> c >= buffer_bytes(
                            *final(buf),
                        ).len() + n
                },
                None => *final(buf) == *old(buf),
            },
        has_room(*final(buf), MIN_SPARE as nat),
        has_room(*old(buf), MIN_SPARE as nat) ==> *final(buf) == *old(buf),
{
    let capacity: usize = reported_capacity(buf);
    if let Some(additional) = growth(capacity, buf.len()) {
        buf.reserve(additional);
    }
}

/// Making room a second time changes nothing: the buffer, and with it its contents and its
/// capacity, is the one that the first time left.
pub proof fn law_room_is_made_once(buf: BytesMut)
    ensures
        forall|first: &mut BytesMut, second: &mut BytesMut|
            {
                &&& #[trigger] call_ensures(reserve_buf, (first,), ())
                &&& #[trigger] call_ensures(reserve_buf, (second,), ())
                &&& *first == buf
                &&& *second == *final(first)
            } ==> *final(second) == *second,
{
}

/// Sees to it that so many bytes more can be appended to the buffer, and says whether they can
/// be held at all. The contents stay.
pub(crate) fn make_room(buf: &mut BytesMut, more: u128) -> (r: bool)
    ensures
        r == holdable(buffer_bytes(*old(buf)).len() + more as nat),
        buffer_bytes(*final(buf)) == buffer_bytes(*old(buf)),
        r ==> can_take(*final(buf), more as nat),
{
    let limit: u128 = isize::MAX as u128;
    let len: usize = buf.len();
    if more > limit || len as u128 > limit - more {
        return false;
    }
    let total: usize = len + more as usize;
    if fits(total) || reported_capacity(buf) >= total {
        return true;
    }
    // Growing in place may ask for more than there can be; a new buffer asks for no more than
    // it has to hold.
    let mut grown = BytesMut::with_capacity(total);
    grown.extend_from_slice(as_slice(buf));
    assert(buffer_bytes(grown) =~= buffer_bytes(*buf));
    *buf = grown;
    true
}

/// Appends data to a buffer that can take bytes up to the length `goal`.
pub(crate) fn append(buf: &mut BytesMut, data: &[u8], Ghost(goal): Ghost<nat>)
    requires
        buffer_bytes(*old(buf)).len() + data@.len() <= goal,
        can_take(*old(buf), (goal - buffer_bytes(*old(buf)).len()) as nat),
    ensures
        buffer_bytes(*final(buf)) == buffer_bytes(*old(buf)) + data@,
        can_take(*final(buf), (goal - buffer_bytes(*final(buf)).len()) as nat),
{
    buf.extend_from_slice(data);
}

} // verus!
