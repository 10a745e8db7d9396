//! WebSocket frames: finding them in the bytes received, and putting them together.

use bytes::BytesMut;
use vstd::prelude::*;
use vstd::slice::slice_subrange;
use vstd::utf8::encode_utf8;

use crate::buffer::{
    as_slice, be_bytes, be_value, buffer_bytes, holdable, make_room, put_u16, put_u64, put_u8,
    read_be,
};

verus! {

/// Opcode of a text message.
pub const TEXT: u8 = 0x1;

/// Opcode of a binary message.
pub const BINARY: u8 = 0x2;

/// Opcode of a close frame.
pub const CLOSE: u8 = 0x8;

/// Opcode of a ping.
pub const PING: u8 = 0x9;

/// Opcode of a pong.
pub const PONG: u8 = 0xA;

/// Where a frame and its parts lie in the bytes it was found in.
#[derive(Debug, Clone, Copy, PartialEq, Eq, Structural)]
pub struct Frame {
    /// Whether the frame is the last of its message.
    pub fin: bool,
    pub opcode: u8,
    /// Whether four bytes of mask stand before the payload.
    pub masked: bool,
    /// Index of the first byte of the payload.
    pub payload_at: usize,
    /// Index of the byte behind the frame.
    pub end: usize,
}

/// What stands at some index of the bytes received.
#[derive(Debug, Clone, Copy, PartialEq, Eq, Structural)]
pub enum Scan {
    /// Not yet a whole frame.
    Partial,
    /// The start of a frame whose end no index can name.
    Oversized,
    /// A whole frame.
    Whole(Frame),
}

/// Number of length bytes behind a frame's first two bytes.
pub open spec fn extended_length_size(second: u8) -> int {
    if second & 0x7F == 126 {
        2
    } else if second & 0x7F == 127 {
        8
    } else {
        0
    }
}

/// The payload length that the frame header at `at` declares, as far as a `usize` can hold it.
pub open spec fn declared_length(bytes: Seq<u8>, at: int) -> usize {
    let second = bytes[at + 1];
    if extended_length_size(second) == 0 {
        (second & 0x7F) as usize
    } else {
        be_value(bytes.subrange(at + 2, at + 2 + extended_length_size(second))) as usize
    }
}

/// Index of the payload of the frame at `at`.
pub open spec fn payload_start(bytes: Seq<u8>, at: int) -> int {
    let second = bytes[at + 1];
    at + 2 + extended_length_size(second) + if second & 0x80 != 0 {
        4int
    } else {
        0
    }
}

/// What a scan at index `at` of `bytes` finds.
pub open spec fn frame_at(bytes: Seq<u8>, at: int) -> Scan {
    if at + 2 > bytes.len() || at + 2 + extended_length_size(bytes[at + 1]) > bytes.len() {
        Scan::Partial
    } else {
        let end = payload_start(bytes, at) + declared_length(bytes, at);
        if end > usize::MAX {
            Scan::Oversized
        } else if end > bytes.len() {
            Scan::Partial
        } else {
            Scan::Whole(
                Frame {
                    fin: bytes[at] & 0x80 != 0,
                    opcode: bytes[at] & 0x0F,
                    masked: bytes[at + 1] & 0x80 != 0,
                    payload_at: payload_start(bytes, at) as usize,
                    end: end as usize,
                },
            )
        }
    }
}

/// Looks for a frame that starts at index `at`.
pub fn scan_frame(bytes: &[u8], at: usize) -> (scan: Scan)
    requires
        at <= bytes@.len(),
    ensures
        scan == frame_at(bytes@, at as int),
{
    let available: usize = bytes.len() - at;
    if available < 2 {
        return Scan::Partial;
    }
    let first: u8 = bytes[at];
    let second: u8 = bytes[at + 1];
    let masked = (second & 0x80) != 0;
    let short_length: u8 = second & 0x7F;
    let extended: usize = match short_length {
        126 => 2,
        127 => 8,
        _ => 0,
    };
    if available - 2 < extended {
        return Scan::Partial;
    }
    let length: usize = if extended == 0 {
        short_length as usize
    } else {
        read_be(bytes, at + 2, at + 2 + extended) as usize
    };
    let head: usize = if masked {
        2 + extended + 4
    } else {
        2 + extended
    };
    if length > usize::MAX - head || at > usize::MAX - head - length {
        return Scan::Oversized;
    }
    if available < head + length {
        return Scan::Partial;
    }
    Scan::Whole(
        Frame {
            fin: (first & 0x80) != 0,
            opcode: first & 0x0F,
            masked,
            payload_at: at + head,
            end: at + head + length,
        },
    )
}

/// Whether the frame's parts lie within bytes of this length, with room for the mask.
pub open spec fn lies_within(frame: Frame, len: nat) -> bool {
    &&& frame.payload_at <= frame.end <= len
    &&& frame.masked ==> frame.payload_at >= 4
}

/// The payload as it was sent, still masked if it was masked.
pub open spec fn raw_payload(bytes: Seq<u8>, frame: Frame) -> Seq<u8> {
    bytes.subrange(frame.payload_at as int, frame.end as int)
}

/// The four bytes of mask in front of the payload.
pub open spec fn mask_of(bytes: Seq<u8>, frame: Frame) -> Seq<u8> {
    bytes.subrange(frame.payload_at - 4, frame.payload_at as int)
}

/// The data with the mask laid over it, again and again.
pub open spec fn masked_with(mask: Seq<u8>, data: Seq<u8>) -> Seq<u8> {
    Seq::new(data.len(), |i: int| data[i] ^ mask[i % 4])
}

/// The payload as its sender meant it.
pub open spec fn clear_payload(bytes: Seq<u8>, frame: Frame) -> Seq<u8> {
    if frame.masked {
        masked_with(mask_of(bytes, frame), raw_payload(bytes, frame))
    } else {
        raw_payload(bytes, frame)
    }
}

/// Copies the payload out of the bytes it was found in and takes the mask off.
pub fn unmasked_payload(bytes: &[u8], frame: &Frame) -> (payload: Vec<u8>)
    requires
        lies_within(*frame, bytes@.len()),
    ensures
        payload@ == clear_payload(bytes@, *frame),
{
    let length: usize = frame.end - frame.payload_at;
    let mut payload: Vec<u8> = Vec::with_capacity(length);
    if frame.masked {
        let mask = slice_subrange(bytes, frame.payload_at - 4, frame.payload_at);
        let mut i: usize = 0;
        while i < length
            invariant
                i <= length,
                length == frame.end - frame.payload_at,
                lies_within(*frame, bytes@.len()),
                mask@ == mask_of(bytes@, *frame),
                mask@.len() == 4,
                payload@ == masked_with(mask@, raw_payload(bytes@, *frame)).take(i as int),
            decreases length - i,
        {
            payload.push(bytes[frame.payload_at + i] ^ mask[i % 4]);
            i += 1;
        }
        assert(payload@ =~= clear_payload(bytes@, *frame));
    } else {
        payload.extend_from_slice(slice_subrange(bytes, frame.payload_at, frame.end));
        assert(payload@ =~= clear_payload(bytes@, *frame));
    }
    payload
}

/// The length part of a frame with an unmasked payload of `len` bytes.
pub open spec fn length_bytes(len: nat) -> Seq<u8> {
    if len < 126 {
        seq![len as u8]
    } else if len < 65536 {
        seq![126u8] + be_bytes(len, 2)
    } else {
        seq![127u8] + be_bytes(len, 8)
    }
}

/// A whole message in one unmasked frame.
pub open spec fn frame_bytes(opcode: u8, payload: Seq<u8>) -> Seq<u8> {
    seq![0x80u8 | opcode] + length_bytes(payload.len()) + payload
}

/// Puts frames together in a buffer from which they are written to the peer.
pub struct WsContext<'a> {
    write_buf: &'a mut BytesMut,
}

impl<'a> WsContext<'a> {
    /// The bytes that wait to be written.
    pub closed spec fn pending_bytes(&self) -> Seq<u8> {
        buffer_bytes(*self.write_buf)
    }

    /// A context that builds its frames in `write_buf`.
    pub fn new(write_buf: &'a mut BytesMut) -> (ctx: WsContext<'a>)
        ensures
            ctx.pending_bytes() == buffer_bytes(*old(write_buf)),
    {
        WsContext { write_buf }
    }

    /// The bytes that wait to be written.
    pub fn pending(&self) -> (r: &[u8])
        ensures
            r@ == self.pending_bytes(),
    {
        as_slice(self.write_buf)
    }

    /// Forgets the bytes that waited, once they have been handed to the peer.
    pub fn sent(&mut self)
        ensures
            final(self).pending_bytes() == Seq::<u8>::empty(),
    {
        self.write_buf.clear();
    }

    /// Makes a text message the one that waits to be written.
    pub fn send_text(&mut self, text: &str)
        requires
            holdable(encode_utf8(text@).len() + 10),
        ensures
            final(self).pending_bytes() == frame_bytes(TEXT, encode_utf8(text@)),
    {
        self.send_frame(TEXT, text.as_bytes())
    }

    /// Makes a binary message the one that waits to be written.
    pub fn send_binary(&mut self, data: &[u8])
        requires
            holdable(data@.len() + 10),
        ensures
            final(self).pending_bytes() == frame_bytes(BINARY, data@),
    {
        self.send_frame(BINARY, data)
    }

    /// Makes a frame with this opcode and payload the one that waits to be written.
    pub fn send_frame(&mut self, opcode: u8, payload: &[u8])
        requires
            holdable(payload@.len() + 10),
        ensures
            final(self).pending_bytes() == frame_bytes(opcode, payload@),
    {
        self.write_buf.clear();
        put_u8(self.write_buf, 0x80 | opcode);
        if payload.len() < 126 {
            put_u8(self.write_buf, payload.len() as u8);
        } else if payload.len() < 65536 {
            put_u8(self.write_buf, 126);
            put_u16(self.write_buf, payload.len() as u16);
        } else {
            put_u8(self.write_buf, 127);
            put_u64(self.write_buf, payload.len() as u64);
        }
        proof {
            crate::buffer::lemma_be_bytes_len(payload@.len(), 2);
            crate::buffer::lemma_be_bytes_len(payload@.len(), 8);
        }
        make_room(self.write_buf, payload.len() as u128);
        self.write_buf.extend_from_slice(payload);
        assert(self.pending_bytes() =~= frame_bytes(opcode, payload@));
    }
}

/// A whole message in one frame that is masked, as a client sends it.
pub open spec fn masked_frame_bytes(opcode: u8, mask: Seq<u8>, payload: Seq<u8>) -> Seq<u8> {
    let length = length_bytes(payload.len());
    seq![0x80u8 | opcode] + length.update(0, 0x80u8 | length[0]) + mask + masked_with(mask, payload)
}

proof fn lemma_header_bits(opcode: u8, short_length: u8)
    requires
        short_length < 128,
    ensures
        (0x80u8 | opcode) & 0x80 != 0,
        (0x80u8 | opcode) & 0x0F == opcode & 0x0F,
        short_length & 0x80 == 0,
        short_length & 0x7F == short_length,
        (0x80u8 | short_length) & 0x80 != 0,
        (0x80u8 | short_length) & 0x7F == short_length,
{
    assert((0x80u8 | opcode) & 0x80 != 0 && (0x80u8 | opcode) & 0x0F == opcode & 0x0F)
        by (bit_vector);
    assert(short_length & 0x80 == 0 && short_length & 0x7F == short_length && (0x80u8
        | short_length) & 0x80 != 0 && (0x80u8 | short_length) & 0x7F == short_length)
        by (bit_vector)
        requires
            short_length < 128,
    ;
}

/// The header that `length_bytes` writes, with or without the mask bit, declares the length
/// that it was made for.
proof fn lemma_declared_length(bytes: Seq<u8>, len: nat, mask_bit: u8)
    requires
        len <= usize::MAX,
        mask_bit == 0 || mask_bit == 0x80,
        bytes.len() > length_bytes(len).len(),
        bytes[1] == mask_bit | length_bytes(len)[0],
        forall|i: int|
            1 <= i < length_bytes(len).len() ==> bytes[i + 1] == #[trigger] length_bytes(len)[i],
    ensures
        length_bytes(len).len() == 1 + extended_length_size(bytes[1]),
        declared_length(bytes, 0) == len,
        bytes[1] & 0x80 != 0 <==> mask_bit == 0x80,
{
    let short_length = length_bytes(len)[0];
    let opcode = 0u8;
    lemma_header_bits(opcode, short_length);
    assert(0u8 | short_length == short_length) by (bit_vector);
    let size = extended_length_size(bytes[1]);
    crate::buffer::lemma_pow256();
    if len >= 126 {
        let width: nat = if len < 65536 {
            2
        } else {
            8
        };
        crate::buffer::law_be_round_trip(len, width);
        assert(bytes.subrange(2, 2 + size) =~= be_bytes(len, width)) by {
            assert forall|i: int| 0 <= i < width implies bytes[i + 2] == be_bytes(len, width)[i] by {
                assert(length_bytes(len)[i + 1] == be_bytes(len, width)[i]);
            }
        }
    }
}

/// What [`WsContext::send_frame`] puts together is found again as one whole frame, whatever
/// follows it: last of its message, unmasked, with the low four bits of the opcode, and with
/// the payload unchanged.
pub proof fn law_sent_frame_reads_back(opcode: u8, payload: Seq<u8>, rest: Seq<u8>)
    requires
        payload.len() + 10 <= usize::MAX,
    ensures
        ({
            let bytes = frame_bytes(opcode, payload) + rest;
            &&& frame_at(bytes, 0) matches Scan::Whole(frame)
            &&& frame.fin
            &&& frame.opcode == opcode & 0x0F
            &&& !frame.masked
            &&& frame.end == frame_bytes(opcode, payload).len()
            &&& raw_payload(bytes, frame) == payload
            &&& clear_payload(bytes, frame) == payload
        }),
{
    let bytes = frame_bytes(opcode, payload) + rest;
    let length = length_bytes(payload.len());
    crate::buffer::lemma_be_bytes_len(payload.len(), 2);
    crate::buffer::lemma_be_bytes_len(payload.len(), 8);
    lemma_header_bits(opcode, length[0]);
    let short_length = length[0];
    assert(0u8 | short_length == short_length) by (bit_vector);
    lemma_declared_length(bytes, payload.len(), 0);
    let frame = frame_at(bytes, 0)->Whole_0;
    assert(raw_payload(bytes, frame) =~= payload);
}

/// A message that a client masks arrives as it was before masking, whatever follows it.
pub proof fn law_masked_frame_reads_back(
    opcode: u8,
    mask: Seq<u8>,
    payload: Seq<u8>,
    rest: Seq<u8>,
)
    requires
        mask.len() == 4,
        payload.len() + 14 <= usize::MAX,
    ensures
        ({
            let bytes = masked_frame_bytes(opcode, mask, payload) + rest;
            &&& frame_at(bytes, 0) matches Scan::Whole(frame)
            &&& frame.fin
            &&& frame.opcode == opcode & 0x0F
            &&& frame.masked
            &&& frame.end == masked_frame_bytes(opcode, mask, payload).len()
            &&& clear_payload(bytes, frame) == payload
        }),
{
    let bytes = masked_frame_bytes(opcode, mask, payload) + rest;
    let length = length_bytes(payload.len());
    crate::buffer::lemma_be_bytes_len(payload.len(), 2);
    crate::buffer::lemma_be_bytes_len(payload.len(), 8);
    lemma_header_bits(opcode, length[0]);
    lemma_declared_length(bytes, payload.len(), 0x80);
    let frame = frame_at(bytes, 0)->Whole_0;
    assert(mask_of(bytes, frame) =~= mask);
    assert(raw_payload(bytes, frame) =~= masked_with(mask, payload));
    law_masking_twice_restores(mask, payload);
}

/// Laying the same mask over data twice gives the data back.
pub proof fn law_masking_twice_restores(mask: Seq<u8>, data: Seq<u8>)
    ensures
        masked_with(mask, masked_with(mask, data)) == data,
{
    assert forall|i: int| 0 <= i < data.len() implies masked_with(
        mask,
        masked_with(mask, data),
    )[i] == data[i] by {
        let (d, m) = (data[i], mask[i % 4]);
        assert((d ^ m) ^ m == d) by (bit_vector);
    }
    assert(masked_with(mask, masked_with(mask, data)) =~= data);
}

/// A whole frame lies within the bytes it was found in, behind the place it was looked for.
pub proof fn law_whole_frame_lies_within(bytes: Seq<u8>, at: int)
    requires
        0 <= at <= bytes.len(),
    ensures
        frame_at(bytes, at) matches Scan::Whole(frame) ==> lies_within(frame, bytes.len())
            && frame.end >= at + 2 && frame.opcode <= 0x0F,
{
    let b = bytes[at];
    assert(b & 0x0F <= 0x0F) by (bit_vector);
}

/// A frame found once stays the same frame, whatever arrives behind it.
pub proof fn law_frame_unchanged_by_more_bytes(bytes: Seq<u8>, more: Seq<u8>, at: int)
    requires
        0 <= at <= bytes.len(),
        frame_at(bytes, at) is Whole,
    ensures
        frame_at(bytes + more, at) == frame_at(bytes, at),
        raw_payload(bytes + more, frame_at(bytes, at)->Whole_0) == raw_payload(
            bytes,
            frame_at(bytes, at)->Whole_0,
        ),
        clear_payload(bytes + more, frame_at(bytes, at)->Whole_0) == clear_payload(
            bytes,
            frame_at(bytes, at)->Whole_0,
        ),
{
    let all = bytes + more;
    let size = extended_length_size(bytes[at + 1]);
    let frame = frame_at(bytes, at)->Whole_0;
    assert(all.subrange(at + 2, at + 2 + size) =~= bytes.subrange(at + 2, at + 2 + size));
    assert(raw_payload(all, frame) =~= raw_payload(bytes, frame));
    if frame.masked {
        assert(mask_of(all, frame) =~= mask_of(bytes, frame));
    }
}

/// What a frame says, apart from where it lies.
pub struct FrameData {
    pub fin: bool,
    pub opcode: u8,
    pub raw: Seq<u8>,
    pub clear: Seq<u8>,
}

/// What the frame says that was found in `bytes`.
pub open spec fn frame_data(bytes: Seq<u8>, frame: Frame) -> FrameData {
    FrameData {
        fin: frame.fin,
        opcode: frame.opcode,
        raw: raw_payload(bytes, frame),
        clear: clear_payload(bytes, frame),
    }
}

/// The whole frames that follow one another from index `at` on.
pub open spec fn frames_from(bytes: Seq<u8>, at: int) -> Seq<FrameData>
    decreases bytes.len() - at,
{
    match frame_at(bytes, at) {
        Scan::Whole(frame) => if at < frame.end <= bytes.len() {
            seq![frame_data(bytes, frame)] + frames_from(bytes, frame.end as int)
        } else {
            Seq::empty()
        },
        _ => Seq::empty(),
    }
}

/// Index behind the last of the whole frames that follow one another from `at` on.
pub open spec fn frames_end(bytes: Seq<u8>, at: int) -> int
    decreases bytes.len() - at,
{
    match frame_at(bytes, at) {
        Scan::Whole(frame) => if at < frame.end <= bytes.len() {
            frames_end(bytes, frame.end as int)
        } else {
            at
        },
        _ => at,
    }
}

pub(crate) proof fn lemma_frames_end_bounds(bytes: Seq<u8>, at: int)
    requires
        0 <= at <= bytes.len(),
    ensures
        at <= frames_end(bytes, at) <= bytes.len(),
        !(frame_at(bytes, frames_end(bytes, at)) is Whole),
    decreases bytes.len() - at,
{
    law_whole_frame_lies_within(bytes, at);
    if let Scan::Whole(frame) = frame_at(bytes, at) {
        lemma_frames_end_bounds(bytes, frame.end as int);
    }
}

/// The frames in what is left after dropping the first `n` bytes are those that were found
/// from index `n` on.
pub proof fn law_frames_after_dropping(bytes: Seq<u8>, n: int, at: int)
    requires
        0 <= n <= at <= bytes.len() <= usize::MAX,
    ensures
        frames_from(bytes.skip(n), at - n) == frames_from(bytes, at),
    decreases bytes.len() - at,
{
    let left = bytes.skip(n);
    law_whole_frame_lies_within(bytes, at);
    law_whole_frame_lies_within(left, at - n);
    if at + 2 <= bytes.len() {
        let size = extended_length_size(bytes[at + 1]);
        assert(left[at - n + 1] == bytes[at + 1]);
        assert(left[at - n] == bytes[at]);
        if at + 2 + size <= bytes.len() {
            assert(left.subrange(at - n + 2, at - n + 2 + size) =~= bytes.subrange(
                at + 2,
                at + 2 + size,
            ));
            assert(declared_length(left, at - n) == declared_length(bytes, at));
        }
    }
    if let Scan::Whole(frame) = frame_at(bytes, at) {
        let shifted = frame_at(left, at - n)->Whole_0;
        assert(frame_at(left, at - n) is Whole);
        assert(shifted.end == frame.end - n);
        assert(raw_payload(left, shifted) =~= raw_payload(bytes, frame));
        if frame.masked {
            assert(mask_of(left, shifted) =~= mask_of(bytes, frame));
        }
        law_frames_after_dropping(bytes, n, frame.end as int);
    } else {
        assert(!(frame_at(left, at - n) is Whole));
    }
}

/// Where the bytes received happen to be cut does not matter: the frames found in the first
/// part, and then those found in its unfinished rest together with the second part, are the
/// frames of both parts in one.
pub proof fn law_frames_do_not_depend_on_cuts(first: Seq<u8>, second: Seq<u8>)
    requires
        first.len() + second.len() <= usize::MAX,
    ensures
        frames_from(first + second, 0) == frames_from(first, 0) + frames_from(
            first.skip(frames_end(first, 0)) + second,
            0,
        ),
{
    let n = frames_end(first, 0);
    lemma_frames_end_bounds(first, 0);
    lemma_frames_prefix(first, second, 0);
    law_frames_after_dropping(first + second, n, n);
    assert((first + second).skip(n) =~= first.skip(n) + second);
}

proof fn lemma_frames_prefix(first: Seq<u8>, second: Seq<u8>, at: int)
    requires
        0 <= at <= first.len(),
    ensures
        frames_from(first + second, at) == frames_from(first, at) + frames_from(
            first + second,
            frames_end(first, at),
        ),
    decreases first.len() - at,
{
    law_whole_frame_lies_within(first, at);
    if let Scan::Whole(frame) = frame_at(first, at) {
        law_frame_unchanged_by_more_bytes(first, second, at);
        lemma_frames_prefix(first, second, frame.end as int);
        assert(frames_from(first + second, at) =~= frames_from(first, at) + frames_from(
            first + second,
            frames_end(first, at),
        ));
    } else {
        assert(frames_from(first, at) + frames_from(first + second, at) =~= frames_from(
            first + second,
            at,
        ));
    }
}

} // verus!
