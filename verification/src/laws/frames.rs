//! WebSocket frames, byte by byte.

use bytes::BytesMut;
use vstd::prelude::*;
use vstd::utf8::encode_utf8;

use crate::buffer::{be_bytes, be_value, buffer_bytes};
use crate::frame::{scan_frame, unmasked_payload, Frame, Scan, WsContext};

verus! {

pub(crate) proof fn lemma_bits(b: u8)
    ensures
        b & 0x80 != 0 <==> b >= 128,
        b & 0x7F == b % 128,
        b & 0x0F == b % 16,
{
    assert((b & 0x80 != 0 <==> b >= 128) && b & 0x7F == b % 128 && b & 0x0F == b % 16)
        by (bit_vector);
}

proof fn lemma_value_of_two(bytes: Seq<u8>)
    requires
        bytes.len() == 2,
    ensures
        be_value(bytes) == bytes[0] * 256 + bytes[1],
{
    reveal_with_fuel(be_value, 3);
    assert(bytes.drop_last().drop_last() =~= Seq::empty());
}

proof fn lemma_value_of_eight(bytes: Seq<u8>)
    requires
        bytes.len() == 8,
    ensures
        be_value(bytes) == bytes[0] * 0x100_0000_0000_0000 + bytes[1] * 0x1_0000_0000_0000 + bytes[2]
            * 0x100_0000_0000 + bytes[3] * 0x1_0000_0000 + bytes[4] * 0x100_0000 + bytes[5] * 0x1_0000
            + bytes[6] * 0x100 + bytes[7],
{
    let b7 = bytes.drop_last();
    let b6 = b7.drop_last();
    let b5 = b6.drop_last();
    let b4 = b5.drop_last();
    let b3 = b4.drop_last();
    let b2 = b3.drop_last();
    lemma_value_of_two(b2);
    assert(be_value(b3) == be_value(b2) * 256 + bytes[2]);
    assert(be_value(b4) == be_value(b3) * 256 + bytes[3]);
    assert(be_value(b5) == be_value(b4) * 256 + bytes[4]);
    assert(be_value(b6) == be_value(b5) * 256 + bytes[5]);
    assert(be_value(b7) == be_value(b6) * 256 + bytes[6]);
    assert(be_value(bytes) == be_value(b7) * 256 + bytes[7]);
}

/// Less than two bytes are no frame.
pub proof fn law_a_frame_has_two_bytes(bytes: &[u8], at: usize, scan: Scan)
    requires
        call_ensures(scan_frame, (bytes, at), scan),
        at <= bytes@.len() < at + 2,
    ensures
        scan == Scan::Partial,
{
}

/// A frame whose second byte, but for its high bit, is below 126 has so many bytes of payload.
/// They stand behind the first two bytes, and behind four more if the high bit is set.
pub proof fn law_a_short_frame_is_found(bytes: &[u8], at: usize, scan: Scan)
    requires
        call_ensures(scan_frame, (bytes, at), scan),
        at + 2 <= bytes@.len() <= isize::MAX,
        bytes@[at + 1] % 128 < 126,
    ensures
        ({
            let masked = bytes@[at + 1] >= 128;
            let payload_at = at + 2 + if masked {
                4int
            } else {
                0
            };
            let end = payload_at + bytes@[at + 1] % 128;
            if end > bytes@.len() {
                scan == Scan::Partial
            } else {
                scan == Scan::Whole(
                    Frame {
                        fin: bytes@[at as int] >= 128,
                        opcode: (bytes@[at as int] % 16) as u8,
                        masked,
                        payload_at: payload_at as usize,
                        end: end as usize,
                    },
                )
            }
        }),
{
    lemma_bits(bytes@[at as int]);
    lemma_bits(bytes@[at + 1]);
}

/// A frame whose second byte, but for its high bit, is 126 has its length in the two bytes that
/// follow, the high byte first.
pub proof fn law_a_medium_frame_is_found(bytes: &[u8], at: usize, scan: Scan)
    requires
        call_ensures(scan_frame, (bytes, at), scan),
        at + 2 <= bytes@.len() <= isize::MAX,
        bytes@[at + 1] % 128 == 126,
    ensures
        at + 4 > bytes@.len() ==> scan == Scan::Partial,
        at + 4 <= bytes@.len() ==> {
            let masked = bytes@[at + 1] >= 128;
            let payload_at = at + 4 + if masked {
                4int
            } else {
                0
            };
            let end = payload_at + bytes@[at + 2] * 256 + bytes@[at + 3];
            if end > bytes@.len() {
                scan == Scan::Partial
            } else {
                scan == Scan::Whole(
                    Frame {
                        fin: bytes@[at as int] >= 128,
                        opcode: (bytes@[at as int] % 16) as u8,
                        masked,
                        payload_at: payload_at as usize,
                        end: end as usize,
                    },
                )
            }
        },
{
    lemma_bits(bytes@[at as int]);
    lemma_bits(bytes@[at + 1]);
    if at + 4 <= bytes@.len() {
        lemma_value_of_two(bytes@.subrange(at + 2, at + 4));
    }
}

/// A frame whose second byte, but for its high bit, is 127 has its length in the eight bytes
/// that follow, the high byte first. One whose end no index can name is oversized.
pub proof fn law_a_long_frame_is_found(bytes: &[u8], at: usize, scan: Scan)
    requires
        call_ensures(scan_frame, (bytes, at), scan),
        at + 2 <= bytes@.len() <= isize::MAX,
        bytes@[at + 1] % 128 == 127,
    ensures
        at + 10 > bytes@.len() ==> scan == Scan::Partial,
        at + 10 <= bytes@.len() ==> {
            let masked = bytes@[at + 1] >= 128;
            let payload_at = at + 10 + if masked {
                4int
            } else {
                0
            };
            let length = bytes@[at + 2] * 0x100_0000_0000_0000 + bytes@[at + 3] * 0x1_0000_0000_0000
                + bytes@[at + 4] * 0x100_0000_0000 + bytes@[at + 5] * 0x1_0000_0000 + bytes@[at + 6]
                * 0x100_0000 + bytes@[at + 7] * 0x1_0000 + bytes@[at + 8] * 0x100 + bytes@[at + 9];
            let end = payload_at + length;
            length <= usize::MAX ==> if end > usize::MAX {
                scan == Scan::Oversized
            } else if end > bytes@.len() {
                scan == Scan::Partial
            } else {
                scan == Scan::Whole(
                    Frame {
                        fin: bytes@[at as int] >= 128,
                        opcode: (bytes@[at as int] % 16) as u8,
                        masked,
                        payload_at: payload_at as usize,
                        end: end as usize,
                    },
                )
            }
        },
{
    lemma_bits(bytes@[at as int]);
    lemma_bits(bytes@[at + 1]);
    if at + 10 <= bytes@.len() {
        lemma_value_of_eight(bytes@.subrange(at + 2, at + 10));
    }
}

/// Each byte of a masked payload is delivered with the mask byte laid over it that stands at
/// the same place in the row of four, whatever the mask is; an unmasked payload is delivered
/// as it is. No byte is left out.
pub proof fn law_the_mask_is_taken_off(bytes: &[u8], frame: &Frame, payload: Vec<u8>)
    requires
        call_ensures(unmasked_payload, (bytes, frame), payload),
        frame.payload_at <= frame.end <= bytes@.len(),
        frame.masked ==> frame.payload_at >= 4,
    ensures
        payload@.len() == frame.end - frame.payload_at,
        forall|i: int|
            0 <= i < payload@.len() ==> #[trigger] payload@[i] == if frame.masked {
                bytes@[frame.payload_at + i] ^ bytes@[frame.payload_at - 4 + i % 4]
            } else {
                bytes@[frame.payload_at + i]
            },
{
}

/// What a client masks byte by byte is delivered as it was before.
pub proof fn law_masked_bytes_are_restored(
    bytes: &[u8],
    frame: &Frame,
    payload: Vec<u8>,
    meant: Seq<u8>,
)
    requires
        call_ensures(unmasked_payload, (bytes, frame), payload),
        frame.masked,
        4 <= frame.payload_at <= frame.end <= bytes@.len(),
        meant.len() == frame.end - frame.payload_at,
        forall|i: int|
            0 <= i < meant.len() ==> bytes@[frame.payload_at + i] == #[trigger] meant[i]
                ^ bytes@[frame.payload_at - 4 + i % 4],
    ensures
        payload@ == meant,
{
    law_the_mask_is_taken_off(bytes, frame, payload);
    assert forall|i: int| 0 <= i < meant.len() implies payload@[i] == meant[i] by {
        let (d, m) = (meant[i], bytes@[frame.payload_at - 4 + i % 4]);
        assert((d ^ m) ^ m == d) by (bit_vector);
        assert(bytes@[frame.payload_at + i] == d ^ m);
    }
    assert(payload@ =~= meant);
}

proof fn lemma_two_bytes(n: nat)
    requires
        n < 65536,
    ensures
        be_bytes(n, 2) == seq![(n / 256) as u8, (n % 256) as u8],
{
    reveal_with_fuel(be_bytes, 3);
    assert(be_bytes(n, 2) =~= seq![(n / 256) as u8, (n % 256) as u8]);
}

/// A frame that is sent is its opcode with the high bit set, the length of the payload, and the
/// payload. A length below 126 takes one byte; one below 65536 takes the byte 126 and two bytes
/// more; any other the byte 127 and eight bytes more, which read back as the length.
pub proof fn law_a_sent_frame_byte_by_byte(opcode: u8, payload: &[u8])
    ensures
        forall|ctx: &mut WsContext, sent: &[u8]|
            {
                &&& #[trigger] call_ensures(WsContext::send_frame, (ctx, opcode, payload), ())
                &&& #[trigger] call_ensures(WsContext::pending, (&*final(ctx),), sent)
            } ==> {
                let n = payload@.len();
                &&& sent@[0] == 0x80u8 | opcode
                &&& n < 126 ==> sent@.len() == 2 + n && sent@[1] == n && sent@.skip(2) == payload@
                &&& 126 <= n < 65536 ==> sent@.len() == 4 + n && sent@[1] == 126 && sent@[2] * 256
                    + sent@[3] == n && sent@.skip(4) == payload@
                &&& 65536 <= n <= usize::MAX ==> sent@.len() == 10 + n && sent@[1] == 127 && sent@[2]
                    * 0x100_0000_0000_0000 + sent@[3] * 0x1_0000_0000_0000 + sent@[4]
                    * 0x100_0000_0000 + sent@[5] * 0x1_0000_0000 + sent@[6] * 0x100_0000 + sent@[7]
                    * 0x1_0000 + sent@[8] * 0x100 + sent@[9] == n && sent@.skip(10) == payload@
            },
{
    let n = payload@.len();
    let sent = crate::frame::frame_bytes(opcode, payload@);
    if n < 126 {
        assert(sent.skip(2) =~= payload@);
    } else if n < 65536 {
        lemma_two_bytes(n);
        assert(sent.skip(4) =~= payload@);
    } else if n <= usize::MAX {
        crate::buffer::lemma_pow256();
        crate::buffer::law_be_round_trip(n, 8);
        let long = be_bytes(n, 8);
        lemma_value_of_eight(long);
        assert(sent.skip(10) =~= payload@);
        assert(sent.subrange(2, 10) =~= long);
        assert forall|i: int| 0 <= i < 8 implies sent[i + 2] == long[i] by {
            assert(sent.subrange(2, 10)[i] == long[i]);
        }
        assert(sent[2] == long[0] && sent[3] == long[1] && sent[4] == long[2] && sent[5] == long[3]
            && sent[6] == long[4] && sent[7] == long[5] && sent[8] == long[6] && sent[9] == long[7]);
    }
}

/// A text is sent as a frame with opcode 1 and its UTF-8 bytes, and data as one with opcode 2.
pub proof fn law_messages_are_frames(text: &str, data: &[u8])
    ensures
        forall|ctx: &mut WsContext, other: &mut WsContext, bytes: &[u8], sent: &[u8], framed: &[u8]|
            {
                &&& #[trigger] call_ensures(WsContext::send_text, (ctx, text), ())
                &&& bytes@ == encode_utf8(text@)
                &&& #[trigger] call_ensures(WsContext::send_frame, (other, 1, bytes), ())
                &&& #[trigger] call_ensures(WsContext::pending, (&*final(ctx),), sent)
                &&& #[trigger] call_ensures(WsContext::pending, (&*final(other),), framed)
            } ==> sent@ == framed@,
        forall|ctx: &mut WsContext, other: &mut WsContext, sent: &[u8], framed: &[u8]|
            {
                &&& #[trigger] call_ensures(WsContext::send_binary, (ctx, data), ())
                &&& #[trigger] call_ensures(WsContext::send_frame, (other, 2, data), ())
                &&& #[trigger] call_ensures(WsContext::pending, (&*final(ctx),), sent)
                &&& #[trigger] call_ensures(WsContext::pending, (&*final(other),), framed)
            } ==> sent@ == framed@,
{
}

/// What waits is what the buffer held, until it has been sent; then nothing waits.
pub proof fn law_nothing_waits_once_sent(waiting: Seq<u8>)
    ensures
        forall|buf: &mut BytesMut, ctx: WsContext, pending: &[u8]|
            {
                &&& #[trigger] call_ensures(WsContext::new, (buf,), ctx)
                &&& #[trigger] call_ensures(WsContext::pending, (&ctx,), pending)
                &&& buffer_bytes(*buf) == waiting
            } ==> pending@ == waiting,
        forall|ctx: &mut WsContext, pending: &[u8]|
            {
                &&& #[trigger] call_ensures(WsContext::sent, (ctx,), ())
                &&& #[trigger] call_ensures(WsContext::pending, (&*final(ctx),), pending)
            } ==> pending@ == Seq::<u8>::empty(),
{
}

} // verus!
