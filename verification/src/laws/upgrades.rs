//! The answer to an upgrade request.

use bytes::BytesMut;
use vstd::prelude::*;
use vstd::utf8::{encode_utf8, is_ascii_chars_encode_utf8};

use crate::buffer::buffer_bytes;
use crate::error::ServeError;
use crate::handshake::{
    accept_key, answer_upgrade, base64_standard, sha1_digest, switching_protocols,
    switching_protocols_bytes,
};
use crate::request::{get_websocket_key, Request};

verus! {

/// The accept text is the Base64 of the SHA-1 digest of the whole key and the fixed text that
/// the protocol joins it with.
pub proof fn law_the_accept_text_comes_from_the_key(key: &[u8], accept: String)
    requires
        call_ensures(accept_key, (key,), accept),
    ensures
        accept@ == base64_standard(
            sha1_digest(key@ + encode_utf8("258EAFA5-E914-47DA-95CA-C5AB0DC85B11"@)),
        ),
        accept@.len() == 28,
{
}

proof fn lemma_answer_text(accept: Seq<char>)
    ensures
        switching_protocols_bytes(accept) == encode_utf8(
            "HTTP/1.1 101 Switching Protocols\r\nUpgrade: websocket\r\nConnection: Upgrade\r\nSec-WebSocket-Accept: "@,
        ) + encode_utf8(accept) + seq![13u8, 10u8, 13u8, 10u8],
{
    let whole =
        "HTTP/1.1 101 Switching Protocols\r\nUpgrade: websocket\r\nConnection: Upgrade\r\nSec-WebSocket-Accept: "@;
    reveal_strlit(
        "HTTP/1.1 101 Switching Protocols\r\nUpgrade: websocket\r\nConnection: Upgrade\r\nSec-WebSocket-Accept: ",
    );
    reveal_strlit("HTTP/1.1 101 Switching Protocols\r\n");
    reveal_strlit("Upgrade: websocket\r\n");
    reveal_strlit("Connection: Upgrade\r\n");
    reveal_strlit("Sec-WebSocket-Accept: ");
    reveal_strlit("\r\n\r\n");
    is_ascii_chars_encode_utf8(whole);
    is_ascii_chars_encode_utf8("HTTP/1.1 101 Switching Protocols\r\n"@);
    is_ascii_chars_encode_utf8("Upgrade: websocket\r\n"@);
    is_ascii_chars_encode_utf8("Connection: Upgrade\r\n"@);
    is_ascii_chars_encode_utf8("Sec-WebSocket-Accept: "@);
    is_ascii_chars_encode_utf8("\r\n\r\n"@);
    let pieces = encode_utf8("HTTP/1.1 101 Switching Protocols\r\n"@) + encode_utf8(
        "Upgrade: websocket\r\n"@,
    ) + encode_utf8("Connection: Upgrade\r\n"@) + encode_utf8("Sec-WebSocket-Accept: "@);
    assert(encode_utf8(whole) =~= pieces);
    assert(encode_utf8("\r\n\r\n"@) =~= seq![13u8, 10u8, 13u8, 10u8]);
}

/// The answer to an upgrade request is one text with the accept text in it and a blank line
/// behind it, and nothing else is in the buffer.
pub proof fn law_the_answer_word_for_word(accept: &str)
    ensures
        forall|buf: &mut BytesMut| #[trigger]
            call_ensures(switching_protocols, (accept, buf), ()) ==> buffer_bytes(*final(buf))
                == encode_utf8(
                "HTTP/1.1 101 Switching Protocols\r\nUpgrade: websocket\r\nConnection: Upgrade\r\nSec-WebSocket-Accept: "@,
            ) + encode_utf8(accept@) + seq![13u8, 10u8, 13u8, 10u8],
{
    lemma_answer_text(accept@);
}

/// A request with a key is answered with the accept text for that key. One without a key is
/// refused, and the buffer is left alone.
pub proof fn law_a_key_is_answered<B>(req: &Request<B>, key: Option<&[u8]>)
    requires
        call_ensures(get_websocket_key::<B>, (req,), key),
    ensures
        forall|buf: &mut BytesMut, r: Result<(), ServeError>| #[trigger]
            call_ensures(answer_upgrade::<B>, (req, buf), r) ==> match key {
                Some(value) => {
                    &&& r is Ok
                    &&& buffer_bytes(*final(buf)) == encode_utf8(
                        "HTTP/1.1 101 Switching Protocols\r\nUpgrade: websocket\r\nConnection: Upgrade\r\nSec-WebSocket-Accept: "@,
                    ) + encode_utf8(
                        base64_standard(
                            sha1_digest(
                                value@ + encode_utf8("258EAFA5-E914-47DA-95CA-C5AB0DC85B11"@),
                            ),
                        ),
                    ) + seq![13u8, 10u8, 13u8, 10u8]
                },
                None => {
                    &&& r == Err::<(), ServeError>(ServeError::MissingKey)
                    &&& buffer_bytes(*final(buf)) == buffer_bytes(*buf)
                },
            },
{
    if let Some(value) = key {
        lemma_answer_text(
            base64_standard(
                sha1_digest(value@ + encode_utf8("258EAFA5-E914-47DA-95CA-C5AB0DC85B11"@)),
            ),
        );
    }
}

} // verus!
