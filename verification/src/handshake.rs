//! The answer that turns an HTTP connection into a WebSocket connection.

use base64::{engine::general_purpose, Engine};
use bytes::BytesMut;
use sha1::{Digest, Sha1};
use vstd::prelude::*;
use vstd::utf8::{encode_utf8, is_ascii_chars, is_ascii_chars_encode_utf8};

use crate::buffer::{buffer_bytes, fits_buffer};
use crate::error::ServeError;
use crate::request::{get_websocket_key, websocket_key, Request};

verus! {

/// The SHA-1 digest of the data.
pub uninterp spec fn sha1_digest(data: Seq<u8>) -> Seq<u8>;

/// The data in Base64, with the standard alphabet and padding.
pub uninterp spec fn base64_standard(data: Seq<u8>) -> Seq<char>;

/// `Sha1::digest`: the SHA-1 digest of the data, which is twenty bytes long. The digest
/// counts the data in bits, in 64 bits.
#[verifier::external_body]
fn sha1(data: &[u8]) -> (digest: Vec<u8>)
    requires
        data@.len() < 0x2000_0000_0000_0000,
    ensures
        digest@ == sha1_digest(data@),
        digest@.len() == 20,
{
    Sha1::digest(data).to_vec()
}

/// Whether the text holds nothing but the characters of standard Base64 and its padding.
pub open spec fn is_base64_text(text: Seq<char>) -> bool {
    forall|i: int| 0 <= i < text.len() ==> {
        ||| 'A' <= #[trigger] text[i] <= 'Z'
        ||| 'a' <= text[i] <= 'z'
        ||| '0' <= text[i] <= '9'
        ||| text[i] == '+'
        ||| text[i] == '/'
        ||| text[i] == '='
    }
}

/// `Engine::encode` of `general_purpose::STANDARD`: the data in Base64, four characters of
/// its alphabet for every three bytes that are begun.
#[verifier::external_body]
fn base64(data: &[u8]) -> (text: String)
    requires
        4 * ((data@.len() + 2) / 3) <= isize::MAX,
    ensures
        text@ == base64_standard(data@),
        text@.len() == 4 * ((data@.len() + 2) / 3),
        is_base64_text(text@),
{
    general_purpose::STANDARD.encode(data)
}

/// What the key is joined with before it is hashed.
pub const MAGIC_STRING: &'static str = "258EAFA5-E914-47DA-95CA-C5AB0DC85B11";

/// The text that proves to a client that its key was understood.
pub open spec fn accept_text(key: Seq<u8>) -> Seq<char> {
    base64_standard(sha1_digest(key + encode_utf8(MAGIC_STRING@)))
}

/// Computes the text that proves to a client that its key was understood.
pub fn accept_key(key: &[u8]) -> (accept: String)
    requires
        fits_buffer(key@.len() + 36),
    ensures
        accept@ == accept_text(key@),
        accept@.len() == 28,
        is_base64_text(accept@),
{
    let mut joined: Vec<u8> = Vec::new();
    joined.extend_from_slice(key);
    joined.extend_from_slice(MAGIC_STRING.as_bytes());
    proof {
        reveal_strlit("258EAFA5-E914-47DA-95CA-C5AB0DC85B11");
        is_ascii_chars_encode_utf8(MAGIC_STRING@);
    }
    assert(joined@ =~= key@ + encode_utf8(MAGIC_STRING@));
    let digest = sha1(joined.as_slice());
    base64(digest.as_slice())
}

/// The answer to an upgrade request whose key is answered with `accept`.
pub open spec fn switching_protocols_bytes(accept: Seq<char>) -> Seq<u8> {
    encode_utf8("HTTP/1.1 101 Switching Protocols\r\n"@) + encode_utf8("Upgrade: websocket\r\n"@)
        + encode_utf8("Connection: Upgrade\r\n"@) + encode_utf8("Sec-WebSocket-Accept: "@)
        + encode_utf8(accept) + encode_utf8("\r\n\r\n"@)
}

/// Makes the answer to an upgrade request the only contents of the buffer.
pub fn switching_protocols(accept: &str, rsp_buf: &mut BytesMut)
    requires
        fits_buffer(switching_protocols_bytes(accept@).len()),
    ensures
        buffer_bytes(*final(rsp_buf)) == switching_protocols_bytes(accept@),
{
    rsp_buf.clear();
    rsp_buf.extend_from_slice("HTTP/1.1 101 Switching Protocols\r\n".as_bytes());
    rsp_buf.extend_from_slice("Upgrade: websocket\r\n".as_bytes());
    rsp_buf.extend_from_slice("Connection: Upgrade\r\n".as_bytes());
    rsp_buf.extend_from_slice("Sec-WebSocket-Accept: ".as_bytes());
    rsp_buf.extend_from_slice(accept.as_bytes());
    rsp_buf.extend_from_slice("\r\n\r\n".as_bytes());
    assert(buffer_bytes(*rsp_buf) =~= switching_protocols_bytes(accept@));
}

/// The answer to a short accept text is short.
proof fn lemma_switching_protocols_len(accept: Seq<char>)
    requires
        is_base64_text(accept),
    ensures
        switching_protocols_bytes(accept).len() == 101 + accept.len(),
{
    reveal_strlit("HTTP/1.1 101 Switching Protocols\r\n");
    reveal_strlit("Upgrade: websocket\r\n");
    reveal_strlit("Connection: Upgrade\r\n");
    reveal_strlit("Sec-WebSocket-Accept: ");
    reveal_strlit("\r\n\r\n");
    is_ascii_chars_encode_utf8("HTTP/1.1 101 Switching Protocols\r\n"@);
    is_ascii_chars_encode_utf8("Upgrade: websocket\r\n"@);
    is_ascii_chars_encode_utf8("Connection: Upgrade\r\n"@);
    is_ascii_chars_encode_utf8("Sec-WebSocket-Accept: "@);
    is_ascii_chars_encode_utf8("\r\n\r\n"@);
    assert(is_ascii_chars(accept));
    is_ascii_chars_encode_utf8(accept);
}

/// Answers an upgrade request: makes the answer the only contents of the buffer. Without a
/// key, fails and leaves the buffer alone.
pub fn answer_upgrade<B>(req: &Request<B>, rsp_buf: &mut BytesMut) -> (r: Result<(), ServeError>)
    requires
        websocket_key(req.header_views()) matches Some(key) ==> fits_buffer(key.len() + 36),
    ensures
        match websocket_key(req.header_views()) {
            Some(key) => {
                &&& r is Ok
                &&& buffer_bytes(*final(rsp_buf)) == switching_protocols_bytes(accept_text(key))
            },
            None => {
                &&& r == Err::<(), ServeError>(ServeError::MissingKey)
                &&& buffer_bytes(*final(rsp_buf)) == buffer_bytes(*old(rsp_buf))
            },
        },
{
    match get_websocket_key(req) {
        Some(key) => {
            let accept = accept_key(key);
            proof {
                lemma_switching_protocols_len(accept@);
            }
            switching_protocols(accept.as_str(), rsp_buf);
            Ok(())
        },
        None => Err(ServeError::MissingKey),
    }
}

} // verus!
