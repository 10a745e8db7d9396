//! Requests, as far as the server itself looks at them.

use vstd::prelude::*;
use vstd::utf8::encode_utf8;

use crate::text::{contains_ignore_ascii_case, eq_ignore_ascii_case, folded, holds_folded};

verus! {

/// A header line of a request.
#[derive(Debug)]
pub struct Header {
    pub name: String,
    pub value: Vec<u8>,
}

/// [`Header`] in terms of its contents.
pub struct HeaderView {
    pub name: Seq<char>,
    pub value: Seq<u8>,
}

impl View for Header {
    type V = HeaderView;

    open spec fn view(&self) -> HeaderView {
        HeaderView { name: self.name@, value: self.value@ }
    }
}

/// A request: its path, its headers in the order of arrival, and whatever else the parser
/// read for the service, such as the method and the reader of the body.
#[derive(Debug)]
pub struct Request<B> {
    path: String,
    headers: Vec<Header>,
    rest: B,
}

impl<B> Request<B> {
    /// The path of the request.
    pub closed spec fn path_text(&self) -> Seq<char> {
        self.path@
    }

    /// The headers in the order of arrival.
    pub closed spec fn header_views(&self) -> Seq<HeaderView> {
        Seq::new(self.headers@.len(), |i: int| self.headers@[i]@)
    }

    /// What the parser read for the service.
    pub closed spec fn remainder(&self) -> B {
        self.rest
    }

    /// A request with these parts.
    pub fn new(path: String, headers: Vec<Header>, rest: B) -> (req: Request<B>)
        ensures
            req.path_text() == path@,
            req.header_views() == Seq::new(headers@.len(), |i: int| headers@[i]@),
            req.remainder() == rest,
    {
        Request { path, headers, rest }
    }

    /// The path of the request.
    pub fn path(&self) -> (path: &str)
        ensures
            path@ == self.path_text(),
    {
        self.path.as_str()
    }

    /// The headers in the order of arrival.
    pub fn headers(&self) -> (headers: &[Header])
        ensures
            Seq::new(headers@.len(), |i: int| headers@[i]@) == self.header_views(),
    {
        self.headers.as_slice()
    }

    /// What the parser read for the service.
    pub fn rest(&self) -> (rest: &B)
        ensures
            *rest == self.remainder(),
    {
        &self.rest
    }

    /// Takes out what the parser read for the service.
    pub fn into_rest(self) -> (rest: B)
        ensures
            rest == self.remainder(),
    {
        self.rest
    }
}

/// Whether the header has this name, but for the case of ASCII letters.
pub open spec fn is_named(header: HeaderView, name: Seq<char>) -> bool {
    folded(encode_utf8(header.name)) == folded(encode_utf8(name))
}

/// The value of the first header with this name.
pub open spec fn first_value(headers: Seq<HeaderView>, name: Seq<char>) -> Option<Seq<u8>>
    decreases headers.len(),
{
    if headers.len() == 0 {
        None
    } else if is_named(headers[0], name) {
        Some(headers[0].value)
    } else {
        first_value(headers.drop_first(), name)
    }
}

/// The key of a WebSocket handshake.
pub open spec fn websocket_key(headers: Seq<HeaderView>) -> Option<Seq<u8>> {
    first_value(headers, "Sec-WebSocket-Key"@)
}

/// Whether some header asks for the connection to be upgraded.
pub open spec fn wants_upgrade(headers: Seq<HeaderView>) -> bool {
    exists|i: int|
        0 <= i < headers.len() && is_named(#[trigger] headers[i], "Connection"@) && holds_folded(
            headers[i].value,
            encode_utf8("upgrade"@),
        )
}

/// Whether some header names the WebSocket protocol as what to upgrade to.
pub open spec fn names_websocket(headers: Seq<HeaderView>) -> bool {
    exists|i: int|
        0 <= i < headers.len() && is_named(#[trigger] headers[i], "Upgrade"@) && folded(
            headers[i].value,
        ) == folded(encode_utf8("websocket"@))
}

/// Whether some header carries the key of a WebSocket handshake.
pub open spec fn has_websocket_key(headers: Seq<HeaderView>) -> bool {
    exists|i: int|
        0 <= i < headers.len() && is_named(#[trigger] headers[i], "Sec-WebSocket-Key"@)
}

/// Whether a request with these headers asks to become a WebSocket connection.
pub open spec fn asks_for_websocket(headers: Seq<HeaderView>) -> bool {
    wants_upgrade(headers) && names_websocket(headers) && has_websocket_key(headers)
}

fn named(header: &Header, name: &str) -> (r: bool)
    ensures
        r == is_named(header@, name@),
{
    eq_ignore_ascii_case(header.name.as_str().as_bytes(), name.as_bytes())
}

/// The value of the first `Sec-WebSocket-Key` header.
pub fn get_websocket_key<'a, B>(req: &'a Request<B>) -> (key: Option<&'a [u8]>)
    ensures
        match key {
            Some(value) => websocket_key(req.header_views()) == Some(value@),
            None => websocket_key(req.header_views()) is None,
        },
{
    let ghost headers = req.header_views();
    let mut i: usize = 0;
    assert(headers.skip(0) =~= headers);
    while i < req.headers.len()
        invariant
            headers == req.header_views(),
            i <= req.headers@.len() == headers.len(),
            websocket_key(headers) == websocket_key(headers.skip(i as int)),
        decreases req.headers@.len() - i,
    {
        let header = &req.headers[i];
        assert(headers.skip(i as int)[0] == header@);
        if named(header, "Sec-WebSocket-Key") {
            return Some(header.value.as_slice());
        }
        assert(headers.skip(i as int).drop_first() =~= headers.skip(i + 1));
        i += 1;
    }
    None
}

/// Whether the request asks to become a WebSocket connection.
pub fn is_websocket_upgrade<B>(req: &Request<B>) -> (r: bool)
    ensures
        r == asks_for_websocket(req.header_views()),
{
    let ghost headers = req.header_views();
    let mut connection = false;
    let mut upgrade = false;
    let mut key = false;
    let mut i: usize = 0;
    while i < req.headers.len()
        invariant
            headers == req.header_views(),
            i <= req.headers@.len() == headers.len(),
            connection == wants_upgrade(headers.take(i as int)),
            upgrade == names_websocket(headers.take(i as int)),
            key == has_websocket_key(headers.take(i as int)),
        decreases req.headers@.len() - i,
    {
        let header = &req.headers[i];
        let ghost seen = headers.take(i as int);
        let ghost next = headers.take(i + 1);
        assert(next[i as int] == header@);
        assert(forall|j: int| 0 <= j < i ==> seen[j] == next[j]);
        if named(header, "Connection") && contains_ignore_ascii_case(
            header.value.as_slice(),
            "upgrade".as_bytes(),
        ) {
            connection = true;
        }
        if named(header, "Upgrade") && eq_ignore_ascii_case(
            header.value.as_slice(),
            "websocket".as_bytes(),
        ) {
            upgrade = true;
        }
        if named(header, "Sec-WebSocket-Key") {
            key = true;
        }
        i += 1;
    }
    assert(headers.take(i as int) =~= headers);
    connection && upgrade && key
}

/// A request that asks for an upgrade carries a key, so that its handshake can be answered.
pub proof fn law_upgrade_carries_a_key(headers: Seq<HeaderView>)
    ensures
        has_websocket_key(headers) == (websocket_key(headers) is Some),
        asks_for_websocket(headers) ==> websocket_key(headers) is Some,
    decreases headers.len(),
{
    if headers.len() > 0 {
        let rest = headers.drop_first();
        law_upgrade_carries_a_key(rest);
        if has_websocket_key(headers) && !is_named(headers[0], "Sec-WebSocket-Key"@) {
            let i = choose|i: int|
                0 <= i < headers.len() && is_named(#[trigger] headers[i], "Sec-WebSocket-Key"@);
            assert(rest[i - 1] == headers[i]);
        }
        if has_websocket_key(rest) {
            let i = choose|i: int|
                0 <= i < rest.len() && is_named(#[trigger] rest[i], "Sec-WebSocket-Key"@);
            assert(headers[i + 1] == rest[i]);
        }
    }
}

} // verus!
