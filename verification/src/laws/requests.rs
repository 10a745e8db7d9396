//! Requests and their headers.

use vstd::prelude::*;
use vstd::utf8::encode_utf8;

use crate::laws::texts::{lemma_folded_alike, same_but_case};
use crate::request::{
    asks_for_websocket, first_value, get_websocket_key, is_named, is_websocket_upgrade, Header,
    HeaderView, Request,
};
use crate::text::{holds_folded, stands_at};

verus! {

/// Whether the header has this name, but for the case of ASCII letters.
pub open spec fn called(header: Header, name: Seq<char>) -> bool {
    same_but_case(encode_utf8(header.name@), encode_utf8(name))
}

/// Whether the needle stands somewhere in the bytes, but for the case of ASCII letters.
pub open spec fn stands_in(bytes: Seq<u8>, needle: Seq<u8>) -> bool {
    exists|at: int|
        0 <= at <= bytes.len() - needle.len() && same_but_case(
            #[trigger] bytes.skip(at).take(needle.len() as int),
            needle,
        )
}

proof fn lemma_called(header: Header, name: Seq<char>)
    ensures
        is_named(header@, name) <==> called(header, name),
{
    lemma_folded_alike(encode_utf8(header.name@), encode_utf8(name));
}

proof fn lemma_stands_in(bytes: Seq<u8>, needle: Seq<u8>)
    ensures
        holds_folded(bytes, needle) <==> stands_in(bytes, needle),
{
    if holds_folded(bytes, needle) {
        let at = choose|at: int| stands_at(bytes, needle, at);
        lemma_folded_alike(bytes.subrange(at, at + needle.len()), needle);
        assert(bytes.skip(at).take(needle.len() as int) =~= bytes.subrange(at, at + needle.len()));
    }
    if stands_in(bytes, needle) {
        let at = choose|at: int|
            0 <= at <= bytes.len() - needle.len() && same_but_case(
                #[trigger] bytes.skip(at).take(needle.len() as int),
                needle,
            );
        assert(bytes.skip(at).take(needle.len() as int) =~= bytes.subrange(at, at + needle.len()));
        lemma_folded_alike(bytes.subrange(at, at + needle.len()), needle);
        assert(stands_at(bytes, needle, at));
    }
}

/// A request asks to become a WebSocket connection exactly if it has, at any places among its
/// headers, a `Connection` header in which `upgrade` stands, an `Upgrade` header that is
/// `websocket`, and a `Sec-WebSocket-Key` header, all without regard to case.
pub proof fn law_three_headers_ask_for_an_upgrade<B>(
    req: &Request<B>,
    headers: &[Header],
    r: bool,
)
    requires
        call_ensures(Request::<B>::headers, (req,), headers),
        call_ensures(is_websocket_upgrade::<B>, (req,), r),
    ensures
        r <==> {
            &&& exists|i: int|
                0 <= i < headers@.len() && called(#[trigger] headers@[i], "Connection"@)
                    && stands_in(headers@[i].value@, encode_utf8("upgrade"@))
            &&& exists|j: int|
                0 <= j < headers@.len() && called(#[trigger] headers@[j], "Upgrade"@)
                    && same_but_case(headers@[j].value@, encode_utf8("websocket"@))
            &&& exists|k: int|
                0 <= k < headers@.len() && called(#[trigger] headers@[k], "Sec-WebSocket-Key"@)
        },
{
    let views = req.header_views();
    assert(views == Seq::new(headers@.len(), |i: int| headers@[i]@));
    assert forall|i: int| 0 <= i < headers@.len() implies {
        &&& views[i] == (#[trigger] headers@[i])@
        &&& is_named(views[i], "Connection"@) == called(headers@[i], "Connection"@)
        &&& is_named(views[i], "Upgrade"@) == called(headers@[i], "Upgrade"@)
        &&& is_named(views[i], "Sec-WebSocket-Key"@) == called(headers@[i], "Sec-WebSocket-Key"@)
        &&& holds_folded(views[i].value, encode_utf8("upgrade"@)) == stands_in(
            headers@[i].value@,
            encode_utf8("upgrade"@),
        )
        &&& (crate::text::folded(views[i].value) == crate::text::folded(
            encode_utf8("websocket"@),
        )) == same_but_case(headers@[i].value@, encode_utf8("websocket"@))
    } by {
        lemma_called(headers@[i], "Connection"@);
        lemma_called(headers@[i], "Upgrade"@);
        lemma_called(headers@[i], "Sec-WebSocket-Key"@);
        lemma_stands_in(headers@[i].value@, encode_utf8("upgrade"@));
        lemma_folded_alike(headers@[i].value@, encode_utf8("websocket"@));
    }
    if r {
        let i = choose|i: int|
            0 <= i < views.len() && is_named(#[trigger] views[i], "Connection"@) && holds_folded(
                views[i].value,
                encode_utf8("upgrade"@),
            );
        assert(called(headers@[i], "Connection"@));
        let j = choose|j: int|
            0 <= j < views.len() && is_named(#[trigger] views[j], "Upgrade"@)
                && crate::text::folded(views[j].value) == crate::text::folded(
                encode_utf8("websocket"@),
            );
        assert(called(headers@[j], "Upgrade"@));
        let k = choose|k: int|
            0 <= k < views.len() && is_named(#[trigger] views[k], "Sec-WebSocket-Key"@);
        assert(called(headers@[k], "Sec-WebSocket-Key"@));
    }
}

/// Neither the order of the headers nor a further header takes away that a request asks for an
/// upgrade: if every header of one request is among those of another, and the one asks for an
/// upgrade, so does the other.
pub proof fn law_more_headers_in_any_order<B>(
    req: &Request<B>,
    headers: &[Header],
    r: bool,
    other: &Request<B>,
    other_headers: &[Header],
    other_r: bool,
)
    requires
        call_ensures(Request::<B>::headers, (req,), headers),
        call_ensures(is_websocket_upgrade::<B>, (req,), r),
        call_ensures(Request::<B>::headers, (other,), other_headers),
        call_ensures(is_websocket_upgrade::<B>, (other,), other_r),
        forall|i: int|
            0 <= i < headers@.len() ==> exists|j: int|
                0 <= j < other_headers@.len() && (#[trigger] other_headers@[j]).name@ == (
                #[trigger] headers@[i]).name@ && other_headers@[j].value@ == headers@[i].value@,
    ensures
        r ==> other_r,
{
    law_three_headers_ask_for_an_upgrade(req, headers, r);
    law_three_headers_ask_for_an_upgrade(other, other_headers, other_r);
    if r {
        let i = choose|i: int|
            0 <= i < headers@.len() && called(#[trigger] headers@[i], "Connection"@) && stands_in(
                headers@[i].value@,
                encode_utf8("upgrade"@),
            );
        let i2 = choose|j: int|
            0 <= j < other_headers@.len() && (#[trigger] other_headers@[j]).name@
                == headers@[i].name@ && other_headers@[j].value@ == headers@[i].value@;
        assert(called(other_headers@[i2], "Connection"@));
        let j = choose|j: int|
            0 <= j < headers@.len() && called(#[trigger] headers@[j], "Upgrade"@)
                && same_but_case(headers@[j].value@, encode_utf8("websocket"@));
        let j2 = choose|m: int|
            0 <= m < other_headers@.len() && (#[trigger] other_headers@[m]).name@
                == headers@[j].name@ && other_headers@[m].value@ == headers@[j].value@;
        assert(called(other_headers@[j2], "Upgrade"@));
        let k = choose|k: int|
            0 <= k < headers@.len() && called(#[trigger] headers@[k], "Sec-WebSocket-Key"@);
        let k2 = choose|m: int|
            0 <= m < other_headers@.len() && (#[trigger] other_headers@[m]).name@
                == headers@[k].name@ && other_headers@[m].value@ == headers@[k].value@;
        assert(called(other_headers@[k2], "Sec-WebSocket-Key"@));
    }
}

proof fn lemma_first_value(views: Seq<HeaderView>, name: Seq<char>)
    ensures
        match first_value(views, name) {
            Some(value) => exists|i: int|
                {
                    &&& 0 <= i < views.len()
                    &&& is_named(#[trigger] views[i], name)
                    &&& views[i].value == value
                    &&& forall|j: int| 0 <= j < i ==> !is_named(#[trigger] views[j], name)
                },
            None => forall|j: int| 0 <= j < views.len() ==> !is_named(#[trigger] views[j], name),
        },
    decreases views.len(),
{
    if views.len() > 0 && !is_named(views[0], name) {
        let rest = views.drop_first();
        lemma_first_value(rest, name);
        match first_value(rest, name) {
            Some(value) => {
                let i = choose|i: int|
                    {
                        &&& 0 <= i < rest.len()
                        &&& is_named(#[trigger] rest[i], name)
                        &&& rest[i].value == value
                        &&& forall|j: int| 0 <= j < i ==> !is_named(#[trigger] rest[j], name)
                    };
                assert(views[i + 1] == rest[i]);
                assert forall|j: int| 0 <= j < i + 1 implies !is_named(#[trigger] views[j], name) by {
                    if j > 0 {
                        assert(rest[j - 1] == views[j]);
                    }
                }
            },
            None => {
                assert forall|j: int| 0 <= j < views.len() implies !is_named(
                    #[trigger] views[j],
                    name,
                ) by {
                    if j > 0 {
                        assert(rest[j - 1] == views[j]);
                    }
                }
            },
        }
    }
}

/// The key is the whole value of the first `Sec-WebSocket-Key` header, and there is none exactly
/// if no header has that name.
pub proof fn law_the_first_key_is_taken<B>(
    req: &Request<B>,
    headers: &[Header],
    key: Option<&[u8]>,
)
    requires
        call_ensures(Request::<B>::headers, (req,), headers),
        call_ensures(get_websocket_key::<B>, (req,), key),
    ensures
        match key {
            Some(value) => exists|i: int|
                {
                    &&& 0 <= i < headers@.len()
                    &&& called(#[trigger] headers@[i], "Sec-WebSocket-Key"@)
                    &&& headers@[i].value@ == value@
                    &&& forall|j: int|
                        0 <= j < i ==> !called(#[trigger] headers@[j], "Sec-WebSocket-Key"@)
                },
            None => forall|j: int|
                0 <= j < headers@.len() ==> !called(#[trigger] headers@[j], "Sec-WebSocket-Key"@),
        },
{
    let views = req.header_views();
    assert(views == Seq::new(headers@.len(), |i: int| headers@[i]@));
    lemma_first_value(views, "Sec-WebSocket-Key"@);
    assert forall|i: int| 0 <= i < headers@.len() implies views[i] == (#[trigger] headers@[i])@
        && is_named(views[i], "Sec-WebSocket-Key"@) == called(
        headers@[i],
        "Sec-WebSocket-Key"@,
    ) by {
        lemma_called(headers@[i], "Sec-WebSocket-Key"@);
    }
    if let Some(value) = key {
        let i = choose|i: int|
            {
                &&& 0 <= i < views.len()
                &&& is_named(#[trigger] views[i], "Sec-WebSocket-Key"@)
                &&& views[i].value == value@
                &&& forall|j: int|
                    0 <= j < i ==> !is_named(#[trigger] views[j], "Sec-WebSocket-Key"@)
            };
        assert(called(headers@[i], "Sec-WebSocket-Key"@));
        assert forall|j: int| 0 <= j < i implies !called(
            #[trigger] headers@[j],
            "Sec-WebSocket-Key"@,
        ) by {
            assert(!is_named(views[j], "Sec-WebSocket-Key"@));
        }
    } else {
        assert forall|j: int| 0 <= j < headers@.len() implies !called(
            #[trigger] headers@[j],
            "Sec-WebSocket-Key"@,
        ) by {
            assert(!is_named(views[j], "Sec-WebSocket-Key"@));
        }
    }
}

/// A request hands out the path, the headers in their order and the rest that it was made of.
pub proof fn law_a_request_hands_out_its_parts<B>(
    path: String,
    headers: Vec<Header>,
    rest: B,
    req: Request<B>,
    path_out: &str,
    headers_out: &[Header],
    rest_out: &B,
    rest_taken: B,
)
    requires
        call_ensures(Request::<B>::new, (path, headers, rest), req),
        call_ensures(Request::<B>::path, (&req,), path_out),
        call_ensures(Request::<B>::headers, (&req,), headers_out),
        call_ensures(Request::<B>::rest, (&req,), rest_out),
        call_ensures(Request::<B>::into_rest, (req,), rest_taken),
    ensures
        path_out@ == path@,
        headers_out@.len() == headers@.len(),
        forall|i: int|
            0 <= i < headers@.len() ==> (#[trigger] headers_out@[i]).name@ == headers@[i].name@
                && headers_out@[i].value@ == headers@[i].value@,
        *rest_out == rest,
        rest_taken == rest,
{
    let views = req.header_views();
    assert(views == Seq::new(headers@.len(), |i: int| headers@[i]@));
    assert(views == Seq::new(headers_out@.len(), |i: int| headers_out@[i]@));
    assert forall|i: int| 0 <= i < headers@.len() implies (#[trigger] headers_out@[i]).name@
        == headers@[i].name@ && headers_out@[i].value@ == headers@[i].value@ by {
        assert(views[i] == headers_out@[i]@);
        assert(views[i] == headers@[i]@);
    }
}

} // verus!
