//! Responses: how a service fills them in, and how they are written out.

use bytes::BytesMut;
use vstd::prelude::*;
use vstd::utf8::encode_utf8;

use crate::buffer::{append, as_slice, buffer_bytes, can_take, holdable, make_room};
use crate::text::{decimal, format_decimal};

verus! {

/// The largest number of header lines that a response takes.
pub const MAX_HEADERS: usize = 32;

#[derive(Clone, Copy)]
enum Slot {
    /// A header line that lives as long as the program.
    Static(&'static str),
    /// A header line in the table's storage.
    Owned(usize),
    Empty,
}

/// The header lines of a response.
struct HeaderTable {
    slots: [Slot; 32],
    len: usize,
    storage: Vec<String>,
}

impl HeaderTable {
    #[verifier::type_invariant]
    spec fn well_formed(&self) -> bool {
        &&& self.len <= MAX_HEADERS
        &&& forall|i: int| #![trigger self.slots@[i]]
            0 <= i < self.len ==> match self.slots@[i] {
                Slot::Static(_) => true,
                Slot::Owned(k) => k < self.storage@.len(),
                Slot::Empty => false,
            }
    }

    spec fn line(&self, i: int) -> Seq<char> {
        match self.slots@[i] {
            Slot::Static(s) => s@,
            Slot::Owned(k) => self.storage@[k as int]@,
            Slot::Empty => Seq::empty(),
        }
    }

    spec fn lines(&self) -> Seq<Seq<char>> {
        Seq::new(self.len as nat, |i: int| self.line(i))
    }

    fn new() -> (table: HeaderTable)
        ensures
            table.lines() == Seq::<Seq<char>>::empty(),
    {
        let table = HeaderTable { slots: [Slot::Empty;32], len: 0, storage: Vec::new() };
        assert(table.lines() =~= Seq::<Seq<char>>::empty());
        table
    }

    fn len(&self) -> (n: usize)
        ensures
            n == self.lines().len(),
            n <= MAX_HEADERS,
    {
        proof {
            use_type_invariant(self);
        }
        self.len
    }

    fn push_static(&mut self, header: &'static str)
        requires
            old(self).lines().len() < MAX_HEADERS,
        ensures
            final(self).lines() == old(self).lines().push(header@),
    {
        proof {
            use_type_invariant(&*self);
        }
        let n = self.len;
        self.slots[n] = Slot::Static(header);
        self.len = n + 1;
        assert(self.lines() =~= old(self).lines().push(header@));
    }

    fn push_owned(&mut self, header: String)
        requires
            old(self).lines().len() < MAX_HEADERS,
        ensures
            final(self).lines() == old(self).lines().push(header@),
    {
        proof {
            use_type_invariant(&*self);
        }
        let n = self.len;
        self.len = 0;
        let mut storage: Vec<String> = Vec::new();
        std::mem::swap(&mut self.storage, &mut storage);
        let index = storage.len();
        storage.push(header);
        self.storage = storage;
        self.slots[n] = Slot::Owned(index);
        self.len = n + 1;
        assert(self.lines() =~= old(self).lines().push(header@));
    }

    fn get(&self, index: usize) -> (line: &str)
        requires
            index < self.lines().len(),
        ensures
            line@ == self.lines()[index as int],
    {
        proof {
            use_type_invariant(self);
        }
        match &self.slots[index] {
            Slot::Static(s) => s,
            Slot::Owned(k) => self.storage[*k].as_str(),
            Slot::Empty => "",
        }
    }
}

enum Body {
    Static(&'static str),
    Text(String),
    Bytes(Vec<u8>),
    /// The body is what the response's buffer holds.
    Buffer,
}

struct StatusMessage {
    code: usize,
    msg: &'static str,
}

/// A response that a service fills in. Writing the response out, or letting go of it, empties
/// the buffer in which its body may have grown.
pub struct Response<'a> {
    headers: HeaderTable,
    status_message: StatusMessage,
    body: Body,
    rsp_buf: &'a mut BytesMut,
    /// An empty buffer that takes the place of `rsp_buf` when the response is let go of; none
    /// when `rsp_buf` has been emptied already.
    spare: Option<BytesMut>,
}

/// [`Response`] in terms of its contents.
pub struct ResponseView {
    pub code: nat,
    pub message: Seq<char>,
    pub headers: Seq<Seq<char>>,
    /// The body that was set, if the body is not what the buffer holds.
    pub set_body: Option<Seq<u8>>,
    /// What the response's buffer holds.
    pub buffer: Seq<u8>,
    /// What the response's buffer will hold when the response is let go of.
    pub left_behind: Seq<u8>,
}

impl ResponseView {
    /// The body of the response.
    pub open spec fn body(self) -> Seq<u8> {
        match self.set_body {
            Some(body) => body,
            None => self.buffer,
        }
    }

    /// The response with its buffer emptied.
    pub open spec fn emptied(self) -> ResponseView {
        ResponseView { buffer: Seq::empty(), left_behind: Seq::empty(), ..self }
    }
}

/// A response that nobody has filled in yet: status 200, no headers, and as its body what
/// the buffer holds. It leaves the buffer empty.
pub open spec fn fresh_view(buffer: Seq<u8>) -> ResponseView {
    ResponseView {
        code: 200,
        message: "Ok"@,
        headers: Seq::empty(),
        set_body: None,
        buffer,
        left_behind: Seq::empty(),
    }
}

impl Body {
    spec fn bytes(&self) -> Option<Seq<u8>> {
        match self {
            Body::Static(s) => Some(encode_utf8(s@)),
            Body::Text(s) => Some(encode_utf8(s@)),
            Body::Bytes(v) => Some(v@),
            Body::Buffer => None,
        }
    }
}

impl<'a> View for Response<'a> {
    type V = ResponseView;

    closed spec fn view(&self) -> ResponseView {
        ResponseView {
            code: self.status_message.code as nat,
            message: self.status_message.msg@,
            headers: self.headers.lines(),
            set_body: self.body.bytes(),
            buffer: buffer_bytes(*self.rsp_buf),
            left_behind: match self.spare {
                Some(spare) => buffer_bytes(spare),
                None => buffer_bytes(*self.rsp_buf),
            },
        }
    }
}

impl<'a> Response<'a> {
    /// A response with status 200, without headers, whose body is what `rsp_buf` holds.
    pub fn new(rsp_buf: &'a mut BytesMut) -> (rsp: Response<'a>)
        ensures
            rsp@ == fresh_view(buffer_bytes(*old(rsp_buf))),
    {
        Response {
            headers: HeaderTable::new(),
            status_message: StatusMessage { code: 200, msg: "Ok" },
            body: Body::Buffer,
            rsp_buf,
            spare: Some(BytesMut::with_capacity(0)),
        }
    }

    /// Sets the status.
    pub fn status_code(&mut self, code: usize, msg: &'static str) -> (r: &mut Self)
        ensures
            r@ == (ResponseView { code: code as nat, message: msg@, ..old(self)@ }),
            *final(self) == *final(r),
    {
        self.status_message = StatusMessage { code, msg };
        self
    }

    /// Adds a header line.
    pub fn header(&mut self, header: &'static str) -> (r: &mut Self)
        requires
            old(self)@.headers.len() < MAX_HEADERS,
        ensures
            r@ == (ResponseView { headers: old(self)@.headers.push(header@), ..old(self)@ }),
            *final(self) == *final(r),
    {
        self.headers.push_static(header);
        self
    }

    /// Adds a header line that was made for this response.
    pub fn header_str(&mut self, header: String) -> (r: &mut Self)
        requires
            old(self)@.headers.len() < MAX_HEADERS,
        ensures
            r@ == (ResponseView { headers: old(self)@.headers.push(header@), ..old(self)@ }),
            *final(self) == *final(r),
    {
        self.headers.push_owned(header);
        self
    }

    /// Sets the body to a text that lives as long as the program.
    pub fn body(&mut self, s: &'static str)
        ensures
            final(self)@ == (ResponseView { set_body: Some(encode_utf8(s@)), ..old(self)@ }),
    {
        self.body = Body::Static(s);
    }

    /// Sets the body to a text.
    pub fn body_string(&mut self, s: String)
        ensures
            final(self)@ == (ResponseView { set_body: Some(encode_utf8(s@)), ..old(self)@ }),
    {
        self.body = Body::Text(s);
    }

    /// Sets the body to bytes.
    pub fn body_vec(&mut self, v: Vec<u8>)
        ensures
            final(self)@ == (ResponseView { set_body: Some(v@), ..old(self)@ }),
    {
        self.body = Body::Bytes(v);
    }

    /// The response's buffer, which is the body from here on. A body that was set before is
    /// appended to it first.
    pub fn body_mut(&mut self) -> (r: &mut BytesMut)
        requires
            old(self)@.set_body matches Some(body) ==> holdable(
                old(self)@.buffer.len() + body.len(),
            ),
        ensures
            buffer_bytes(*r) == match old(self)@.set_body {
                Some(body) => old(self)@.buffer + body,
                None => old(self)@.buffer,
            },
            final(self)@ == (ResponseView {
                set_body: None,
                buffer: buffer_bytes(*final(r)),
                left_behind: Seq::empty(),
                ..old(self)@
            }),
    {
        match &self.body {
            Body::Buffer => {},
            Body::Static(s) => {
                make_room(self.rsp_buf, s.as_bytes().len() as u128);
                self.rsp_buf.extend_from_slice(s.as_bytes());
            },
            Body::Text(s) => {
                make_room(self.rsp_buf, s.as_str().as_bytes().len() as u128);
                self.rsp_buf.extend_from_slice(s.as_str().as_bytes());
            },
            Body::Bytes(v) => {
                make_room(self.rsp_buf, v.len() as u128);
                self.rsp_buf.extend_from_slice(v.as_slice());
            },
        }
        self.body = Body::Buffer;
        self.spare = Some(BytesMut::with_capacity(0));
        self.rsp_buf
    }

    /// The body of the response.
    pub fn get_body(&self) -> (body: &[u8])
        ensures
            body@ == self@.body(),
    {
        match &self.body {
            Body::Buffer => as_slice(self.rsp_buf),
            Body::Static(s) => s.as_bytes(),
            Body::Text(s) => s.as_str().as_bytes(),
            Body::Bytes(v) => v.as_slice(),
        }
    }

    /// The number of bytes in the body of the response.
    pub fn body_len(&self) -> (n: usize)
        ensures
            n == self@.body().len(),
    {
        self.get_body().len()
    }

    /// Empties the response's buffer, once the response has been dealt with.
    pub(crate) fn clear_buffer(&mut self)
        ensures
            final(self)@ == old(self)@.emptied(),
    {
        self.rsp_buf.clear();
        self.spare = None;
        assert(self@.buffer =~= Seq::<u8>::empty());
    }
}

impl<'a> Drop for Response<'a> {
    /// Leaves the response's buffer empty when the response is let go of.
    fn drop(&mut self)
        ensures
            final(self)@.buffer == old(self)@.left_behind,
        opens_invariants none
        no_unwind
    {
        match &mut self.spare {
            Some(spare) => std::mem::swap(self.rsp_buf, spare),
            None => {},
        }
    }
}

/// The first line of a response. The message of status 200 is always the same.
pub open spec fn status_line(code: nat, message: Seq<char>) -> Seq<u8> {
    if code == 200 {
        encode_utf8("HTTP/1.1 200 Ok"@)
    } else {
        encode_utf8("HTTP/1.1 "@) + decimal(code) + encode_utf8(" "@) + encode_utf8(message)
    }
}

/// Header lines, each behind a line break.
pub open spec fn header_lines(headers: Seq<Seq<char>>) -> Seq<u8>
    decreases headers.len(),
{
    if headers.len() == 0 {
        Seq::empty()
    } else {
        header_lines(headers.drop_last()) + encode_utf8("\r\n"@) + encode_utf8(headers.last())
    }
}

/// Everything in front of the blank line: the status, the lines that every response has, and
/// the response's own header lines.
pub open spec fn head_bytes(
    status: Seq<u8>,
    date: Seq<u8>,
    length: nat,
    headers: Seq<Seq<char>>,
) -> Seq<u8> {
    status + encode_utf8("\r\nServer: M\r\nDate: "@) + date + encode_utf8(
        "\r\nContent-Length: "@,
    ) + decimal(length) + header_lines(headers)
}

/// What goes over the wire for a response that is sent at this date.
pub open spec fn response_bytes(rsp: ResponseView, date: Seq<u8>) -> Seq<u8> {
    head_bytes(status_line(rsp.code, rsp.message), date, rsp.body().len(), rsp.headers)
        + encode_utf8("\r\n\r\n"@) + rsp.body()
}

/// What goes over the wire when a service fails with this message.
pub open spec fn error_bytes(message: Seq<char>, date: Seq<u8>) -> Seq<u8> {
    head_bytes(
        encode_utf8("HTTP/1.1 500 Internal Server Error"@),
        date,
        encode_utf8(message).len(),
        Seq::empty(),
    ) + encode_utf8("\r\n\r\n"@) + encode_utf8(message)
}

/// The number of bytes that [`encode`] appends.
pub fn encoded_len(rsp: &Response, date: &[u8]) -> (n: u128)
    ensures
        n == response_bytes(rsp@, date@).len(),
{
    let body: usize = rsp.body_len();
    let mut n: u128 = if rsp.status_message.code == 200 {
        "HTTP/1.1 200 Ok".as_bytes().len() as u128
    } else {
        "HTTP/1.1 ".as_bytes().len() as u128 + format_decimal(rsp.status_message.code).len() as u128
            + " ".as_bytes().len() as u128 + rsp.status_message.msg.as_bytes().len() as u128
    };
    n = n + "\r\nServer: M\r\nDate: ".as_bytes().len() as u128 + date.len() as u128
        + "\r\nContent-Length: ".as_bytes().len() as u128 + format_decimal(body).len() as u128;
    let ghost fixed = n;
    let count = rsp.headers.len();
    let ghost lines = rsp.headers.lines();
    let mut i: usize = 0;
    while i < count
        invariant
            i <= count == lines.len(),
            count <= MAX_HEADERS,
            lines == rsp.headers.lines(),
            fixed <= 8 * 0x1_0000_0000_0000_0000,
            n == fixed + header_lines(lines.take(i as int)).len(),
            n <= fixed + i * 0x2_0000_0000_0000_0000,
        decreases count - i,
    {
        n = n + "\r\n".as_bytes().len() as u128 + rsp.headers.get(i).as_bytes().len() as u128;
        assert(lines.take(i + 1).drop_last() =~= lines.take(i as int));
        i += 1;
    }
    assert(lines.take(i as int) =~= lines);
    n + "\r\n\r\n".as_bytes().len() as u128 + body as u128
}

/// Appends the response to the buffer, as sent at this date, and empties the response's own
/// buffer.
pub fn encode(rsp: &mut Response, date: &[u8], buf: &mut BytesMut)
    requires
        can_take(*old(buf), response_bytes(old(rsp)@, date@).len()),
    ensures
        buffer_bytes(*final(buf)) == buffer_bytes(*old(buf)) + response_bytes(old(rsp)@, date@),
        final(rsp)@ == old(rsp)@.emptied(),
{
    append_response(rsp, date, buf);
    rsp.clear_buffer();
}

fn append_response(rsp: &Response, date: &[u8], buf: &mut BytesMut)
    requires
        can_take(*old(buf), response_bytes(rsp@, date@).len()),
    ensures
        buffer_bytes(*final(buf)) == buffer_bytes(*old(buf)) + response_bytes(rsp@, date@),
{
    let ghost before = buffer_bytes(*buf);
    let ghost goal = before.len() + response_bytes(rsp@, date@).len();
    let ghost status = status_line(rsp@.code, rsp@.message);
    let ghost lines = rsp.headers.lines();
    proof {
        lemma_header_lines_grow(lines, 0);
    }
    if rsp.status_message.code == 200 {
        append(buf, "HTTP/1.1 200 Ok".as_bytes(), Ghost(goal));
    } else {
        append(buf, "HTTP/1.1 ".as_bytes(), Ghost(goal));
        append(buf, format_decimal(rsp.status_message.code).as_slice(), Ghost(goal));
        append(buf, " ".as_bytes(), Ghost(goal));
        append(buf, rsp.status_message.msg.as_bytes(), Ghost(goal));
    }
    assert(buffer_bytes(*buf) =~= before + status);
    append(buf, "\r\nServer: M\r\nDate: ".as_bytes(), Ghost(goal));
    append(buf, date, Ghost(goal));
    append(buf, "\r\nContent-Length: ".as_bytes(), Ghost(goal));
    append(buf, format_decimal(rsp.body_len()).as_slice(), Ghost(goal));
    let count = rsp.headers.len();
    let mut i: usize = 0;
    assert(lines.take(0) =~= Seq::empty());
    assert(buffer_bytes(*buf) =~= before + head_bytes(
        status,
        date@,
        rsp@.body().len(),
        lines.take(0),
    ));
    while i < count
        invariant
            i <= count == lines.len(),
            lines == rsp.headers.lines(),
            lines == rsp@.headers,
            buffer_bytes(*buf) == before + head_bytes(
                status,
                date@,
                rsp@.body().len(),
                lines.take(i as int),
            ),
            status == status_line(rsp@.code, rsp@.message),
            goal == before.len() + response_bytes(rsp@, date@).len(),
            can_take(*buf, (goal - buffer_bytes(*buf).len()) as nat),
        decreases count - i,
    {
        proof {
            lemma_header_lines_grow(lines, i + 1);
        }
        assert(lines.take(i + 1).drop_last() =~= lines.take(i as int));
        append(buf, "\r\n".as_bytes(), Ghost(goal));
        append(buf, rsp.headers.get(i).as_bytes(), Ghost(goal));
        assert(buffer_bytes(*buf) =~= before + head_bytes(
            status,
            date@,
            rsp@.body().len(),
            lines.take(i + 1),
        ));
        i += 1;
    }
    assert(lines.take(i as int) =~= lines);
    append(buf, "\r\n\r\n".as_bytes(), Ghost(goal));
    append(buf, rsp.get_body(), Ghost(goal));
    assert(buffer_bytes(*buf) =~= before + response_bytes(rsp@, date@));
}

proof fn lemma_header_lines_grow(headers: Seq<Seq<char>>, i: int)
    requires
        0 <= i <= headers.len(),
    ensures
        header_lines(headers.take(i)).len() <= header_lines(headers).len(),
    decreases headers.len(),
{
    if i < headers.len() {
        lemma_header_lines_grow(headers.drop_last(), i);
        assert(headers.drop_last().take(i) =~= headers.take(i));
    } else {
        assert(headers.take(i) =~= headers);
    }
}

/// Appends the answer to a request whose service failed with this message.
pub fn encode_error_message(message: &str, date: &[u8], buf: &mut BytesMut)
    requires
        can_take(*old(buf), error_bytes(message@, date@).len()),
    ensures
        buffer_bytes(*final(buf)) == buffer_bytes(*old(buf)) + error_bytes(message@, date@),
{
    let ghost before = buffer_bytes(*buf);
    let ghost goal = before.len() + error_bytes(message@, date@).len();
    assert(header_lines(Seq::empty()).len() == 0);
    let msg = message.as_bytes();
    append(buf, "HTTP/1.1 500 Internal Server Error".as_bytes(), Ghost(goal));
    append(buf, "\r\nServer: M\r\nDate: ".as_bytes(), Ghost(goal));
    append(buf, date, Ghost(goal));
    append(buf, "\r\nContent-Length: ".as_bytes(), Ghost(goal));
    append(buf, format_decimal(msg.len()).as_slice(), Ghost(goal));
    append(buf, "\r\n\r\n".as_bytes(), Ghost(goal));
    append(buf, msg, Ghost(goal));
    assert(buffer_bytes(*buf) =~= before + error_bytes(message@, date@));
}

/// The number of bytes that [`encode_error_message`] appends.
pub fn error_len(message: &str, date: &[u8]) -> (n: u128)
    ensures
        n == error_bytes(message@, date@).len(),
{
    let msg: usize = message.as_bytes().len();
    "HTTP/1.1 500 Internal Server Error".as_bytes().len() as u128
        + "\r\nServer: M\r\nDate: ".as_bytes().len() as u128 + date.len() as u128
        + "\r\nContent-Length: ".as_bytes().len() as u128 + format_decimal(msg).len() as u128
        + "\r\n\r\n".as_bytes().len() as u128 + msg as u128
}

/// One call that fills in a response.
pub enum Filling {
    Status { code: nat, message: Seq<char> },
    Header { line: Seq<char> },
    Body { bytes: Seq<u8> },
    /// The buffer is lent out as the body, and then holds this.
    Buffer { bytes: Seq<u8> },
    /// The response is written out.
    Written,
}

impl ResponseView {
    /// The response after one more call.
    pub open spec fn filled(self, filling: Filling) -> ResponseView {
        match filling {
            Filling::Status { code, message } => ResponseView { code, message, ..self },
            Filling::Header { line } => ResponseView { headers: self.headers.push(line), ..self },
            Filling::Body { bytes } => ResponseView { set_body: Some(bytes), ..self },
            Filling::Buffer { bytes } => ResponseView {
                set_body: None,
                buffer: bytes,
                left_behind: Seq::empty(),
                ..self
            },
            Filling::Written => self.emptied(),
        }
    }

    /// The response after these calls.
    pub open spec fn filled_with(self, fillings: Seq<Filling>) -> ResponseView
        decreases fillings.len(),
    {
        if fillings.len() == 0 {
            self
        } else {
            self.filled_with(fillings.drop_last()).filled(fillings.last())
        }
    }
}

/// However a response was filled in, and whether or not it was written out: when it is let go
/// of, its buffer is left empty.
pub proof fn law_letting_go_empties_the_buffer(buffer: Seq<u8>, fillings: Seq<Filling>)
    ensures
        fresh_view(buffer).filled_with(fillings).left_behind == Seq::<u8>::empty(),
    decreases fillings.len(),
{
    if fillings.len() > 0 {
        law_letting_go_empties_the_buffer(buffer, fillings.drop_last());
    }
}

} // verus!
