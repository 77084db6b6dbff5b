use vstd::prelude::*;
use vstd::string::StringSliceAdditionalSpecFns;
use crate::text::{append_bytes, decimal, push_decimal};
use crate::mime::{get_mime_type, mime_of_name};

verus! {

/// The status codes this server sends.
#[derive(PartialEq, Eq, Structural, Clone, Copy, Debug)]
pub enum Status {
    Success,
    NotFound,
}

impl Status {
    /// The numeric status code.
    pub fn code(&self) -> (r: u16)
        ensures
            r == status_code(*self),
    {
        match self {
            Status::Success => 200,
            Status::NotFound => 404,
        }
    }
}

pub open spec fn status_code(s: Status) -> u16 {
    match s {
        Status::Success => 200,
        Status::NotFound => 404,
    }
}

pub open spec fn status_line(s: Status) -> Seq<u8> {
    match s {
        Status::Success => "HTTP/1.1 200 OK\r\n".spec_bytes(),
        Status::NotFound => "HTTP/1.1 404 Not Found\r\n".spec_bytes(),
    }
}

pub open spec fn header_line(name: Seq<u8>, value: Seq<u8>) -> Seq<u8> {
    name + ": ".spec_bytes() + value + "\r\n".spec_bytes()
}

/// The header lines, in order.
pub open spec fn header_block(hs: Seq<(Seq<u8>, Seq<u8>)>) -> Seq<u8>
    decreases hs.len(),
{
    if hs.len() == 0 {
        Seq::empty()
    } else {
        header_block(hs.drop_last()) + header_line(hs.last().0, hs.last().1)
    }
}

/// A complete response head: status line, header lines, blank line.
pub open spec fn head_bytes(s: Status, hs: Seq<(Seq<u8>, Seq<u8>)>) -> Seq<u8> {
    status_line(s) + header_block(hs) + "\r\n".spec_bytes()
}

/// The two headers every response carries.
pub open spec fn content_headers(content_type: Seq<u8>, len: nat) -> Seq<(Seq<u8>, Seq<u8>)> {
    seq![
        ("Content-Type".spec_bytes(), content_type),
        ("Content-Length".spec_bytes(), decimal(len)),
    ]
}

pub open spec fn text_html() -> Seq<u8> {
    "text/html".spec_bytes()
}

/// The head of a file response: 200, the file's content type and its size.
pub open spec fn file_head(name: Seq<u8>, size: nat) -> Seq<u8> {
    head_bytes(Status::Success, content_headers(mime_of_name(name), size))
}

/// A complete `text/html` response with `body`.
pub open spec fn html_response_bytes(s: Status, body: Seq<u8>) -> Seq<u8> {
    head_bytes(s, content_headers(text_html(), body.len())) + body
}

/// The response sent for every request that is not served.
pub open spec fn not_found_bytes() -> Seq<u8> {
    html_response_bytes(Status::NotFound, Seq::empty())
}

proof fn lemma_two_headers(a: Seq<u8>, b: Seq<u8>, c: Seq<u8>, d: Seq<u8>)
    ensures
        header_block(seq![(a, b), (c, d)]) == header_line(a, b) + header_line(c, d),
{
    let hs = seq![(a, b), (c, d)];
    assert(hs.drop_last() =~= seq![(a, b)]);
    assert(seq![(a, b)].drop_last() =~= Seq::<(Seq<u8>, Seq<u8>)>::empty());
    assert(header_block(Seq::empty()) == Seq::<u8>::empty());
    assert(header_block(seq![(a, b)]) == header_block(Seq::empty()) + header_line(a, b));
    assert(Seq::<u8>::empty() + header_line(a, b) =~= header_line(a, b));
    assert(header_block(hs) == header_block(seq![(a, b)]) + header_line(c, d));
}

/// Writes the status line.
pub fn start_response(out: &mut Vec<u8>, status: Status)
    ensures
        final(out)@ == old(out)@ + status_line(status),
{
    match status {
        Status::Success => append_bytes(out, "HTTP/1.1 200 OK\r\n".as_bytes()),
        Status::NotFound => append_bytes(out, "HTTP/1.1 404 Not Found\r\n".as_bytes()),
    }
}

/// Writes one header line.
pub fn send_header(out: &mut Vec<u8>, name: &[u8], value: &[u8])
    ensures
        final(out)@ == old(out)@ + header_line(name@, value@),
{
    append_bytes(out, name);
    append_bytes(out, ": ".as_bytes());
    append_bytes(out, value);
    append_bytes(out, "\r\n".as_bytes());
    assert(out@ =~= old(out)@ + header_line(name@, value@));
}

/// Writes the blank line that ends the head.
pub fn end_headers(out: &mut Vec<u8>)
    ensures
        final(out)@ == old(out)@ + "\r\n".spec_bytes(),
{
    append_bytes(out, "\r\n".as_bytes());
}

/// A response head with a content type and a content length.
fn content_head(status: Status, content_type: &[u8], len: u64) -> (r: Vec<u8>)
    ensures
        r@ == head_bytes(status, content_headers(content_type@, len as nat)),
{
    let mut out: Vec<u8> = Vec::new();
    start_response(&mut out, status);
    send_header(&mut out, "Content-Type".as_bytes(), content_type);
    let mut digits: Vec<u8> = Vec::new();
    push_decimal(&mut digits, len);
    assert(digits@ =~= decimal(len as nat));
    send_header(&mut out, "Content-Length".as_bytes(), digits.as_slice());
    end_headers(&mut out);
    proof {
        lemma_two_headers(
            "Content-Type".spec_bytes(),
            content_type@,
            "Content-Length".spec_bytes(),
            decimal(len as nat),
        );
    }
    assert(out@ =~= head_bytes(status, content_headers(content_type@, len as nat)));
    out
}

/// The head of a response that serves the file `name` of `size` bytes; the
/// file's bytes follow it.
pub fn file_response_head(name: &[u8], size: u64) -> (r: Vec<u8>)
    ensures
        r@ == file_head(name@, size as nat),
{
    let ct = get_mime_type(name);
    content_head(Status::Success, ct.as_bytes(), size)
}

/// A complete `text/html` response with `body`.
pub fn html_response(status: Status, body: &[u8]) -> (r: Vec<u8>)
    ensures
        r@ == html_response_bytes(status, body@),
{
    let mut out = content_head(status, "text/html".as_bytes(), body.len() as u64);
    append_bytes(&mut out, body);
    out
}

/// The complete 404 response.
pub fn not_found_response() -> (r: Vec<u8>)
    ensures
        r@ == not_found_bytes(),
{
    let empty: Vec<u8> = Vec::new();
    assert(empty@ =~= Seq::<u8>::empty());
    html_response(Status::NotFound, empty.as_slice())
}

} // verus!
