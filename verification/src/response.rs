//! Responses and their form on the wire.

use vstd::prelude::*;
use vstd::string::StringSliceAdditionalSpecFns;
use crate::bytes::{to_vec, append, CR, LF};
use crate::decimal::{decimal, push_decimal, to_decimal};
use crate::error::{ErrorKind, status_of, status_code_of};
use crate::headers::{Pair, lookup, push_pair, COLON};

verus! {

/// A response: built once, then written to the connection.
#[derive(Debug, PartialEq, Eq)]
pub struct Response {
    pub status_code: u16,
    pub status_text: Vec<u8>,
    pub headers: Vec<Pair>,
    pub body: Vec<u8>,
}

/// What a [`Response`] stands for.
pub struct ResponseView {
    pub status_code: u16,
    pub status_text: Seq<u8>,
    pub headers: Seq<(Seq<u8>, Seq<u8>)>,
    pub body: Seq<u8>,
}

impl View for Response {
    type V = ResponseView;

    open spec fn view(&self) -> ResponseView {
        ResponseView {
            status_code: self.status_code,
            status_text: self.status_text@,
            headers: self.headers.deep_view(),
            body: self.body@,
        }
    }
}

/// Name of the header that tells the body's type.
pub open spec fn content_type_name() -> Seq<u8> {
    "Content-Type".spec_bytes()
}

/// Name of the header that tells the body's length.
pub open spec fn content_length_name() -> Seq<u8> {
    "Content-Length".spec_bytes()
}

/// The two names differ, also when the case of letters is set aside.
pub proof fn lemma_names_differ()
    ensures
        !crate::bytes::eq_ignore_case(content_type_name(), content_length_name()),
        crate::bytes::eq_ignore_case(content_length_name(), content_length_name()),
{
    reveal_strlit("Content-Type");
    reveal_strlit("Content-Length");
    vstd::string::is_ascii_spec_bytes("Content-Type");
    vstd::string::is_ascii_spec_bytes("Content-Length");
}

/// The reason phrase that goes with a status code.
pub open spec fn reason_phrase(code: u16) -> Seq<u8> {
    if code == 200 {
        "OK".spec_bytes()
    } else if code == 400 {
        "Bad Request".spec_bytes()
    } else if code == 403 {
        "Forbidden".spec_bytes()
    } else if code == 404 {
        "Not Found".spec_bytes()
    } else if code == 405 {
        "Method Not Allowed".spec_bytes()
    } else if code == 413 {
        "Payload Too Large".spec_bytes()
    } else if code == 431 {
        "Request Header Fields Too Large".spec_bytes()
    } else if code == 500 {
        "Internal Server Error".spec_bytes()
    } else {
        "Unknown".spec_bytes()
    }
}

/// Executable form of [`reason_phrase`].
pub fn reason_phrase_of(code: u16) -> (r: Vec<u8>)
    ensures
        r@ == reason_phrase(code),
{
    let text: &str = if code == 200 {
        "OK"
    } else if code == 400 {
        "Bad Request"
    } else if code == 403 {
        "Forbidden"
    } else if code == 404 {
        "Not Found"
    } else if code == 405 {
        "Method Not Allowed"
    } else if code == 413 {
        "Payload Too Large"
    } else if code == 431 {
        "Request Header Fields Too Large"
    } else if code == 500 {
        "Internal Server Error"
    } else {
        "Unknown"
    };
    to_vec(text.as_bytes())
}

/// The headers that describe a body: its type, then its length in bytes.
pub open spec fn body_headers(content_type: Seq<u8>, body: Seq<u8>) -> Seq<(Seq<u8>, Seq<u8>)> {
    seq![(content_type_name(), content_type), (content_length_name(), decimal(body.len()))]
}

/// The response with status `code`, its reason phrase, the two headers that
/// describe the body, then `extra`, and the body.
pub open spec fn response_with(
    code: u16,
    content_type: Seq<u8>,
    extra: Seq<(Seq<u8>, Seq<u8>)>,
    body: Seq<u8>,
) -> ResponseView {
    ResponseView {
        status_code: code,
        status_text: reason_phrase(code),
        headers: body_headers(content_type, body) + extra,
        body: body,
    }
}

impl Response {
    /// Builds the response with status `code` that carries `body` of type
    /// `content_type`, followed by the headers in `extra`.
    pub fn with_body(code: u16, content_type: Vec<u8>, extra: Vec<Pair>, body: Vec<u8>) -> (r:
        Response)
        ensures
            r@ == response_with(code, content_type@, extra.deep_view(), body@),
    {
        let mut headers: Vec<Pair> = Vec::new();
        let ghost ct = content_type@;
        push_pair(&mut headers, Pair { key: to_vec("Content-Type".as_bytes()), value: content_type });
        push_pair(
            &mut headers,
            Pair { key: to_vec("Content-Length".as_bytes()), value: to_decimal(body.len()) },
        );
        assert(headers.deep_view() =~= body_headers(ct, body@));
        let mut extra = extra;
        let ghost first = headers.deep_view();
        let ghost more = extra.deep_view();
        headers.append(&mut extra);
        assert(headers.deep_view() =~= first + more);
        Response { status_code: code, status_text: reason_phrase_of(code), headers, body }
    }
}

/// The line ending of the wire format: carriage return, line feed.
pub open spec fn crlf() -> Seq<u8> {
    seq![CR, LF]
}

/// The status line: protocol version, status code, reason phrase.
pub open spec fn status_line(code: u16, text: Seq<u8>) -> Seq<u8> {
    "HTTP/1.0".spec_bytes() + seq![32u8] + decimal(code as nat) + seq![32u8] + text + crlf()
}

/// One header line: key, colon, space, value.
pub open spec fn header_line(h: (Seq<u8>, Seq<u8>)) -> Seq<u8> {
    h.0 + seq![COLON, 32u8] + h.1 + crlf()
}

/// The lines of `hs`, one after the other.
pub open spec fn header_lines(hs: Seq<(Seq<u8>, Seq<u8>)>) -> Seq<u8>
    decreases hs.len(),
{
    if hs.len() == 0 {
        Seq::empty()
    } else {
        header_line(hs[0]) + header_lines(hs.skip(1))
    }
}

/// The header that ends every header block: connections are not kept open.
pub open spec fn connection_close() -> (Seq<u8>, Seq<u8>) {
    ("Connection".spec_bytes(), "close".spec_bytes())
}

/// The bytes that carry `r`: status line, one line for each header in
/// order, the `Connection: close` line, an empty line, and the body as it
/// is.
pub open spec fn wire(r: ResponseView) -> Seq<u8> {
    status_line(r.status_code, r.status_text) + header_lines(r.headers) + header_line(
        connection_close(),
    ) + crlf() + r.body
}

/// Appends one header line to `out`.
fn push_header_line(out: &mut Vec<u8>, key: &[u8], value: &[u8])
    ensures
        final(out)@ == old(out)@ + header_line((key@, value@)),
{
    append(out, key);
    out.push(COLON);
    out.push(32);
    append(out, value);
    out.push(CR);
    out.push(LF);
    assert(out@ =~= old(out)@ + header_line((key@, value@)));
}

/// Writes `r` in its wire form.
pub fn serialize(r: &Response) -> (out: Vec<u8>)
    ensures
        out@ == wire(r@),
{
    let mut out: Vec<u8> = Vec::new();
    append(&mut out, "HTTP/1.0".as_bytes());
    out.push(32);
    push_decimal(&mut out, r.status_code as usize);
    out.push(32);
    append(&mut out, r.status_text.as_slice());
    out.push(CR);
    out.push(LF);
    assert(out@ =~= status_line(r.status_code, r.status_text@));
    let ghost hs = r.headers.deep_view();
    let mut i: usize = 0;
    assert(hs.skip(0) =~= hs);
    while i < r.headers.len()
        invariant
            i <= r.headers.len(),
            hs == r.headers.deep_view(),
            out@ + header_lines(hs.skip(i as int)) == status_line(r.status_code, r.status_text@)
                + header_lines(hs),
        decreases r.headers.len() - i,
    {
        let ghost before = out@;
        let ghost cur = hs.skip(i as int);
        push_header_line(&mut out, r.headers[i].key.as_slice(), r.headers[i].value.as_slice());
        proof {
            assert(cur[0] == r.headers@[i as int]@);
            assert(cur.skip(1) =~= hs.skip(i + 1));
            assert(out@ + header_lines(hs.skip(i + 1)) =~= before + header_lines(cur));
        }
        i += 1;
    }
    assert(header_lines(hs.skip(i as int)) =~= Seq::<u8>::empty());
    assert(out@ =~= status_line(r.status_code, r.status_text@) + header_lines(hs));
    push_header_line(&mut out, "Connection".as_bytes(), "close".as_bytes());
    out.push(CR);
    out.push(LF);
    append(&mut out, r.body.as_slice());
    assert(out@ =~= wire(r@));
    out
}

/// The body that tells an error to a reader: the status code and its reason
/// phrase inside an `html` element.
pub open spec fn error_body(code: u16) -> Seq<u8> {
    "<html>".spec_bytes() + decimal(code as nat) + seq![32u8] + reason_phrase(code)
        + "</html>".spec_bytes()
}

/// The type of the HTML bodies that this server writes itself.
pub open spec fn html_type() -> Seq<u8> {
    "text/html; charset=utf-8".spec_bytes()
}

/// The response that reports an error with status `code`.
pub open spec fn error_page(code: u16) -> ResponseView {
    response_with(code, html_type(), Seq::empty(), error_body(code))
}

/// Builds the response that reports an error with status `code`.
pub fn error_page_for(code: u16) -> (r: Response)
    ensures
        r@ == error_page(code),
{
    let mut body: Vec<u8> = Vec::new();
    append(&mut body, "<html>".as_bytes());
    push_decimal(&mut body, code as usize);
    body.push(32);
    let phrase = reason_phrase_of(code);
    append(&mut body, phrase.as_slice());
    append(&mut body, "</html>".as_bytes());
    assert(body@ =~= error_body(code));
    Response::with_body(code, to_vec("text/html; charset=utf-8".as_bytes()), Vec::new(), body)
}

/// Builds the response that answers a failure of kind `kind`. A transport
/// failure has none: the connection is closed without a further word.
pub fn error_response(kind: ErrorKind) -> (r: Option<Response>)
    ensures
        match r {
            Some(resp) => status_of(kind) matches Some(code) && resp@ == error_page(code),
            None => status_of(kind) is None,
        },
{
    match status_code_of(kind) {
        Some(code) => Some(error_page_for(code)),
        None => None,
    }
}

/// A response built by [`Response::with_body`] describes its body: its
/// first `Content-Type` header holds the given type, and its first
/// `Content-Length` header the length of the body.
pub proof fn lemma_body_is_described(
    code: u16,
    content_type: Seq<u8>,
    extra: Seq<(Seq<u8>, Seq<u8>)>,
    body: Seq<u8>,
)
    ensures
        lookup(response_with(code, content_type, extra, body).headers, content_type_name())
            == Some(content_type),
        lookup(response_with(code, content_type, extra, body).headers, content_length_name())
            == Some(decimal(body.len())),
{
    let hs = response_with(code, content_type, extra, body).headers;
    let first = body_headers(content_type, body);
    assert(hs[0] == first[0]);
    assert(hs[1] == first[1]);
    lemma_names_differ();
    let rest = hs.skip(1);
    assert(rest[0] == hs[1]);
    assert(lookup(rest, content_length_name()) == Some(rest[0].1));
    assert(lookup(hs, content_length_name()) == lookup(rest, content_length_name()));
    assert(crate::bytes::eq_ignore_case(content_type_name(), content_type_name()));
}

} // verus!
