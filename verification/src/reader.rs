//! Reading a response back from its wire form, and the proof that this
//! undoes the writing.

use vstd::prelude::*;
use vstd::string::StringSliceAdditionalSpecFns;
use crate::bytes::{offset_of, lemma_offset_of, lemma_offset_of_is, lemma_trim, find_byte, bytes_eq,
    to_vec, is_trimmed, trim, trim_start, CR, LF};
use crate::decimal::{decimal, is_decimal, is_digit, decimal_value, parse_decimal,
    lemma_decimal_is_decimal, lemma_decimal_value};
use crate::headers::{COLON, header_of, header_block, header_block_end, scan_header_block};
use crate::lines::{first_line, after_first_line, has_line_end, split_line,
    lemma_after_first_line_shorter};
use crate::response::{Response, ResponseView, wire, header_line, header_lines, connection_close,
    crlf, response_with, body_headers, reason_phrase, content_type_name, content_length_name,
    error_page, html_type};

verus! {

/// The space between the parts of a status line.
pub const SPACE: u8 = 32;

/// The status code and the reason phrase that a status line holds. The
/// line must begin with the version `HTTP/1.0`, a space, a numeral of at
/// most 65535 and another space; what follows is the phrase.
pub open spec fn status_of_line(line: Seq<u8>) -> Option<(u16, Seq<u8>)> {
    let i = offset_of(line, SPACE);
    let rest = line.skip(i + 1);
    let j = offset_of(rest, SPACE);
    if i < line.len() && j < rest.len() && line.take(i) == "HTTP/1.0".spec_bytes() && is_decimal(
        rest.take(j),
    ) && decimal_value(rest.take(j)) <= u16::MAX {
        Some((decimal_value(rest.take(j)) as u16, rest.skip(j + 1)))
    } else {
        None
    }
}

/// The response that `bytes` carry: status and phrase from the first line,
/// the headers of the lines up to the first empty line, and all that
/// follows that line as body. There is none where the first line is no
/// status line, or where no empty line occurs.
pub open spec fn read_back(bytes: Seq<u8>) -> Option<ResponseView> {
    match (status_of_line(first_line(bytes)), header_block_end(bytes)) {
        (Some((code, text)), Some(end)) => Some(
            ResponseView {
                status_code: code,
                status_text: text,
                headers: header_block(after_first_line(bytes)),
                body: bytes.skip(end),
            },
        ),
        _ => None,
    }
}

/// Reads a response back from its wire form.
pub fn parse_response(bytes: &[u8]) -> (r: Option<Response>)
    ensures
        match r {
            Some(resp) => read_back(bytes@) == Some(resp@),
            None => read_back(bytes@) is None,
        },
{
    let split = split_line(bytes);
    let line = split.line;
    let i: usize = find_byte(line, SPACE);
    if i >= line.len() {
        return None;
    }
    let rest = vstd::slice::slice_subrange(line, i + 1, line.len());
    let j: usize = find_byte(rest, SPACE);
    if j >= rest.len() {
        return None;
    }
    if !bytes_eq(vstd::slice::slice_subrange(line, 0, i), "HTTP/1.0".as_bytes()) {
        return None;
    }
    let code: u16 = match parse_decimal(vstd::slice::slice_subrange(rest, 0, j)) {
        None => {
            return None;
        },
        Some(n) => {
            if n > 65535 {
                return None;
            }
            n as u16
        },
    };
    let text = to_vec(vstd::slice::slice_subrange(rest, j + 1, rest.len()));
    let whole = scan_header_block(bytes);
    let end: usize = match whole.end {
        None => {
            return None;
        },
        Some(end) => end,
    };
    let block = scan_header_block(split.rest);
    let body = to_vec(vstd::slice::slice_subrange(bytes, end, bytes.len()));
    Some(Response { status_code: code, status_text: text, headers: block.headers, body })
}

/// Whether `s` is free of line feeds.
pub open spec fn on_one_line(s: Seq<u8>) -> bool {
    forall|i: int| 0 <= i < s.len() ==> s[i] != LF
}

/// Whether the header `h` can be written on a line and read back: key and
/// value are free of line feeds and of surrounding white space, and the key
/// is free of colons.
pub open spec fn header_fits(h: (Seq<u8>, Seq<u8>)) -> bool {
    &&& on_one_line(h.0)
    &&& on_one_line(h.1)
    &&& is_trimmed(h.0)
    &&& is_trimmed(h.1)
    &&& forall|i: int| 0 <= i < h.0.len() ==> h.0[i] != COLON
}

/// Whether `r` can be read back from its wire form: whether its reason
/// phrase is free of line feeds and each of its headers fits a line.
pub open spec fn fits_wire(r: ResponseView) -> bool {
    &&& on_one_line(r.status_text)
    &&& forall|i: int| 0 <= i < r.headers.len() ==> header_fits(#[trigger] r.headers[i])
}

/// A line, a line ending and more: the line is the first line and the rest
/// is what follows it.
proof fn lemma_first_line_of(line: Seq<u8>, rest: Seq<u8>)
    requires
        on_one_line(line),
    ensures
        has_line_end(line + crlf() + rest),
        offset_of(line + crlf() + rest, LF) == line.len() + 1,
        first_line(line + crlf() + rest) == line,
        after_first_line(line + crlf() + rest) == rest,
{
    let s = line + crlf() + rest;
    let n = line.len() as int;
    assert(s[n] == CR);
    assert(s[n + 1] == LF);
    assert forall|j: int| 0 <= j < n + 1 implies s[j] != LF by {
        if j < n {
            assert(s[j] == line[j]);
        }
    }
    lemma_offset_of_is(s, LF, n + 1);
    assert(s.take(n) =~= line);
    assert(s.skip(n + 2) =~= rest);
}

/// Where a header block begins with a line that is not empty, it ends where
/// the block after that line ends.
proof fn lemma_block_end_after(line: Seq<u8>, rest: Seq<u8>)
    requires
        on_one_line(line),
        line.len() > 0,
    ensures
        header_block_end(line + crlf() + rest) == match header_block_end(rest) {
            Some(k) => Some(line.len() + 2 + k),
            None => None,
        },
        header_block(line + crlf() + rest) == match header_of(line) {
            Some(h) => seq![h] + header_block(rest),
            None => header_block(rest),
        },
{
    lemma_first_line_of(line, rest);
}

/// A block that begins with an empty line ends right after it and holds no
/// header.
proof fn lemma_block_end_at_empty_line(rest: Seq<u8>)
    ensures
        header_block_end(crlf() + rest) == Some(2int),
        header_block(crlf() + rest) == Seq::<(Seq<u8>, Seq<u8>)>::empty(),
{
    let none = Seq::<u8>::empty();
    lemma_first_line_of(none, rest);
    assert(none + crlf() + rest =~= crlf() + rest);
}

/// White space before a trimmed value is trimmed away, and nothing else.
proof fn lemma_trim_after_space(v: Seq<u8>)
    requires
        is_trimmed(v),
    ensures
        trim(seq![SPACE] + v) == v,
{
    let s = seq![SPACE] + v;
    assert(s.skip(1) =~= v);
    assert(trim_start(s) == trim_start(v));
}

/// A header that fits a line is read back from its line.
proof fn lemma_header_of_line(h: (Seq<u8>, Seq<u8>))
    requires
        header_fits(h),
    ensures
        header_of(h.0 + seq![COLON, SPACE] + h.1) == Some(h),
        on_one_line(h.0 + seq![COLON, SPACE] + h.1),
        (h.0 + seq![COLON, SPACE] + h.1).len() > 0,
{
    let line = h.0 + seq![COLON, SPACE] + h.1;
    let n = h.0.len() as int;
    assert(line[n] == COLON);
    assert forall|j: int| 0 <= j < n implies line[j] != COLON by {
        assert(line[j] == h.0[j]);
    }
    lemma_offset_of_is(line, COLON, n);
    assert(line.take(n) =~= h.0);
    assert(line.skip(n + 1) =~= seq![SPACE] + h.1);
    lemma_trim_after_space(h.1);
    assert forall|j: int| 0 <= j < line.len() implies line[j] != LF by {
        if j < n {
            assert(line[j] == h.0[j]);
        } else if j >= n + 2 {
            assert(line[j] == h.1[j - n - 2]);
        }
    }
}

/// The line of the `Connection` header fits.
proof fn lemma_connection_close_fits()
    ensures
        header_fits(connection_close()),
{
    reveal_strlit("Connection");
    reveal_strlit("close");
    vstd::string::is_ascii_spec_bytes("Connection");
    vstd::string::is_ascii_spec_bytes("close");
}

/// The header block that the writer makes of `hs` is read back as `hs`
/// followed by the `Connection` header, and ends before `body`.
proof fn lemma_block_read_back(hs: Seq<(Seq<u8>, Seq<u8>)>, body: Seq<u8>)
    requires
        forall|i: int| 0 <= i < hs.len() ==> header_fits(#[trigger] hs[i]),
    ensures
        header_block(header_lines(hs) + header_line(connection_close()) + crlf() + body)
            == hs.push(connection_close()),
        header_block_end(header_lines(hs) + header_line(connection_close()) + crlf() + body)
            == Some((header_lines(hs).len() + header_line(connection_close()).len() + 2) as int),
    decreases hs.len(),
{
    let last = connection_close();
    let all = header_lines(hs) + header_line(last) + crlf() + body;
    if hs.len() == 0 {
        let line = last.0 + seq![COLON, SPACE] + last.1;
        lemma_connection_close_fits();
        lemma_header_of_line(last);
        lemma_block_end_at_empty_line(body);
        lemma_block_end_after(line, crlf() + body);
        assert(all =~= line + crlf() + (crlf() + body));
        assert(seq![last] + Seq::<(Seq<u8>, Seq<u8>)>::empty() =~= hs.push(last));
    } else {
        let h = hs[0];
        let line = h.0 + seq![COLON, SPACE] + h.1;
        let tail = hs.skip(1);
        let rest = header_lines(tail) + header_line(last) + crlf() + body;
        assert forall|i: int| 0 <= i < tail.len() implies header_fits(#[trigger] tail[i]) by {
            assert(tail[i] == hs[i + 1]);
        }
        lemma_block_read_back(tail, body);
        lemma_header_of_line(h);
        lemma_block_end_after(line, rest);
        assert(all =~= line + crlf() + rest);
        assert(seq![h] + tail.push(last) =~= hs.push(last));
        assert(header_lines(hs).len() == line.len() + 2 + header_lines(tail).len());
    }
}

/// The status line that the writer makes is read back as it was written.
proof fn lemma_status_line_read_back(code: u16, text: Seq<u8>)
    ensures
        status_of_line("HTTP/1.0".spec_bytes() + seq![SPACE] + decimal(code as nat) + seq![SPACE]
            + text) == Some((code, text)),
        ("HTTP/1.0".spec_bytes() + seq![SPACE] + decimal(code as nat) + seq![SPACE] + text).len()
            > 0,
        on_one_line(text) ==> on_one_line("HTTP/1.0".spec_bytes() + seq![SPACE] + decimal(
            code as nat,
        ) + seq![SPACE] + text),
{
    let version = "HTTP/1.0".spec_bytes();
    let digits = decimal(code as nat);
    let line = version + seq![SPACE] + digits + seq![SPACE] + text;
    reveal_strlit("HTTP/1.0");
    vstd::string::is_ascii_spec_bytes("HTTP/1.0");
    lemma_decimal_is_decimal(code as nat);
    lemma_decimal_value(code as nat);
    assert(version.len() == 8);
    assert forall|j: int| 0 <= j < 8 implies line[j] != SPACE && line[j] != LF by {
        assert(line[j] == version[j]);
    }
    assert(line[8] == SPACE);
    lemma_offset_of_is(line, SPACE, 8);
    let rest = line.skip(9);
    assert(rest =~= digits + seq![SPACE] + text);
    assert forall|j: int| 0 <= j < digits.len() implies rest[j] != SPACE && rest[j] != LF by {
        assert(rest[j] == digits[j]);
        assert(is_digit(digits[j]));
    }
    assert(rest[digits.len() as int] == SPACE);
    lemma_offset_of_is(rest, SPACE, digits.len() as int);
    assert(line.take(8) =~= version);
    assert(rest.take(digits.len() as int) =~= digits);
    assert(rest.skip(digits.len() as int + 1) =~= text);
    if on_one_line(text) {
        assert forall|j: int| 0 <= j < line.len() implies line[j] != LF by {
            if j < 8 {
            } else if j == 8 {
            } else if j < 9 + digits.len() {
                assert(line[j] == rest[j - 9]);
            } else if j == 9 + digits.len() {
            } else {
                assert(line[j] == text[j - 10 - digits.len()]);
            }
        }
    }
}

/// Writing a response and reading it back gives the response again: the
/// same status, the same reason phrase, the same headers in the same
/// order, and the same body, byte for byte, whatever bytes it holds. After
/// the headers stands the `Connection` header that the writer adds to
/// every response.
pub proof fn lemma_read_back_wire(r: ResponseView)
    requires
        fits_wire(r),
    ensures
        read_back(wire(r)) matches Some(back) && back.status_code == r.status_code
            && back.status_text == r.status_text && back.headers.drop_last() == r.headers
            && back.headers.last() == connection_close() && back.body == r.body,
        read_back(wire(r)) == Some(
            ResponseView {
                status_code: r.status_code,
                status_text: r.status_text,
                headers: r.headers.push(connection_close()),
                body: r.body,
            },
        ),
{
    let first = "HTTP/1.0".spec_bytes() + seq![SPACE] + decimal(r.status_code as nat) + seq![SPACE]
        + r.status_text;
    let rest = header_lines(r.headers) + header_line(connection_close()) + crlf() + r.body;
    let all = wire(r);
    assert(all =~= first + crlf() + rest);
    lemma_status_line_read_back(r.status_code, r.status_text);
    lemma_first_line_of(first, rest);
    lemma_block_end_after(first, rest);
    lemma_block_read_back(r.headers, r.body);
    let inner = (header_lines(r.headers).len() + header_line(connection_close()).len() + 2) as int;
    let end = first.len() as int + 2 + inner;
    assert(header_block_end(all) == Some(end));
    assert(all.skip(end) =~= r.body);
    assert(r.headers.push(connection_close()).drop_last() =~= r.headers);
}

/// Trimming brings in no byte that was not there.
proof fn lemma_trim_keeps_out(s: Seq<u8>, b: u8)
    requires
        forall|j: int| 0 <= j < s.len() ==> s[j] != b,
    ensures
        forall|i: int| 0 <= i < trim(s).len() ==> trim(s)[i] != b,
{
    lemma_trim(s);
    assert forall|i: int| 0 <= i < trim(s).len() implies trim(s)[i] != b by {
        let j = choose|j: int| 0 <= j < s.len() && s[j] == trim(s)[i];
        assert(s[j] != b);
    }
}

/// The header that a line without line feed holds fits a line again.
pub proof fn lemma_header_of_fits(line: Seq<u8>)
    requires
        on_one_line(line),
    ensures
        header_of(line) matches Some(h) ==> header_fits(h),
{
    let i = offset_of(line, COLON);
    lemma_offset_of(line, COLON);
    if i < line.len() {
        let key = line.take(i);
        let value = line.skip(i + 1);
        assert forall|j: int| 0 <= j < key.len() implies key[j] != LF && key[j] != COLON by {
            assert(key[j] == line[j]);
        }
        assert forall|j: int| 0 <= j < value.len() implies value[j] != LF by {
            assert(value[j] == line[j + i + 1]);
        }
        lemma_trim(key);
        lemma_trim(value);
        lemma_trim_keeps_out(key, LF);
        lemma_trim_keeps_out(key, COLON);
        lemma_trim_keeps_out(value, LF);
    }
}

/// The first line of any input is free of line feeds.
pub proof fn lemma_first_line_on_one_line(s: Seq<u8>)
    ensures
        on_one_line(first_line(s)),
{
    lemma_offset_of(s, LF);
    let line = first_line(s);
    assert forall|j: int| 0 <= j < line.len() implies line[j] != LF by {
        assert(line[j] == s[j]);
    }
}

/// Every header of a header block fits a line.
pub proof fn lemma_header_block_fits(s: Seq<u8>)
    ensures
        forall|i: int| 0 <= i < header_block(s).len() ==> header_fits(#[trigger] header_block(s)[i]),
    decreases s.len(),
{
    if s.len() > 0 && !(has_line_end(s) && first_line(s).len() == 0) {
        let rest = after_first_line(s);
        lemma_after_first_line_shorter(s);
        lemma_header_block_fits(rest);
        lemma_first_line_on_one_line(s);
        lemma_header_of_fits(first_line(s));
        let all = header_block(s);
        assert forall|i: int| 0 <= i < all.len() implies header_fits(#[trigger] all[i]) by {
            match header_of(first_line(s)) {
                Some(h) => {
                    if i > 0 {
                        assert(all[i] == header_block(rest)[i - 1]);
                    }
                },
                None => {},
            }
        }
    }
}

/// A numeral fits a line as a header's value.
proof fn lemma_decimal_fits(n: nat)
    ensures
        on_one_line(decimal(n)),
        is_trimmed(decimal(n)),
{
    lemma_decimal_is_decimal(n);
    let d = decimal(n);
    assert forall|i: int| 0 <= i < d.len() implies d[i] != LF by {
        assert(is_digit(d[i]));
    }
    assert(is_digit(d[0]));
    assert(is_digit(d[d.len() - 1]));
}

/// Every reason phrase is free of line feeds.
proof fn lemma_reason_phrase_on_one_line(code: u16)
    ensures
        on_one_line(reason_phrase(code)),
{
    reveal_strlit("OK");
    reveal_strlit("Bad Request");
    reveal_strlit("Forbidden");
    reveal_strlit("Not Found");
    reveal_strlit("Method Not Allowed");
    reveal_strlit("Payload Too Large");
    reveal_strlit("Request Header Fields Too Large");
    reveal_strlit("Internal Server Error");
    reveal_strlit("Unknown");
    vstd::string::is_ascii_spec_bytes("OK");
    vstd::string::is_ascii_spec_bytes("Bad Request");
    vstd::string::is_ascii_spec_bytes("Forbidden");
    vstd::string::is_ascii_spec_bytes("Not Found");
    vstd::string::is_ascii_spec_bytes("Method Not Allowed");
    vstd::string::is_ascii_spec_bytes("Payload Too Large");
    vstd::string::is_ascii_spec_bytes("Request Header Fields Too Large");
    vstd::string::is_ascii_spec_bytes("Internal Server Error");
    vstd::string::is_ascii_spec_bytes("Unknown");
}

/// The names of the two headers that describe a body fit a line as keys.
proof fn lemma_names_fit()
    ensures
        on_one_line(content_type_name()),
        on_one_line(content_length_name()),
        is_trimmed(content_type_name()),
        is_trimmed(content_length_name()),
        forall|i: int| 0 <= i < content_type_name().len() ==> content_type_name()[i] != COLON,
        forall|i: int| 0 <= i < content_length_name().len() ==> content_length_name()[i] != COLON,
{
    reveal_strlit("Content-Type");
    reveal_strlit("Content-Length");
    vstd::string::is_ascii_spec_bytes("Content-Type");
    vstd::string::is_ascii_spec_bytes("Content-Length");
}

/// A response built from a content type that fits a line, and from further
/// headers that fit, can be read back from its wire form.
pub proof fn lemma_response_with_fits(
    code: u16,
    content_type: Seq<u8>,
    extra: Seq<(Seq<u8>, Seq<u8>)>,
    body: Seq<u8>,
)
    requires
        on_one_line(content_type),
        is_trimmed(content_type),
        forall|i: int| 0 <= i < extra.len() ==> header_fits(#[trigger] extra[i]),
    ensures
        fits_wire(response_with(code, content_type, extra, body)),
{
    let r = response_with(code, content_type, extra, body);
    let first = body_headers(content_type, body);
    lemma_reason_phrase_on_one_line(code);
    lemma_names_fit();
    lemma_decimal_fits(body.len());
    assert(header_fits(first[0]));
    assert(header_fits(first[1]));
    assert forall|i: int| 0 <= i < r.headers.len() implies header_fits(#[trigger] r.headers[i]) by {
        if i < 2 {
            assert(r.headers[i] == first[i]);
        } else {
            assert(r.headers[i] == extra[i - 2]);
        }
    }
}

/// The type of the server's own HTML bodies fits a line.
pub proof fn lemma_html_type_fits()
    ensures
        on_one_line(html_type()),
        is_trimmed(html_type()),
{
    reveal_strlit("text/html; charset=utf-8");
    vstd::string::is_ascii_spec_bytes("text/html; charset=utf-8");
}

/// Every error page can be read back from its wire form.
pub proof fn lemma_error_page_fits(code: u16)
    ensures
        fits_wire(error_page(code)),
{
    lemma_html_type_fits();
    lemma_response_with_fits(
        code,
        html_type(),
        Seq::empty(),
        crate::response::error_body(code),
    );
}

} // verus!
