//! Requests: the parser that turns the bytes of a connection into a
//! method, a path, a query, headers and a body.

use vstd::prelude::*;
use crate::bytes::{is_space, is_space_byte, offset_of, lemma_offset_of, find_byte, to_vec,
    strings_of};
use crate::config::Limits;
use crate::decimal::{is_decimal, decimal_value, all_digits, parse_decimal};
use crate::error::ErrorKind;
use crate::headers::{Pair, push_pair, header_block, header_block_end, scan_header_block, lookup,
    find_value, lemma_header_block_end_within};
use crate::response::content_length_name;
use crate::lines::{first_line, after_first_line, split_line};
use crate::percent::{percent_decode, decode, lemma_decode_keeps_first};

verus! {

/// The slash that every request path begins with.
pub const SLASH: u8 = 47;

/// The question mark that introduces the query of a request target.
pub const QUESTION: u8 = 63;

/// The ampersand between the parameters of a query.
pub const AMPERSAND: u8 = 38;

/// The equals sign between a parameter's key and its value.
pub const EQUALS: u8 = 61;

/// A request as the parser read it.
#[derive(Debug, PartialEq, Eq)]
pub struct Request {
    /// The verb of the request line.
    pub method: Vec<u8>,
    /// The path as it was received: the request target without its query.
    pub path: Vec<u8>,
    /// The path with its escapes decoded. It begins with a slash.
    pub target_path: Vec<u8>,
    /// The parameters of the query, in order; a key may repeat.
    pub query: Vec<Pair>,
    /// The headers, in order; a key may repeat.
    pub headers: Vec<Pair>,
    /// The bytes after the header block.
    pub body: Vec<u8>,
}

/// What a [`Request`] stands for.
pub struct RequestView {
    pub method: Seq<u8>,
    pub path: Seq<u8>,
    pub target_path: Seq<u8>,
    pub query: Seq<(Seq<u8>, Seq<u8>)>,
    pub headers: Seq<(Seq<u8>, Seq<u8>)>,
    pub body: Seq<u8>,
}

impl View for Request {
    type V = RequestView;

    open spec fn view(&self) -> RequestView {
        RequestView {
            method: self.method@,
            path: self.path@,
            target_path: self.target_path@,
            query: self.query.deep_view(),
            headers: self.headers.deep_view(),
            body: self.body@,
        }
    }
}

impl Request {
    /// The value of the first header named `name`, whatever the case of
    /// its letters.
    pub fn header(&self, name: &[u8]) -> (r: Option<&Vec<u8>>)
        ensures
            match r {
                Some(v) => lookup(self@.headers, name@) == Some(v@),
                None => lookup(self@.headers, name@) is None,
            },
    {
        find_value(&self.headers, name)
    }
}

impl RequestView {
    /// Whether the decoded path begins with a slash, as that of every parsed
    /// request does.
    pub open spec fn wf(self) -> bool {
        self.target_path.len() > 0 && self.target_path[0] == SLASH
    }
}

/// Number of bytes at the start of `s` that are no white space.
pub open spec fn word_len(s: Seq<u8>) -> int
    decreases s.len(),
{
    if s.len() == 0 || is_space(s[0]) {
        0
    } else {
        1 + word_len(s.skip(1))
    }
}

/// `word_len` lies within `s`, and is positive where `s` begins with a byte
/// that is no white space.
pub proof fn lemma_word_len(s: Seq<u8>)
    ensures
        0 <= word_len(s) <= s.len(),
        s.len() > 0 && !is_space(s[0]) ==> word_len(s) >= 1,
    decreases s.len(),
{
    if s.len() == 0 || is_space(s[0]) {
    } else {
        lemma_word_len(s.skip(1));
    }
}

/// The first position of `s` that holds white space, or its length where
/// there is none, is `word_len`.
pub proof fn lemma_word_len_is(s: Seq<u8>, i: int)
    requires
        0 <= i <= s.len(),
        forall|j: int| 0 <= j < i ==> !is_space(s[j]),
        i < s.len() ==> is_space(s[i]),
    ensures
        word_len(s) == i,
    decreases s.len(),
{
    if s.len() == 0 || is_space(s[0]) {
    } else {
        let t = s.skip(1);
        assert forall|j: int| 0 <= j < i - 1 implies !is_space(t[j]) by {
            assert(t[j] == s[j + 1]);
        }
        lemma_word_len_is(t, i - 1);
    }
}

/// The words of `s`: its maximal runs of bytes that are no white space, in
/// order.
pub open spec fn tokens(s: Seq<u8>) -> Seq<Seq<u8>>
    decreases s.len(),
{
    if s.len() == 0 {
        Seq::empty()
    } else if is_space(s[0]) {
        tokens(s.skip(1))
    } else {
        proof {
            lemma_word_len(s);
        }
        seq![s.take(word_len(s))] + tokens(s.skip(word_len(s)))
    }
}

/// Splits `s` into its words.
pub fn split_tokens(s: &[u8]) -> (r: Vec<Vec<u8>>)
    ensures
        strings_of(r@) == tokens(s@),
{
    let n: usize = s.len();
    let mut out: Vec<Vec<u8>> = Vec::new();
    let mut pos: usize = 0;
    assert(s@.subrange(0, n as int) =~= s@);
    assert(strings_of(out@) + tokens(s@) =~= tokens(s@));
    while pos < n
        invariant
            pos <= n,
            n == s@.len(),
            tokens(s@) == strings_of(out@) + tokens(s@.subrange(pos as int, n as int)),
        decreases n - pos,
    {
        let ghost cur = s@.subrange(pos as int, n as int);
        if is_space_byte(s[pos]) {
            assert(cur.skip(1) =~= s@.subrange(pos + 1, n as int));
            pos += 1;
        } else {
            let mut end: usize = pos + 1;
            while end < n && !is_space_byte(s[end])
                invariant
                    pos < end <= n,
                    n == s@.len(),
                    forall|j: int| pos <= j < end ==> !is_space(s@[j]),
                decreases n - end,
            {
                end += 1;
            }
            proof {
                lemma_word_len_is(cur, end - pos);
            }
            let word = to_vec(vstd::slice::slice_subrange(s, pos, end));
            let ghost before = strings_of(out@);
            out.push(word);
            proof {
                assert(cur.take(end - pos) =~= word@);
                assert(cur.skip(end - pos) =~= s@.subrange(end as int, n as int));
                assert(strings_of(out@) =~= before.push(word@));
                assert(before + (seq![word@] + tokens(cur.skip(end - pos))) =~= strings_of(out@)
                    + tokens(cur.skip(end - pos)));
            }
            pos = end;
        }
    }
    assert(s@.subrange(n as int, n as int) =~= Seq::<u8>::empty());
    assert(strings_of(out@) + Seq::<Seq<u8>>::empty() =~= strings_of(out@));
    out
}

/// The parameter that `piece` holds: the text before the first equals sign
/// as key and the text after it as value; where there is no equals sign,
/// all of `piece` as key and an empty value.
pub open spec fn key_value(piece: Seq<u8>) -> (Seq<u8>, Seq<u8>) {
    let i = offset_of(piece, EQUALS);
    if i < piece.len() {
        (piece.take(i), piece.skip(i + 1))
    } else {
        (piece, Seq::empty())
    }
}

/// The parameters of the raw query `q`: one for each piece between
/// ampersands, empty pieces included.
pub open spec fn query_pairs(q: Seq<u8>) -> Seq<(Seq<u8>, Seq<u8>)>
    decreases q.len(),
{
    let i = offset_of(q, AMPERSAND);
    if i < q.len() {
        proof {
            lemma_offset_of(q, AMPERSAND);
        }
        seq![key_value(q.take(i))] + query_pairs(q.skip(i + 1))
    } else {
        seq![key_value(q)]
    }
}

/// Splits one piece of a query into key and value.
fn parse_key_value(piece: &[u8]) -> (p: Pair)
    ensures
        p@ == key_value(piece@),
{
    let i: usize = find_byte(piece, EQUALS);
    if i < piece.len() {
        let key = to_vec(vstd::slice::slice_subrange(piece, 0, i));
        let value = to_vec(vstd::slice::slice_subrange(piece, i + 1, piece.len()));
        Pair { key, value }
    } else {
        Pair { key: to_vec(piece), value: Vec::new() }
    }
}

/// Parses a raw query into its parameters.
pub fn parse_query(q: &[u8]) -> (r: Vec<Pair>)
    ensures
        r.deep_view() == query_pairs(q@),
{
    let n: usize = q.len();
    let mut out: Vec<Pair> = Vec::new();
    let mut pos: usize = 0;
    assert(q@.subrange(0, n as int) =~= q@);
    assert(out.deep_view() + query_pairs(q@) =~= query_pairs(q@));
    loop
        invariant
            pos <= n,
            n == q@.len(),
            query_pairs(q@) == out.deep_view() + query_pairs(q@.subrange(pos as int, n as int)),
        decreases n - pos,
    {
        let cur = vstd::slice::slice_subrange(q, pos, n);
        let i: usize = find_byte(cur, AMPERSAND);
        let ghost before = out.deep_view();
        proof {
            lemma_offset_of(cur@, AMPERSAND);
        }
        if i < cur.len() {
            let p = parse_key_value(vstd::slice::slice_subrange(cur, 0, i));
            push_pair(&mut out, p);
            proof {
                assert(cur@.skip(i + 1) =~= q@.subrange(pos + i + 1, n as int));
                assert(before + (seq![p@] + query_pairs(cur@.skip(i + 1))) =~= out.deep_view()
                    + query_pairs(cur@.skip(i + 1)));
            }
            pos = pos + i + 1;
        } else {
            let p = parse_key_value(cur);
            push_pair(&mut out, p);
            assert(before + seq![p@] =~= out.deep_view());
            return out;
        }
    }
}

/// The path of a request target: what stands before its first question
/// mark.
pub open spec fn path_of_target(target: Seq<u8>) -> Seq<u8> {
    target.take(offset_of(target, QUESTION))
}

/// The raw query of a request target: what follows its first question mark,
/// if it has one.
pub open spec fn raw_query_of_target(target: Seq<u8>) -> Option<Seq<u8>> {
    let i = offset_of(target, QUESTION);
    if i < target.len() {
        Some(target.skip(i + 1))
    } else {
        None
    }
}

/// The body of the request in `raw`: what follows the first empty line, and
/// nothing where there is none.
pub open spec fn body_of(raw: Seq<u8>) -> Seq<u8> {
    match header_block_end(raw) {
        Some(k) => raw.skip(k),
        None => Seq::empty(),
    }
}

/// The request that `raw` holds. The first line must consist of exactly
/// three words, method, target and version, and the target's path must
/// begin with a slash; any other input is malformed.
pub open spec fn parsed(raw: Seq<u8>) -> Result<RequestView, ErrorKind> {
    let words = tokens(first_line(raw));
    if words.len() != 3 {
        Err(ErrorKind::MalformedRequest)
    } else {
        let path = path_of_target(words[1]);
        if path.len() == 0 || path[0] != SLASH {
            Err(ErrorKind::MalformedRequest)
        } else {
            Ok(
                RequestView {
                    method: words[0],
                    path: path,
                    target_path: percent_decode(path),
                    query: match raw_query_of_target(words[1]) {
                        Some(q) => query_pairs(q),
                        None => Seq::empty(),
                    },
                    headers: header_block(after_first_line(raw)),
                    body: body_of(raw),
                },
            )
        }
    }
}

/// Extracts the body of the request in `raw`.
pub fn extract_request_body(raw: &[u8]) -> (r: Vec<u8>)
    ensures
        r@ == body_of(raw@),
{
    let block = scan_header_block(raw);
    match block.end {
        Some(k) => to_vec(vstd::slice::slice_subrange(raw, k, raw.len())),
        None => Vec::new(),
    }
}

/// The raw query of the request in `raw`: that of the target, where the
/// first line consists of exactly three words and the target holds a
/// question mark.
pub open spec fn raw_query_of(raw: Seq<u8>) -> Option<Seq<u8>> {
    let words = tokens(first_line(raw));
    if words.len() == 3 {
        raw_query_of_target(words[1])
    } else {
        None
    }
}

/// Extracts the raw query of the request in `raw`.
pub fn extract_query_string(raw: &[u8]) -> (r: Option<Vec<u8>>)
    ensures
        match r {
            Some(q) => raw_query_of(raw@) == Some(q@),
            None => raw_query_of(raw@) is None,
        },
{
    let split = split_line(raw);
    let words = split_tokens(split.line);
    if words.len() != 3 {
        return None;
    }
    let target = words[1].as_slice();
    let i: usize = find_byte(target, QUESTION);
    if i < target.len() {
        Some(to_vec(vstd::slice::slice_subrange(target, i + 1, target.len())))
    } else {
        None
    }
}

/// Parses the request in `raw`.
pub fn parse_request(raw: &[u8]) -> (r: Result<Request, ErrorKind>)
    ensures
        match r {
            Ok(req) => parsed(raw@) == Ok::<RequestView, ErrorKind>(req@) && req@.wf(),
            Err(e) => parsed(raw@) == Err::<RequestView, ErrorKind>(e),
        },
{
    let split = split_line(raw);
    let words = split_tokens(split.line);
    if words.len() != 3 {
        return Err(ErrorKind::MalformedRequest);
    }
    let target = words[1].as_slice();
    let mark: usize = find_byte(target, QUESTION);
    proof {
        lemma_offset_of(target@, QUESTION);
    }
    let path = to_vec(vstd::slice::slice_subrange(target, 0, mark));
    if path.len() == 0 || path[0] != SLASH {
        return Err(ErrorKind::MalformedRequest);
    }
    let query: Vec<Pair> = if mark < target.len() {
        parse_query(vstd::slice::slice_subrange(target, mark + 1, target.len()))
    } else {
        Vec::new()
    };
    assert(mark == target.len() ==> query.deep_view() =~= Seq::<(Seq<u8>, Seq<u8>)>::empty());
    let target_path = decode(path.as_slice());
    proof {
        lemma_decode_keeps_first(path@);
    }
    let block = scan_header_block(split.rest);
    let body = extract_request_body(raw);
    let method = to_vec(words[0].as_slice());
    Ok(Request { method, path, target_path, query, headers: block.headers, body })
}

/// The length that the request in `raw` declares for its body: the value
/// of its first `Content-Length` header, where that is a numeral.
pub open spec fn declared_length(raw: Seq<u8>) -> Option<nat> {
    match lookup(header_block(after_first_line(raw)), content_length_name()) {
        Some(v) => if is_decimal(v) {
            Some(decimal_value(v))
        } else {
            None
        },
        None => None,
    }
}

/// What the bytes received so far amount to.
#[derive(Clone, Copy, Debug, PartialEq, Eq, Structural)]
pub enum Framing {
    /// More bytes are needed: the header block has not ended, or the body
    /// is shorter than declared.
    Incomplete,
    /// The request is there in full.
    Complete,
    /// The header block is longer than allowed.
    HeaderTooLarge,
    /// The body is longer than allowed, or is declared to be.
    PayloadTooLarge,
}

/// What the bytes `raw`, received so far, amount to under `limits`. While
/// no empty line has come, more bytes are needed, unless more have come
/// already than a header block may have. Once it has come, the header
/// block is held against its limit, then the bytes after it and the
/// declared length of the body against theirs; and the request is complete
/// when the body is as long as declared, or at once where no length is
/// declared.
pub open spec fn framing(raw: Seq<u8>, limits: Limits) -> Framing {
    match header_block_end(raw) {
        None => if raw.len() > limits.max_header_bytes {
            Framing::HeaderTooLarge
        } else {
            Framing::Incomplete
        },
        Some(end) => if end > limits.max_header_bytes {
            Framing::HeaderTooLarge
        } else if raw.len() - end > limits.max_body_bytes {
            Framing::PayloadTooLarge
        } else {
            match declared_length(raw) {
                Some(n) => if n > limits.max_body_bytes {
                    Framing::PayloadTooLarge
                } else if raw.len() - end < n {
                    Framing::Incomplete
                } else {
                    Framing::Complete
                },
                None => Framing::Complete,
            }
        },
    }
}

/// Decides whether the bytes received so far hold a request in full.
pub fn frame(raw: &[u8], limits: Limits) -> (r: Framing)
    ensures
        r == framing(raw@, limits),
{
    let whole = scan_header_block(raw);
    match whole.end {
        None => {
            if raw.len() > limits.max_header_bytes {
                Framing::HeaderTooLarge
            } else {
                Framing::Incomplete
            }
        },
        Some(end) => {
            if end > limits.max_header_bytes {
                return Framing::HeaderTooLarge;
            }
            let received: usize = raw.len() - end;
            if received > limits.max_body_bytes {
                return Framing::PayloadTooLarge;
            }
            let split = split_line(raw);
            let block = scan_header_block(split.rest);
            match find_value(&block.headers, "Content-Length".as_bytes()) {
                None => Framing::Complete,
                Some(v) => {
                    if !all_digits(v.as_slice()) {
                        return Framing::Complete;
                    }
                    match parse_decimal(v.as_slice()) {
                        None => Framing::PayloadTooLarge,
                        Some(n) => {
                            if n > limits.max_body_bytes {
                                Framing::PayloadTooLarge
                            } else if received < n {
                                Framing::Incomplete
                            } else {
                                Framing::Complete
                            }
                        },
                    }
                },
            }
        },
    }
}

/// A request that is complete keeps the limits and has its body: its
/// header block and its body are no longer than allowed, and the body is
/// at least as long as the request declares.
pub proof fn lemma_complete_request(raw: Seq<u8>, limits: Limits)
    requires
        framing(raw, limits) == Framing::Complete,
    ensures
        header_block_end(raw) matches Some(end) && end <= limits.max_header_bytes,
        body_of(raw).len() <= limits.max_body_bytes,
        declared_length(raw) matches Some(n) ==> body_of(raw).len() >= n,
{
    lemma_header_block_end_within(raw);
}

} // verus!
