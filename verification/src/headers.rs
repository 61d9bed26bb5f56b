//! Key/value pairs and header blocks: the lines `Key: Value` that precede the
//! body of a request or of a script's output.

use vstd::prelude::*;
use crate::bytes::{offset_of, lemma_offset_of, find_byte, trim, trim_bytes, to_vec, eq_ignore_case,
    bytes_eq_ignore_case, LF};
use crate::lines::{first_line, after_first_line, starts_with_empty_line, has_line_end, split_line,
    lines_of, lemma_after_first_line_shorter};

verus! {

/// The colon that parts a header's key from its value.
pub const COLON: u8 = 58;

/// A key with its value: a header, a query parameter or an environment
/// variable.
#[derive(Debug, PartialEq, Eq)]
pub struct Pair {
    pub key: Vec<u8>,
    pub value: Vec<u8>,
}

impl View for Pair {
    type V = (Seq<u8>, Seq<u8>);

    open spec fn view(&self) -> (Seq<u8>, Seq<u8>) {
        (self.key@, self.value@)
    }
}

impl DeepView for Pair {
    type V = (Seq<u8>, Seq<u8>);

    open spec fn deep_view(&self) -> (Seq<u8>, Seq<u8>) {
        self@
    }
}

impl Clone for Pair {
    fn clone(&self) -> (r: Self)
        ensures
            r@ == self@,
    {
        Pair { key: to_vec(self.key.as_slice()), value: to_vec(self.value.as_slice()) }
    }
}

/// Appends `p` to `v`.
pub fn push_pair(v: &mut Vec<Pair>, p: Pair)
    ensures
        final(v).deep_view() == old(v).deep_view().push(p@),
{
    v.push(p);
    assert(v.deep_view() =~= old(v).deep_view().push(p@));
}

/// The header that `line` holds: the text before the first colon as key and
/// the text after it as value, both without surrounding white space. A line
/// without a colon holds none.
pub open spec fn header_of(line: Seq<u8>) -> Option<(Seq<u8>, Seq<u8>)> {
    let i = offset_of(line, COLON);
    if i < line.len() {
        Some((trim(line.take(i)), trim(line.skip(i + 1))))
    } else {
        None
    }
}

/// Parses one header line.
pub fn parse_header_line(line: &[u8]) -> (r: Option<Pair>)
    ensures
        match r {
            Some(p) => header_of(line@) == Some(p@),
            None => header_of(line@) is None,
        },
{
    let i: usize = find_byte(line, COLON);
    if i < line.len() {
        let key = trim_bytes(vstd::slice::slice_subrange(line, 0, i));
        let value = trim_bytes(vstd::slice::slice_subrange(line, i + 1, line.len()));
        Some(Pair { key: to_vec(key), value: to_vec(value) })
    } else {
        None
    }
}

/// The headers in the lines of `s`, from its start to the first empty line
/// or to the end of input. A line without a colon is passed over.
pub open spec fn header_block(s: Seq<u8>) -> Seq<(Seq<u8>, Seq<u8>)>
    decreases s.len(),
{
    if s.len() == 0 || starts_with_empty_line(s) {
        Seq::empty()
    } else {
        proof {
            lemma_after_first_line_shorter(s);
        }
        let rest = header_block(after_first_line(s));
        match header_of(first_line(s)) {
            Some(h) => seq![h] + rest,
            None => rest,
        }
    }
}

/// The offset just past the first empty line of `s`, where the body begins;
/// `None` where `s` has no empty line.
pub open spec fn header_block_end(s: Seq<u8>) -> Option<int>
    decreases s.len(),
{
    if !has_line_end(s) {
        None
    } else if first_line(s).len() == 0 {
        Some(offset_of(s, LF) + 1)
    } else {
        proof {
            lemma_after_first_line_shorter(s);
        }
        match header_block_end(after_first_line(s)) {
            Some(k) => Some(offset_of(s, LF) + 1 + k),
            None => None,
        }
    }
}

/// The number of lines of `s` up to and including its first empty line:
/// the index of the line with which the body begins. `None` where `s` has
/// no empty line.
pub open spec fn header_block_lines(s: Seq<u8>) -> Option<int>
    decreases s.len(),
{
    if !has_line_end(s) {
        None
    } else if first_line(s).len() == 0 {
        Some(1)
    } else {
        proof {
            lemma_after_first_line_shorter(s);
        }
        match header_block_lines(after_first_line(s)) {
            Some(k) => Some(1 + k),
            None => None,
        }
    }
}

/// A header block that ends has both an end and a number of lines, and
/// one that does not end has neither.
pub proof fn lemma_block_ends_both_ways(s: Seq<u8>)
    ensures
        header_block_end(s) is Some <==> header_block_lines(s) is Some,
    decreases s.len(),
{
    if has_line_end(s) && first_line(s).len() != 0 {
        lemma_after_first_line_shorter(s);
        lemma_block_ends_both_ways(after_first_line(s));
    }
}

/// The number of lines of a header block is the index after that of the
/// first empty line: the line before it is empty, every earlier line is
/// not, and where the block has no end, no line is empty.
pub proof fn lemma_header_block_lines(s: Seq<u8>)
    ensures
        match header_block_lines(s) {
            Some(k) => {
                &&& 1 <= k <= lines_of(s).len()
                &&& lines_of(s)[k - 1].len() == 0
                &&& forall|j: int| 0 <= j < k - 1 ==> (#[trigger] lines_of(s)[j]).len() > 0
            },
            None => forall|j: int| 0 <= j < lines_of(s).len() ==> (#[trigger] lines_of(s)[
                j
            ]).len() > 0,
        },
    decreases s.len(),
{
    lemma_offset_of(s, LF);
    if s.len() > 0 {
        let rest = after_first_line(s);
        lemma_after_first_line_shorter(s);
        lemma_header_block_lines(rest);
        let all = lines_of(s);
        assert(all[0] == first_line(s));
        assert forall|j: int| 1 <= j < all.len() implies all[j] == lines_of(rest)[j - 1] by {}
        if has_line_end(s) {
            if first_line(s).len() != 0 {
                match header_block_lines(rest) {
                    Some(k) => {
                        assert forall|j: int| 0 <= j < k implies (#[trigger] all[j]).len() > 0 by {
                            if j > 0 {
                                assert(all[j] == lines_of(rest)[j - 1]);
                            }
                        }
                        assert(all[k] == lines_of(rest)[k - 1]);
                    },
                    None => {
                        assert forall|j: int| 0 <= j < all.len() implies (#[trigger] all[j]).len()
                            > 0 by {
                            if j > 0 {
                                assert(all[j] == lines_of(rest)[j - 1]);
                            }
                        }
                    },
                }
            }
        } else {
            assert(rest.len() == 0);
            assert(all.len() == 1);
            assert(first_line(s) =~= s);
        }
    }
}

/// A header block holds at most one header for each of its lines before
/// the empty line, or for each line of the input where no line is empty.
pub proof fn lemma_header_block_len(s: Seq<u8>)
    ensures
        match header_block_lines(s) {
            Some(k) => header_block(s).len() <= k - 1,
            None => header_block(s).len() <= lines_of(s).len(),
        },
    decreases s.len(),
{
    if s.len() > 0 && !starts_with_empty_line(s) {
        lemma_after_first_line_shorter(s);
        lemma_header_block_len(after_first_line(s));
        lemma_offset_of(s, LF);
        if !has_line_end(s) {
            assert(after_first_line(s).len() == 0);
        }
    }
}

/// What follows a header block consists of the lines after the block's:
/// the lines from the index that [`header_block_lines`] gives.
pub proof fn lemma_lines_after_block(s: Seq<u8>)
    ensures
        header_block_end(s) matches Some(end) ==> header_block_lines(s) matches Some(k)
            && lines_of(s.skip(end)) == lines_of(s).skip(k),
    decreases s.len(),
{
    lemma_offset_of(s, LF);
    if has_line_end(s) {
        let rest = after_first_line(s);
        let all = lines_of(s);
        lemma_after_first_line_shorter(s);
        assert(all.skip(1) =~= lines_of(rest));
        if first_line(s).len() != 0 {
            lemma_lines_after_block(rest);
            lemma_header_block_end_within(rest);
            match header_block_end(rest) {
                Some(e) => {
                    let k = header_block_lines(rest).unwrap();
                    lemma_header_block_lines(rest);
                    assert(s.skip(offset_of(s, LF) + 1 + e) =~= rest.skip(e));
                    assert(all.skip(1 + k) =~= all.skip(1).skip(k));
                },
                None => {},
            }
        }
    }
}

/// The end of a header block lies within the input, after at least the
/// line feed of the empty line.
pub proof fn lemma_header_block_end_within(s: Seq<u8>)
    ensures
        header_block_end(s) matches Some(k) ==> 0 < k <= s.len(),
    decreases s.len(),
{
    lemma_offset_of(s, LF);
    if has_line_end(s) && first_line(s).len() != 0 {
        lemma_after_first_line_shorter(s);
        lemma_header_block_end_within(after_first_line(s));
    }
}

/// A header block as [`scan_header_block`] reads it.
#[derive(Debug)]
pub struct HeaderBlock {
    /// The headers, in the order of their lines.
    pub headers: Vec<Pair>,
    /// Where the body begins, if an empty line ended the block.
    pub end: Option<usize>,
    /// The number of lines up to and including the empty line that ended
    /// the block, which is the index of the body's first line; 0 where no
    /// empty line ended it.
    pub lines: usize,
}

/// Reads the header block at the start of `s`.
pub fn scan_header_block(s: &[u8]) -> (r: HeaderBlock)
    ensures
        r.headers.deep_view() == header_block(s@),
        match r.end {
            Some(k) => header_block_end(s@) == Some(k as int),
            None => header_block_end(s@) is None,
        },
        r.end matches Some(k) ==> k <= s@.len(),
        match header_block_lines(s@) {
            Some(k) => r.lines == k,
            None => r.lines == 0,
        },
{
    let n: usize = s.len();
    let mut headers: Vec<Pair> = Vec::new();
    let mut pos: usize = 0;
    let mut count: usize = 0;
    assert(s@.subrange(0, n as int) =~= s@);
    assert(headers.deep_view() + header_block(s@) =~= header_block(s@));
    while pos < n
        invariant
            pos <= n,
            n == s@.len(),
            header_block(s@) == headers.deep_view() + header_block(s@.subrange(pos as int, n as int)),
            header_block_end(s@) == match header_block_end(s@.subrange(pos as int, n as int)) {
                Some(k) => Some(pos + k),
                None => None,
            },
            count <= pos,
            header_block_lines(s@) == match header_block_lines(s@.subrange(pos as int, n as int)) {
                Some(k) => Some(count + k),
                None => None,
            },
        decreases n - pos,
    {
        let cur = vstd::slice::slice_subrange(s, pos, n);
        let split = split_line(cur);
        proof {
            lemma_offset_of(cur@, LF);
        }
        if split.ended && split.line.len() == 0 {
            let end: usize = n - split.rest.len();
            assert(headers.deep_view() + Seq::<(Seq<u8>, Seq<u8>)>::empty() =~= headers.deep_view());
            return HeaderBlock { headers, end: Some(end), lines: count + 1 };
        }
        let ghost before = headers.deep_view();
        match parse_header_line(split.line) {
            Some(p) => {
                push_pair(&mut headers, p);
                assert(before + (seq![p@] + header_block(split.rest@)) =~= headers.deep_view()
                    + header_block(split.rest@));
            },
            None => {},
        }
        let next: usize = n - split.rest.len();
        proof {
            if split.ended {
                assert(cur@.skip(offset_of(cur@, LF) + 1) =~= s@.subrange(
                    next as int,
                    n as int,
                ));
            } else {
                assert(s@.subrange(next as int, n as int) =~= Seq::<u8>::empty());
            }
        }
        if split.ended {
            count += 1;
        }
        pos = next;
    }
    assert(s@.subrange(n as int, n as int) =~= Seq::<u8>::empty());
    assert(headers.deep_view() + Seq::<(Seq<u8>, Seq<u8>)>::empty() =~= headers.deep_view());
    HeaderBlock { headers, end: None, lines: 0 }
}

/// The value of the first pair whose key is `name` up to the case of ASCII
/// letters.
pub open spec fn lookup(pairs: Seq<(Seq<u8>, Seq<u8>)>, name: Seq<u8>) -> Option<Seq<u8>>
    decreases pairs.len(),
{
    if pairs.len() == 0 {
        None
    } else if eq_ignore_case(pairs[0].0, name) {
        Some(pairs[0].1)
    } else {
        lookup(pairs.skip(1), name)
    }
}

/// Finds the value of the first pair whose key is `name`, whatever the case
/// of its letters.
pub fn find_value<'a>(pairs: &'a Vec<Pair>, name: &[u8]) -> (r: Option<&'a Vec<u8>>)
    ensures
        match r {
            Some(v) => lookup(pairs.deep_view(), name@) == Some(v@),
            None => lookup(pairs.deep_view(), name@) is None,
        },
{
    let mut i: usize = 0;
    assert(pairs.deep_view().skip(0) =~= pairs.deep_view());
    while i < pairs.len()
        invariant
            i <= pairs.len(),
            lookup(pairs.deep_view(), name@) == lookup(pairs.deep_view().skip(i as int), name@),
        decreases pairs.len() - i,
    {
        let ghost cur = pairs.deep_view().skip(i as int);
        assert(cur[0] == pairs@[i as int]@);
        if bytes_eq_ignore_case(pairs[i].key.as_slice(), name) {
            return Some(&pairs[i].value);
        }
        assert(cur.skip(1) =~= pairs.deep_view().skip(i + 1));
        i += 1;
    }
    None
}

} // verus!
