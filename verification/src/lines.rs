//! Lines of a byte stream. A line ends at a line feed; a carriage return
//! right before that line feed belongs to the line ending.

use vstd::prelude::*;
use crate::bytes::{offset_of, lemma_offset_of, find_byte, LF, CR};

verus! {

/// Whether a line feed occurs in `s`.
pub open spec fn has_line_end(s: Seq<u8>) -> bool {
    offset_of(s, LF) < s.len()
}

/// The first line of `s` without its line ending. Where no line feed
/// occurs the line is all of `s`, a final carriage return included.
pub open spec fn first_line(s: Seq<u8>) -> Seq<u8> {
    let n = offset_of(s, LF);
    if 0 < n && n < s.len() && s[n - 1] == CR {
        s.take(n - 1)
    } else {
        s.take(n)
    }
}

/// What follows the first line and its line ending: nothing where no line
/// feed occurs.
pub open spec fn after_first_line(s: Seq<u8>) -> Seq<u8> {
    let n = offset_of(s, LF);
    if n < s.len() {
        s.skip(n + 1)
    } else {
        Seq::empty()
    }
}

/// Whether `s` begins with an empty line: a line ending with nothing
/// before it.
pub open spec fn starts_with_empty_line(s: Seq<u8>) -> bool {
    has_line_end(s) && first_line(s).len() == 0
}

/// The remainder after the first line is shorter than a non-empty input.
pub proof fn lemma_after_first_line_shorter(s: Seq<u8>)
    requires
        s.len() > 0,
    ensures
        after_first_line(s).len() < s.len(),
{
    lemma_offset_of(s, LF);
}

/// The lines of `s`, each without its line ending. Input that ends with a
/// line ending has no further, empty line after it.
pub open spec fn lines_of(s: Seq<u8>) -> Seq<Seq<u8>>
    decreases s.len(),
{
    if s.len() == 0 {
        Seq::empty()
    } else {
        proof {
            lemma_after_first_line_shorter(s);
        }
        seq![first_line(s)] + lines_of(after_first_line(s))
    }
}

/// The first line of `s`, what follows it, and whether a line feed ended it.
pub struct LineSplit<'a> {
    pub line: &'a [u8],
    pub rest: &'a [u8],
    pub ended: bool,
}

/// Splits `s` after its first line.
pub fn split_line<'a>(s: &'a [u8]) -> (r: LineSplit<'a>)
    ensures
        r.line@ == first_line(s@),
        r.rest@ == after_first_line(s@),
        r.ended == has_line_end(s@),
        r.ended ==> s@.len() - r.rest@.len() == offset_of(s@, LF) + 1,
{
    let n: usize = find_byte(s, LF);
    proof {
        lemma_offset_of(s@, LF);
    }
    if n < s.len() {
        let stop: usize = if n > 0 && s[n - 1] == CR {
            n - 1
        } else {
            n
        };
        let line = vstd::slice::slice_subrange(s, 0, stop);
        let rest = vstd::slice::slice_subrange(s, n + 1, s.len());
        LineSplit { line, rest, ended: true }
    } else {
        let rest = vstd::slice::slice_subrange(s, n, n);
        assert(rest@ =~= Seq::<u8>::empty());
        assert(s@.take(n as int) =~= s@.subrange(0, n as int));
        LineSplit { line: s, rest, ended: false }
    }
}

} // verus!
