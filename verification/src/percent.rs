//! Percent-decoding of request paths.

use vstd::prelude::*;

verus! {

/// The percent sign that introduces an escape.
pub const PERCENT: u8 = 37;

/// The value of a hexadecimal digit, in either case.
pub open spec fn hex_value(b: u8) -> Option<u8> {
    if 48 <= b && b <= 57 {
        Some((b - 48) as u8)
    } else if 65 <= b && b <= 70 {
        Some((b - 55) as u8)
    } else if 97 <= b && b <= 102 {
        Some((b - 87) as u8)
    } else {
        None
    }
}

/// Executable form of [`hex_value`].
pub fn hex_digit(b: u8) -> (r: Option<u8>)
    ensures
        r == hex_value(b),
{
    if b >= 48 && b <= 57 {
        Some(b - 48)
    } else if b >= 65 && b <= 70 {
        Some(b - 55)
    } else if b >= 97 && b <= 102 {
        Some(b - 87)
    } else {
        None
    }
}

/// Whether `s` begins with an escape: a percent sign and two hexadecimal
/// digits.
pub open spec fn starts_with_escape(s: Seq<u8>) -> bool {
    s.len() >= 3 && s[0] == PERCENT && hex_value(s[1]) is Some && hex_value(s[2]) is Some
}

/// `s` with each escape replaced by the byte that it names, read from left
/// to right. A percent sign that begins no escape stands for itself, so
/// every input has a decoding.
pub open spec fn percent_decode(s: Seq<u8>) -> Seq<u8>
    decreases s.len(),
{
    if s.len() == 0 {
        Seq::empty()
    } else if starts_with_escape(s) {
        seq![(hex_value(s[1]).unwrap() * 16 + hex_value(s[2]).unwrap()) as u8] + percent_decode(
            s.skip(3),
        )
    } else {
        seq![s[0]] + percent_decode(s.skip(1))
    }
}

/// Decoding keeps a first byte that is no percent sign.
pub proof fn lemma_decode_keeps_first(s: Seq<u8>)
    requires
        s.len() > 0,
        s[0] != PERCENT,
    ensures
        percent_decode(s).len() > 0,
        percent_decode(s)[0] == s[0],
{
}

/// Decodes the escapes of `s`.
pub fn decode(s: &[u8]) -> (r: Vec<u8>)
    ensures
        r@ == percent_decode(s@),
{
    let n: usize = s.len();
    let mut out: Vec<u8> = Vec::new();
    let mut i: usize = 0;
    assert(s@.subrange(0, n as int) =~= s@);
    assert(out@ + percent_decode(s@) =~= percent_decode(s@));
    while i < n
        invariant
            i <= n,
            n == s@.len(),
            percent_decode(s@) == out@ + percent_decode(s@.subrange(i as int, n as int)),
        decreases n - i,
    {
        let ghost cur = s@.subrange(i as int, n as int);
        let ghost before = out@;
        let mut step: usize = 1;
        let mut byte: u8 = s[i];
        if s[i] == PERCENT && n - i >= 3 {
            match (hex_digit(s[i + 1]), hex_digit(s[i + 2])) {
                (Some(high), Some(low)) => {
                    byte = high * 16 + low;
                    step = 3;
                },
                _ => {},
            }
        }
        out.push(byte);
        proof {
            assert(cur.skip(step as int) =~= s@.subrange(i + step, n as int));
            assert(before + (seq![byte] + percent_decode(cur.skip(step as int))) =~= out@
                + percent_decode(cur.skip(step as int)));
        }
        i += step;
    }
    assert(s@.subrange(n as int, n as int) =~= Seq::<u8>::empty());
    assert(out@ + Seq::<u8>::empty() =~= out@);
    out
}

} // verus!
