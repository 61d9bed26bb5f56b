use cgi_httpd::decimal::{all_digits, parse_decimal, push_decimal, to_decimal};

#[test]
fn to_decimal_writes_numerals() {
    assert_eq!(to_decimal(0), b"0".to_vec());
    assert_eq!(to_decimal(7), b"7".to_vec());
    assert_eq!(to_decimal(10), b"10".to_vec());
    assert_eq!(to_decimal(404), b"404".to_vec());
    assert_eq!(to_decimal(1048576), b"1048576".to_vec());
    assert_eq!(to_decimal(usize::MAX), usize::MAX.to_string().into_bytes());
}

#[test]
fn push_decimal_appends() {
    let mut out = b"Content-Length: ".to_vec();
    push_decimal(&mut out, 1205);
    assert_eq!(out, b"Content-Length: 1205".to_vec());
}

#[test]
fn all_digits_tells_numerals() {
    assert!(all_digits(b"0"));
    assert!(all_digits(b"0123456789"));
    assert!(!all_digits(b""));
    assert!(!all_digits(b"12a"));
    assert!(!all_digits(b"-1"));
    assert!(!all_digits(b"+1"));
    assert!(!all_digits(b" 1"));
    assert!(!all_digits(b"/"));
    assert!(!all_digits(b":"));
}

#[test]
fn parse_decimal_reads_numerals() {
    assert_eq!(parse_decimal(b"0"), Some(0));
    assert_eq!(parse_decimal(b"5"), Some(5));
    assert_eq!(parse_decimal(b"007"), Some(7));
    assert_eq!(parse_decimal(b"65535"), Some(65535));
    assert_eq!(parse_decimal(b""), None);
    assert_eq!(parse_decimal(b"12 "), None);
    assert_eq!(parse_decimal(b"1e3"), None);
}

#[test]
fn parse_decimal_refuses_what_does_not_fit() {
    let max = usize::MAX.to_string().into_bytes();
    assert_eq!(parse_decimal(&max), Some(usize::MAX));
    let mut more = max.clone();
    more.push(b'0');
    assert_eq!(parse_decimal(&more), None);
    assert_eq!(parse_decimal(b"99999999999999999999999999999999"), None);
}

#[test]
fn numerals_read_back() {
    for n in [0usize, 1, 9, 10, 11, 99, 100, 101, 255, 256, 999, 1000, 65535, 65536, 123456789] {
        assert_eq!(parse_decimal(&to_decimal(n)), Some(n));
    }
}
