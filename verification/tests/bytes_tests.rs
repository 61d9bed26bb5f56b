use cgi_httpd::bytes::{
    append, bytes_eq, bytes_eq_ignore_case, find_byte, has_prefix, is_space_byte, lower_byte,
    to_vec, trim_bytes,
};

#[test]
fn find_byte_gives_the_first_offset() {
    assert_eq!(find_byte(b"a:b:c", b':'), 1);
    assert_eq!(find_byte(b":", b':'), 0);
    assert_eq!(find_byte(b"abc", b':'), 3);
    assert_eq!(find_byte(b"", b':'), 0);
}

#[test]
fn trim_bytes_removes_white_space_at_both_ends() {
    assert_eq!(trim_bytes(b"  a b\t\r\n"), b"a b");
    assert_eq!(trim_bytes(b" \t "), b"");
    assert_eq!(trim_bytes(b""), b"");
    assert_eq!(trim_bytes(b"x"), b"x");
    assert_eq!(trim_bytes(b"\x0b\x0cx\x0b"), b"x");
}

#[test]
fn white_space_is_space_and_tab_to_carriage_return() {
    for b in 0u8..=255 {
        let expected = b == b' ' || (9..=13).contains(&b);
        assert_eq!(is_space_byte(b), expected, "byte {}", b);
    }
}

#[test]
fn bytes_eq_tells_equal_strings() {
    assert!(bytes_eq(b"", b""));
    assert!(bytes_eq(b"GET", b"GET"));
    assert!(!bytes_eq(b"GET", b"get"));
    assert!(!bytes_eq(b"GET", b"GE"));
}

#[test]
fn has_prefix_tells_prefixes() {
    assert!(has_prefix(b"/scripts/run", b"/scripts/"));
    assert!(has_prefix(b"/scripts/", b"/scripts/"));
    assert!(has_prefix(b"abc", b""));
    assert!(!has_prefix(b"/scripts", b"/scripts/"));
    assert!(!has_prefix(b"/script/x", b"/scripts/"));
}

#[test]
fn letters_compare_without_case() {
    assert!(bytes_eq_ignore_case(b"Content-Type", b"content-type"));
    assert!(bytes_eq_ignore_case(b"CONTENT-LENGTH", b"Content-Length"));
    assert!(!bytes_eq_ignore_case(b"Content-Type", b"Content_Type"));
    assert!(!bytes_eq_ignore_case(b"Content-Type", b"Content-Typ"));
    assert!(!bytes_eq_ignore_case(b"@", b"`"));
    assert!(!bytes_eq_ignore_case(b"[", b"{"));
    assert_eq!(lower_byte(b'A'), b'a');
    assert_eq!(lower_byte(b'Z'), b'z');
    assert_eq!(lower_byte(b'a'), b'a');
    assert_eq!(lower_byte(b'@'), b'@');
    assert_eq!(lower_byte(b'['), b'[');
}

#[test]
fn append_and_to_vec_copy_bytes() {
    let mut out = to_vec(b"ab");
    append(&mut out, b"");
    append(&mut out, b"\x00\xffc");
    assert_eq!(out, b"ab\x00\xffc".to_vec());
}
