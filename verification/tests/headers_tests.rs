use cgi_httpd::headers::{find_value, parse_header_line, push_pair, scan_header_block, Pair};

fn header_pair(key: &[u8], value: &[u8]) -> Pair {
    Pair { key: key.to_vec(), value: value.to_vec() }
}

#[test]
fn header_line_splits_at_the_first_colon() {
    assert_eq!(parse_header_line(b"Host: example.org"), Some(header_pair(b"Host", b"example.org")));
    assert_eq!(
        parse_header_line(b"Referer: http://a/b"),
        Some(header_pair(b"Referer", b"http://a/b"))
    );
}

#[test]
fn header_line_is_trimmed() {
    assert_eq!(
        parse_header_line(b"  Content-Type \t:\t text/plain \r"),
        Some(header_pair(b"Content-Type", b"text/plain"))
    );
    assert_eq!(parse_header_line(b":"), Some(header_pair(b"", b"")));
    assert_eq!(parse_header_line(b"A:"), Some(header_pair(b"A", b"")));
    assert_eq!(parse_header_line(b": b"), Some(header_pair(b"", b"b")));
}

#[test]
fn header_line_without_colon_holds_nothing() {
    assert_eq!(parse_header_line(b"no colon here"), None);
    assert_eq!(parse_header_line(b""), None);
}

#[test]
fn header_block_ends_at_the_empty_line() {
    let block = scan_header_block(b"A: 1\r\nB: 2\r\n\r\nC: 3\r\n");
    assert_eq!(block.headers, vec![header_pair(b"A", b"1"), header_pair(b"B", b"2")]);
    assert_eq!(block.end, Some(14));
    assert_eq!(block.lines, 3);
}

#[test]
fn header_block_takes_bare_line_feeds() {
    let block = scan_header_block(b"A: 1\nB: 2\n\nbody");
    assert_eq!(block.headers, vec![header_pair(b"A", b"1"), header_pair(b"B", b"2")]);
    assert_eq!(block.end, Some(11));
}

#[test]
fn header_block_runs_to_the_end_of_input() {
    let block = scan_header_block(b"A: 1\r\nB: 2");
    assert_eq!(block.headers, vec![header_pair(b"A", b"1"), header_pair(b"B", b"2")]);
    assert_eq!(block.end, None);
    let ended = scan_header_block(b"A: 1\r\n");
    assert_eq!(ended.headers, vec![header_pair(b"A", b"1")]);
    assert_eq!(ended.end, None);
    assert_eq!(ended.lines, 0);
}

#[test]
fn header_block_passes_over_lines_without_colon() {
    let block = scan_header_block(b"A: 1\nnot a header\nB: 2\n\n");
    assert_eq!(block.headers, vec![header_pair(b"A", b"1"), header_pair(b"B", b"2")]);
    assert_eq!(block.end, Some(24));
    assert_eq!(block.lines, 4);
}

#[test]
fn header_block_of_nothing() {
    let block = scan_header_block(b"");
    assert!(block.headers.is_empty());
    assert_eq!(block.end, None);
    let empty_line = scan_header_block(b"\r\nrest");
    assert!(empty_line.headers.is_empty());
    assert_eq!(empty_line.end, Some(2));
    assert_eq!(empty_line.lines, 1);
}

#[test]
fn a_line_of_spaces_is_not_empty() {
    let block = scan_header_block(b"A: 1\n \nB: 2\n\n");
    assert_eq!(block.headers, vec![header_pair(b"A", b"1"), header_pair(b"B", b"2")]);
    assert_eq!(block.end, Some(13));
}

#[test]
fn a_final_carriage_return_is_no_empty_line() {
    let block = scan_header_block(b"A: 1\n\r");
    assert_eq!(block.headers, vec![header_pair(b"A", b"1")]);
    assert_eq!(block.end, None);
}

#[test]
fn find_value_takes_the_first_match_in_any_case() {
    let headers = vec![
        header_pair(b"Host", b"a"),
        header_pair(b"content-length", b"5"),
        header_pair(b"Content-Length", b"7"),
    ];
    assert_eq!(find_value(&headers, b"Content-Length"), Some(&b"5".to_vec()));
    assert_eq!(find_value(&headers, b"HOST"), Some(&b"a".to_vec()));
    assert_eq!(find_value(&headers, b"Accept"), None);
    assert_eq!(find_value(&Vec::new(), b"Host"), None);
}

#[test]
fn pairs_are_pushed_in_order() {
    let mut list = Vec::new();
    push_pair(&mut list, header_pair(b"a", b"1"));
    push_pair(&mut list, header_pair(b"a", b"2"));
    assert_eq!(list, vec![header_pair(b"a", b"1"), header_pair(b"a", b"2")]);
    assert_eq!(list[0].clone(), header_pair(b"a", b"1"));
}
