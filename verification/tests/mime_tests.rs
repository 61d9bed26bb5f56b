use cgi_httpd::mime::content_type;

#[test]
fn the_table_knows_eight_extensions() {
    assert_eq!(content_type(b"/r/a.txt"), "text/plain; charset=utf-8");
    assert_eq!(content_type(b"/r/a.html"), "text/html; charset=utf-8");
    assert_eq!(content_type(b"/r/a.css"), "text/css; charset=utf-8");
    assert_eq!(content_type(b"/r/a.js"), "text/javascript; charset=utf-8");
    assert_eq!(content_type(b"/r/a.jpg"), "image/jpeg");
    assert_eq!(content_type(b"/r/a.jpeg"), "image/jpeg");
    assert_eq!(content_type(b"/r/a.png"), "image/png");
    assert_eq!(content_type(b"/r/a.zip"), "application/zip");
}

#[test]
fn unknown_extensions_get_the_default() {
    assert_eq!(content_type(b"/r/a.bin"), "application/octet-stream");
    assert_eq!(content_type(b"/r/a.HTML"), "application/octet-stream");
    assert_eq!(content_type(b"/r/a.htm"), "application/octet-stream");
    assert_eq!(content_type(b"/r/a."), "application/octet-stream");
    assert_eq!(content_type(b"/r/Makefile"), "application/octet-stream");
    assert_eq!(content_type(b"/r/.html"), "application/octet-stream");
    assert_eq!(content_type(b"/r.html/file"), "application/octet-stream");
    assert_eq!(content_type(b""), "application/octet-stream");
}

#[test]
fn only_the_last_extension_counts() {
    assert_eq!(content_type(b"/r/a.html.zip"), "application/zip");
    assert_eq!(content_type(b"/r/a.zip.html"), "text/html; charset=utf-8");
}
