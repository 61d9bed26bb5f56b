use cgi_httpd::error::ErrorKind;
use cgi_httpd::headers::Pair;
use cgi_httpd::path::{Canonical, ResolvedPath};
use cgi_httpd::response::serialize;
use cgi_httpd::static_files::{file_response, render_listing, serve, Loaded};

fn static_pair(key: &[u8], value: &[u8]) -> Pair {
    Pair { key: key.to_vec(), value: value.to_vec() }
}

fn served_path(request_path: &[u8], canonical: &[u8]) -> ResolvedPath {
    ResolvedPath::resolve(b"/srv/www", request_path, Canonical::Path(canonical.to_vec())).unwrap()
}

#[test]
fn a_file_is_served_with_type_and_length() {
    let path = served_path(b"/index.html", b"/srv/www/index.html");
    let r = file_response(&path, b"<p>hi</p>".to_vec());
    assert_eq!(r.status_code, 200);
    assert_eq!(r.status_text, b"OK".to_vec());
    assert_eq!(
        r.headers,
        vec![
            static_pair(b"Content-Type", b"text/html; charset=utf-8"),
            static_pair(b"Content-Length", b"9"),
        ]
    );
    assert_eq!(r.body, b"<p>hi</p>".to_vec());
}

#[test]
fn a_file_of_unknown_kind_is_served_as_octet_stream() {
    let path = served_path(b"/data.bin", b"/srv/www/data.bin");
    let contents: Vec<u8> = (0u8..=255).collect();
    let r = file_response(&path, contents.clone());
    assert_eq!(
        r.headers,
        vec![
            static_pair(b"Content-Type", b"application/octet-stream"),
            static_pair(b"Content-Length", b"256"),
        ]
    );
    assert_eq!(r.body, contents);
}

#[test]
fn an_empty_file_is_served() {
    let path = served_path(b"/empty.txt", b"/srv/www/empty.txt");
    let r = file_response(&path, Vec::new());
    assert_eq!(
        r.headers,
        vec![
            static_pair(b"Content-Type", b"text/plain; charset=utf-8"),
            static_pair(b"Content-Length", b"0"),
        ]
    );
    assert!(r.body.is_empty());
}

#[test]
fn the_type_goes_by_the_canonical_path() {
    let path = served_path(b"/alias.txt", b"/srv/www/real.png");
    let r = file_response(&path, b"x".to_vec());
    assert_eq!(r.headers[0], static_pair(b"Content-Type", b"image/png"));
}

#[test]
fn serving_a_file_twice_gives_the_same_bytes() {
    let path = served_path(b"/a.css", b"/srv/www/a.css");
    let first = serve(&path, Loaded::Contents(b"body{}".to_vec())).unwrap();
    let second = serve(&path, Loaded::Contents(b"body{}".to_vec())).unwrap();
    assert_eq!(first, second);
    assert_eq!(serialize(&first), serialize(&second));
}

#[test]
fn listing_of_the_root() {
    let page = render_listing(b"", &vec![b"index.html".to_vec(), b"docs".to_vec()]);
    assert_eq!(
        page,
        b"<html><h1>Directory listing</h1><ul><li><a href=\"/\">..</a></li><li><a href=\"/index.html\">index.html</a></li><li><a href=\"/docs\">docs</a></li></ul></html>"
            .to_vec()
    );
}

#[test]
fn listing_of_a_directory_below_the_root() {
    let page = render_listing(b"docs/api", &vec![b"a.txt".to_vec()]);
    assert_eq!(
        page,
        b"<html><h1>Directory listing</h1><ul><li><a href=\"/docs\">..</a></li><li><a href=\"/docs/api/a.txt\">a.txt</a></li></ul></html>"
            .to_vec()
    );
    let one_down = render_listing(b"docs", &Vec::new());
    assert_eq!(
        one_down,
        b"<html><h1>Directory listing</h1><ul><li><a href=\"/\">..</a></li></ul></html>".to_vec()
    );
}

#[test]
fn listing_keeps_the_order_of_the_entries() {
    let page = render_listing(b"", &vec![b"b".to_vec(), b"a".to_vec(), b"c".to_vec()]);
    let text = String::from_utf8(page).unwrap();
    let b = text.find("href=\"/b\"").unwrap();
    let a = text.find("href=\"/a\"").unwrap();
    let c = text.find("href=\"/c\"").unwrap();
    assert!(b < a && a < c);
}

#[test]
fn a_directory_is_served_as_its_listing() {
    let path = served_path(b"/docs/", b"/srv/www/docs");
    let r = serve(&path, Loaded::Entries(vec![b"a.txt".to_vec()])).unwrap();
    assert_eq!(r.status_code, 200);
    let body =
        b"<html><h1>Directory listing</h1><ul><li><a href=\"/\">..</a></li><li><a href=\"/docs/a.txt\">a.txt</a></li></ul></html>"
            .to_vec();
    assert_eq!(
        r.headers,
        vec![
            static_pair(b"Content-Type", b"text/html; charset=utf-8"),
            static_pair(b"Content-Length", body.len().to_string().as_bytes()),
        ]
    );
    assert_eq!(r.body, body);
}

#[test]
fn what_is_missing_is_not_found() {
    let path = served_path(b"/gone", b"/srv/www/gone");
    assert_eq!(serve(&path, Loaded::Missing), Err(ErrorKind::NotFound));
}

#[test]
fn what_cannot_be_read_is_forbidden() {
    let path = served_path(b"/secret", b"/srv/www/secret");
    assert_eq!(serve(&path, Loaded::Unreadable), Err(ErrorKind::Forbidden));
}
