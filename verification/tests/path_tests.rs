use cgi_httpd::error::ErrorKind;
use cgi_httpd::path::{count_tail, extension_of, is_within, join_root, Canonical, ResolvedPath};

#[test]
fn a_path_is_within_its_root() {
    assert!(is_within(b"/srv/www", b"/srv/www"));
    assert!(is_within(b"/srv/www", b"/srv/www/index.html"));
    assert!(is_within(b"/srv/www", b"/srv/www/a/b/c"));
    assert!(is_within(b"/", b"/etc/passwd"));
    assert!(is_within(b"/", b"/"));
}

#[test]
fn a_path_beside_or_above_its_root_is_not_within() {
    assert!(!is_within(b"/srv/www", b"/srv/www2"));
    assert!(!is_within(b"/srv/www", b"/srv/www2/index.html"));
    assert!(!is_within(b"/srv/www", b"/srv"));
    assert!(!is_within(b"/srv/www", b"/etc/passwd"));
    assert!(!is_within(b"/srv/www", b"/srv/ww"));
    assert!(!is_within(b"/srv/www", b""));
}

#[test]
fn join_root_strips_one_leading_slash() {
    assert_eq!(join_root(b"/srv/www", b"/index.html"), b"/srv/www/index.html".to_vec());
    assert_eq!(join_root(b"/srv/www", b"/"), b"/srv/www/".to_vec());
    assert_eq!(join_root(b"/srv/www", b"/../etc/passwd"), b"/srv/www/../etc/passwd".to_vec());
    assert_eq!(join_root(b"/srv/www", b"//etc/passwd"), b"/srv/www//etc/passwd".to_vec());
    assert_eq!(join_root(b"/", b"/a"), b"/a".to_vec());
    assert_eq!(join_root(b"/srv/www/", b"/a"), b"/srv/www/a".to_vec());
    assert_eq!(join_root(b"/srv/www", b"a"), b"/srv/www/a".to_vec());
    assert_eq!(join_root(b"/srv/www", b""), b"/srv/www/".to_vec());
}

#[test]
fn count_tail_counts_after_the_last_occurrence() {
    assert_eq!(count_tail(b"/a/bcd", b'/'), 3);
    assert_eq!(count_tail(b"/a/", b'/'), 0);
    assert_eq!(count_tail(b"abc", b'/'), 3);
    assert_eq!(count_tail(b"", b'/'), 0);
}

#[test]
fn extension_follows_the_last_dot_of_the_last_component() {
    assert_eq!(extension_of(b"/srv/www/index.html"), Some(&b"html"[..]));
    assert_eq!(extension_of(b"/srv/www/a.tar.gz"), Some(&b"gz"[..]));
    assert_eq!(extension_of(b"photo.JPG"), Some(&b"JPG"[..]));
    assert_eq!(extension_of(b"/srv/www/name."), Some(&b""[..]));
}

#[test]
fn some_files_have_no_extension() {
    assert_eq!(extension_of(b"/srv/www/Makefile"), None);
    assert_eq!(extension_of(b"/srv/www/.hidden"), None);
    assert_eq!(extension_of(b"/srv/w.d/file"), None);
    assert_eq!(extension_of(b"/srv/www/"), None);
    assert_eq!(extension_of(b""), None);
    assert_eq!(extension_of(b"."), None);
}

#[test]
fn resolve_hands_out_what_lies_within() {
    let path = ResolvedPath::resolve(
        b"/srv/www",
        b"/a%20b/../index.html",
        Canonical::Path(b"/srv/www/index.html".to_vec()),
    )
    .unwrap();
    assert_eq!(path.root(), b"/srv/www");
    assert_eq!(path.resolved(), b"/srv/www/index.html");
    assert_eq!(path.request_path(), b"/a%20b/../index.html");
    assert_eq!(path.relative(), b"index.html");
    assert!(!path.in_scripts());
}

#[test]
fn resolve_refuses_what_leaves_the_root() {
    for outside in [&b"/etc/passwd"[..], b"/srv", b"/srv/www2/x", b"/", b""] {
        let result =
            ResolvedPath::resolve(b"/srv/www", b"/x", Canonical::Path(outside.to_vec()));
        assert_eq!(result.err(), Some(ErrorKind::Forbidden));
    }
}

#[test]
fn resolve_reports_what_does_not_exist() {
    let result = ResolvedPath::resolve(b"/srv/www", b"/nosuch", Canonical::Missing);
    assert_eq!(result.err(), Some(ErrorKind::NotFound));
}

#[test]
fn resolve_refuses_what_could_not_be_followed() {
    let result = ResolvedPath::resolve(b"/srv/www", b"/locked/a", Canonical::Denied);
    assert_eq!(result.err(), Some(ErrorKind::Forbidden));
}

#[test]
fn relative_is_the_path_below_the_root() {
    let root = ResolvedPath::resolve(b"/srv/www", b"/", Canonical::Path(b"/srv/www".to_vec())).unwrap();
    assert_eq!(root.relative(), b"");
    let deep = ResolvedPath::resolve(b"/srv/www", b"/a/b", Canonical::Path(b"/srv/www/a/b".to_vec())).unwrap();
    assert_eq!(deep.relative(), b"a/b");
    let top = ResolvedPath::resolve(b"/", b"/etc", Canonical::Path(b"/etc".to_vec())).unwrap();
    assert_eq!(top.relative(), b"etc");
}

#[test]
fn in_scripts_tells_the_directory_of_scripts() {
    let script =
        ResolvedPath::resolve(b"/srv/www", b"/scripts/a", Canonical::Path(b"/srv/www/scripts/a".to_vec()))
            .unwrap();
    assert!(script.in_scripts());
    let directory =
        ResolvedPath::resolve(b"/srv/www", b"/scripts", Canonical::Path(b"/srv/www/scripts".to_vec()))
            .unwrap();
    assert!(directory.in_scripts());
    let beside =
        ResolvedPath::resolve(b"/srv/www", b"/scripts2/a", Canonical::Path(b"/srv/www/scripts2/a".to_vec()))
            .unwrap();
    assert!(!beside.in_scripts());
    let below_slash = ResolvedPath::resolve(b"/", b"/scripts/a", Canonical::Path(b"/scripts/a".to_vec())).unwrap();
    assert!(below_slash.in_scripts());
}
