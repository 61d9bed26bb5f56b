use cgi_httpd::cgi::ScriptOutcome;
use cgi_httpd::config::{Limits, ServerConfig};
use cgi_httpd::handler::{names_script, Action, Connection, Event, State};
use cgi_httpd::path::{Canonical, FileKind};
use cgi_httpd::reader::parse_response;
use cgi_httpd::response::Response;
use cgi_httpd::static_files::Loaded;

fn config() -> ServerConfig {
    ServerConfig::new(b"/srv/www".to_vec(), 8080)
}

fn after_request(raw: &[u8]) -> (Connection, Action) {
    let cfg = config();
    let (conn, action) = Connection::start();
    assert!(matches!(action, Action::Read));
    assert_eq!(conn.state(), State::AwaitingRequest);
    let (conn, action) = conn.step(Event::Received(raw.to_vec()), &cfg);
    assert!(matches!(action, Action::Proceed), "{:?}", action);
    assert_eq!(conn.state(), State::Parsing);
    conn.step(Event::Proceed, &cfg)
}

fn written(conn: Connection, action: Action) -> Response {
    assert_eq!(conn.state(), State::Responding);
    let (status, bytes) = match action {
        Action::Write { status, bytes } => (status, bytes),
        other => panic!("expected a write, got {:?}", other),
    };
    let response = parse_response(&bytes).unwrap();
    assert_eq!(response.status_code, status);
    let (conn, action) = conn.step(Event::Written, &config());
    assert_eq!(conn.state(), State::Closed);
    assert!(matches!(action, Action::Close));
    response
}

fn header_value(response: &Response, name: &[u8]) -> Option<Vec<u8>> {
    response.headers.iter().find(|p| p.key == name).map(|p| p.value.clone())
}

#[test]
fn default_configuration() {
    let cfg = config();
    assert_eq!(cfg.root_directory, b"/srv/www".to_vec());
    assert_eq!(cfg.listen_port, 8080);
    assert_eq!(cfg.limits, Limits { max_header_bytes: 8192, max_body_bytes: 1048576 });
    assert_eq!(cfg.read_timeout_ms, 10000);
    assert_eq!(cfg.script_timeout_ms, 10000);
    assert_eq!(cfg.max_connections, 64);
}

#[test]
fn script_targets_begin_with_the_scripts_directory() {
    assert!(names_script(b"/scripts/a"));
    assert!(names_script(b"/scripts/"));
    assert!(!names_script(b"/scripts"));
    assert!(!names_script(b"/Scripts/a"));
    assert!(!names_script(b"/a/scripts/b"));
}

#[test]
fn get_of_an_existing_file() {
    let cfg = config();
    let (conn, action) = after_request(b"GET /index.html HTTP/1.0\r\nHost: h\r\n\r\n");
    assert_eq!(conn.state(), State::Dispatching);
    match &action {
        Action::Canonicalize(path) => assert_eq!(path, &b"/srv/www/index.html".to_vec()),
        other => panic!("expected a path to make canonical, got {:?}", other),
    }
    let (conn, action) =
        conn.step(Event::Canonical(Canonical::Path(b"/srv/www/index.html".to_vec())), &cfg);
    assert_eq!(conn.state(), State::Dispatching);
    match &action {
        Action::Load(path) => assert_eq!(path, &b"/srv/www/index.html".to_vec()),
        other => panic!("expected a path to load, got {:?}", other),
    }
    let contents = b"<html>Welcome</html>".to_vec();
    let (conn, action) = conn.step(Event::Loaded(Loaded::Contents(contents.clone())), &cfg);
    let response = written(conn, action);
    assert_eq!(response.status_code, 200);
    assert_eq!(response.body, contents);
    assert_eq!(
        header_value(&response, b"Content-Type"),
        Some(b"text/html; charset=utf-8".to_vec())
    );
    assert_eq!(header_value(&response, b"Content-Length"), Some(b"20".to_vec()));
    assert_eq!(header_value(&response, b"Connection"), Some(b"close".to_vec()));
}

#[test]
fn get_that_climbs_out_of_the_root() {
    let cfg = config();
    let (conn, action) = after_request(b"GET /../etc/passwd HTTP/1.0\r\n\r\n");
    match &action {
        Action::Canonicalize(path) => assert_eq!(path, &b"/srv/www/../etc/passwd".to_vec()),
        other => panic!("expected a path to make canonical, got {:?}", other),
    }
    let (conn, action) = conn.step(Event::Canonical(Canonical::Path(b"/srv/etc/passwd".to_vec())), &cfg);
    let response = written(conn, action);
    assert_eq!(response.status_code, 403);
    assert_eq!(response.body, b"<html>403 Forbidden</html>".to_vec());
}

#[test]
fn get_that_climbs_out_by_an_escape() {
    let cfg = config();
    let (conn, action) = after_request(b"GET /%2e%2e/%2e%2e/etc/passwd HTTP/1.0\r\n\r\n");
    match &action {
        Action::Canonicalize(path) => assert_eq!(path, &b"/srv/www/../../etc/passwd".to_vec()),
        other => panic!("expected a path to make canonical, got {:?}", other),
    }
    let (conn, action) = conn.step(Event::Canonical(Canonical::Path(b"/etc/passwd".to_vec())), &cfg);
    assert_eq!(written(conn, action).status_code, 403);
}

#[test]
fn get_of_a_link_that_leaves_the_root() {
    let cfg = config();
    let (conn, _) = after_request(b"GET /link HTTP/1.0\r\n\r\n");
    let (conn, action) = conn.step(Event::Canonical(Canonical::Path(b"/etc/passwd".to_vec())), &cfg);
    assert_eq!(written(conn, action).status_code, 403);
}

#[test]
fn get_of_what_does_not_exist() {
    let cfg = config();
    let (conn, _) = after_request(b"GET /nosuch HTTP/1.0\r\n\r\n");
    let (conn, action) = conn.step(Event::Canonical(Canonical::Missing), &cfg);
    let response = written(conn, action);
    assert_eq!(response.status_code, 404);
    assert_eq!(response.status_text, b"Not Found".to_vec());
    assert_eq!(response.body, b"<html>404 Not Found</html>".to_vec());
    assert_eq!(
        header_value(&response, b"Content-Type"),
        Some(b"text/html; charset=utf-8".to_vec())
    );
    assert_eq!(header_value(&response, b"Content-Length"), Some(b"26".to_vec()));
}

#[test]
fn get_of_a_path_that_may_not_be_followed() {
    let cfg = config();
    let (conn, _) = after_request(b"GET /locked/a.txt HTTP/1.0\r\n\r\n");
    let (conn, action) = conn.step(Event::Canonical(Canonical::Denied), &cfg);
    let response = written(conn, action);
    assert_eq!(response.status_code, 403);
    assert_eq!(response.body, b"<html>403 Forbidden</html>".to_vec());
}

#[test]
fn get_of_a_file_that_went_away() {
    let cfg = config();
    let (conn, _) = after_request(b"GET /a.txt HTTP/1.0\r\n\r\n");
    let (conn, _) = conn.step(Event::Canonical(Canonical::Path(b"/srv/www/a.txt".to_vec())), &cfg);
    let (conn, action) = conn.step(Event::Loaded(Loaded::Missing), &cfg);
    assert_eq!(written(conn, action).status_code, 404);
}

#[test]
fn get_of_a_file_that_cannot_be_read() {
    let cfg = config();
    let (conn, _) = after_request(b"GET /a.txt HTTP/1.0\r\n\r\n");
    let (conn, _) = conn.step(Event::Canonical(Canonical::Path(b"/srv/www/a.txt".to_vec())), &cfg);
    let (conn, action) = conn.step(Event::Loaded(Loaded::Unreadable), &cfg);
    assert_eq!(written(conn, action).status_code, 403);
}

#[test]
fn get_of_a_directory() {
    let cfg = config();
    let (conn, _) = after_request(b"GET /docs HTTP/1.0\r\n\r\n");
    let (conn, _) = conn.step(Event::Canonical(Canonical::Path(b"/srv/www/docs".to_vec())), &cfg);
    let (conn, action) = conn.step(Event::Loaded(Loaded::Entries(vec![b"a".to_vec()])), &cfg);
    let response = written(conn, action);
    assert_eq!(response.status_code, 200);
    assert_eq!(
        response.body,
        b"<html><h1>Directory listing</h1><ul><li><a href=\"/\">..</a></li><li><a href=\"/docs/a\">a</a></li></ul></html>"
            .to_vec()
    );
}

#[test]
fn delete_is_not_allowed() {
    let (conn, action) = after_request(b"DELETE /index.html HTTP/1.0\r\n\r\n");
    let response = written(conn, action);
    assert_eq!(response.status_code, 405);
    assert_eq!(response.body, b"<html>405 Method Not Allowed</html>".to_vec());
}

#[test]
fn delete_of_a_script_is_not_allowed() {
    let (conn, action) = after_request(b"DELETE /scripts/echo HTTP/1.0\r\n\r\n");
    assert_eq!(written(conn, action).status_code, 405);
}

#[test]
fn post_to_a_file_is_not_allowed() {
    let (conn, action) = after_request(b"POST /index.html HTTP/1.0\r\n\r\n");
    assert_eq!(written(conn, action).status_code, 405);
}

#[test]
fn post_to_a_script_that_echoes() {
    let cfg = config();
    let (conn, action) =
        after_request(b"POST /scripts/echo HTTP/1.0\r\nContent-Length: 5\r\n\r\nhello");
    match &action {
        Action::Canonicalize(path) => assert_eq!(path, &b"/srv/www/scripts/echo".to_vec()),
        other => panic!("expected a path to make canonical, got {:?}", other),
    }
    let (conn, action) =
        conn.step(Event::Canonical(Canonical::Path(b"/srv/www/scripts/echo".to_vec())), &cfg);
    match &action {
        Action::Inspect(path) => assert_eq!(path, &b"/srv/www/scripts/echo".to_vec()),
        other => panic!("expected a path to inspect, got {:?}", other),
    }
    let (conn, action) = conn.step(Event::Inspected(FileKind::File), &cfg);
    assert_eq!(conn.state(), State::Dispatching);
    let stdin = match action {
        Action::Run(invocation) => {
            assert_eq!(invocation.executable, b"/srv/www/scripts/echo".to_vec());
            assert_eq!(invocation.environment.value(b"Method"), Some(&b"POST".to_vec()));
            assert_eq!(invocation.environment.value(b"Path"), Some(&b"/scripts/echo".to_vec()));
            invocation.stdin
        },
        other => panic!("expected a script to run, got {:?}", other),
    };
    assert_eq!(stdin, b"hello".to_vec());
    let mut stdout = b"Content-Type: text/plain\n\n".to_vec();
    stdout.extend_from_slice(&stdin);
    let outcome = ScriptOutcome::Exited { status: 0, stdout, stderr: Vec::new() };
    let (conn, action) = conn.step(Event::ScriptEnded(outcome), &cfg);
    let response = written(conn, action);
    assert_eq!(response.status_code, 200);
    assert_eq!(response.body, b"hello".to_vec());
    assert_eq!(header_value(&response, b"Content-Type"), Some(b"text/plain".to_vec()));
    assert_eq!(header_value(&response, b"Content-Length"), Some(b"5".to_vec()));
}

#[test]
fn get_of_a_script_that_fails() {
    let cfg = config();
    let (conn, _) = after_request(b"GET /scripts/fail?a=b HTTP/1.0\r\n\r\n");
    let (conn, _) = conn.step(Event::Canonical(Canonical::Path(b"/srv/www/scripts/fail".to_vec())), &cfg);
    let (conn, _) = conn.step(Event::Inspected(FileKind::File), &cfg);
    let outcome = ScriptOutcome::Exited {
        status: 1,
        stdout: b"partial".to_vec(),
        stderr: b"trace".to_vec(),
    };
    let (conn, action) = conn.step(Event::ScriptEnded(outcome), &cfg);
    let response = written(conn, action);
    assert_eq!(response.status_code, 500);
    assert_eq!(response.body, b"<html>500 Internal Server Error</html>".to_vec());
}

#[test]
fn a_script_that_runs_too_long() {
    let cfg = config();
    let (conn, _) = after_request(b"GET /scripts/slow HTTP/1.0\r\n\r\n");
    let (conn, _) = conn.step(Event::Canonical(Canonical::Path(b"/srv/www/scripts/slow".to_vec())), &cfg);
    let (conn, _) = conn.step(Event::Inspected(FileKind::File), &cfg);
    let (conn, action) = conn.step(Event::ScriptEnded(ScriptOutcome::TimedOut), &cfg);
    assert_eq!(written(conn, action).status_code, 500);
}

#[test]
fn a_script_that_cannot_be_started() {
    let cfg = config();
    let (conn, _) = after_request(b"GET /scripts/broken HTTP/1.0\r\n\r\n");
    let (conn, _) = conn.step(Event::Canonical(Canonical::Path(b"/srv/www/scripts/broken".to_vec())), &cfg);
    let (conn, _) = conn.step(Event::Inspected(FileKind::File), &cfg);
    let (conn, action) = conn.step(Event::ScriptEnded(ScriptOutcome::SpawnFailed), &cfg);
    assert_eq!(written(conn, action).status_code, 500);
}

#[test]
fn a_script_path_that_names_a_directory() {
    let cfg = config();
    let (conn, _) = after_request(b"GET /scripts/dir HTTP/1.0\r\n\r\n");
    let (conn, _) = conn.step(Event::Canonical(Canonical::Path(b"/srv/www/scripts/dir".to_vec())), &cfg);
    let (conn, action) = conn.step(Event::Inspected(FileKind::Directory), &cfg);
    assert_eq!(written(conn, action).status_code, 404);
}

#[test]
fn a_script_path_that_leads_out_of_the_scripts() {
    let cfg = config();
    let (conn, _) = after_request(b"GET /scripts/../index.html HTTP/1.0\r\n\r\n");
    let (conn, _) = conn.step(Event::Canonical(Canonical::Path(b"/srv/www/index.html".to_vec())), &cfg);
    let (conn, action) = conn.step(Event::Inspected(FileKind::File), &cfg);
    assert_eq!(written(conn, action).status_code, 403);
}

#[test]
fn a_malformed_request_line() {
    let (conn, action) = after_request(b"GET /index.html\r\n\r\n");
    let response = written(conn, action);
    assert_eq!(response.status_code, 400);
    assert_eq!(response.body, b"<html>400 Bad Request</html>".to_vec());
}

#[test]
fn a_request_in_pieces() {
    let cfg = config();
    let (conn, _) = Connection::start();
    let (conn, action) = conn.step(Event::Received(b"POST /scripts/e HT".to_vec()), &cfg);
    assert!(matches!(action, Action::Read));
    assert_eq!(conn.state(), State::AwaitingRequest);
    let (conn, action) =
        conn.step(Event::Received(b"TP/1.0\r\nContent-Length: 4\r\n\r\nab".to_vec()), &cfg);
    assert!(matches!(action, Action::Read));
    let (conn, action) = conn.step(Event::Received(b"cd".to_vec()), &cfg);
    assert!(matches!(action, Action::Proceed));
    assert_eq!(conn.state(), State::Parsing);
    let (conn, action) = conn.step(Event::Proceed, &cfg);
    assert!(matches!(action, Action::Canonicalize(_)));
    let (conn, _) = conn.step(Event::Canonical(Canonical::Path(b"/srv/www/scripts/e".to_vec())), &cfg);
    let (_, action) = conn.step(Event::Inspected(FileKind::File), &cfg);
    match action {
        Action::Run(invocation) => assert_eq!(invocation.stdin, b"abcd".to_vec()),
        other => panic!("expected a script to run, got {:?}", other),
    }
}

#[test]
fn a_request_cut_short_is_parsed_as_far_as_it_came() {
    let cfg = config();
    let (conn, _) = Connection::start();
    let (conn, action) = conn.step(Event::Received(b"GET /a.txt HTTP/1.0\r\nA: b".to_vec()), &cfg);
    assert!(matches!(action, Action::Read));
    let (conn, action) = conn.step(Event::EndOfInput, &cfg);
    assert!(matches!(action, Action::Proceed));
    let (conn, action) = conn.step(Event::Proceed, &cfg);
    assert_eq!(conn.state(), State::Dispatching);
    assert!(matches!(action, Action::Canonicalize(_)));
}

#[test]
fn nothing_but_the_end_of_input() {
    let cfg = config();
    let (conn, _) = Connection::start();
    let (conn, _) = conn.step(Event::EndOfInput, &cfg);
    let (conn, action) = conn.step(Event::Proceed, &cfg);
    assert_eq!(written(conn, action).status_code, 400);
}

#[test]
fn headers_beyond_the_limit() {
    let mut cfg = config();
    cfg.limits = Limits { max_header_bytes: 32, max_body_bytes: 8 };
    let (conn, _) = Connection::start();
    let (conn, action) =
        conn.step(Event::Received(b"GET / HTTP/1.0\r\nX: 0123456789012345678".to_vec()), &cfg);
    let response = written(conn, action);
    assert_eq!(response.status_code, 431);
    assert_eq!(
        response.body,
        b"<html>431 Request Header Fields Too Large</html>".to_vec()
    );
}

#[test]
fn a_body_beyond_the_limit() {
    let mut cfg = config();
    cfg.limits = Limits { max_header_bytes: 64, max_body_bytes: 8 };
    let (conn, _) = Connection::start();
    let (conn, action) = conn.step(
        Event::Received(b"POST /scripts/e HTTP/1.0\r\nContent-Length: 9\r\n\r\n".to_vec()),
        &cfg,
    );
    let response = written(conn, action);
    assert_eq!(response.status_code, 413);
    assert_eq!(response.body, b"<html>413 Payload Too Large</html>".to_vec());
}

#[test]
fn a_read_that_takes_too_long() {
    let cfg = config();
    let (conn, _) = Connection::start();
    let (conn, action) = conn.step(Event::TimedOut, &cfg);
    assert_eq!(written(conn, action).status_code, 500);
}

#[test]
fn a_failing_transport_ends_the_connection_at_once() {
    let cfg = config();
    let (conn, _) = Connection::start();
    let (conn, action) = conn.step(Event::TransportFailed, &cfg);
    assert_eq!(conn.state(), State::Closed);
    assert!(matches!(action, Action::Close));

    let (conn, _) = after_request(b"GET /a HTTP/1.0\r\n\r\n");
    let (conn, action) = conn.step(Event::TransportFailed, &cfg);
    assert_eq!(conn.state(), State::Closed);
    assert!(matches!(action, Action::Close));

    let (conn, action) = after_request(b"DELETE /a HTTP/1.0\r\n\r\n");
    assert!(matches!(action, Action::Write { .. }));
    let (conn, action) = conn.step(Event::TransportFailed, &cfg);
    assert_eq!(conn.state(), State::Closed);
    assert!(matches!(action, Action::Close));
}

#[test]
fn a_closed_connection_stays_closed() {
    let cfg = config();
    let (conn, _) = Connection::start();
    let (conn, _) = conn.step(Event::TransportFailed, &cfg);
    let (conn, action) = conn.step(Event::Received(b"GET / HTTP/1.0\r\n\r\n".to_vec()), &cfg);
    assert_eq!(conn.state(), State::Closed);
    assert!(matches!(action, Action::Close));
    let (conn, action) = conn.step(Event::Proceed, &cfg);
    assert_eq!(conn.state(), State::Closed);
    assert!(matches!(action, Action::Close));
}

#[test]
fn an_event_that_is_not_awaited_ends_the_connection() {
    let cfg = config();
    let (conn, _) = Connection::start();
    let (conn, action) = conn.step(Event::Written, &cfg);
    assert_eq!(conn.state(), State::Closed);
    assert!(matches!(action, Action::Close));

    let (conn, _) = after_request(b"GET /a HTTP/1.0\r\n\r\n");
    let (conn, action) = conn.step(Event::Inspected(FileKind::File), &cfg);
    assert_eq!(conn.state(), State::Closed);
    assert!(matches!(action, Action::Close));
}
