//! The connection handler: a state machine that decides, after each piece
//! of outside work, what is to be done next. The caller does the work,
//! reading, asking the file system, running the script, writing, and hands
//! back what came of it.

use vstd::prelude::*;
use vstd::string::StringSliceAdditionalSpecFns;
use crate::bytes::{append, bytes_eq, has_prefix, starts_with, to_vec};
use crate::cgi::{ScriptInvocation, ScriptInvocationView, ScriptOutcome, invocation,
    prepare_invocation, outcome_result, outcome_response, lemma_script_result_fits};
use crate::decimal::decimal;
use crate::mime::content_type_of;
use crate::path::within;
use crate::reader::{fits_wire, read_back, lemma_read_back_wire, lemma_error_page_fits};
use crate::config::ServerConfig;
use crate::error::{ErrorKind, status_of};
use crate::path::{Canonical, CanonicalView, FileKind, ResolvedPath, ResolvedPathView, joined,
    join_root, resolution};
use crate::request::{Request, RequestView, Framing, framing, frame, parsed, parse_request};
use crate::response::{Response, ResponseView, wire, serialize, error_page, error_response,
    response_with, body_headers, connection_close};
use crate::static_files::{Loaded, served, serve, lemma_served_fits};

verus! {

/// The states that a connection passes through, in this order.
#[derive(Clone, Copy, Debug, PartialEq, Eq, Structural)]
pub enum State {
    /// The request is being read.
    AwaitingRequest,
    /// The request is there and is about to be parsed.
    Parsing,
    /// The request is being served: its path resolved, its file read or
    /// its script run.
    Dispatching,
    /// The response is being written.
    Responding,
    /// The connection is done.
    Closed,
}

/// A connection and what it holds in its state.
#[derive(Debug)]
pub enum Connection {
    /// Reading the request; `received` holds the bytes so far.
    AwaitingRequest { received: Vec<u8> },
    /// About to parse `raw`.
    Parsing { raw: Vec<u8> },
    /// Waiting for the canonical form of the request's path.
    Resolving { request: Request },
    /// Waiting to learn what the script's path names.
    Inspecting { request: Request, path: ResolvedPath },
    /// Waiting for the contents of a file or a directory.
    Loading { path: ResolvedPath },
    /// Waiting for the script to end.
    Running,
    /// Waiting for the response to be written.
    Responding,
    /// Done.
    Closed,
}

/// What a [`Connection`] stands for.
pub enum ConnectionView {
    AwaitingRequest { received: Seq<u8> },
    Parsing { raw: Seq<u8> },
    Resolving { request: RequestView },
    Inspecting { request: RequestView, path: ResolvedPathView },
    Loading { path: ResolvedPathView },
    Running,
    Responding,
    Closed,
}

impl View for Connection {
    type V = ConnectionView;

    open spec fn view(&self) -> ConnectionView {
        match *self {
            Connection::AwaitingRequest { received } => ConnectionView::AwaitingRequest {
                received: received@,
            },
            Connection::Parsing { raw } => ConnectionView::Parsing { raw: raw@ },
            Connection::Resolving { request } => ConnectionView::Resolving { request: request@ },
            Connection::Inspecting { request, path } => ConnectionView::Inspecting {
                request: request@,
                path: path@,
            },
            Connection::Loading { path } => ConnectionView::Loading { path: path@ },
            Connection::Running => ConnectionView::Running,
            Connection::Responding => ConnectionView::Responding,
            Connection::Closed => ConnectionView::Closed,
        }
    }
}

impl ConnectionView {
    /// The state that the connection is in.
    pub open spec fn state(self) -> State {
        match self {
            ConnectionView::AwaitingRequest { .. } => State::AwaitingRequest,
            ConnectionView::Parsing { .. } => State::Parsing,
            ConnectionView::Resolving { .. } => State::Dispatching,
            ConnectionView::Inspecting { .. } => State::Dispatching,
            ConnectionView::Loading { .. } => State::Dispatching,
            ConnectionView::Running => State::Dispatching,
            ConnectionView::Responding => State::Responding,
            ConnectionView::Closed => State::Closed,
        }
    }
}

/// The outside work that a connection asks for.
#[derive(Debug)]
pub enum Action {
    /// Read more bytes from the connection.
    Read,
    /// Nothing: step on with [`Event::Proceed`].
    Proceed,
    /// Make this path canonical.
    Canonicalize(Vec<u8>),
    /// Find out what this path names.
    Inspect(Vec<u8>),
    /// Read the file or the directory at this path.
    Load(Vec<u8>),
    /// Run this script.
    Run(ScriptInvocation),
    /// Write these bytes, the response with this status.
    Write { status: u16, bytes: Vec<u8> },
    /// Close the connection.
    Close,
}

/// What an [`Action`] stands for.
pub enum ActionView {
    Read,
    Proceed,
    Canonicalize(Seq<u8>),
    Inspect(Seq<u8>),
    Load(Seq<u8>),
    Run(ScriptInvocationView),
    Write { status: u16, bytes: Seq<u8> },
    Close,
}

impl View for Action {
    type V = ActionView;

    open spec fn view(&self) -> ActionView {
        match *self {
            Action::Read => ActionView::Read,
            Action::Proceed => ActionView::Proceed,
            Action::Canonicalize(p) => ActionView::Canonicalize(p@),
            Action::Inspect(p) => ActionView::Inspect(p@),
            Action::Load(p) => ActionView::Load(p@),
            Action::Run(inv) => ActionView::Run(inv@),
            Action::Write { status, bytes } => ActionView::Write { status: status, bytes: bytes@ },
            Action::Close => ActionView::Close,
        }
    }
}

/// What came of the outside work.
#[derive(Debug)]
pub enum Event {
    /// These bytes were read.
    Received(Vec<u8>),
    /// The peer will send no more.
    EndOfInput,
    /// Nothing was to be done.
    Proceed,
    /// What came of making the path canonical.
    Canonical(Canonical),
    /// What the path names.
    Inspected(FileKind),
    /// What was read at the path.
    Loaded(Loaded),
    /// How the script ended.
    ScriptEnded(ScriptOutcome),
    /// The bytes were written.
    Written,
    /// The work took longer than allowed.
    TimedOut,
    /// The transport failed.
    TransportFailed,
}

/// The end of a connection.
pub open spec fn shut() -> (ConnectionView, ActionView) {
    (ConnectionView::Closed, ActionView::Close)
}

/// The step that answers with `r`.
pub open spec fn respond(r: ResponseView) -> (ConnectionView, ActionView) {
    (ConnectionView::Responding, ActionView::Write { status: r.status_code, bytes: wire(r) })
}

/// The step that answers a failure: with its error page, or, where the
/// transport failed, with the end of the connection.
pub open spec fn fail(kind: ErrorKind) -> (ConnectionView, ActionView) {
    match status_of(kind) {
        Some(code) => respond(error_page(code)),
        None => shut(),
    }
}

/// Whether `target_path` names a script: whether it begins with
/// `/scripts/`.
pub open spec fn is_script_target(target_path: Seq<u8>) -> bool {
    starts_with(target_path, "/scripts/".spec_bytes())
}

/// Whether the method of `req` is served at its path: `GET` everywhere,
/// `POST` for scripts.
pub open spec fn method_served(req: RequestView) -> bool {
    req.method == "GET".spec_bytes() || (req.method == "POST".spec_bytes() && is_script_target(
        req.target_path,
    ))
}

/// The step after the bytes `received` have come in.
pub open spec fn after_received(received: Seq<u8>, config: ServerConfig) -> (
    ConnectionView,
    ActionView,
) {
    match framing(received, config.limits) {
        Framing::Incomplete => (
            ConnectionView::AwaitingRequest { received: received },
            ActionView::Read,
        ),
        Framing::Complete => (ConnectionView::Parsing { raw: received }, ActionView::Proceed),
        Framing::HeaderTooLarge => fail(ErrorKind::HeaderTooLarge),
        Framing::PayloadTooLarge => fail(ErrorKind::PayloadTooLarge),
    }
}

/// The step that parses `raw`: on to resolving the path of a request that
/// is well formed and whose method is served.
pub open spec fn after_parsing(raw: Seq<u8>, config: ServerConfig) -> (ConnectionView, ActionView) {
    match parsed(raw) {
        Err(e) => fail(e),
        Ok(request) => if method_served(request) {
            (
                ConnectionView::Resolving { request: request },
                ActionView::Canonicalize(joined(config.root_directory@, request.target_path)),
            )
        } else {
            fail(ErrorKind::MethodNotAllowed)
        },
    }
}

/// The step after the path of `request` was made canonical.
pub open spec fn after_canonical(
    request: RequestView,
    canonical: CanonicalView,
    config: ServerConfig,
) -> (ConnectionView, ActionView) {
    match resolution(config.root_directory@, request.path, canonical) {
        Err(e) => fail(e),
        Ok(path) => if is_script_target(request.target_path) {
            (
                ConnectionView::Inspecting { request: request, path: path },
                ActionView::Inspect(path.resolved),
            )
        } else {
            (ConnectionView::Loading { path: path }, ActionView::Load(path.resolved))
        },
    }
}

/// The step after it is known what the script's path names.
pub open spec fn after_inspected(request: RequestView, path: ResolvedPathView, kind: FileKind) -> (
    ConnectionView,
    ActionView,
) {
    match invocation(path, kind, request) {
        Err(e) => fail(e),
        Ok(inv) => (ConnectionView::Running, ActionView::Run(inv)),
    }
}

/// The step after the file or directory was read.
pub open spec fn after_loaded(path: ResolvedPathView, loaded: Loaded) -> (
    ConnectionView,
    ActionView,
) {
    match served(path, loaded) {
        Ok(r) => respond(r),
        Err(e) => fail(e),
    }
}

/// The step after the script ended.
pub open spec fn after_script(outcome: ScriptOutcome) -> (ConnectionView, ActionView) {
    match outcome_result(outcome) {
        Ok(r) => respond(r),
        Err(e) => fail(e),
    }
}

/// The step of a connection `c` on the event `e`: its next state and the
/// work that it asks for. A failure of the transport ends the connection
/// in every state. A timeout while the request is read or served is
/// answered with the page for 500. An event that the state does not await
/// ends the connection.
pub open spec fn next(c: ConnectionView, e: Event, config: ServerConfig) -> (
    ConnectionView,
    ActionView,
) {
    match (c, e) {
        (_, Event::TransportFailed) => fail(ErrorKind::TransportFailure),
        (ConnectionView::Closed, _) => shut(),
        (ConnectionView::Responding, _) => shut(),
        (_, Event::TimedOut) => fail(ErrorKind::Timeout),
        (ConnectionView::AwaitingRequest { received }, Event::Received(chunk)) => after_received(
            received + chunk@,
            config,
        ),
        (ConnectionView::AwaitingRequest { received }, Event::EndOfInput) => (
            ConnectionView::Parsing { raw: received },
            ActionView::Proceed,
        ),
        (ConnectionView::Parsing { raw }, Event::Proceed) => after_parsing(raw, config),
        (ConnectionView::Resolving { request }, Event::Canonical(canonical)) => after_canonical(
            request,
            canonical@,
            config,
        ),
        (ConnectionView::Inspecting { request, path }, Event::Inspected(kind)) => after_inspected(
            request,
            path,
            kind,
        ),
        (ConnectionView::Loading { path }, Event::Loaded(loaded)) => after_loaded(path, loaded),
        (ConnectionView::Running, Event::ScriptEnded(outcome)) => after_script(outcome),
        _ => shut(),
    }
}

/// Tests whether `target_path` names a script.
pub fn names_script(target_path: &[u8]) -> (r: bool)
    ensures
        r == is_script_target(target_path@),
{
    has_prefix(target_path, "/scripts/".as_bytes())
}

/// Tests whether the method of `request` is served at its path.
pub fn serves_method(request: &Request) -> (r: bool)
    ensures
        r == method_served(request@),
{
    bytes_eq(request.method.as_slice(), "GET".as_bytes()) || (bytes_eq(
        request.method.as_slice(),
        "POST".as_bytes(),
    ) && names_script(request.target_path.as_slice()))
}

/// Steps to the writing of `r`.
fn respond_with(r: Response) -> (s: (Connection, Action))
    ensures
        (s.0@, s.1@) == respond(r@),
{
    let bytes = serialize(&r);
    (Connection::Responding, Action::Write { status: r.status_code, bytes })
}

/// Steps to the answer for a failure of kind `kind`.
fn fail_with(kind: ErrorKind) -> (s: (Connection, Action))
    ensures
        (s.0@, s.1@) == fail(kind),
{
    match error_response(kind) {
        Some(r) => respond_with(r),
        None => (Connection::Closed, Action::Close),
    }
}

impl Connection {
    /// A connection on which nothing was read yet. Its first work is to
    /// read.
    pub fn start() -> (s: (Connection, Action))
        ensures
            s.0@ == (ConnectionView::AwaitingRequest { received: Seq::<u8>::empty() }),
            s.1@ == ActionView::Read,
    {
        (Connection::AwaitingRequest { received: Vec::new() }, Action::Read)
    }

    /// The state that the connection is in.
    pub fn state(&self) -> (s: State)
        ensures
            s == self@.state(),
    {
        match self {
            Connection::AwaitingRequest { .. } => State::AwaitingRequest,
            Connection::Parsing { .. } => State::Parsing,
            Connection::Resolving { .. } => State::Dispatching,
            Connection::Inspecting { .. } => State::Dispatching,
            Connection::Loading { .. } => State::Dispatching,
            Connection::Running => State::Dispatching,
            Connection::Responding => State::Responding,
            Connection::Closed => State::Closed,
        }
    }

    /// Takes the step that the event `event` calls for: gives the
    /// connection in its next state and the work to do next.
    pub fn step(self, event: Event, config: &ServerConfig) -> (s: (Connection, Action))
        ensures
            (s.0@, s.1@) == next(self@, event, *config),
    {
        match (self, event) {
            (_, Event::TransportFailed) => fail_with(ErrorKind::TransportFailure),
            (Connection::Closed, _) => (Connection::Closed, Action::Close),
            (Connection::Responding, _) => (Connection::Closed, Action::Close),
            (_, Event::TimedOut) => fail_with(ErrorKind::Timeout),
            (Connection::AwaitingRequest { received }, Event::Received(chunk)) => {
                let mut received = received;
                append(&mut received, chunk.as_slice());
                match frame(received.as_slice(), config.limits) {
                    Framing::Incomplete => (Connection::AwaitingRequest { received }, Action::Read),
                    Framing::Complete => (Connection::Parsing { raw: received }, Action::Proceed),
                    Framing::HeaderTooLarge => fail_with(ErrorKind::HeaderTooLarge),
                    Framing::PayloadTooLarge => fail_with(ErrorKind::PayloadTooLarge),
                }
            },
            (Connection::AwaitingRequest { received }, Event::EndOfInput) => (
                Connection::Parsing { raw: received },
                Action::Proceed,
            ),
            (Connection::Parsing { raw }, Event::Proceed) => {
                match parse_request(raw.as_slice()) {
                    Err(e) => fail_with(e),
                    Ok(request) => {
                        if serves_method(&request) {
                            let path = join_root(
                                config.root_directory.as_slice(),
                                request.target_path.as_slice(),
                            );
                            (Connection::Resolving { request }, Action::Canonicalize(path))
                        } else {
                            fail_with(ErrorKind::MethodNotAllowed)
                        }
                    },
                }
            },
            (Connection::Resolving { request }, Event::Canonical(canonical)) => {
                match ResolvedPath::resolve(
                    config.root_directory.as_slice(),
                    request.path.as_slice(),
                    canonical,
                ) {
                    Err(e) => fail_with(e),
                    Ok(path) => {
                        let target = to_vec(path.resolved());
                        if names_script(request.target_path.as_slice()) {
                            (Connection::Inspecting { request, path }, Action::Inspect(target))
                        } else {
                            (Connection::Loading { path }, Action::Load(target))
                        }
                    },
                }
            },
            (Connection::Inspecting { request, path }, Event::Inspected(kind)) => {
                match prepare_invocation(&path, kind, &request) {
                    Err(e) => fail_with(e),
                    Ok(inv) => (Connection::Running, Action::Run(inv)),
                }
            },
            (Connection::Loading { path }, Event::Loaded(loaded)) => {
                match serve(&path, loaded) {
                    Ok(r) => respond_with(r),
                    Err(e) => fail_with(e),
                }
            },
            (Connection::Running, Event::ScriptEnded(outcome)) => {
                match outcome_response(&outcome) {
                    Ok(r) => respond_with(r),
                    Err(e) => fail_with(e),
                }
            },
            _ => (Connection::Closed, Action::Close),
        }
    }
}

/// The place of a state in the order of states.
pub open spec fn order(s: State) -> int {
    match s {
        State::AwaitingRequest => 0,
        State::Parsing => 1,
        State::Dispatching => 2,
        State::Responding => 3,
        State::Closed => 4,
    }
}

/// A connection that is closed stays closed, whatever comes, and a failure
/// of the transport closes a connection in every state: nothing more is
/// written.
pub proof fn lemma_closed_is_final(c: ConnectionView, e: Event, config: ServerConfig)
    ensures
        next(ConnectionView::Closed, e, config) == shut(),
        next(c, Event::TransportFailed, config) == shut(),
{
}

/// No step leads back: the state after a step is the state before it or a
/// later one. A request is parsed once and answered once.
pub proof fn lemma_no_step_back(c: ConnectionView, e: Event, config: ServerConfig)
    ensures
        order(next(c, e, config).0.state()) >= order(c.state()),
        c.state() == State::Responding ==> next(c, e, config).0.state() == State::Closed,
{
}

/// A failure other than that of the transport is answered: the connection
/// goes on to write the error page of the failure's status, and nothing
/// else.
pub proof fn lemma_failure_is_answered(kind: ErrorKind)
    requires
        kind != ErrorKind::TransportFailure,
    ensures
        status_of(kind) matches Some(code) && fail(kind) == (
            ConnectionView::Responding,
            ActionView::Write { status: code, bytes: wire(error_page(code)) },
        ),
{
}

/// Whether the step `s` writes nothing, or writes bytes from which a
/// response of the status that it names can be read back.
pub open spec fn writes_a_response(s: (ConnectionView, ActionView)) -> bool {
    s.1 matches ActionView::Write { status, bytes } ==> read_back(bytes) matches Some(back)
        && back.status_code == status && back.headers.len() > 0 && back.headers.last()
        == connection_close()
}

/// The step that answers with a response which fits the wire writes that
/// response.
proof fn lemma_respond_writes(r: ResponseView)
    requires
        fits_wire(r),
    ensures
        writes_a_response(respond(r)),
{
    lemma_read_back_wire(r);
}

/// The step that answers a failure writes its error page, or nothing.
proof fn lemma_fail_writes(kind: ErrorKind)
    ensures
        writes_a_response(fail(kind)),
{
    match status_of(kind) {
        Some(code) => {
            lemma_error_page_fits(code);
            lemma_respond_writes(error_page(code));
        },
        None => {},
    }
}

/// Whatever a connection writes is a response: the bytes of every `Write`
/// read back as a response of the status that the action names, with the
/// `Connection` header last.
pub proof fn lemma_every_write_is_a_response(c: ConnectionView, e: Event, config: ServerConfig)
    ensures
        writes_a_response(next(c, e, config)),
{
    lemma_fail_writes(ErrorKind::TransportFailure);
    lemma_fail_writes(ErrorKind::Timeout);
    lemma_fail_writes(ErrorKind::HeaderTooLarge);
    lemma_fail_writes(ErrorKind::PayloadTooLarge);
    lemma_fail_writes(ErrorKind::MethodNotAllowed);
    match (c, e) {
        (ConnectionView::Parsing { raw }, Event::Proceed) => {
            match parsed(raw) {
                Err(kind) => lemma_fail_writes(kind),
                Ok(_) => {},
            }
        },
        (ConnectionView::Resolving { request }, Event::Canonical(canonical)) => {
            match resolution(config.root_directory@, request.path, canonical@) {
                Err(kind) => lemma_fail_writes(kind),
                Ok(_) => {},
            }
        },
        (ConnectionView::Inspecting { request, path }, Event::Inspected(kind)) => {
            match invocation(path, kind, request) {
                Err(kind) => lemma_fail_writes(kind),
                Ok(_) => {},
            }
        },
        (ConnectionView::Loading { path }, Event::Loaded(loaded)) => {
            lemma_served_fits(path, loaded);
            match served(path, loaded) {
                Ok(r) => lemma_respond_writes(r),
                Err(kind) => lemma_fail_writes(kind),
            }
        },
        (ConnectionView::Running, Event::ScriptEnded(outcome)) => {
            match outcome {
                ScriptOutcome::Exited { status, stdout, stderr } => {
                    lemma_script_result_fits(status, stdout@);
                },
                _ => {},
            }
            match outcome_result(outcome) {
                Ok(r) => lemma_respond_writes(r),
                Err(kind) => lemma_fail_writes(kind),
            }
        },
        _ => {},
    }
}

/// A request whose path leads out of the root is answered with the page
/// for 403: nothing is read and nothing is run.
pub proof fn lemma_outside_the_root_is_forbidden(
    request: RequestView,
    canonical: Canonical,
    config: ServerConfig,
)
    requires
        canonical@ matches CanonicalView::Path(c) && !within(config.root_directory@, c),
    ensures
        next(ConnectionView::Resolving { request: request }, Event::Canonical(canonical), config)
            == respond(error_page(403)),
{
}

/// A request for what does not exist is answered with the page for 404.
pub proof fn lemma_missing_is_not_found(request: RequestView, config: ServerConfig)
    ensures
        next(
            ConnectionView::Resolving { request: request },
            Event::Canonical(Canonical::Missing),
            config,
        ) == respond(error_page(404)),
        error_page(404).status_code == 404,
        error_page(404).body == "<html>404 Not Found</html>".spec_bytes(),
{
    reveal_strlit("<html>404 Not Found</html>");
    reveal_strlit("<html>");
    reveal_strlit("Not Found");
    reveal_strlit("</html>");
    vstd::string::is_ascii_spec_bytes("<html>404 Not Found</html>");
    vstd::string::is_ascii_spec_bytes("<html>");
    vstd::string::is_ascii_spec_bytes("Not Found");
    vstd::string::is_ascii_spec_bytes("</html>");
    reveal_with_fuel(decimal, 3);
    assert(decimal(404) =~= seq![52u8, 48u8, 52u8]);
    assert(error_page(404).body =~= "<html>404 Not Found</html>".spec_bytes());
}

/// A file that was read is answered with 200, and what is written reads
/// back as the status 200, the content type that the table gives for the
/// file, the length of its contents, the `Connection` header, and the
/// contents byte for byte.
pub proof fn lemma_a_file_is_answered(path: ResolvedPathView, contents: Vec<u8>, config: ServerConfig)
    ensures
        next(
            ConnectionView::Loading { path: path },
            Event::Loaded(Loaded::Contents(contents)),
            config,
        ) == respond(response_with(200, content_type_of(path.resolved), Seq::empty(), contents@)),
        read_back(
            wire(response_with(200, content_type_of(path.resolved), Seq::empty(), contents@)),
        ) matches Some(back) && back.status_code == 200 && back.headers == body_headers(
            content_type_of(path.resolved),
            contents@,
        ).push(connection_close()) && back.body == contents@,
{
    let r = response_with(200, content_type_of(path.resolved), Seq::empty(), contents@);
    lemma_served_fits(path, Loaded::Contents(contents));
    lemma_read_back_wire(r);
    assert(r.headers =~= body_headers(content_type_of(path.resolved), contents@));
}

/// Reading the same contents at the same path twice is answered twice
/// with the same bytes.
pub proof fn lemma_answers_repeat(
    path: ResolvedPathView,
    first: Vec<u8>,
    second: Vec<u8>,
    config: ServerConfig,
)
    requires
        first@ == second@,
    ensures
        next(ConnectionView::Loading { path: path }, Event::Loaded(Loaded::Contents(first)), config)
            == next(
            ConnectionView::Loading { path: path },
            Event::Loaded(Loaded::Contents(second)),
            config,
        ),
{
}

} // verus!
