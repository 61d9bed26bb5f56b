//! The script bridge: what a script is started with, and how what it
//! prints becomes a response.

use vstd::prelude::*;
use vstd::string::StringSliceAdditionalSpecFns;
use crate::bytes::{eq_ignore_case, bytes_eq_ignore_case, bytes_eq, to_vec, trim, trim_bytes, append};
use crate::environment::Environment;
use crate::error::ErrorKind;
use crate::path::{ResolvedPath, ResolvedPathView, FileKind, within, scripts_root};
use crate::request::{Request, RequestView};
use crate::headers::{Pair, push_pair, header_block, header_block_end, header_block_lines,
    scan_header_block, lookup, find_value, lemma_block_ends_both_ways, lemma_header_block_lines,
    lemma_header_block_len, lemma_lines_after_block};
use crate::lines::lines_of;
use crate::reader::{fits_wire, header_fits, on_one_line, lemma_header_block_fits,
    lemma_response_with_fits};
use crate::bytes::is_trimmed;
use crate::response::{Response, ResponseView, response_with, content_type_name,
    content_length_name, body_headers};

verus! {

/// The headers that a script printed: those of its header block, where an
/// empty line ends that block. Output without an empty line has no headers.
pub open spec fn script_headers(output: Seq<u8>) -> Seq<(Seq<u8>, Seq<u8>)> {
    if header_block_end(output) is Some {
        header_block(output)
    } else {
        Seq::empty()
    }
}

/// Where the body begins in a script's output: after the first empty line,
/// or at the start where there is none.
pub open spec fn script_body_start(output: Seq<u8>) -> int {
    match header_block_end(output) {
        Some(k) => k,
        None => 0,
    }
}

/// The body that a script printed.
pub open spec fn script_body(output: Seq<u8>) -> Seq<u8> {
    output.skip(script_body_start(output))
}

/// The index of the line with which the body begins in a script's output:
/// the number of lines up to and including the first empty line, or 0
/// where no line is empty.
pub open spec fn script_body_line(output: Seq<u8>) -> int {
    match header_block_lines(output) {
        Some(k) => k,
        None => 0,
    }
}

/// Parses the header block of a script's output. The result holds the
/// headers and the index of the line with which the body begins.
pub fn parse_headers(output: &[u8]) -> (r: (Vec<Pair>, usize))
    ensures
        r.0.deep_view() == script_headers(output@),
        r.1 == script_body_line(output@),
{
    let block = scan_header_block(output);
    match block.end {
        Some(_) => (block.headers, block.lines),
        None => {
            let none: Vec<Pair> = Vec::new();
            assert(none.deep_view() =~= Seq::<(Seq<u8>, Seq<u8>)>::empty());
            (none, block.lines)
        },
    }
}

/// The line index that [`parse_headers`] gives is that of the line after
/// the first empty one. It is 0 exactly where no line is empty; otherwise
/// the line before it is empty and every earlier line is not. It is never
/// more than the number of lines, and there are never more headers than
/// lines before the empty one.
pub proof fn lemma_body_line(output: Seq<u8>)
    ensures
        0 <= script_body_line(output) <= lines_of(output).len(),
        script_headers(output).len() <= lines_of(output).len(),
        script_body_line(output) > 0 ==> script_headers(output).len() < script_body_line(output),
        script_body_line(output) == 0 <==> forall|j: int|
            0 <= j < lines_of(output).len() ==> (#[trigger] lines_of(output)[j]).len() > 0,
        script_body_line(output) > 0 ==> lines_of(output)[script_body_line(output) - 1].len() == 0
            && forall|j: int|
            0 <= j < script_body_line(output) - 1 ==> (#[trigger] lines_of(output)[j]).len() > 0,
        script_body_line(output) > 0 <==> header_block_end(output) is Some,
{
    lemma_header_block_lines(output);
    lemma_block_ends_both_ways(output);
    lemma_header_block_len(output);
    let k = script_body_line(output);
    if k > 0 {
        assert(lines_of(output)[k - 1].len() == 0);
    }
}

/// The body that a script printed consists of the lines from the index
/// that [`parse_headers`] gives.
pub proof fn lemma_body_is_the_lines_after(output: Seq<u8>)
    ensures
        lines_of(script_body(output)) == lines_of(output).skip(script_body_line(output)),
{
    lemma_lines_after_block(output);
    lemma_block_ends_both_ways(output);
    if header_block_end(output) is None {
        assert(output.skip(0) =~= output);
        assert(lines_of(output).skip(0) =~= lines_of(output));
    }
}

/// Whether a header of this name describes the body. The bridge writes
/// such headers itself and passes none of the script's on.
pub open spec fn describes_body(name: Seq<u8>) -> bool {
    eq_ignore_case(name, content_type_name()) || eq_ignore_case(name, content_length_name())
}

/// The headers of `hs` that are passed on as they are: all but those that
/// describe the body, in order.
pub open spec fn passed_on(hs: Seq<(Seq<u8>, Seq<u8>)>) -> Seq<(Seq<u8>, Seq<u8>)>
    decreases hs.len(),
{
    if hs.len() == 0 {
        Seq::empty()
    } else if describes_body(hs[0].0) {
        passed_on(hs.skip(1))
    } else {
        seq![hs[0]] + passed_on(hs.skip(1))
    }
}

/// Copies the headers that are passed on.
fn headers_passed_on(hs: &Vec<Pair>) -> (r: Vec<Pair>)
    ensures
        r.deep_view() == passed_on(hs.deep_view()),
{
    let mut out: Vec<Pair> = Vec::new();
    let mut i: usize = 0;
    let ghost all = hs.deep_view();
    assert(all.skip(0) =~= all);
    assert(out.deep_view() + passed_on(all) =~= passed_on(all));
    while i < hs.len()
        invariant
            i <= hs.len(),
            all == hs.deep_view(),
            passed_on(all) == out.deep_view() + passed_on(all.skip(i as int)),
        decreases hs.len() - i,
    {
        let ghost cur = all.skip(i as int);
        let ghost before = out.deep_view();
        assert(cur[0] == hs@[i as int]@);
        assert(cur.skip(1) =~= all.skip(i + 1));
        let name = hs[i].key.as_slice();
        if !(bytes_eq_ignore_case(name, "Content-Type".as_bytes()) || bytes_eq_ignore_case(
            name,
            "Content-Length".as_bytes(),
        )) {
            let p = hs[i].clone();
            push_pair(&mut out, p);
            assert(before + (seq![p@] + passed_on(cur.skip(1))) =~= out.deep_view() + passed_on(
                cur.skip(1),
            ));
        }
        i += 1;
    }
    assert(out.deep_view() + Seq::<(Seq<u8>, Seq<u8>)>::empty() =~= out.deep_view());
    out
}

/// The content type of a script's output when it names none.
pub open spec fn default_script_type() -> Seq<u8> {
    "text/plain".spec_bytes()
}

/// The content type that a script named: the value of its first
/// `Content-Type` header, whatever the case of the name, or the default.
pub open spec fn script_content_type(hs: Seq<(Seq<u8>, Seq<u8>)>) -> Seq<u8> {
    match lookup(hs, content_type_name()) {
        Some(v) => v,
        None => default_script_type(),
    }
}

/// What a script's run comes to when it ended with `status` after printing
/// `output`. Status zero gives the response 200 with the script's body, its
/// content type, the length of the body as it was counted here, and the
/// script's other headers. Any other status is a failure of the script,
/// whatever it printed.
pub open spec fn script_result(status: i32, output: Seq<u8>) -> Result<ResponseView, ErrorKind> {
    if status == 0 {
        Ok(
            response_with(
                200,
                script_content_type(script_headers(output)),
                passed_on(script_headers(output)),
                script_body(output),
            ),
        )
    } else {
        Err(ErrorKind::ScriptFailed)
    }
}

/// Builds the response to a request whose script ended with `status` after
/// printing `output` on its standard output.
pub fn script_response(status: i32, output: &[u8]) -> (r: Result<Response, ErrorKind>)
    ensures
        match r {
            Ok(resp) => script_result(status, output@) == Ok::<ResponseView, ErrorKind>(resp@),
            Err(e) => script_result(status, output@) == Err::<ResponseView, ErrorKind>(e),
        },
{
    if status != 0 {
        return Err(ErrorKind::ScriptFailed);
    }
    let block = scan_header_block(output);
    let (headers, start): (Vec<Pair>, usize) = match block.end {
        Some(k) => (block.headers, k),
        None => (Vec::new(), 0),
    };
    assert(block.end is None ==> headers.deep_view() =~= Seq::<(Seq<u8>, Seq<u8>)>::empty());
    let content_type: Vec<u8> = match find_value(&headers, "Content-Type".as_bytes()) {
        Some(v) => to_vec(v.as_slice()),
        None => to_vec("text/plain".as_bytes()),
    };
    let extra = headers_passed_on(&headers);
    let body = to_vec(vstd::slice::slice_subrange(output, start, output.len()));
    Ok(Response::with_body(200, content_type, extra, body))
}

/// A script that prints no empty line has printed a body and nothing else:
/// the response carries all of its output, as `text/plain`.
pub proof fn lemma_output_without_empty_line(output: Seq<u8>)
    requires
        header_block_end(output) is None,
    ensures
        script_result(0, output) matches Ok(r) && r.body == output && r.headers == body_headers(
            default_script_type(),
            output,
        ),
{
    assert(output.skip(0) =~= output);
    assert(passed_on(Seq::<(Seq<u8>, Seq<u8>)>::empty()) =~= Seq::<(Seq<u8>, Seq<u8>)>::empty());
    assert(body_headers(default_script_type(), output) + Seq::<(Seq<u8>, Seq<u8>)>::empty()
        =~= body_headers(default_script_type(), output));
}

/// Whatever a script printed, the response tells the length of the body
/// that it carries, not a length that the script claimed.
pub proof fn lemma_length_is_counted(output: Seq<u8>)
    ensures
        script_result(0, output) matches Ok(r) && lookup(r.headers, content_length_name()) == Some(
            crate::decimal::decimal(r.body.len()),
        ),
{
    crate::response::lemma_body_is_described(
        200,
        script_content_type(script_headers(output)),
        passed_on(script_headers(output)),
        script_body(output),
    );
}

/// The headers that are passed on fit a line where all headers do.
proof fn lemma_passed_on_fits(hs: Seq<(Seq<u8>, Seq<u8>)>)
    requires
        forall|i: int| 0 <= i < hs.len() ==> header_fits(#[trigger] hs[i]),
    ensures
        forall|i: int| 0 <= i < passed_on(hs).len() ==> header_fits(#[trigger] passed_on(hs)[i]),
    decreases hs.len(),
{
    if hs.len() > 0 {
        let rest = hs.skip(1);
        assert forall|i: int| 0 <= i < rest.len() implies header_fits(#[trigger] rest[i]) by {
            assert(rest[i] == hs[i + 1]);
        }
        lemma_passed_on_fits(rest);
        let out = passed_on(hs);
        assert forall|i: int| 0 <= i < out.len() implies header_fits(#[trigger] out[i]) by {
            if describes_body(hs[0].0) {
                assert(out[i] == passed_on(rest)[i]);
            } else if i == 0 {
                assert(out[0] == hs[0]);
            } else {
                assert(out[i] == passed_on(rest)[i - 1]);
            }
        }
    }
}

/// The content type that a script named fits a line where all of its
/// headers do.
proof fn lemma_script_content_type_fits(hs: Seq<(Seq<u8>, Seq<u8>)>)
    requires
        forall|i: int| 0 <= i < hs.len() ==> header_fits(#[trigger] hs[i]),
    ensures
        on_one_line(script_content_type(hs)),
        is_trimmed(script_content_type(hs)),
    decreases hs.len(),
{
    if hs.len() == 0 {
        reveal_strlit("text/plain");
        vstd::string::is_ascii_spec_bytes("text/plain");
    } else if eq_ignore_case(hs[0].0, content_type_name()) {
        assert(header_fits(hs[0]));
    } else {
        let rest = hs.skip(1);
        assert forall|i: int| 0 <= i < rest.len() implies header_fits(#[trigger] rest[i]) by {
            assert(rest[i] == hs[i + 1]);
        }
        lemma_script_content_type_fits(rest);
    }
}

/// Every response made of a script's output can be read back from its
/// wire form, whatever the script printed.
pub proof fn lemma_script_result_fits(status: i32, output: Seq<u8>)
    ensures
        script_result(status, output) matches Ok(r) ==> fits_wire(r),
{
    let hs = script_headers(output);
    lemma_header_block_fits(output);
    lemma_passed_on_fits(hs);
    lemma_script_content_type_fits(hs);
    lemma_response_with_fits(200, script_content_type(hs), passed_on(hs), script_body(output));
}

/// What precedes the key of a query parameter in the name of its variable.
pub open spec fn query_prefix() -> Seq<u8> {
    "Query_".spec_bytes()
}

/// `env` after one variable was set for each parameter of `query`, in
/// order: `Query_` and the key as name, the parameter's value as value.
pub open spec fn with_query(env: Map<Seq<u8>, Seq<u8>>, query: Seq<(Seq<u8>, Seq<u8>)>) -> Map<
    Seq<u8>,
    Seq<u8>,
>
    decreases query.len(),
{
    if query.len() == 0 {
        env
    } else {
        with_query(env.insert(query_prefix() + query[0].0, query[0].1), query.skip(1))
    }
}

/// `env` after one variable was set for each header, in order: the trimmed
/// key as name, the trimmed value as value.
pub open spec fn with_headers(env: Map<Seq<u8>, Seq<u8>>, headers: Seq<(Seq<u8>, Seq<u8>)>)
    -> Map<Seq<u8>, Seq<u8>>
    decreases headers.len(),
{
    if headers.len() == 0 {
        env
    } else {
        with_headers(env.insert(trim(headers[0].0), trim(headers[0].1)), headers.skip(1))
    }
}

/// The environment of the script that serves `req`. The query parameters
/// are set first, then the headers, then `Method` and `Path`; so a header
/// replaces a parameter of the same name, a later header an earlier one,
/// and nothing replaces `Method` or `Path`. `Path` is the path as it was
/// received, escapes and all.
pub open spec fn environment(req: RequestView) -> Map<Seq<u8>, Seq<u8>> {
    with_headers(with_query(Map::empty(), req.query), req.headers).insert(
        "Method".spec_bytes(),
        req.method,
    ).insert("Path".spec_bytes(), req.path)
}

/// Builds the environment of the script that serves `request`. Nothing
/// else goes into it: each call starts from the empty environment.
pub fn build_environment(request: &Request) -> (env: Environment)
    ensures
        env@ == environment(request@),
{
    let mut env = Environment::new();
    let ghost query = request.query.deep_view();
    let mut i: usize = 0;
    assert(query.skip(0) =~= query);
    while i < request.query.len()
        invariant
            i <= request.query.len(),
            query == request.query.deep_view(),
            with_query(env@, query.skip(i as int)) == with_query(Map::empty(), query),
        decreases request.query.len() - i,
    {
        let ghost cur = query.skip(i as int);
        assert(cur[0] == request.query@[i as int]@);
        assert(cur.skip(1) =~= query.skip(i + 1));
        let mut name: Vec<u8> = to_vec("Query_".as_bytes());
        append(&mut name, request.query[i].key.as_slice());
        env.set(name, to_vec(request.query[i].value.as_slice()));
        i += 1;
    }
    let ghost headers = request.headers.deep_view();
    let ghost after_query = env@;
    let mut j: usize = 0;
    assert(headers.skip(0) =~= headers);
    while j < request.headers.len()
        invariant
            j <= request.headers.len(),
            headers == request.headers.deep_view(),
            with_headers(env@, headers.skip(j as int)) == with_headers(after_query, headers),
        decreases request.headers.len() - j,
    {
        let ghost cur = headers.skip(j as int);
        assert(cur[0] == request.headers@[j as int]@);
        assert(cur.skip(1) =~= headers.skip(j + 1));
        let name = to_vec(trim_bytes(request.headers[j].key.as_slice()));
        let value = to_vec(trim_bytes(request.headers[j].value.as_slice()));
        env.set(name, value);
        j += 1;
    }
    env.set(to_vec("Method".as_bytes()), to_vec(request.method.as_slice()));
    env.set(to_vec("Path".as_bytes()), to_vec(request.path.as_slice()));
    env
}

/// The last header of a name decides the variable of that name.
pub proof fn lemma_last_header_decides(env: Map<Seq<u8>, Seq<u8>>, headers: Seq<(Seq<u8>, Seq<u8>)>)
    requires
        headers.len() > 0,
    ensures
        with_headers(env, headers).contains_key(trim(headers.last().0)),
        with_headers(env, headers)[trim(headers.last().0)] == trim(headers.last().1),
    decreases headers.len(),
{
    let rest = headers.skip(1);
    if rest.len() == 0 {
        assert(with_headers(env.insert(trim(headers[0].0), trim(headers[0].1)), rest)
            == env.insert(trim(headers[0].0), trim(headers[0].1)));
    } else {
        assert(rest.last() == headers.last());
        lemma_last_header_decides(env.insert(trim(headers[0].0), trim(headers[0].1)), rest);
    }
}

/// Whether scripts are run for the method `m`: for `GET` and for `POST`.
pub open spec fn is_script_method(m: Seq<u8>) -> bool {
    m == "GET".spec_bytes() || m == "POST".spec_bytes()
}

/// Tests whether scripts are run for `method`.
pub fn script_method_allowed(method: &[u8]) -> (r: bool)
    ensures
        r == is_script_method(method@),
{
    bytes_eq(method, "GET".as_bytes()) || bytes_eq(method, "POST".as_bytes())
}

/// What a script is started with.
#[derive(Debug)]
pub struct ScriptInvocation {
    /// The canonical path of the file to run.
    pub executable: Vec<u8>,
    /// The variables of its environment.
    pub environment: Environment,
    /// What it reads from its standard input: the body of the request.
    pub stdin: Vec<u8>,
}

/// What a [`ScriptInvocation`] stands for.
pub struct ScriptInvocationView {
    pub executable: Seq<u8>,
    pub environment: Map<Seq<u8>, Seq<u8>>,
    pub stdin: Seq<u8>,
}

impl View for ScriptInvocation {
    type V = ScriptInvocationView;

    open spec fn view(&self) -> ScriptInvocationView {
        ScriptInvocationView {
            executable: self.executable@,
            environment: self.environment@,
            stdin: self.stdin@,
        }
    }
}

/// How the script at `path` is run for `req`, where `kind` tells what the
/// file system holds there. A method other than `GET` and `POST` is not
/// allowed, a path outside the directory of scripts is forbidden, and
/// what is no regular file is not found.
pub open spec fn invocation(path: ResolvedPathView, kind: FileKind, req: RequestView) -> Result<
    ScriptInvocationView,
    ErrorKind,
> {
    if !is_script_method(req.method) {
        Err(ErrorKind::MethodNotAllowed)
    } else if !within(scripts_root(path.root), path.resolved) {
        Err(ErrorKind::Forbidden)
    } else if kind != FileKind::File {
        Err(ErrorKind::NotFound)
    } else {
        Ok(
            ScriptInvocationView {
                executable: path.resolved,
                environment: environment(req),
                stdin: req.body,
            },
        )
    }
}

/// Checks that the script at `path` may be run for `request`, and says how.
pub fn prepare_invocation(path: &ResolvedPath, kind: FileKind, request: &Request) -> (r: Result<
    ScriptInvocation,
    ErrorKind,
>)
    ensures
        match r {
            Ok(inv) => invocation(path@, kind, request@) == Ok::<ScriptInvocationView, ErrorKind>(
                inv@,
            ),
            Err(e) => invocation(path@, kind, request@) == Err::<ScriptInvocationView, ErrorKind>(
                e,
            ),
        },
{
    if !script_method_allowed(request.method.as_slice()) {
        return Err(ErrorKind::MethodNotAllowed);
    }
    if !path.in_scripts() {
        return Err(ErrorKind::Forbidden);
    }
    match kind {
        FileKind::File => {},
        _ => {
            return Err(ErrorKind::NotFound);
        },
    }
    Ok(
        ScriptInvocation {
            executable: to_vec(path.resolved()),
            environment: build_environment(request),
            stdin: to_vec(request.body.as_slice()),
        },
    )
}

/// How the run of a script ended.
#[derive(Debug, PartialEq, Eq)]
pub enum ScriptOutcome {
    /// The script ran to its end.
    Exited {
        /// Its exit status.
        status: i32,
        /// What it printed on its standard output.
        stdout: Vec<u8>,
        /// What it printed on its standard error.
        stderr: Vec<u8>,
    },
    /// The script ran longer than allowed and was stopped.
    TimedOut,
    /// The script could not be started.
    SpawnFailed,
}

/// What a script's run comes to when it ended as `outcome` says: a
/// response, a failure of the script, which one that could not be started
/// is too, or a timeout. What the script printed on its standard error
/// never counts.
pub open spec fn outcome_result(outcome: ScriptOutcome) -> Result<ResponseView, ErrorKind> {
    match outcome {
        ScriptOutcome::Exited { status, stdout, stderr } => script_result(status, stdout@),
        ScriptOutcome::TimedOut => Err(ErrorKind::Timeout),
        ScriptOutcome::SpawnFailed => Err(ErrorKind::ScriptFailed),
    }
}

/// Builds the response to a request whose script ended as `outcome` says.
pub fn outcome_response(outcome: &ScriptOutcome) -> (r: Result<Response, ErrorKind>)
    ensures
        match r {
            Ok(resp) => outcome_result(*outcome) == Ok::<ResponseView, ErrorKind>(resp@),
            Err(e) => outcome_result(*outcome) == Err::<ResponseView, ErrorKind>(e),
        },
{
    match outcome {
        ScriptOutcome::Exited { status, stdout, stderr } => script_response(
            *status,
            stdout.as_slice(),
        ),
        ScriptOutcome::TimedOut => Err(ErrorKind::Timeout),
        ScriptOutcome::SpawnFailed => Err(ErrorKind::ScriptFailed),
    }
}

} // verus!
