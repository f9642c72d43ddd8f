//! From the arguments of `run` to a request, and from its response to the
//! answer.

use super::output::{CommandOutput, OutputShape};
use super::{header_of, kv_of, parse_header, parse_kv, RunArgs};
use crate::config::Framework;
use crate::error::{exit_code, Fault, HitError, RequestError, RequestFault};
use crate::http::response::{
    body_text, response_json, status_exit, ApiResponse, ApiResponseShape,
};
use crate::http::{ArgsShape, RequestArgs};
use crate::json::parse::parsed;
use crate::json::{Json, JsonValue};
use crate::pairs::{put_pair, with_pair};
use crate::spec::adapter::{adapter_for, fastapi_lines, FrameworkAdapter};
use crate::text::{cat3, chars_of, decimal, owned, same, show, text_between};
use vstd::prelude::*;
use vstd::string::*;

verus! {

/// Where the body of a request is taken from.
#[derive(Debug)]
pub enum BodySource {
    Stdin,
    File(String),
    Inline(String),
}

pub enum BodySourceShape {
    Stdin,
    File(Seq<char>),
    Inline(Seq<char>),
}

impl View for BodySource {
    type V = BodySourceShape;

    open spec fn view(&self) -> BodySourceShape {
        match self {
            BodySource::Stdin => BodySourceShape::Stdin,
            BodySource::File(path) => BodySourceShape::File(path@),
            BodySource::Inline(text) => BodySourceShape::Inline(text@),
        }
    }
}

// ---------------------------------------------------------------- the request

/// Where a body argument points: inline JSON, @file, or '-' for stdin.
pub fn body_source(input: &str) -> (r: BodySource)
    ensures
        r@ == (if input@ == "-"@ {
            BodySourceShape::Stdin
        } else if input@.len() > 0 && input@[0] == '@' {
            BodySourceShape::File(input@.skip(1))
        } else {
            BodySourceShape::Inline(input@)
        }),
{
    if same(input, "-") {
        return BodySource::Stdin;
    }
    let chars = chars_of(input);
    if chars.len() > 0 && chars[0] == '@' {
        let path = text_between(&chars, 1, chars.len());
        assert(path@ =~= input@.skip(1));
        BodySource::File(path)
    } else {
        BodySource::Inline(owned(input))
    }
}

/// The error of a body that cannot be read from `place`.
pub fn unreadable_body(place: &str, message: &str) -> (r: HitError)
    ensures
        r@ == Fault::Request(RequestFault::InvalidBody(place@ + ": "@ + message@)),
{
    HitError::Request(RequestError::InvalidBody(cat3(place, ": ", message)))
}

/// Parses the text of a body.
pub fn parse_body(raw: &str) -> (r: Result<JsonValue, HitError>)
    ensures
        match parsed(raw@) {
            Ok(value) => r matches Ok(body) && body@ == value,
            Err(message) => r matches Err(e) && e@ == Fault::Request(
                RequestFault::InvalidBody(message),
            ),
        },
{
    match JsonValue::parse(raw) {
        Ok(value) => Ok(value),
        Err(message) => Err(HitError::Request(RequestError::InvalidBody(message))),
    }
}

/// The path parameters from position `i` on, a later one in place of an earlier one.
pub open spec fn path_params_of(
    inputs: Seq<Seq<char>>,
    i: int,
    so_far: Seq<(Seq<char>, Seq<char>)>,
) -> Result<Seq<(Seq<char>, Seq<char>)>, RequestFault>
    decreases inputs.len() - i,
{
    if i < 0 || i >= inputs.len() {
        Ok(so_far)
    } else {
        match kv_of(inputs[i]) {
            Ok((name, value)) => path_params_of(inputs, i + 1, with_pair(so_far, name, value)),
            Err(e) => Err(e),
        }
    }
}

/// The query parameters from position `i` on.
pub open spec fn query_of(
    inputs: Seq<Seq<char>>,
    i: int,
    so_far: Seq<(Seq<char>, Seq<char>)>,
) -> Result<Seq<(Seq<char>, Seq<char>)>, RequestFault>
    decreases inputs.len() - i,
{
    if i < 0 || i >= inputs.len() {
        Ok(so_far)
    } else {
        match kv_of(inputs[i]) {
            Ok(pair) => query_of(inputs, i + 1, so_far.push(pair)),
            Err(e) => Err(e),
        }
    }
}

/// The headers from position `i` on.
pub open spec fn headers_of(
    inputs: Seq<Seq<char>>,
    i: int,
    so_far: Seq<(Seq<char>, Seq<char>)>,
) -> Result<Seq<(Seq<char>, Seq<char>)>, RequestFault>
    decreases inputs.len() - i,
{
    if i < 0 || i >= inputs.len() {
        Ok(so_far)
    } else {
        match header_of(inputs[i]) {
            Ok(pair) => headers_of(inputs, i + 1, so_far.push(pair)),
            Err(e) => Err(e),
        }
    }
}

/// The request that the arguments ask for, or the first argument that is at fault.
pub open spec fn request_of(
    path_params: Seq<Seq<char>>,
    query: Seq<Seq<char>>,
    headers: Seq<Seq<char>>,
    no_auth: bool,
    body: Option<Json>,
) -> Result<ArgsShape, RequestFault> {
    match path_params_of(path_params, 0, Seq::empty()) {
        Err(e) => Err(e),
        Ok(path_params) => match query_of(query, 0, Seq::empty()) {
            Err(e) => Err(e),
            Ok(query_params) => match headers_of(headers, 0, Seq::empty()) {
                Err(e) => Err(e),
                Ok(headers) => Ok(ArgsShape { path_params, query_params, headers, body, no_auth }),
            },
        },
    }
}

/// The request that the arguments ask for.
pub fn request_args(args: &RunArgs, body: Option<JsonValue>) -> (r: Result<RequestArgs, HitError>)
    ensures
        match request_of(
            args.path_params.deep_view(),
            args.query.deep_view(),
            args.headers.deep_view(),
            args.no_auth,
            body.deep_view(),
        ) {
            Ok(request) => r matches Ok(made) && made@ == request,
            Err(fault) => r matches Err(e) && e@ == Fault::Request(fault),
        },
{
    let ghost none = Seq::<(Seq<char>, Seq<char>)>::empty();
    let ghost given = args.path_params.deep_view();
    let mut path_params: Vec<(String, String)> = Vec::new();
    assert(path_params.deep_view() =~= none);
    for i in 0..args.path_params.len()
        invariant
            given == args.path_params.deep_view(),
            none == Seq::<(Seq<char>, Seq<char>)>::empty(),
            path_params_of(given, i as int, path_params.deep_view()) == path_params_of(
                given,
                0,
                none,
            ),
    {
        assert(given[i as int] == args.path_params@[i as int]@);
        match parse_kv(args.path_params[i].as_str()) {
            Ok((name, value)) => put_pair(&mut path_params, name, value),
            Err(e) => {
                return Err(HitError::Request(e));
            },
        }
    }
    let ghost asked = args.query.deep_view();
    let mut query_params: Vec<(String, String)> = Vec::new();
    assert(query_params.deep_view() =~= none);
    for i in 0..args.query.len()
        invariant
            path_params_of(args.path_params.deep_view(), 0, none) == Ok::<
                Seq<(Seq<char>, Seq<char>)>,
                RequestFault,
            >(path_params.deep_view()),
            asked == args.query.deep_view(),
            none == Seq::<(Seq<char>, Seq<char>)>::empty(),
            query_of(asked, i as int, query_params.deep_view()) == query_of(asked, 0, none),
    {
        assert(asked[i as int] == args.query@[i as int]@);
        match parse_kv(args.query[i].as_str()) {
            Ok(pair) => {
                let ghost before = query_params.deep_view();
                let ghost added = (pair.0@, pair.1@);
                query_params.push(pair);
                assert(query_params.deep_view() =~= before.push(added));
            },
            Err(e) => {
                return Err(HitError::Request(e));
            },
        }
    }
    let ghost extra = args.headers.deep_view();
    let mut headers: Vec<(String, String)> = Vec::new();
    assert(headers.deep_view() =~= none);
    for i in 0..args.headers.len()
        invariant
            path_params_of(args.path_params.deep_view(), 0, none) == Ok::<
                Seq<(Seq<char>, Seq<char>)>,
                RequestFault,
            >(path_params.deep_view()),
            query_of(args.query.deep_view(), 0, none) == Ok::<
                Seq<(Seq<char>, Seq<char>)>,
                RequestFault,
            >(query_params.deep_view()),
            extra == args.headers.deep_view(),
            none == Seq::<(Seq<char>, Seq<char>)>::empty(),
            headers_of(extra, i as int, headers.deep_view()) == headers_of(extra, 0, none),
    {
        assert(extra[i as int] == args.headers@[i as int]@);
        match parse_header(args.headers[i].as_str()) {
            Ok(pair) => {
                let ghost before = headers.deep_view();
                let ghost added = (pair.0@, pair.1@);
                headers.push(pair);
                assert(headers.deep_view() =~= before.push(added));
            },
            Err(e) => {
                return Err(HitError::Request(e));
            },
        }
    }
    Ok(RequestArgs { path_params, query_params, headers, body, no_auth: args.no_auth })
}

// ---------------------------------------------------------------- the answer

/// The first line: what was asked and what came.
pub open spec fn headline(r: ApiResponseShape) -> Seq<char> {
    r.method + " "@ + r.url + " -> "@ + decimal(r.status as nat) + " ("@ + decimal(
        r.latency_ms as nat,
    ) + " ms)"@
}

/// The lines of a rendered error from position `i` on, each on a line of its own.
pub open spec fn problem_lines(lines: Seq<Seq<char>>, i: int) -> Seq<char>
    decreases lines.len() - i,
{
    if i < 0 || i >= lines.len() {
        Seq::empty()
    } else {
        "\n  ! "@ + lines[i] + problem_lines(lines, i + 1)
    }
}

/// What the framework makes of a response that failed.
pub open spec fn problems(r: ApiResponseShape) -> Seq<char> {
    if r.status < 400 {
        Seq::empty()
    } else {
        match fastapi_lines(r.status as nat, r.body) {
            Some(lines) => problem_lines(lines, 0),
            None => Seq::empty(),
        }
    }
}

/// The answer to `run`.
pub open spec fn run_output(r: ApiResponseShape, allow_error: bool) -> OutputShape {
    OutputShape {
        data: response_json(r),
        human: headline(r) + problems(r) + (if body_text(r).len() > 0 {
            "\n\n"@ + body_text(r)
        } else {
            Seq::empty()
        }),
        exit_code: if allow_error {
            exit_code::OK
        } else {
            status_exit(r.status)
        },
    }
}

fn shown_problems(response: &ApiResponse, framework: Framework) -> (r: String)
    ensures
        r@ == problems(response@),
{
    let mut out = String::new();
    assert(out@ =~= Seq::empty());
    if response.is_success() {
        return out;
    }
    let adapter = adapter_for(framework);
    if let Some(lines) = adapter.render_error_lines(response.status, &response.body) {
        let ghost all = lines.deep_view();
        assert(out@ + problem_lines(all, 0) =~= problem_lines(all, 0));
        for i in 0..lines.len()
            invariant
                all == lines.deep_view(),
                out@ + problem_lines(all, i as int) == problem_lines(all, 0),
        {
            assert(all[i as int] == lines@[i as int]@);
            let ghost before = out@;
            out.append("\n  ! ");
            out.append(lines[i].as_str());
            assert(out@ + problem_lines(all, i + 1) =~= before + ("\n  ! "@ + all[i as int]
                + problem_lines(all, i + 1)));
        }
        assert(out@ =~= problem_lines(all, 0));
    }
    out
}

/// What is answered after a request.
pub fn run_cmd(response: &ApiResponse, framework: Framework, allow_error: bool) -> (r: CommandOutput)
    ensures
        r@ == run_output(response@, allow_error),
{
    let status = show(response.status as u64);
    let latency = show(response.latency_ms);
    let mut human = cat3(response.method.as_str(), " ", response.url.as_str());
    human.append(" -> ");
    human.append(status.as_str());
    human.append(" (");
    human.append(latency.as_str());
    human.append(" ms)");
    let found = shown_problems(response, framework);
    human.append(found.as_str());
    let body = response.body_text();
    let ghost before = human@;
    if !body.as_str().is_empty() {
        human.append("\n\n");
        human.append(body.as_str());
        assert(human@ =~= before + ("\n\n"@ + body@));
    } else {
        assert(human@ =~= before + Seq::<char>::empty());
    }
    let exit = if allow_error {
        exit_code::OK
    } else {
        response.exit_code()
    };
    CommandOutput::ok(response.to_json(), human).with_exit(exit)
}

// ---------------------------------------------------------------- laws

/// `--allow-error` forces the exit code of success, and without it the exit
/// code tells client errors, server errors and the rest apart.
pub proof fn law_exit_code_follows_the_status(r: ApiResponseShape)
    ensures
        run_output(r, true).exit_code == 0,
        400 <= r.status < 500 <==> run_output(r, false).exit_code == 5,
        500 <= r.status < 600 <==> run_output(r, false).exit_code == 6,
        !(400 <= r.status < 600) <==> run_output(r, false).exit_code == 0,
{
}

} // verus!
