//! What commands promise: arguments are read as they are written, and answers
//! hold what they say.

use super::listing::{
    endpoint_line, endpoint_row, listed, project_line, project_row, selected, selection, tag_line,
    tag_row,
};
use super::output::{failure_envelope, printed, success_envelope, OutputShape};
use super::run::{
    headers_of, path_params_of, problem_lines, problems, query_of, request_of, run_output,
};
use super::projects::{add_output, list_output, remove_output};
use super::{
    check_output, endpoints_output, frontend_of, header_of, kv_of, login_output, refresh_output,
    template_output, Command,
};
use crate::config::{config_fault, ProjectConfig, ProjectsConfig};
use crate::error::{Fault, RequestFault, SpecFault};
use crate::http::response::{body_text, response_json, ApiResponseShape};
use crate::json::print::indented;
use crate::json::{lookup, position_from, Json};
use crate::lists::lemma_filter_from;
use crate::model::schema_node::json_texts;
use crate::model::template::{template_json, template_of};
use crate::model::{
    group_names, group_position, sought, ApiShape, EndpointShape, GroupShape,
};
use crate::pairs::{lemma_settles_more, settles, with_pair};
use crate::spec::adapter::fastapi_lines;
use crate::text::laws::{lacks, law_found_is_first, law_padding};
use crate::text::{
    contains_text, decimal, joined_from, lemma_split_joined, lower, occurs_at, padded, padded_left,
    trimmed,
};
use vstd::prelude::*;
use vstd::string::*;

verus! {

// ---------------------------------------------------------------- arguments

/// A pair is split at its first equals sign: the name loses white space around it,
/// the value is kept as it is. A header is split at its first colon, and both parts
/// lose white space.
pub proof fn law_pairs_are_split_once(name: Seq<char>, value: Seq<char>)
    ensures
        lacks(name, '=') ==> kv_of(name + seq!['='] + value) == Ok::<
            (Seq<char>, Seq<char>),
            RequestFault,
        >((trimmed(name), value)),
        lacks(name, '=') ==> kv_of(name) is Err,
        lacks(name, ':') ==> header_of(name + seq![':'] + value) == Ok::<
            (Seq<char>, Seq<char>),
            RequestFault,
        >((trimmed(name), trimmed(value))),
        lacks(name, ':') ==> header_of(name) == Err::<(Seq<char>, Seq<char>), RequestFault>(
            RequestFault::InvalidHeader(name),
        ),
{
    law_found_is_first(name, '=', 0);
    law_found_is_first(name, ':', 0);
    if lacks(name, '=') {
        lemma_split_joined(name, '=', value);
    }
    if lacks(name, ':') {
        lemma_split_joined(name, ':', value);
    }
}

/// The argument can be read as a pair.
pub open spec fn readable(inputs: Seq<Seq<char>>, upto: int) -> bool {
    forall|k: int| 0 <= k < upto ==> kv_of(#[trigger] inputs[k]) is Ok
}

/// The pairs that the arguments are read as.
pub open spec fn pairs_read(inputs: Seq<Seq<char>>) -> Seq<(Seq<char>, Seq<char>)> {
    inputs.map_values(|input: Seq<char>| kv_of(input)->Ok_0)
}

/// The headers that the arguments are read as.
pub open spec fn headers_read(inputs: Seq<Seq<char>>) -> Seq<(Seq<char>, Seq<char>)> {
    inputs.map_values(|input: Seq<char>| header_of(input)->Ok_0)
}

proof fn lemma_query(
    inputs: Seq<Seq<char>>,
    i: int,
    so_far: Seq<(Seq<char>, Seq<char>)>,
)
    requires
        0 <= i <= inputs.len(),
    ensures
        match query_of(inputs, i, so_far) {
            Ok(out) => out == so_far + pairs_read(inputs.skip(i)) && forall|k: int|
                i <= k < inputs.len() ==> kv_of(#[trigger] inputs[k]) is Ok,
            Err(e) => exists|k: int|
                i <= k < inputs.len() && kv_of(#[trigger] inputs[k]) == Err::<
                    (Seq<char>, Seq<char>),
                    RequestFault,
                >(e),
        },
    decreases inputs.len() - i,
{
    if i < inputs.len() {
        match kv_of(inputs[i]) {
            Ok(pair) => {
                lemma_query(inputs, i + 1, so_far.push(pair));
                assert(pairs_read(inputs.skip(i)) =~= seq![pair] + pairs_read(
                    inputs.skip(i + 1),
                ));
                assert(so_far.push(pair) + pairs_read(inputs.skip(i + 1)) =~= so_far + pairs_read(
                    inputs.skip(i),
                ));
            },
            Err(_) => {},
        }
    } else {
        assert(so_far + pairs_read(inputs.skip(i)) =~= so_far);
    }
}

proof fn lemma_headers(
    inputs: Seq<Seq<char>>,
    i: int,
    so_far: Seq<(Seq<char>, Seq<char>)>,
)
    requires
        0 <= i <= inputs.len(),
    ensures
        match headers_of(inputs, i, so_far) {
            Ok(out) => out == so_far + headers_read(inputs.skip(i)) && forall|k: int|
                i <= k < inputs.len() ==> header_of(#[trigger] inputs[k]) is Ok,
            Err(e) => exists|k: int|
                i <= k < inputs.len() && header_of(#[trigger] inputs[k]) == Err::<
                    (Seq<char>, Seq<char>),
                    RequestFault,
                >(e),
        },
    decreases inputs.len() - i,
{
    if i < inputs.len() {
        match header_of(inputs[i]) {
            Ok(pair) => {
                lemma_headers(inputs, i + 1, so_far.push(pair));
                assert(headers_read(inputs.skip(i)) =~= seq![pair] + headers_read(
                    inputs.skip(i + 1),
                ));
                assert(so_far.push(pair) + headers_read(inputs.skip(i + 1)) =~= so_far
                    + headers_read(inputs.skip(i)));
            },
            Err(_) => {},
        }
    } else {
        assert(so_far + headers_read(inputs.skip(i)) =~= so_far);
    }
}

proof fn lemma_path_params(
    inputs: Seq<Seq<char>>,
    i: int,
    so_far: Seq<(Seq<char>, Seq<char>)>,
    given: Seq<(Seq<char>, Seq<char>)>,
)
    requires
        0 <= i <= inputs.len(),
        settles(given, so_far),
    ensures
        match path_params_of(inputs, i, so_far) {
            Ok(out) => settles(given + pairs_read(inputs.skip(i)), out) && forall|k: int|
                i <= k < inputs.len() ==> kv_of(#[trigger] inputs[k]) is Ok,
            Err(e) => exists|k: int|
                i <= k < inputs.len() && kv_of(#[trigger] inputs[k]) == Err::<
                    (Seq<char>, Seq<char>),
                    RequestFault,
                >(e),
        },
    decreases inputs.len() - i,
{
    if i < inputs.len() {
        match kv_of(inputs[i]) {
            Ok(pair) => {
                let (name, value) = pair;
                lemma_settles_more(given, so_far, name, value);
                lemma_path_params(
                    inputs,
                    i + 1,
                    with_pair(so_far, name, value),
                    given.push(pair),
                );
                assert(pairs_read(inputs.skip(i)) =~= seq![pair] + pairs_read(
                    inputs.skip(i + 1),
                ));
                assert(given.push(pair) + pairs_read(inputs.skip(i + 1)) =~= given + pairs_read(
                    inputs.skip(i),
                ));
            },
            Err(_) => {},
        }
    } else {
        assert(given + pairs_read(inputs.skip(i)) =~= given);
    }
}

/// A request has what its arguments say, each in its place: the query and the
/// headers in order, every path parameter once. It is refused only where an
/// argument cannot be read, and then for what that argument lacks.
pub proof fn law_arguments_become_the_request(
    path_params: Seq<Seq<char>>,
    query: Seq<Seq<char>>,
    headers: Seq<Seq<char>>,
    no_auth: bool,
    body: Option<Json>,
)
    ensures
        match request_of(path_params, query, headers, no_auth, body) {
            Ok(request) => {
                &&& settles(pairs_read(path_params), request.path_params)
                &&& request.query_params == pairs_read(query)
                &&& request.headers == headers_read(headers)
                &&& request.body == body
                &&& request.no_auth == no_auth
            },
            Err(e) => {
                ||| exists|k: int|
                    0 <= k < path_params.len() && kv_of(#[trigger] path_params[k]) == Err::<
                        (Seq<char>, Seq<char>),
                        RequestFault,
                    >(e)
                ||| exists|k: int|
                    0 <= k < query.len() && kv_of(#[trigger] query[k]) == Err::<
                        (Seq<char>, Seq<char>),
                        RequestFault,
                    >(e)
                ||| exists|k: int|
                    0 <= k < headers.len() && header_of(#[trigger] headers[k]) == Err::<
                        (Seq<char>, Seq<char>),
                        RequestFault,
                    >(e)
            },
        },
        readable(path_params, path_params.len() as int) && readable(query, query.len() as int) && (
        forall|k: int| 0 <= k < headers.len() ==> header_of(#[trigger] headers[k]) is Ok)
            ==> request_of(path_params, query, headers, no_auth, body) is Ok,
{
    let none = Seq::<(Seq<char>, Seq<char>)>::empty();
    lemma_path_params(path_params, 0, none, none);
    lemma_query(query, 0, none);
    lemma_headers(headers, 0, none);
    assert(path_params.skip(0) =~= path_params);
    assert(query.skip(0) =~= query);
    assert(headers.skip(0) =~= headers);
    assert(none + pairs_read(path_params) =~= pairs_read(path_params));
    assert(none + pairs_read(query) =~= pairs_read(query));
    assert(none + headers_read(headers) =~= headers_read(headers));
}

// ---------------------------------------------------------------- listings

/// The endpoint meets the search: the text stands in its id, its path or its
/// summary, whatever the case.
pub open spec fn meets(e: EndpointShape, search: Option<Seq<char>>) -> bool {
    search matches Some(text) ==> {
        ||| contains_text(lower(e.id), lower(text))
        ||| contains_text(lower(e.path), lower(text))
        ||| e.summary matches Some(summary) && contains_text(lower(summary), lower(text))
        ||| e.summary is None && text.len() == 0
    }
}

/// The endpoint meets the search and is one of the listed ids, where ids are given.
pub open spec fn wanted(ids: Option<Seq<Seq<char>>>, search: Option<Seq<char>>) -> spec_fn(
    EndpointShape,
) -> bool {
    |e: EndpointShape|
        (ids is Some ==> exists|k: int| 0 <= k < ids->0.len() && #[trigger] ids->0[k] == e.id)
            && meets(e, search)
}

proof fn lemma_wanted(
    e: EndpointShape,
    ids: Option<Seq<Seq<char>>>,
    search: Option<Seq<char>>,
)
    ensures
        listed(e, ids, search) == wanted(ids, search)(e),
{
    match ids {
        Some(list) => {
            if list.contains(e.id) {
                let k = choose|k: int| 0 <= k < list.len() && list[k] == e.id;
                assert(list[k] == e.id);
            }
        },
        None => {},
    }
    match search {
        Some(text) => {
            if e.summary is None {
                reveal_strlit("");
                let none = Seq::<char>::empty();
                assert(""@ =~= none);
                assert(lower(none) =~= none);
                if contains_text(none, lower(text)) {
                    let i = choose|i: int| occurs_at(none, lower(text), i);
                    assert(lower(text).len() == 0);
                }
                if text.len() == 0 {
                    assert(lower(text) =~= none);
                    assert(occurs_at(lower(e.id), none, 0)) by {
                        assert(lower(e.id).subrange(0, 0) =~= none);
                    }
                }
            }
        },
        None => {},
    }
}

proof fn lemma_selection(
    endpoints: Seq<EndpointShape>,
    ids: Option<Seq<Seq<char>>>,
    search: Option<Seq<char>>,
    i: int,
)
    requires
        0 <= i <= endpoints.len(),
    ensures
        selection(endpoints, ids, search, i) == endpoints.skip(i).filter(wanted(ids, search)),
    decreases endpoints.len() - i,
{
    lemma_filter_from(endpoints, i, wanted(ids, search));
    if i < endpoints.len() {
        lemma_selection(endpoints, ids, search, i + 1);
        lemma_wanted(endpoints[i], ids, search);
        let rest = endpoints.skip(i + 1).filter(wanted(ids, search));
        assert(Seq::<EndpointShape>::empty() + rest =~= rest);
    }
}

/// A listing has the endpoints that meet the search, in the order of the document;
/// a tag leaves those of its group, and an unknown tag is an error that names the
/// known ones.
pub proof fn law_listing_is_exact(
    tags: Seq<GroupShape>,
    endpoints: Seq<EndpointShape>,
    tag: Option<Seq<char>>,
    search: Option<Seq<char>>,
)
    ensures
        tag is None ==> selected(tags, endpoints, tag, search) == Ok::<
            Seq<EndpointShape>,
            SpecFault,
        >(endpoints.filter(wanted(None, search))),
        forall|p: int|
            tag is Some && 0 <= p < tags.len() && (#[trigger] tags[p]).name == tag->0 && (forall|
                q: int,
            |
                0 <= q < p ==> (#[trigger] tags[q]).name != tag->0) ==> selected(
                tags,
                endpoints,
                tag,
                search,
            ) == Ok::<Seq<EndpointShape>, SpecFault>(
                endpoints.filter(wanted(Some(tags[p].endpoint_ids), search)),
            ),
        tag is Some && (forall|p: int|
            0 <= p < tags.len() ==> (#[trigger] tags[p]).name != tag->0) ==> selected(
            tags,
            endpoints,
            tag,
            search,
        ) == Err::<Seq<EndpointShape>, SpecFault>(
            SpecFault::UnknownTag {
                name: tag->0,
                available: tags.map_values(|group: GroupShape| group.name),
            },
        ),
{
    assert(endpoints.skip(0) =~= endpoints);
    lemma_selection(endpoints, None, search, 0);
    if tag is Some {
        let name = tag->0;
        lemma_group(tags, name, 0);
        assert(group_names(tags) =~= tags.map_values(
            |group: GroupShape| group.name,
        ));
        match group_position(tags, name, 0) {
            Some(p) => {
                lemma_selection(endpoints, Some(tags[p].endpoint_ids), search, 0);
            },
            None => {},
        }
    }
}

proof fn lemma_group(tags: Seq<GroupShape>, name: Seq<char>, i: int)
    requires
        0 <= i,
    ensures
        match group_position(tags, name, i) {
            Some(p) => i <= p < tags.len() && tags[p].name == name && forall|q: int|
                i <= q < p ==> (#[trigger] tags[q]).name != name,
            None => forall|q: int| i <= q < tags.len() ==> (#[trigger] tags[q]).name != name,
        },
    decreases tags.len() - i,
{
    if i < tags.len() && tags[i].name != name {
        lemma_group(tags, name, i + 1);
    }
}

/// A text or null.
pub open spec fn or_null(text: Option<Seq<char>>) -> Json {
    match text {
        Some(text) => Json::Text(text),
        None => Json::Null,
    }
}

/// The row of an endpoint says what it is and what it needs.
pub proof fn law_endpoint_row(e: EndpointShape)
    ensures
        endpoint_row(e) is Object,
        lookup(endpoint_row(e)->Object_0, "id"@) == Some(Json::Text(e.id)),
        lookup(endpoint_row(e)->Object_0, "method"@) == Some(Json::Text(e.method)),
        lookup(endpoint_row(e)->Object_0, "path"@) == Some(Json::Text(e.path)),
        lookup(endpoint_row(e)->Object_0, "summary"@) == Some(or_null(e.summary)),
        lookup(endpoint_row(e)->Object_0, "tags"@) == Some(json_texts(e.tags)),
        lookup(endpoint_row(e)->Object_0, "has_body"@) == Some(Json::Bool(e.body is Some)),
        lookup(endpoint_row(e)->Object_0, "auth_required"@) == Some(Json::Bool(e.auth_required)),
        lookup(endpoint_row(e)->Object_0, "deprecated"@) == Some(Json::Bool(e.deprecated)),
{
    reveal_strlit("id");
    reveal_strlit("method");
    reveal_strlit("path");
    reveal_strlit("summary");
    reveal_strlit("tags");
    reveal_strlit("has_body");
    reveal_strlit("auth_required");
    reveal_strlit("deprecated");
    assert("id"@[0] == 'i' && "method"@[0] == 'm' && "path"@[0] == 'p' && "summary"@[0] == 's'
        && "tags"@[0] == 't' && "has_body"@[0] == 'h' && "auth_required"@[0] == 'a'
        && "deprecated"@[0] == 'd');
    reveal_with_fuel(position_from, 9);
}

/// The row of a tag says how many endpoints it has.
pub proof fn law_tag_row(tag: GroupShape)
    ensures
        tag_row(tag) is Object,
        lookup(tag_row(tag)->Object_0, "name"@) == Some(Json::Text(tag.name)),
        lookup(tag_row(tag)->Object_0, "description"@) == Some(or_null(tag.description)),
        lookup(tag_row(tag)->Object_0, "endpoint_count"@) == Some(
            Json::Int(tag.endpoint_ids.len() as int),
        ),
{
    reveal_strlit("name");
    reveal_strlit("description");
    reveal_strlit("endpoint_count");
    assert("name"@[0] == 'n' && "description"@[0] == 'd' && "endpoint_count"@[0] == 'e');
    reveal_with_fuel(position_from, 4);
}

/// The row of a project says where it is and how it authenticates.
pub proof fn law_project_row(name: Seq<char>, p: ProjectConfig)
    ensures
        project_row(name, p) is Object,
        lookup(project_row(name, p)->Object_0, "name"@) == Some(Json::Text(name)),
        lookup(project_row(name, p)->Object_0, "base_url"@) == Some(Json::Text(p.base_url.text@)),
        lookup(project_row(name, p)->Object_0, "auth_type"@) == Some(
            match p.auth {
                Some(auth) => Json::Text(auth.kind_name()),
                None => Json::Null,
            },
        ),
        lookup(project_row(name, p)->Object_0, "spec_file"@) == Some(
            or_null(p.spec_file.deep_view()),
        ),
{
    reveal_strlit("name");
    reveal_strlit("base_url");
    reveal_strlit("auth_type");
    reveal_strlit("spec_file");
    assert("name"@[0] == 'n' && "base_url"@[0] == 'b' && "auth_type"@[0] == 'a' && "spec_file"@[0]
        == 's');
    reveal_with_fuel(position_from, 5);
}

// ---------------------------------------------------------------- answers

/// The envelope tells success from failure: data on the one side, the kind and the
/// message of the error on the other.
pub proof fn law_envelopes(data: Json, fault: Fault)
    ensures
        success_envelope(data) is Object,
        lookup(success_envelope(data)->Object_0, "ok"@) == Some(Json::Bool(true)),
        lookup(success_envelope(data)->Object_0, "data"@) == Some(data),
        lookup(success_envelope(data)->Object_0, "error"@) == Some(Json::Null),
        failure_envelope(fault) is Object,
        lookup(failure_envelope(fault)->Object_0, "ok"@) == Some(Json::Bool(false)),
        lookup(failure_envelope(fault)->Object_0, "data"@) == Some(Json::Null),
        lookup(failure_envelope(fault)->Object_0, "error"@) matches Some(Json::Object(error))
            && lookup(error, "kind"@) == Some(Json::Text(fault.kind())) && lookup(error, "message"@)
            == Some(Json::Text(fault.message())),
{
    reveal_strlit("ok");
    reveal_strlit("data");
    reveal_strlit("error");
    reveal_strlit("kind");
    reveal_strlit("message");
    assert("ok"@[0] == 'o' && "data"@[0] == 'd' && "error"@[0] == 'e' && "kind"@[0] == 'k'
        && "message"@[0] == 'm');
    reveal_with_fuel(position_from, 4);
}

/// In JSON mode the envelope goes to stdout; else a success prints its text there
/// and an error goes to stderr. The exit code is that of the outcome.
pub proof fn law_what_is_printed(output: OutputShape, fault: Fault)
    ensures
        printed(true, Ok(output)).out == Some(
            indented(success_envelope(output.data), Seq::empty()),
        ),
        printed(true, Err(fault)).out == Some(indented(failure_envelope(fault), Seq::empty())),
        printed(true, Ok(output)).err is None && printed(true, Err(fault)).err is None,
        output.human.len() > 0 ==> printed(false, Ok(output)).out == Some(output.human),
        output.human.len() == 0 ==> printed(false, Ok(output)).out is None,
        printed(false, Ok(output)).err is None,
        printed(false, Err(fault)).out is None,
        printed(false, Err(fault)).err == Some("error: "@ + fault.message()),
        forall|json: bool| #[trigger] printed(json, Ok(output)).exit_code == output.exit_code,
        forall|json: bool| #[trigger] printed(json, Err(fault)).exit_code == fault.exit_code(),
{
}

/// The answer to a request holds the response; its text starts with the method and
/// the address, the status and the time, lists the problems of a rejected request
/// and ends with the body.
pub proof fn law_run_tells_the_response(r: ApiResponseShape, allow_error: bool)
    ensures
        ({
            let out = run_output(r, allow_error);
            let head = r.method + " "@ + r.url + " -> "@ + decimal(r.status as nat) + " ("@
                + decimal(r.latency_ms as nat) + " ms)"@;
            let tail = if body_text(r).len() > 0 {
                "\n\n"@ + body_text(r)
            } else {
                Seq::empty()
            };
            &&& out.data == response_json(r)
            &&& out.human == head + problems(r) + tail
            &&& r.status < 400 ==> problems(r).len() == 0
            &&& r.status >= 400 ==> match fastapi_lines(r.status as nat, r.body) {
                Some(lines) => problems(r) == lines.map_values(
                    |line: Seq<char>| "\n  ! "@ + line,
                ).flatten(),
                None => problems(r).len() == 0,
            }
        }),
{
    if r.status >= 400 {
        match fastapi_lines(r.status as nat, r.body) {
            Some(lines) => {
                lemma_problem_lines(lines, 0);
                assert(lines.skip(0) =~= lines);
            },
            None => {},
        }
    }
}

proof fn lemma_problem_lines(lines: Seq<Seq<char>>, i: int)
    requires
        0 <= i <= lines.len(),
    ensures
        problem_lines(lines, i) == lines.skip(i).map_values(
            |line: Seq<char>| "\n  ! "@ + line,
        ).flatten(),
    decreases lines.len() - i,
{
    let shown = |line: Seq<char>| "\n  ! "@ + line;
    let texts = lines.skip(i).map_values(shown);
    if i < lines.len() {
        lemma_problem_lines(lines, i + 1);
        assert(texts.drop_first() =~= lines.skip(i + 1).map_values(shown));
        assert(texts.first() == shown(lines[i]));
    } else {
        assert(texts.flatten() =~= Seq::empty());
    }
}

/// The line of an endpoint shows its method, its path and its summary, or its id
/// where it has none, and marks it as deprecated only where it is.
pub proof fn law_endpoint_line(e: EndpointShape)
    ensures
        ({
            let line = endpoint_line(e);
            let told = match e.summary {
                Some(text) => text,
                None => e.id,
            };
            &&& e.method.len() <= line.len() && line.take(e.method.len() as int) == e.method
            &&& contains_text(line, e.path)
            &&& e.deprecated ==> contains_text(line, told + "  [deprecated]"@)
            &&& !e.deprecated ==> told.len() <= line.len() && line.skip(line.len() - told.len())
                == told
        }),
{
    law_padding(e.method, 7);
    law_padding(e.path, 40);
    let line = endpoint_line(e);
    let a = padded(e.method, 7);
    let b = padded(e.path, 40);
    let told = match e.summary {
        Some(text) => text,
        None => e.id,
    };
    let mark = if e.deprecated {
        "  [deprecated]"@
    } else {
        ""@
    };
    assert(line == a + " "@ + b + " "@ + told + mark);
    reveal_strlit(" ");
    assert(a.take(e.method.len() as int) == e.method);
    assert(line.take(e.method.len() as int) =~= a.take(e.method.len() as int));
    let at = a.len() as int + 1;
    assert(b.take(e.path.len() as int) == e.path);
    assert(line.subrange(at, at + e.path.len()) =~= b.take(e.path.len() as int));
    assert(occurs_at(line, e.path, at));
    let from = a.len() as int + 1 + b.len() + 1;
    if e.deprecated {
        assert(line.subrange(from, from + (told + mark).len()) =~= told + mark);
        assert(occurs_at(line, told + mark, from));
    } else {
        reveal_strlit("");
        assert(line.skip(line.len() - told.len()) =~= told);
    }
}

/// The answer to a login tells the project and when the token expires.
pub proof fn law_login_answer(project: Seq<char>, expiry: Option<u64>, now: u64)
    ensures
        ({
            let out = login_output(project, expiry, now);
            &&& out.exit_code == 0
            &&& out.data is Object
            &&& lookup(out.data->Object_0, "project"@) == Some(Json::Text(project))
            &&& lookup(out.data->Object_0, "expires_at_unix"@) == Some(
                match expiry {
                    Some(exp) => Json::Int(exp as int),
                    None => Json::Null,
                },
            )
            &&& expiry is Some && expiry->0 >= now ==> contains_text(
                out.human,
                decimal((expiry->0 - now) as nat),
            )
        }),
{
    reveal_strlit("project");
    reveal_strlit("expires_at_unix");
    assert("project"@[0] == 'p' && "expires_at_unix"@[0] == 'e');
    reveal_with_fuel(position_from, 3);
    if expiry is Some && expiry->0 >= now {
        let digits = decimal((expiry->0 - now) as nat);
        let lead = "logged in to '"@ + project;
        let middle = "' (token expires in "@;
        let human = login_output(project, expiry, now).human;
        assert(human == lead + (middle + digits + "s)"@));
        let at = lead.len() as int + middle.len();
        assert(human.subrange(at, at + digits.len()) =~= digits);
        assert(occurs_at(human, digits, at));
    }
}

/// The answer to a refresh counts what was read.
pub proof fn law_refresh_answer(project: Seq<char>, spec: ApiShape)
    ensures
        ({
            let out = refresh_output(project, spec);
            &&& out.exit_code == 0
            &&& out.data is Object
            &&& lookup(out.data->Object_0, "title"@) == Some(Json::Text(spec.title))
            &&& lookup(out.data->Object_0, "version"@) == Some(Json::Text(spec.version))
            &&& lookup(out.data->Object_0, "openapi_version"@) == Some(
                Json::Text(spec.openapi_version),
            )
            &&& lookup(out.data->Object_0, "tags"@) == Some(Json::Int(spec.tags.len() as int))
            &&& lookup(out.data->Object_0, "endpoints"@) == Some(
                Json::Int(spec.endpoints.len() as int),
            )
        }),
{
    reveal_strlit("title");
    reveal_strlit("version");
    reveal_strlit("openapi_version");
    reveal_strlit("tags");
    reveal_strlit("endpoints");
    assert("title"@[0] == 't' && "tags"@[0] == 't' && "title"@.len() == 5 && "tags"@.len() == 4);
    assert("version"@[0] == 'v' && "openapi_version"@[0] == 'o' && "endpoints"@[0] == 'e');
    reveal_with_fuel(position_from, 6);
}

/// A template is that of the endpoint that the key denotes.
pub proof fn law_template_answer(spec: ApiShape, key: Seq<char>)
    ensures
        match sought(spec.endpoints, key) {
            Ok(endpoint) => template_output(spec, key) matches Ok(out) && out.data == template_json(
                template_of(endpoint),
            ) && out.human == indented(out.data, Seq::empty()) && out.exit_code == 0,
            Err(e) => template_output(spec, key) == Err::<OutputShape, Fault>(Fault::Spec(e)),
        },
{
}

/// The line of a project shows its name, its address and how it authenticates; that
/// of a tag shows its name, how many endpoints it has and its description.
pub proof fn law_lines_can_be_read(name: Seq<char>, p: ProjectConfig, tag: GroupShape)
    ensures
        ({
            let line = project_line(name, p);
            &&& name.len() <= line.len() && line.take(name.len() as int) == name
            &&& contains_text(line, p.base_url.text@)
            &&& p.auth matches Some(auth) ==> contains_text(line, auth.kind_name())
            &&& p.auth is None ==> contains_text(line, "none"@)
        }),
        ({
            let line = tag_line(tag);
            &&& tag.name.len() <= line.len() && line.take(tag.name.len() as int) == tag.name
            &&& contains_text(line, decimal(tag.endpoint_ids.len()) + " endpoints"@)
            &&& tag.description matches Some(text) ==> text.len() <= line.len() && line.skip(
                line.len() - text.len(),
            ) == text
        }),
{
    law_padding(name, 20);
    let line = project_line(name, p);
    let head = padded(name, 20);
    let address = p.base_url.text@;
    let kind = match p.auth {
        Some(auth) => auth.kind_name(),
        None => "none"@,
    };
    assert(line == head + " "@ + address + "  [auth: "@ + kind + "]"@);
    assert(line.take(name.len() as int) =~= head.take(name.len() as int));
    let at = head.len() as int + " "@.len();
    assert(line.subrange(at, at + address.len()) =~= address);
    assert(occurs_at(line, address, at));
    let from = at + address.len() + "  [auth: "@.len();
    assert(line.subrange(from, from + kind.len()) =~= kind);
    assert(occurs_at(line, kind, from));
    lemma_tag_line(tag);
}

proof fn lemma_tag_line(tag: GroupShape)
    ensures
        ({
            let line = tag_line(tag);
            &&& tag.name.len() <= line.len() && line.take(tag.name.len() as int) == tag.name
            &&& contains_text(line, decimal(tag.endpoint_ids.len()) + " endpoints"@)
            &&& tag.description matches Some(text) ==> text.len() <= line.len() && line.skip(
                line.len() - text.len(),
            ) == text
        }),
{
    let line = tag_line(tag);
    let digits = decimal(tag.endpoint_ids.len());
    law_padding(tag.name, 24);
    law_padding(digits, 3);
    let head = padded(tag.name, 24);
    let count = padded_left(digits, 3);
    let text = match tag.description {
        Some(text) => text,
        None => Seq::empty(),
    };
    assert(line == head + " "@ + count + " endpoints  "@ + text);
    assert(line.take(tag.name.len() as int) =~= head.take(tag.name.len() as int));
    assert(line.skip(line.len() - text.len()) =~= text);
    reveal_strlit(" endpoints  ");
    reveal_strlit(" endpoints");
    let before = count.len() - digits.len();
    let at = head.len() as int + " "@.len() + before;
    let told = digits + " endpoints"@;
    assert(count.skip(before) == digits);
    assert(line.subrange(at, at + digits.len()) =~= count.skip(before));
    assert(line.subrange(at, at + told.len()) =~= line.subrange(at, at + digits.len())
        + " endpoints"@);
    assert(occurs_at(line, told, at));
}

/// A listing has one row and one line for each endpoint that was selected, in order.
pub proof fn law_endpoints_answer(
    spec: ApiShape,
    tag: Option<Seq<char>>,
    search: Option<Seq<char>>,
)
    ensures
        match selected(spec.tags, spec.endpoints, tag, search) {
            Ok(list) => endpoints_output(spec, tag, search) matches Ok(out) && {
                &&& out.exit_code == 0
                &&& out.data matches Json::Array(rows) && rows.len() == list.len() && forall|k: int|
                    0 <= k < list.len() ==> #[trigger] rows[k] == endpoint_row(list[k])
                &&& list.len() == 1 ==> out.human == endpoint_line(list[0])
            },
            Err(e) => endpoints_output(spec, tag, search) == Err::<OutputShape, Fault>(
                Fault::Spec(e),
            ),
        },
{
    reveal_with_fuel(joined_from, 2);
}

/// The projects are listed in the order of their names, one row and one line each.
pub proof fn law_projects_answer(config: ProjectsConfig)
    ensures
        ({
            let out = list_output(config);
            let projects = config.projects@;
            &&& out.exit_code == 0
            &&& out.data matches Json::Array(rows) && rows.len() == projects.len() && forall|k: int|
                0 <= k < projects.len() ==> #[trigger] rows[k] == project_row(
                    projects[k].0,
                    projects[k].1,
                )
            &&& projects.len() == 1 ==> out.human == project_line(projects[0].0, projects[0].1)
        }),
{
    reveal_with_fuel(joined_from, 2);
}

/// The answers to project commands name the project.
pub proof fn law_project_answers(name: Seq<char>, file: Seq<char>)
    ensures
        ({
            let out = add_output(name, file);
            &&& out.exit_code == 0
            &&& out.data is Object
            &&& lookup(out.data->Object_0, "added"@) == Some(Json::Text(name))
            &&& contains_text(out.human, "'"@ + name + "'"@)
            &&& file.len() <= out.human.len() && out.human.skip(out.human.len() - file.len())
                == file
        }),
        ({
            let out = remove_output(name);
            &&& out.exit_code == 0
            &&& out.data is Object
            &&& lookup(out.data->Object_0, "removed"@) == Some(Json::Text(name))
            &&& contains_text(out.human, "'"@ + name + "'"@)
        }),
{
    reveal_with_fuel(position_from, 2);
    reveal_strlit("'");
    reveal_strlit("added project '");
    reveal_strlit("'. Configure auth by editing ");
    reveal_strlit("removed project '");
    let told = "'"@ + name + "'"@;
    let added = add_output(name, file).human;
    assert(added.subrange(14, 14int + told.len()) =~= told);
    assert(occurs_at(added, told, 14));
    assert(added.skip(added.len() - file.len()) =~= file);
    let removed = remove_output(name).human;
    assert(removed.subrange(16, 16int + told.len()) =~= told);
    assert(occurs_at(removed, told, 16));
}

/// A valid config is answered with the number of its projects, any other with what
/// is wrong with it.
pub proof fn law_check_answer(config: ProjectsConfig, path: Seq<char>)
    ensures
        match config_fault(config) {
            None => check_output(config, path) matches Ok(out) && {
                &&& out.exit_code == 0
                &&& out.data is Object
                &&& lookup(out.data->Object_0, "projects"@) == Some(
                    Json::Int(config.projects@.len() as int),
                )
                &&& path.len() <= out.human.len() && out.human.take(path.len() as int) == path
            },
            Some(fault) => check_output(config, path) == Err::<OutputShape, Fault>(
                Fault::Config(fault),
            ),
        },
{
    reveal_with_fuel(position_from, 2);
    match check_output(config, path) {
        Ok(out) => {
            assert(out.human.take(path.len() as int) =~= path);
        },
        Err(_) => {},
    }
}

/// Without a command, and for `tui`, the TUI opens; `mcp` serves tools; every other
/// command is answered at once.
pub proof fn law_commands_choose_the_frontend(command: Option<Command>)
    ensures
        frontend_of(command) is Tui <==> command is None || command->0 is Tui,
        frontend_of(command) is Mcp <==> command is Some && command->0 is Mcp,
{
}

} // verus!
