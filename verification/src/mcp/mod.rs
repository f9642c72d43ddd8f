//! MCP server mode (`hit mcp`): the same capabilities as the headless CLI,
//! exposed as tools. What each tool answers, and what keeps a tool call from
//! ever opening a browser.

use crate::auth::token_store::TokenShape;
use crate::auth::{headless_of, step_of, AuthManager, Provider, StoredToken};
use crate::cli::listing::{
    brief_projects, endpoint_rows, project_briefs, select_endpoints, selected, tag_rows,
};
use crate::cli::listing;
use crate::config::ProjectsConfig;
use crate::error::{AuthError, AuthFault, Fault, HitError};
use crate::http::{ArgsShape, RequestArgs};
use crate::json::{Json, JsonMap, JsonValue};
use crate::model::template::{template_json, template_of};
use crate::model::{build_template, sought, ApiSpec};
use crate::text::{cat3, contains_text, occurs_at, owned};
use vstd::prelude::*;
use vstd::string::*;

verus! {

/// What a failed tool call says.
#[derive(Debug)]
pub struct ToolError {
    pub message: String,
    pub data: JsonValue,
}

pub struct ToolErrorShape {
    pub message: Seq<char>,
    pub data: Json,
}

impl View for ToolError {
    type V = ToolErrorShape;

    open spec fn view(&self) -> ToolErrorShape {
        ToolErrorShape { message: self.message@, data: self.data@ }
    }
}

/// The arguments of `execute_request`.
#[derive(Debug)]
pub struct ExecuteParams {
    /// Registered project name.
    pub project: String,
    /// An endpoint id or "METHOD /path".
    pub endpoint: String,
    /// JSON request body.
    pub body: Option<JsonValue>,
    /// Values for the {placeholders} in the endpoint path.
    pub path_params: Option<Vec<(String, String)>>,
    /// Query-string parameters.
    pub query_params: Option<Vec<(String, String)>>,
    /// Extra request headers.
    pub headers: Option<Vec<(String, String)>>,
    /// Skip authentication for this request.
    pub no_auth: bool,
}

/// What a failed tool call says of an error.
pub open spec fn tool_fault(fault: Fault) -> ToolErrorShape {
    ToolErrorShape {
        message: fault.message(),
        data: Json::Object(seq![("kind"@, Json::Text(fault.kind()))]),
    }
}

/// What a failed tool call says of an error.
pub fn tool_error(error: &HitError) -> (r: ToolError)
    ensures
        r@ == tool_fault(error@),
{
    let mut data = JsonMap::new();
    data.append_text("kind", error.kind());
    assert(data@ =~= seq![("kind"@, Json::Text(error@.kind()))]);
    ToolError { message: error.message(), data: JsonValue::Object(data) }
}

fn wrapped(key: &str, rows: Vec<JsonValue>) -> (r: JsonValue)
    ensures
        r@ == Json::Object(seq![(key@, Json::Array(crate::json::list_json(&rows)))]),
{
    let ghost items = crate::json::list_json(&rows);
    let mut map = JsonMap::new();
    map.append(key, JsonValue::Array(rows));
    assert(map@ =~= seq![(key@, Json::Array(items))]);
    JsonValue::Object(map)
}

/// The answer of `list_projects`.
pub fn list_projects(config: &ProjectsConfig) -> (r: JsonValue)
    ensures
        r@ == Json::Object(seq![("projects"@, Json::Array(project_briefs(config.projects@)))]),
{
    wrapped("projects", brief_projects(config))
}

/// The answer of `list_tags`.
pub fn list_tags(spec: &ApiSpec) -> (r: JsonValue)
    ensures
        r@ == Json::Object(seq![("tags"@, Json::Array(tag_rows(spec@.tags)))]),
{
    wrapped("tags", listing::list_tags(&spec.tags))
}

/// The answer of `list_endpoints`.
pub fn list_endpoints(spec: &ApiSpec, tag: Option<&str>, search: Option<&str>) -> (r: Result<
    JsonValue,
    ToolError,
>)
    ensures
        match selected(spec@.tags, spec@.endpoints, tag.deep_view(), search.deep_view()) {
            Ok(list) => r matches Ok(answer) && answer@ == Json::Object(
                seq![("endpoints"@, Json::Array(endpoint_rows(list)))],
            ),
            Err(fault) => r matches Err(e) && e@ == tool_fault(Fault::Spec(fault)),
        },
{
    match select_endpoints(spec, tag, search) {
        Ok(list) => Ok(wrapped("endpoints", listing::list_endpoints(&list))),
        Err(e) => Err(tool_error(&HitError::Spec(e))),
    }
}

/// The answer of `get_request_template`.
pub fn get_request_template(spec: &ApiSpec, endpoint: &str) -> (r: Result<JsonValue, ToolError>)
    ensures
        match sought(spec@.endpoints, endpoint@) {
            Ok(found) => r matches Ok(answer) && answer@ == template_json(template_of(found)),
            Err(fault) => r matches Err(e) && e@ == tool_fault(Fault::Spec(fault)),
        },
{
    match spec.find_endpoint(endpoint) {
        Ok(found) => {
            let template = build_template(found);
            Ok(template.to_json())
        },
        Err(e) => Err(tool_error(&HitError::Spec(e))),
    }
}

pub open spec fn pairs_or_none(pairs: Option<Vec<(String, String)>>) -> Seq<
    (Seq<char>, Seq<char>),
> {
    match pairs {
        Some(pairs) => pairs.deep_view(),
        None => Seq::empty(),
    }
}

fn or_none(pairs: Option<Vec<(String, String)>>) -> (r: Vec<(String, String)>)
    ensures
        r.deep_view() == pairs_or_none(pairs),
{
    match pairs {
        Some(pairs) => pairs,
        None => {
            let none: Vec<(String, String)> = Vec::new();
            assert(none.deep_view() =~= Seq::empty());
            none
        },
    }
}

/// The request that `execute_request` sends.
pub fn execute_args(params: ExecuteParams) -> (r: RequestArgs)
    ensures
        r@ == (ArgsShape {
            path_params: pairs_or_none(params.path_params),
            query_params: pairs_or_none(params.query_params),
            headers: pairs_or_none(params.headers),
            body: params.body.deep_view(),
            no_auth: params.no_auth,
        }),
{
    RequestArgs {
        path_params: or_none(params.path_params),
        query_params: or_none(params.query_params),
        headers: or_none(params.headers),
        body: params.body,
        no_auth: params.no_auth,
    }
}

/// What a provider that wants to ask the human is told instead.
pub fn deny_instruction(project: &str) -> (r: String)
    ensures
        r@ == "interactive auth required — run `hit login "@ + project@
            + "` in a terminal, then retry"@,
{
    cat3(
        "interactive auth required — run `hit login ",
        project,
        "` in a terminal, then retry",
    )
}

pub open spec fn not_logged_in(project: Seq<char>) -> Seq<char> {
    "project '"@ + project
        + "' uses browser-based OAuth and has no cached token — run `hit login "@ + project
        + "` in a terminal first"@
}

/// Whether a call is refused because a token could only come from a browser
/// or a prompt.
pub open spec fn refused(headless: bool, logged_in: bool, no_auth: bool) -> bool {
    !headless && !logged_in && !no_auth
}

/// Never launch a browser from MCP mode: without a cached token, only providers
/// that need no human may go on.
pub fn browser_gate(
    project: &str,
    auth: Option<&AuthManager<'_>>,
    stored: &Option<StoredToken>,
    no_auth: bool,
) -> (r: Result<(), HitError>)
    ensures
        match auth {
            Some(manager) if refused(
                headless_of(manager.provider),
                *stored is Some,
                no_auth,
            ) => r matches Err(e) && e@ == Fault::Auth(
                AuthFault::InteractionRequired(not_logged_in(project@)),
            ),
            _ => r is Ok,
        },
{
    if let Some(manager) = auth {
        if !manager.supports_headless() && stored.is_none() && !no_auth {
            let head = cat3(
                "project '",
                project,
                "' uses browser-based OAuth and has no cached token — run `hit login ",
            );
            return Err(
                HitError::Auth(
                    AuthError::InteractionRequired(
                        cat3(head.as_str(), project, "` in a terminal first"),
                    ),
                ),
            );
        }
    }
    Ok(())
}

/// What the server tells a client about itself.
pub fn instructions() -> (r: String)
    ensures
        r@ == "hitpoint: test the user's registered API backends. Workflow: list_projects -> list_tags / list_endpoints -> get_request_template -> execute_request. Always fetch the template before executing an endpoint with a body; optional_paths in the template lists fields you may omit, nullable_paths lists fields that accept null."@,
{
    owned(
        "hitpoint: test the user's registered API backends. Workflow: list_projects -> list_tags / list_endpoints -> get_request_template -> execute_request. Always fetch the template before executing an endpoint with a body; optional_paths in the template lists fields you may omit, nullable_paths lists fields that accept null.",
    )
}

// ---------------------------------------------------------------- laws

/// A provider built for MCP mode never sends anyone to a browser, whatever
/// token is cached.
pub proof fn law_mcp_never_opens_a_browser(
    provider: Provider<'_>,
    stored: Option<TokenShape>,
    now: u64,
)
    requires
        provider matches Provider::OAuth2Pkce(oauth) ==> oauth.headless,
    ensures
        !(step_of(provider, stored, now) is Authorize),
{
}

/// A refusal names the exact command to run.
pub proof fn law_refusal_names_the_command(project: Seq<char>)
    ensures
        contains_text(not_logged_in(project), "`hit login "@ + project + "`"@),
{
    reveal_strlit("' uses browser-based OAuth and has no cached token — run `hit login ");
    reveal_strlit("`hit login ");
    reveal_strlit("`");
    reveal_strlit("` in a terminal first");
    let long = "' uses browser-based OAuth and has no cached token — run `hit login "@;
    let short = "`hit login "@;
    let at = "project '"@.len() + project.len() + long.len() - short.len();
    let needle = short + project + "`"@;
    assert(not_logged_in(project).subrange(at as int, at + needle.len()) =~= needle);
    assert(occurs_at(not_logged_in(project), needle, at as int));
}

/// A call goes on where no token is asked for, where one is cached, or where one can
/// be had without a human; only a provider that needs the browser or a prompt does
/// not.
pub proof fn law_only_calls_that_need_a_human_are_refused(
    provider: Provider<'_>,
    logged_in: bool,
    no_auth: bool,
)
    ensures
        no_auth || logged_in ==> !refused(headless_of(provider), logged_in, no_auth),
        provider is OAuth2Pkce && !no_auth && !logged_in ==> refused(
            headless_of(provider),
            logged_in,
            no_auth,
        ),
        provider matches Provider::JwtLogin(jwt) ==> !no_auth && !logged_in ==> (refused(
            headless_of(provider),
            logged_in,
            no_auth,
        ) <==> jwt.config.username is Prompt || jwt.config.password is Prompt),
{
}

/// What a failed call says is the message and the kind of its error.
pub proof fn law_failed_calls_tell_the_error(fault: Fault)
    ensures
        tool_fault(fault).message == fault.message(),
        tool_fault(fault).data.member("kind"@) == Some(Json::Text(fault.kind())),
{
    reveal_with_fuel(crate::json::position_from, 2);
}

} // verus!
