//! The command set and what the headless commands answer.

pub mod laws;
pub mod listing;
pub mod output;
pub mod projects;
pub mod run;

use crate::config::{self, config_fault, BaseUrl, ProjectsConfig};
use crate::error::{exit_code, Fault, HitError, RequestError, RequestFault};
use crate::json::print::indented;
use crate::json::{Json, JsonMap, JsonValue};
use crate::model::template::{template_json, template_of};
use crate::model::{build_template, sought, ApiShape, ApiSpec};
use crate::text::{
    cat3, decimal, join, joined, owned, show, split_at_first, split_once, trim, trimmed,
};
use listing::{
    endpoint_lines, endpoint_rows, endpoints_text, list_endpoints, list_tags, select_endpoints,
    selected, tag_lines, tag_rows, tags_text,
};
use output::{CommandOutput, OutputShape};
use vstd::prelude::*;
use vstd::string::*;

verus! {

/// What the command line says.
#[derive(Debug)]
pub struct Cli {
    /// Path to projects.toml.
    pub config: Option<String>,
    /// Emit a JSON envelope {ok, data, error} on stdout.
    pub json: bool,
    /// Log verbosity.
    pub verbose: u8,
    /// Bypass the spec cache and re-fetch openapi.json.
    pub no_cache: bool,
    /// Request timeout in seconds (overrides the settings).
    pub timeout: Option<u64>,
    pub command: Option<Command>,
}

#[allow(inconsistent_fields)]
#[derive(Debug)]
pub enum Command {
    /// Manage registered projects.
    Projects { cmd: ProjectsCmd },
    /// List a project's OpenAPI tags.
    Tags { project: String },
    /// List endpoints, optionally filtered by tag or search string.
    Endpoints { project: String, tag: Option<String>, search: Option<String> },
    /// Print a fill-in-the-blanks request template for an endpoint.
    Template { project: String, endpoint: String },
    /// Execute a request against an endpoint.
    Run(RunArgs),
    /// Authenticate now and cache the token.
    Login { project: String },
    /// Clear the cached token.
    Logout { project: String },
    /// Spec cache operations.
    Spec { cmd: SpecCmd },
    /// Config file operations.
    Config { cmd: ConfigCmd },
    /// Run as an MCP server on stdio.
    Mcp,
    /// Open the interactive TUI.
    Tui { project: Option<String> },
    /// Generate completions for the named shell.
    Completions { shell: String },
}

#[derive(Debug)]
pub enum ProjectsCmd {
    /// List registered projects.
    List,
    /// Register a project.
    Add {
        name: String,
        base_url: BaseUrl,
        /// On-disk openapi.json fallback used when the server is down.
        spec_file: Option<String>,
        /// Default headers sent with every request, as "Key: Value".
        headers: Vec<String>,
    },
    /// Unregister a project (tokens and cache are also removed).
    Remove { name: String },
}

#[derive(Debug)]
pub enum SpecCmd {
    /// Re-fetch openapi.json and refresh the cache.
    Refresh { project: String },
}

#[derive(Debug)]
pub enum ConfigCmd {
    /// Validate projects.toml.
    Check,
}

#[derive(Debug)]
pub struct RunArgs {
    pub project: String,
    /// An endpoint id or "METHOD /path".
    pub endpoint: String,
    /// JSON body: inline string, @file.json, or '-' for stdin.
    pub body: Option<String>,
    /// Path parameters, as name=value.
    pub path_params: Vec<String>,
    /// Query parameters, as name=value.
    pub query: Vec<String>,
    /// Extra headers, as "Key: Value".
    pub headers: Vec<String>,
    /// Skip authentication for this request.
    pub no_auth: bool,
    /// Exit 0 even when the response is an HTTP error.
    pub allow_error: bool,
}

/// Which of the frontends a command line asks for.
#[derive(Debug, Clone, Copy, PartialEq, Eq, Structural)]
pub enum Frontend {
    Tui,
    Mcp,
    Headless,
}

/// The frontend of a command: no command opens the TUI.
pub open spec fn frontend_of(command: Option<Command>) -> Frontend {
    match command {
        None => Frontend::Tui,
        Some(Command::Tui { .. }) => Frontend::Tui,
        Some(Command::Mcp) => Frontend::Mcp,
        Some(_) => Frontend::Headless,
    }
}

/// Which frontend a command asks for.
pub fn frontend(command: &Option<Command>) -> (r: Frontend)
    ensures
        r == frontend_of(*command),
{
    match command {
        None => Frontend::Tui,
        Some(Command::Tui { .. }) => Frontend::Tui,
        Some(Command::Mcp) => Frontend::Mcp,
        Some(_) => Frontend::Headless,
    }
}

/// Whether logs go to a file: the TUI and MCP modes must never write them to
/// the terminal.
pub fn logs_to_file(command: &Option<Command>) -> (r: bool)
    ensures
        r == !(frontend_of(*command) is Headless),
{
    match frontend(command) {
        Frontend::Headless => false,
        _ => true,
    }
}

/// The log level of a verbosity.
pub fn log_level(verbose: u8) -> (r: &'static str)
    ensures
        r@ == (if verbose == 0 {
            "warn"@
        } else if verbose == 1 {
            "info"@
        } else {
            "debug"@
        }),
{
    match verbose {
        0 => "warn",
        1 => "info",
        _ => "debug",
    }
}

/// Whether output should be the JSON envelope: on request, and whenever
/// stdout is not a terminal.
pub fn json_mode(cli: &Cli, stdout_is_terminal: bool) -> (r: bool)
    ensures
        r == (cli.json || !stdout_is_terminal),
{
    cli.json || !stdout_is_terminal
}

// ---------------------------------------------------------------- parsing

/// A pair written as name=value.
pub open spec fn kv_of(input: Seq<char>) -> Result<(Seq<char>, Seq<char>), RequestFault> {
    match split_at_first(input, '=') {
        Some((name, value)) => Ok((trimmed(name), value)),
        None => Err(RequestFault::InvalidBody("expected name=value, got '"@ + input + "'"@)),
    }
}

/// A header written as "Key: Value".
pub open spec fn header_of(input: Seq<char>) -> Result<(Seq<char>, Seq<char>), RequestFault> {
    match split_at_first(input, ':') {
        Some((name, value)) => Ok((trimmed(name), trimmed(value))),
        None => Err(RequestFault::InvalidHeader(input)),
    }
}

/// Reads a pair written as name=value.
pub fn parse_kv(input: &str) -> (r: Result<(String, String), RequestError>)
    ensures
        match r {
            Ok((name, value)) => kv_of(input@) == Ok::<(Seq<char>, Seq<char>), RequestFault>(
                (name@, value@),
            ),
            Err(e) => kv_of(input@) == Err::<(Seq<char>, Seq<char>), RequestFault>(e@),
        },
{
    match split_once(input, '=') {
        Some((name, value)) => Ok((trim(name.as_str()), value)),
        None => Err(
            RequestError::InvalidBody(cat3("expected name=value, got '", input, "'")),
        ),
    }
}

/// Reads a header written as "Key: Value".
pub fn parse_header(input: &str) -> (r: Result<(String, String), RequestError>)
    ensures
        match r {
            Ok((name, value)) => header_of(input@) == Ok::<(Seq<char>, Seq<char>), RequestFault>(
                (name@, value@),
            ),
            Err(e) => header_of(input@) == Err::<(Seq<char>, Seq<char>), RequestFault>(e@),
        },
{
    match split_once(input, ':') {
        Some((name, value)) => Ok((trim(name.as_str()), trim(value.as_str()))),
        None => Err(RequestError::InvalidHeader(owned(input))),
    }
}

// ---------------------------------------------------------------- commands

/// The answer to `tags`.
pub fn tags_cmd(spec: &ApiSpec) -> (r: CommandOutput)
    ensures
        r@ == (OutputShape {
            data: Json::Array(tag_rows(spec@.tags)),
            human: joined(tag_lines(spec@.tags), "\n"@),
            exit_code: exit_code::OK,
        }),
{
    let rows = list_tags(&spec.tags);
    let lines = tags_text(&spec.tags);
    CommandOutput::ok(JsonValue::Array(rows), join(&lines, "\n"))
}

/// The answer to `endpoints`.
pub open spec fn endpoints_output(
    spec: ApiShape,
    tag: Option<Seq<char>>,
    search: Option<Seq<char>>,
) -> Result<OutputShape, Fault> {
    match selected(spec.tags, spec.endpoints, tag, search) {
        Ok(list) => Ok(
            OutputShape {
                data: Json::Array(endpoint_rows(list)),
                human: joined(endpoint_lines(list), "\n"@),
                exit_code: exit_code::OK,
            },
        ),
        Err(e) => Err(Fault::Spec(e)),
    }
}

/// Lists endpoints, filtered by tag or search text.
pub fn endpoints_cmd(spec: &ApiSpec, tag: Option<&str>, search: Option<&str>) -> (r: Result<
    CommandOutput,
    HitError,
>)
    ensures
        output::outcome_of(r) == endpoints_output(spec@, tag.deep_view(), search.deep_view()),
{
    match select_endpoints(spec, tag, search) {
        Ok(list) => {
            let rows = list_endpoints(&list);
            let lines = endpoints_text(&list);
            Ok(CommandOutput::ok(JsonValue::Array(rows), join(&lines, "\n")))
        },
        Err(e) => Err(HitError::Spec(e)),
    }
}

/// The answer to `template`.
pub open spec fn template_output(spec: ApiShape, key: Seq<char>) -> Result<OutputShape, Fault> {
    match sought(spec.endpoints, key) {
        Ok(found) => {
            let data = template_json(template_of(found));
            Ok(
                OutputShape {
                    data,
                    human: indented(data, Seq::empty()),
                    exit_code: exit_code::OK,
                },
            )
        },
        Err(e) => Err(Fault::Spec(e)),
    }
}

/// Prints a request template for an endpoint.
pub fn template_cmd(spec: &ApiSpec, endpoint: &str) -> (r: Result<CommandOutput, HitError>)
    ensures
        output::outcome_of(r) == template_output(spec@, endpoint@),
{
    match spec.find_endpoint(endpoint) {
        Ok(found) => {
            let template = build_template(found);
            let data = template.to_json();
            let human = data.to_text_pretty();
            Ok(CommandOutput::ok(data, human))
        },
        Err(e) => Err(HitError::Spec(e)),
    }
}

/// The error of a login to a project without auth.
pub fn no_auth_configured(project_name: &str) -> (r: HitError)
    ensures
        r@ == Fault::Other("project '"@ + project_name@ + "' has no auth configured"@),
{
    HitError::Other(cat3("project '", project_name, "' has no auth configured"))
}

/// What is left until an expiry.
pub open spec fn remaining(exp: u64, now: u64) -> nat {
    if exp > now {
        (exp - now) as nat
    } else {
        0
    }
}

/// The answer to `login`.
pub open spec fn login_output(
    project: Seq<char>,
    expiry: Option<u64>,
    now: u64,
) -> OutputShape {
    OutputShape {
        data: Json::Object(
            seq![
                ("project"@, Json::Text(project)),
                (
                    "expires_at_unix"@,
                    match expiry {
                        Some(exp) => Json::Int(exp as int),
                        None => Json::Null,
                    },
                ),
            ],
        ),
        human: "logged in to '"@ + project + (match expiry {
            Some(exp) => "' (token expires in "@ + decimal(remaining(exp, now)) + "s)"@,
            None => "' (token has no visible expiry)"@,
        }),
        exit_code: exit_code::OK,
    }
}

/// What is answered after a login.
pub fn login_cmd(project_name: &str, expiry: Option<u64>, now: u64) -> (r: CommandOutput)
    ensures
        r@ == login_output(project_name@, expiry, now),
{
    let mut data = JsonMap::new();
    data.append_text("project", project_name);
    let (value, tail) = match expiry {
        Some(exp) => {
            let left: u64 = if exp > now {
                exp - now
            } else {
                0
            };
            let secs = show(left);
            (JsonValue::unsigned(exp), cat3("' (token expires in ", secs.as_str(), "s)"))
        },
        None => (JsonValue::Null, owned("' (token has no visible expiry)")),
    };
    data.append("expires_at_unix", value);
    assert(data@ =~= login_output(project_name@, expiry, now).data->Object_0);
    let human = cat3("logged in to '", project_name, tail.as_str());
    CommandOutput::ok(JsonValue::Object(data), human)
}

/// What is answered after a logout.
pub fn logout_cmd(project_name: &str) -> (r: CommandOutput)
    ensures
        r@ == (OutputShape {
            data: Json::Object(seq![("project"@, Json::Text(project_name@))]),
            human: "cleared cached token for '"@ + project_name@ + "'"@,
            exit_code: exit_code::OK,
        }),
{
    let mut data = JsonMap::new();
    data.append_text("project", project_name);
    assert(data@ =~= seq![("project"@, Json::Text(project_name@))]);
    CommandOutput::ok(
        JsonValue::Object(data),
        cat3("cleared cached token for '", project_name, "'"),
    )
}

/// The answer to `spec refresh`.
pub open spec fn refresh_output(project: Seq<char>, spec: ApiShape) -> OutputShape {
    OutputShape {
        data: Json::Object(
            seq![
                ("title"@, Json::Text(spec.title)),
                ("version"@, Json::Text(spec.version)),
                ("openapi_version"@, Json::Text(spec.openapi_version)),
                ("tags"@, Json::Int(spec.tags.len() as int)),
                ("endpoints"@, Json::Int(spec.endpoints.len() as int)),
            ],
        ),
        human: "refreshed '"@ + project + "': "@ + spec.title + " v"@ + spec.version + " — "@
            + decimal(spec.endpoints.len()) + " endpoints across "@ + decimal(spec.tags.len())
            + " tags"@,
        exit_code: exit_code::OK,
    }
}

/// What is answered after a refresh.
pub fn refresh_cmd(project_name: &str, spec: &ApiSpec) -> (r: CommandOutput)
    ensures
        r@ == refresh_output(project_name@, spec@),
{
    let mut data = JsonMap::new();
    data.append_text("title", spec.title.as_str());
    data.append_text("version", spec.version.as_str());
    data.append_text("openapi_version", spec.openapi_version.as_str());
    data.append("tags", JsonValue::unsigned(spec.tags.len() as u64));
    data.append("endpoints", JsonValue::unsigned(spec.endpoints.len() as u64));
    assert(data@ =~= refresh_output(project_name@, spec@).data->Object_0);
    let mut human = cat3("refreshed '", project_name, "': ");
    human.append(spec.title.as_str());
    human.append(" v");
    human.append(spec.version.as_str());
    human.append(" — ");
    let endpoints = show(spec.endpoints.len() as u64);
    human.append(endpoints.as_str());
    human.append(" endpoints across ");
    let tags = show(spec.tags.len() as u64);
    human.append(tags.as_str());
    human.append(" tags");
    CommandOutput::ok(JsonValue::Object(data), human)
}

/// The answer to `config check`.
pub open spec fn check_output(config: ProjectsConfig, path: Seq<char>) -> Result<
    OutputShape,
    Fault,
> {
    match config_fault(config) {
        Some(fault) => Err(Fault::Config(fault)),
        None => Ok(
            OutputShape {
                data: Json::Object(
                    seq![("projects"@, Json::Int(config.projects@.len() as int))],
                ),
                human: path + " OK — "@ + decimal(config.projects@.len()) + " project(s)"@,
                exit_code: exit_code::OK,
            },
        ),
    }
}

/// Validates a config and says so.
pub fn config_check_cmd(config: &ProjectsConfig, path: &str) -> (r: Result<
    CommandOutput,
    HitError,
>)
    ensures
        output::outcome_of(r) == check_output(*config, path@),
{
    match config::validate(config) {
        Ok(()) => {},
        Err(e) => {
            return Err(HitError::Config(e));
        },
    }
    let count = config.projects.len() as u64;
    let mut data = JsonMap::new();
    data.append("projects", JsonValue::unsigned(count));
    assert(data@ =~= seq![("projects"@, Json::Int(config.projects@.len() as int))]);
    let number = show(count);
    let mut human = cat3(path, " OK — ", number.as_str());
    human.append(" project(s)");
    Ok(CommandOutput::ok(JsonValue::Object(data), human))
}

} // verus!
