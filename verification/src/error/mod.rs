//! Error taxonomy shared by the CLI envelope, MCP error results, and exit codes.

pub mod exit_code;

use crate::text::{
    cat, cat3, contains_text, decimal, join, joined, occurs_at, owned, show,
};
use vstd::prelude::*;
use vstd::string::*;

verus! {

#[derive(Debug, PartialEq)]
pub enum ConfigError {
    NotFound(String),
    Io {
        path: String,
        /// What the operating system said.
        source: String,
    },
    Parse(String),
    UnknownProject { name: String, available: Vec<String> },
    DuplicateProject(String),
    Invalid { field: String, message: String },
}

#[derive(Debug, PartialEq)]
pub enum SpecError {
    Fetch { url: String, message: String },
    Unavailable { project: String, detail: String },
    Parse(String),
    UnknownEndpoint { name: String, suggestions: Vec<String> },
    UnknownTag { name: String, available: Vec<String> },
}

#[derive(Debug, PartialEq)]
pub enum AuthError {
    Credential(String),
    LoginFailed { url: String, message: String },
    TokenNotFound(String),
    OAuth(String),
    Store(String),
    InteractionRequired(String),
}

#[derive(Debug, PartialEq)]
pub enum RequestError {
    MissingPathParam(String),
    InvalidBody(String),
    InvalidHeader(String),
    Network { url: String, message: String },
    Timeout(u64),
}

/// Umbrella error: everything user-facing funnels through this so the JSON
/// envelope, MCP errors, and exit codes stay consistent.
#[derive(Debug, PartialEq)]
pub enum HitError {
    Config(ConfigError),
    Spec(SpecError),
    Auth(AuthError),
    Request(RequestError),
    Other(String),
}

// ---------------------------------------------------------------- model

/// A `ConfigError` as a mathematical value.
pub enum ConfigFault {
    NotFound(Seq<char>),
    Io { path: Seq<char>, source: Seq<char> },
    Parse(Seq<char>),
    UnknownProject { name: Seq<char>, available: Seq<Seq<char>> },
    DuplicateProject(Seq<char>),
    Invalid { field: Seq<char>, message: Seq<char> },
}

/// A `SpecError` as a mathematical value.
pub enum SpecFault {
    Fetch { url: Seq<char>, message: Seq<char> },
    Unavailable { project: Seq<char>, detail: Seq<char> },
    Parse(Seq<char>),
    UnknownEndpoint { name: Seq<char>, suggestions: Seq<Seq<char>> },
    UnknownTag { name: Seq<char>, available: Seq<Seq<char>> },
}

/// An `AuthError` as a mathematical value.
pub enum AuthFault {
    Credential(Seq<char>),
    LoginFailed { url: Seq<char>, message: Seq<char> },
    TokenNotFound(Seq<char>),
    OAuth(Seq<char>),
    Store(Seq<char>),
    InteractionRequired(Seq<char>),
}

/// A `RequestError` as a mathematical value.
pub enum RequestFault {
    MissingPathParam(Seq<char>),
    InvalidBody(Seq<char>),
    InvalidHeader(Seq<char>),
    Network { url: Seq<char>, message: Seq<char> },
    Timeout(nat),
}

/// A `HitError` as a mathematical value.
pub enum Fault {
    Config(ConfigFault),
    Spec(SpecFault),
    Auth(AuthFault),
    Request(RequestFault),
    Other(Seq<char>),
}

impl View for ConfigError {
    type V = ConfigFault;

    open spec fn view(&self) -> ConfigFault {
        match self {
            ConfigError::NotFound(path) => ConfigFault::NotFound(path@),
            ConfigError::Io { path, source } => ConfigFault::Io { path: path@, source: source@ },
            ConfigError::Parse(message) => ConfigFault::Parse(message@),
            ConfigError::UnknownProject { name, available } => ConfigFault::UnknownProject {
                name: name@,
                available: available.deep_view(),
            },
            ConfigError::DuplicateProject(name) => ConfigFault::DuplicateProject(name@),
            ConfigError::Invalid { field, message } => ConfigFault::Invalid {
                field: field@,
                message: message@,
            },
        }
    }
}

impl View for SpecError {
    type V = SpecFault;

    open spec fn view(&self) -> SpecFault {
        match self {
            SpecError::Fetch { url, message } => SpecFault::Fetch { url: url@, message: message@ },
            SpecError::Unavailable { project, detail } => SpecFault::Unavailable {
                project: project@,
                detail: detail@,
            },
            SpecError::Parse(message) => SpecFault::Parse(message@),
            SpecError::UnknownEndpoint { name, suggestions } => SpecFault::UnknownEndpoint {
                name: name@,
                suggestions: suggestions.deep_view(),
            },
            SpecError::UnknownTag { name, available } => SpecFault::UnknownTag {
                name: name@,
                available: available.deep_view(),
            },
        }
    }
}

impl View for AuthError {
    type V = AuthFault;

    open spec fn view(&self) -> AuthFault {
        match self {
            AuthError::Credential(m) => AuthFault::Credential(m@),
            AuthError::LoginFailed { url, message } => AuthFault::LoginFailed {
                url: url@,
                message: message@,
            },
            AuthError::TokenNotFound(p) => AuthFault::TokenNotFound(p@),
            AuthError::OAuth(m) => AuthFault::OAuth(m@),
            AuthError::Store(m) => AuthFault::Store(m@),
            AuthError::InteractionRequired(m) => AuthFault::InteractionRequired(m@),
        }
    }
}

impl View for RequestError {
    type V = RequestFault;

    open spec fn view(&self) -> RequestFault {
        match self {
            RequestError::MissingPathParam(name) => RequestFault::MissingPathParam(name@),
            RequestError::InvalidBody(m) => RequestFault::InvalidBody(m@),
            RequestError::InvalidHeader(name) => RequestFault::InvalidHeader(name@),
            RequestError::Network { url, message } => RequestFault::Network {
                url: url@,
                message: message@,
            },
            RequestError::Timeout(secs) => RequestFault::Timeout(*secs as nat),
        }
    }
}

impl View for HitError {
    type V = Fault;

    open spec fn view(&self) -> Fault {
        match self {
            HitError::Config(e) => Fault::Config(e@),
            HitError::Spec(e) => Fault::Spec(e@),
            HitError::Auth(e) => Fault::Auth(e@),
            HitError::Request(e) => Fault::Request(e@),
            HitError::Other(m) => Fault::Other(m@),
        }
    }
}

/// The list of suggestions behind an unknown name.
pub open spec fn suggestion(names: Seq<Seq<char>>) -> Seq<char> {
    if names.len() == 0 {
        Seq::empty()
    } else {
        " (did you mean one of: "@ + joined(names, ", "@) + "?)"@
    }
}

impl ConfigFault {
    pub open spec fn message(self) -> Seq<char> {
        match self {
            ConfigFault::NotFound(path) => "config file not found at "@ + path,
            ConfigFault::Io { path, source } => "failed to read config "@ + path + ": "@ + source,
            ConfigFault::Parse(m) => "invalid config: "@ + m,
            ConfigFault::UnknownProject { name, available } => "unknown project '"@ + name + "'"@
                + suggestion(available),
            ConfigFault::DuplicateProject(name) => "project '"@ + name + "' already exists"@,
            ConfigFault::Invalid { field, message } => "invalid value for "@ + field + ": "@
                + message,
        }
    }
}

impl SpecFault {
    pub open spec fn message(self) -> Seq<char> {
        match self {
            SpecFault::Fetch { url, message } => "failed to fetch OpenAPI spec from "@ + url
                + ": "@ + message,
            SpecFault::Unavailable { project, detail } => "no spec available for '"@ + project
                + "': server unreachable and no usable fallback ("@ + detail + ")"@,
            SpecFault::Parse(m) => "failed to parse OpenAPI spec: "@ + m,
            SpecFault::UnknownEndpoint { name, suggestions } => "unknown endpoint '"@ + name
                + "'"@ + suggestion(suggestions),
            SpecFault::UnknownTag { name, available } => "unknown tag '"@ + name + "'"@
                + suggestion(available),
        }
    }
}

impl AuthFault {
    pub open spec fn message(self) -> Seq<char> {
        match self {
            AuthFault::Credential(m) => "credential unavailable: "@ + m,
            AuthFault::LoginFailed { url, message } => "login request to "@ + url + " failed: "@
                + message,
            AuthFault::TokenNotFound(p) => "token not found in login response at JSON pointer '"@
                + p + "'"@,
            AuthFault::OAuth(m) => "OAuth2 flow failed: "@ + m,
            AuthFault::Store(m) => "token store error: "@ + m,
            AuthFault::InteractionRequired(m) => "interactive authentication required: "@ + m,
        }
    }
}

impl RequestFault {
    pub open spec fn message(self) -> Seq<char> {
        match self {
            RequestFault::MissingPathParam(name) => "missing required path parameter '"@ + name
                + "'"@,
            RequestFault::InvalidBody(m) => "invalid request body: "@ + m,
            RequestFault::InvalidHeader(name) => "invalid header '"@ + name + "'"@,
            RequestFault::Network { url, message } => "request to "@ + url + " failed: "@
                + message,
            RequestFault::Timeout(secs) => "request timed out after "@ + decimal(secs) + "s"@,
        }
    }
}

impl Fault {
    pub open spec fn message(self) -> Seq<char> {
        match self {
            Fault::Config(e) => e.message(),
            Fault::Spec(e) => e.message(),
            Fault::Auth(e) => e.message(),
            Fault::Request(e) => e.message(),
            Fault::Other(m) => m,
        }
    }

    /// Stable machine-readable kind.
    pub open spec fn kind(self) -> Seq<char> {
        match self {
            Fault::Config(ConfigFault::UnknownProject { .. }) => "unknown_project"@,
            Fault::Config(_) => "config_error"@,
            Fault::Spec(SpecFault::UnknownEndpoint { .. }) => "unknown_endpoint"@,
            Fault::Spec(SpecFault::UnknownTag { .. }) => "unknown_tag"@,
            Fault::Spec(SpecFault::Unavailable { .. }) => "spec_unavailable"@,
            Fault::Spec(_) => "spec_error"@,
            Fault::Auth(AuthFault::InteractionRequired(_)) => "auth_interaction_required"@,
            Fault::Auth(_) => "auth_error"@,
            Fault::Request(RequestFault::Network { .. }) => "network_error"@,
            Fault::Request(RequestFault::Timeout(_)) => "timeout"@,
            Fault::Request(_) => "request_error"@,
            Fault::Other(_) => "error"@,
        }
    }

    /// The process exit code.
    pub open spec fn exit_code(self) -> i32 {
        match self {
            Fault::Config(_) => exit_code::USAGE,
            Fault::Spec(_) => exit_code::SPEC,
            Fault::Auth(_) => exit_code::AUTH,
            Fault::Request(RequestFault::Network { .. }) => exit_code::NETWORK,
            Fault::Request(RequestFault::Timeout(_)) => exit_code::NETWORK,
            Fault::Request(_) => exit_code::USAGE,
            Fault::Other(_) => exit_code::USAGE,
        }
    }
}

// ---------------------------------------------------------------- operations

fn suggest(names: &Vec<String>) -> (r: String)
    ensures
        r@ == suggestion(names.deep_view()),
{
    if names.len() == 0 {
        String::new()
    } else {
        let list = join(names, ", ");
        cat3(" (did you mean one of: ", list.as_str(), "?)")
    }
}

fn cat4(a: &str, b: &str, c: &str, d: &str) -> (r: String)
    ensures
        r@ == a@ + b@ + c@ + d@,
{
    let mut out = cat3(a, b, c);
    out.append(d);
    out
}

impl ConfigError {
    /// The human-readable message.
    pub fn message(&self) -> (r: String)
        ensures
            r@ == self@.message(),
    {
        match self {
            ConfigError::NotFound(path) => cat("config file not found at ", path.as_str()),
            ConfigError::Io { path, source } => cat4(
                "failed to read config ",
                path.as_str(),
                ": ",
                source.as_str(),
            ),
            ConfigError::Parse(m) => cat("invalid config: ", m.as_str()),
            ConfigError::UnknownProject { name, available } => {
                let list = suggest(available);
                cat4("unknown project '", name.as_str(), "'", list.as_str())
            },
            ConfigError::DuplicateProject(name) => cat3(
                "project '",
                name.as_str(),
                "' already exists",
            ),
            ConfigError::Invalid { field, message } => cat4(
                "invalid value for ",
                field.as_str(),
                ": ",
                message.as_str(),
            ),
        }
    }
}

impl SpecError {
    /// The human-readable message.
    pub fn message(&self) -> (r: String)
        ensures
            r@ == self@.message(),
    {
        match self {
            SpecError::Fetch { url, message } => cat4(
                "failed to fetch OpenAPI spec from ",
                url.as_str(),
                ": ",
                message.as_str(),
            ),
            SpecError::Unavailable { project, detail } => {
                let mut out = cat4(
                    "no spec available for '",
                    project.as_str(),
                    "': server unreachable and no usable fallback (",
                    detail.as_str(),
                );
                out.append(")");
                out
            },
            SpecError::Parse(m) => cat("failed to parse OpenAPI spec: ", m.as_str()),
            SpecError::UnknownEndpoint { name, suggestions } => {
                let list = suggest(suggestions);
                cat4("unknown endpoint '", name.as_str(), "'", list.as_str())
            },
            SpecError::UnknownTag { name, available } => {
                let list = suggest(available);
                cat4("unknown tag '", name.as_str(), "'", list.as_str())
            },
        }
    }
}

impl AuthError {
    /// The human-readable message.
    pub fn message(&self) -> (r: String)
        ensures
            r@ == self@.message(),
    {
        match self {
            AuthError::Credential(m) => cat("credential unavailable: ", m.as_str()),
            AuthError::LoginFailed { url, message } => cat4(
                "login request to ",
                url.as_str(),
                " failed: ",
                message.as_str(),
            ),
            AuthError::TokenNotFound(p) => cat3(
                "token not found in login response at JSON pointer '",
                p.as_str(),
                "'",
            ),
            AuthError::OAuth(m) => cat("OAuth2 flow failed: ", m.as_str()),
            AuthError::Store(m) => cat("token store error: ", m.as_str()),
            AuthError::InteractionRequired(m) => cat(
                "interactive authentication required: ",
                m.as_str(),
            ),
        }
    }
}

impl RequestError {
    /// The human-readable message.
    pub fn message(&self) -> (r: String)
        ensures
            r@ == self@.message(),
    {
        match self {
            RequestError::MissingPathParam(name) => cat3(
                "missing required path parameter '",
                name.as_str(),
                "'",
            ),
            RequestError::InvalidBody(m) => cat("invalid request body: ", m.as_str()),
            RequestError::InvalidHeader(name) => cat3("invalid header '", name.as_str(), "'"),
            RequestError::Network { url, message } => cat4(
                "request to ",
                url.as_str(),
                " failed: ",
                message.as_str(),
            ),
            RequestError::Timeout(secs) => {
                let digits = show(*secs);
                cat3("request timed out after ", digits.as_str(), "s")
            },
        }
    }
}

impl HitError {
    /// The human-readable message.
    pub fn message(&self) -> (r: String)
        ensures
            r@ == self@.message(),
    {
        match self {
            HitError::Config(e) => e.message(),
            HitError::Spec(e) => e.message(),
            HitError::Auth(e) => e.message(),
            HitError::Request(e) => e.message(),
            HitError::Other(m) => owned(m.as_str()),
        }
    }

    /// Stable machine-readable error kind, used in the JSON envelope and MCP errors.
    pub fn kind(&self) -> (r: &'static str)
        ensures
            r@ == self@.kind(),
    {
        match self {
            HitError::Config(ConfigError::UnknownProject { .. }) => "unknown_project",
            HitError::Config(_) => "config_error",
            HitError::Spec(SpecError::UnknownEndpoint { .. }) => "unknown_endpoint",
            HitError::Spec(SpecError::UnknownTag { .. }) => "unknown_tag",
            HitError::Spec(SpecError::Unavailable { .. }) => "spec_unavailable",
            HitError::Spec(_) => "spec_error",
            HitError::Auth(AuthError::InteractionRequired(_)) => "auth_interaction_required",
            HitError::Auth(_) => "auth_error",
            HitError::Request(RequestError::Network { .. }) => "network_error",
            HitError::Request(RequestError::Timeout(_)) => "timeout",
            HitError::Request(_) => "request_error",
            HitError::Other(_) => "error",
        }
    }

    /// The exit code of the process for this error.
    pub fn exit_code(&self) -> (r: i32)
        ensures
            r == self@.exit_code(),
    {
        match self {
            HitError::Config(_) => exit_code::USAGE,
            HitError::Spec(_) => exit_code::SPEC,
            HitError::Auth(_) => exit_code::AUTH,
            HitError::Request(RequestError::Network { .. }) => exit_code::NETWORK,
            HitError::Request(RequestError::Timeout(_)) => exit_code::NETWORK,
            HitError::Request(_) => exit_code::USAGE,
            HitError::Other(_) => exit_code::USAGE,
        }
    }
}

/// Two errors of one kind leave with one exit code, and no error leaves with
/// the code of success or of an HTTP status.
pub proof fn law_kind_decides_exit_code(a: Fault, b: Fault)
    requires
        a.kind() == b.kind(),
    ensures
        a.exit_code() == b.exit_code(),
        exit_code::USAGE <= a.exit_code() <= exit_code::NETWORK,
{
    reveal_strlit("unknown_project");
    reveal_strlit("config_error");
    reveal_strlit("unknown_endpoint");
    reveal_strlit("unknown_tag");
    reveal_strlit("spec_unavailable");
    reveal_strlit("spec_error");
    reveal_strlit("auth_interaction_required");
    reveal_strlit("auth_error");
    reveal_strlit("network_error");
    reveal_strlit("timeout");
    reveal_strlit("request_error");
    reveal_strlit("error");
    assert("config_error"@.len() == 12 && "unknown_project"@.len() == 15);
    assert("unknown_endpoint"@.len() == 16 && "spec_unavailable"@.len() == 16);
    assert("unknown_endpoint"@[0] != "spec_unavailable"@[0]);
    assert("unknown_tag"@.len() == 11 && "spec_error"@.len() == 10 && "auth_error"@.len() == 10);
    assert("spec_error"@[0] != "auth_error"@[0]);
    assert("auth_interaction_required"@.len() == 25);
    assert("network_error"@.len() == 13 && "request_error"@.len() == 13);
    assert("network_error"@[0] != "request_error"@[0]);
    assert("timeout"@.len() == 7 && "error"@.len() == 5);
}

/// Usage errors exit with 1, specs that cannot be had with 2, failed logins with 3
/// and failed connections with 4.
pub proof fn law_exit_codes(fault: Fault)
    ensures
        fault is Config ==> fault.exit_code() == 1,
        fault is Spec ==> fault.exit_code() == 2,
        fault is Auth ==> fault.exit_code() == 3,
        fault matches Fault::Request(e) ==> fault.exit_code() == (if e is Network || e is Timeout {
            4int
        } else {
            1int
        }),
        fault is Other ==> fault.exit_code() == 1,
{
}

proof fn lemma_holds(before: Seq<char>, text: Seq<char>, behind: Seq<char>)
    ensures
        contains_text(before + text + behind, text),
        contains_text(before + text, text),
{
    assert((before + text + behind).subrange(
        before.len() as int,
        before.len() as int + text.len(),
    ) =~= text);
    assert(occurs_at(before + text + behind, text, before.len() as int));
    assert((before + text).subrange(before.len() as int, before.len() as int + text.len()) =~= text);
    assert(occurs_at(before + text, text, before.len() as int));
}

/// A message names what it is about: the project, the endpoint, the tag or the
/// parameter that is missing, and says what the other side said.
pub proof fn law_messages_name_their_subject(fault: Fault)
    ensures
        match fault {
            Fault::Config(ConfigFault::UnknownProject { name, .. }) => contains_text(
                fault.message(),
                name,
            ),
            Fault::Config(ConfigFault::DuplicateProject(name)) => contains_text(
                fault.message(),
                name,
            ),
            Fault::Config(ConfigFault::Invalid { message, .. }) => contains_text(
                fault.message(),
                message,
            ),
            Fault::Config(ConfigFault::NotFound(path)) => contains_text(fault.message(), path),
            Fault::Config(ConfigFault::Io { source, .. }) => contains_text(fault.message(), source),
            Fault::Config(ConfigFault::Parse(message)) => contains_text(fault.message(), message),
            Fault::Spec(SpecFault::UnknownEndpoint { name, .. }) => contains_text(
                fault.message(),
                name,
            ),
            Fault::Spec(SpecFault::UnknownTag { name, .. }) => contains_text(fault.message(), name),
            Fault::Spec(SpecFault::Unavailable { detail, .. }) => contains_text(
                fault.message(),
                detail,
            ),
            Fault::Spec(SpecFault::Fetch { message, .. }) => contains_text(
                fault.message(),
                message,
            ),
            Fault::Spec(SpecFault::Parse(message)) => contains_text(fault.message(), message),
            Fault::Auth(AuthFault::LoginFailed { message, .. }) => contains_text(
                fault.message(),
                message,
            ),
            Fault::Auth(AuthFault::TokenNotFound(pointer)) => contains_text(
                fault.message(),
                pointer,
            ),
            Fault::Auth(AuthFault::Credential(message)) => contains_text(fault.message(), message),
            Fault::Auth(AuthFault::OAuth(message)) => contains_text(fault.message(), message),
            Fault::Auth(AuthFault::Store(message)) => contains_text(fault.message(), message),
            Fault::Auth(AuthFault::InteractionRequired(message)) => contains_text(
                fault.message(),
                message,
            ),
            Fault::Request(RequestFault::MissingPathParam(name)) => contains_text(
                fault.message(),
                name,
            ),
            Fault::Request(RequestFault::InvalidBody(message)) => contains_text(
                fault.message(),
                message,
            ),
            Fault::Request(RequestFault::InvalidHeader(name)) => contains_text(
                fault.message(),
                name,
            ),
            Fault::Request(RequestFault::Network { message, .. }) => contains_text(
                fault.message(),
                message,
            ),
            Fault::Request(RequestFault::Timeout(secs)) => contains_text(
                fault.message(),
                decimal(secs),
            ),
            Fault::Other(message) => fault.message() == message,
        },
{
    match fault {
        Fault::Config(ConfigFault::UnknownProject { name, available }) => {
            let lead = "unknown project '"@;
            lemma_holds(lead, name, "'"@ + suggestion(available));
            assert(lead + name + "'"@ + suggestion(available) =~= lead + name + ("'"@ + suggestion(
                available,
            )));
        },
        Fault::Config(ConfigFault::DuplicateProject(name)) => {
            lemma_holds("project '"@, name, "' already exists"@);
        },
        Fault::Config(ConfigFault::Invalid { field, message }) => {
            lemma_holds("invalid value for "@ + field + ": "@, message, ""@);
        },
        Fault::Config(ConfigFault::NotFound(path)) => {
            lemma_holds("config file not found at "@, path, ""@);
        },
        Fault::Config(ConfigFault::Io { path, source }) => {
            lemma_holds("failed to read config "@ + path + ": "@, source, ""@);
        },
        Fault::Config(ConfigFault::Parse(message)) => {
            lemma_holds("invalid config: "@, message, ""@);
        },
        Fault::Spec(SpecFault::UnknownEndpoint { name, suggestions }) => {
            let lead = "unknown endpoint '"@;
            lemma_holds(lead, name, "'"@ + suggestion(suggestions));
            assert(lead + name + "'"@ + suggestion(suggestions) =~= lead + name + ("'"@
                + suggestion(suggestions)));
        },
        Fault::Spec(SpecFault::UnknownTag { name, available }) => {
            let lead = "unknown tag '"@;
            lemma_holds(lead, name, "'"@ + suggestion(available));
            assert(lead + name + "'"@ + suggestion(available) =~= lead + name + ("'"@ + suggestion(
                available,
            )));
        },
        Fault::Spec(SpecFault::Unavailable { project, detail }) => {
            lemma_holds(
                "no spec available for '"@ + project
                    + "': server unreachable and no usable fallback ("@,
                detail,
                ")"@,
            );
        },
        Fault::Spec(SpecFault::Fetch { url, message }) => {
            lemma_holds("failed to fetch OpenAPI spec from "@ + url + ": "@, message, ""@);
        },
        Fault::Spec(SpecFault::Parse(message)) => {
            lemma_holds("failed to parse OpenAPI spec: "@, message, ""@);
        },
        Fault::Auth(AuthFault::LoginFailed { url, message }) => {
            lemma_holds("login request to "@ + url + " failed: "@, message, ""@);
        },
        Fault::Auth(AuthFault::TokenNotFound(pointer)) => {
            lemma_holds("token not found in login response at JSON pointer '"@, pointer, "'"@);
        },
        Fault::Auth(AuthFault::Credential(message)) => {
            lemma_holds("credential unavailable: "@, message, ""@);
        },
        Fault::Auth(AuthFault::OAuth(message)) => {
            lemma_holds("OAuth2 flow failed: "@, message, ""@);
        },
        Fault::Auth(AuthFault::Store(message)) => {
            lemma_holds("token store error: "@, message, ""@);
        },
        Fault::Auth(AuthFault::InteractionRequired(message)) => {
            lemma_holds("interactive authentication required: "@, message, ""@);
        },
        Fault::Request(RequestFault::MissingPathParam(name)) => {
            lemma_holds("missing required path parameter '"@, name, "'"@);
        },
        Fault::Request(RequestFault::InvalidBody(message)) => {
            lemma_holds("invalid request body: "@, message, ""@);
        },
        Fault::Request(RequestFault::InvalidHeader(name)) => {
            lemma_holds("invalid header '"@, name, "'"@);
        },
        Fault::Request(RequestFault::Network { url, message }) => {
            lemma_holds("request to "@ + url + " failed: "@, message, ""@);
        },
        Fault::Request(RequestFault::Timeout(secs)) => {
            lemma_holds("request timed out after "@, decimal(secs), "s"@);
        },
        Fault::Other(_) => {},
    }
}

/// The kind of an error tells what went wrong, each in a word of its own.
pub proof fn law_kinds_are_told_apart(fault: Fault)
    ensures
        fault.kind() == "unknown_project"@ <==> fault is Config && fault->Config_0 is UnknownProject,
        fault.kind() == "config_error"@ <==> fault is Config && !(
        fault->Config_0 is UnknownProject),
        fault.kind() == "unknown_endpoint"@ <==> fault is Spec && fault->Spec_0 is UnknownEndpoint,
        fault.kind() == "unknown_tag"@ <==> fault is Spec && fault->Spec_0 is UnknownTag,
        fault.kind() == "spec_unavailable"@ <==> fault is Spec && fault->Spec_0 is Unavailable,
        fault.kind() == "auth_interaction_required"@ <==> fault is Auth
            && fault->Auth_0 is InteractionRequired,
        fault.kind() == "auth_error"@ <==> fault is Auth && !(
        fault->Auth_0 is InteractionRequired),
        fault.kind() == "network_error"@ <==> fault is Request && fault->Request_0 is Network,
        fault.kind() == "timeout"@ <==> fault is Request && fault->Request_0 is Timeout,
        fault.kind() == "request_error"@ ==> fault is Request,
        fault.kind() == "spec_error"@ ==> fault is Spec,
{
    reveal_strlit("unknown_project");
    reveal_strlit("config_error");
    reveal_strlit("unknown_endpoint");
    reveal_strlit("unknown_tag");
    reveal_strlit("spec_unavailable");
    reveal_strlit("spec_error");
    reveal_strlit("auth_interaction_required");
    reveal_strlit("auth_error");
    reveal_strlit("network_error");
    reveal_strlit("timeout");
    reveal_strlit("request_error");
    reveal_strlit("error");
    assert("unknown_project"@.len() == 15 && "config_error"@.len() == 12);
    assert("unknown_endpoint"@.len() == 16 && "unknown_tag"@.len() == 11);
    assert("spec_unavailable"@.len() == 16 && "spec_error"@.len() == 10);
    assert("auth_interaction_required"@.len() == 25 && "auth_error"@.len() == 10);
    assert("network_error"@.len() == 13 && "timeout"@.len() == 7);
    assert("request_error"@.len() == 13 && "error"@.len() == 5);
    assert("unknown_endpoint"@[0] == 'u' && "spec_unavailable"@[0] == 's');
    assert("spec_error"@[0] == 's' && "auth_error"@[0] == 'a');
    assert("network_error"@[0] == 'n' && "request_error"@[0] == 'r');
}

} // verus!
