//! What `projects.toml` holds.

use crate::names::NameMap;
use crate::text::owned;
use vstd::prelude::*;

verus! {

#[derive(Debug)]
pub struct ProjectsConfig {
    pub settings: Settings,
    pub projects: NameMap<ProjectConfig>,
}

#[derive(Debug, Clone, Copy, PartialEq, Eq, Structural)]
pub struct Settings {
    /// Re-fetch openapi.json from the live server after this many seconds.
    pub spec_cache_ttl_secs: u64,
    /// Default HTTP timeout for executed requests.
    pub timeout_secs: u64,
    /// Where tokens are persisted: "auto" (keyring then file), "keyring", "file".
    pub token_store: TokenStoreKind,
}

impl Default for Settings {
    fn default() -> (r: Settings)
        ensures
            r == (Settings {
                spec_cache_ttl_secs: 300,
                timeout_secs: 30,
                token_store: TokenStoreKind::Auto,
            }),
    {
        Settings { spec_cache_ttl_secs: 300, timeout_secs: 30, token_store: TokenStoreKind::Auto }
    }
}

impl Default for ProjectsConfig {
    fn default() -> (r: ProjectsConfig)
        ensures
            r.settings == (Settings {
                spec_cache_ttl_secs: 300,
                timeout_secs: 30,
                token_store: TokenStoreKind::Auto,
            }),
            r.projects@ == Seq::<(Seq<char>, ProjectConfig)>::empty(),
    {
        ProjectsConfig { settings: Settings::default(), projects: NameMap::new() }
    }
}

#[derive(Debug, Clone, Copy, PartialEq, Eq, Structural)]
pub enum TokenStoreKind {
    Auto,
    Keyring,
    File,
}

#[derive(Debug)]
pub struct ProjectConfig {
    pub base_url: BaseUrl,
    /// Optional on-disk openapi.json used when the live server is unreachable.
    pub spec_file: Option<String>,
    pub default_headers: NameMap<String>,
    pub auth: Option<AuthConfig>,
    /// Framework adapter; only FastAPI today.
    pub framework: Framework,
}

#[derive(Debug, Clone, Copy, PartialEq, Eq, Structural)]
pub enum Framework {
    Fastapi,
}

impl Default for Framework {
    fn default() -> (r: Framework)
        ensures
            r == Framework::Fastapi,
    {
        Framework::Fastapi
    }
}

#[derive(Debug)]
pub enum AuthConfig {
    JwtLogin(JwtLoginConfig),
    Oauth2Pkce(OAuth2PkceConfig),
}

#[derive(Debug)]
pub struct JwtLoginConfig {
    /// POSTed relative to the project base_url, e.g. "/auth/login".
    pub login_path: String,
    /// "form" matches FastAPI's OAuth2PasswordRequestForm; "json" posts a JSON object.
    pub login_content_type: LoginContentType,
    pub username: CredentialRef,
    pub password: CredentialRef,
    /// JSON pointer into the login response locating the token.
    pub token_json_pointer: String,
    /// Re-login this many seconds before the JWT `exp`.
    pub refresh_margin_secs: u64,
}

#[derive(Debug, Clone, Copy, PartialEq, Eq, Structural)]
pub enum LoginContentType {
    Form,
    Json,
}

impl Default for LoginContentType {
    fn default() -> (r: LoginContentType)
        ensures
            r == LoginContentType::Form,
    {
        LoginContentType::Form
    }
}

/// Where a credential value comes from. Spelled in TOML as
/// `{ env = "VAR" }`, `{ value = "literal" }`, `{ keyring = "entry" }`, or `{ prompt = true }`.
#[derive(Debug)]
pub enum CredentialRef {
    Env { env: String },
    Value { value: String },
    Keyring { keyring: String },
    Prompt { prompt: bool },
}

#[derive(Debug)]
pub struct OAuth2PkceConfig {
    pub auth_url: BaseUrl,
    pub token_url: BaseUrl,
    pub client_id: String,
    pub scopes: Vec<String>,
    /// 0 = pick an ephemeral port; some IdPs require a pre-registered fixed port.
    pub redirect_port: u16,
}

/// An absolute URL in its normalized notation, with its scheme.
#[derive(Debug)]
pub struct BaseUrl {
    pub text: String,
    pub scheme: String,
}

/// The normalized notation, the scheme and the decoded query pairs of a URL.
pub struct UrlParts {
    pub notation: Seq<char>,
    pub scheme: Seq<char>,
    pub query: Seq<(Seq<char>, Seq<char>)>,
}

/// The parts of a URL, or why a text is none.
pub uninterp spec fn url_parts(text: Seq<char>) -> Result<UrlParts, Seq<char>>;

/// `url::Url::parse`, with `as_str`, `scheme` and `query_pairs` of what it
/// reads: the outcome depends on the text alone.
#[verifier::external_body]
pub(crate) fn read_url(text: &str) -> (r: Result<
    (String, String, Vec<(String, String)>),
    String,
>)
    ensures
        match r {
            Ok((notation, scheme, query)) => url_parts(text@) == Ok::<UrlParts, Seq<char>>(
                UrlParts { notation: notation@, scheme: scheme@, query: query.deep_view() },
            ),
            Err(message) => url_parts(text@) == Err::<UrlParts, Seq<char>>(message@),
        },
{
    match url::Url::parse(text) {
        Ok(url) => Ok(
            (
                url.as_str().to_string(),
                url.scheme().to_string(),
                url.query_pairs().map(|pair| (pair.0.into_owned(), pair.1.into_owned())).collect(),
            ),
        ),
        Err(e) => Err(e.to_string()),
    }
}

impl BaseUrl {
    /// Reads a URL, or says why the text is none.
    pub fn parse(text: &str) -> (r: Result<BaseUrl, String>)
        ensures
            match r {
                Ok(url) => url_parts(text@) matches Ok(parts) && parts.notation == url.text@
                    && parts.scheme == url.scheme@,
                Err(message) => url_parts(text@) == Err::<UrlParts, Seq<char>>(message@),
            },
    {
        match read_url(text) {
            Ok((text, scheme, _)) => Ok(BaseUrl { text, scheme }),
            Err(message) => Err(message),
        }
    }
}

impl AuthConfig {
    /// The name of the kind of authentication.
    pub open spec fn kind_name(self) -> Seq<char> {
        match self {
            AuthConfig::JwtLogin(_) => "jwt_login"@,
            AuthConfig::Oauth2Pkce(_) => "oauth2_pkce"@,
        }
    }

    pub fn auth_type(&self) -> (r: &'static str)
        ensures
            r@ == self.kind_name(),
    {
        match self {
            AuthConfig::JwtLogin(_) => "jwt_login",
            AuthConfig::Oauth2Pkce(_) => "oauth2_pkce",
        }
    }
}

/// Where the token stands in a login response unless configured otherwise.
pub fn default_token_pointer() -> (r: String)
    ensures
        r@ == "/access_token"@,
{
    owned("/access_token")
}

/// How long before its expiry a token is renewed unless configured otherwise.
pub fn default_refresh_margin() -> (r: u64)
    ensures
        r == 60,
{
    60
}

} // verus!
