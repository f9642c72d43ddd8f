//! Authentication: per-project providers, the token store, and the steps by
//! which a bearer token is come by and dropped.

pub mod jwt_login;
pub mod laws;
pub mod oauth_pkce;
pub mod token_store;

pub use jwt_login::JwtLoginProvider;
pub use oauth_pkce::OAuth2PkceProvider;
pub use token_store::{
    new_token_store, now_unix, FileStore, KeyringStore, StoreChoice, StoredToken, TokenStore,
};

use crate::config::{AuthConfig, CredentialRef, Paths, ProjectConfig, Settings};
use crate::error::{AuthError, AuthFault};
use crate::text::{cat, cat3, owned};
use token_store::{no_keyring_message, TokenShape};
use vstd::prelude::*;
use vstd::string::*;

verus! {

/// How to come by a bearer token.
#[derive(Debug)]
pub enum TokenStep {
    /// Use this token.
    Use(String),
    /// Ask the token endpoint with this refresh token.
    Refresh(String),
    /// Log in through the browser.
    Authorize,
    /// Log in with username and password.
    Login,
    Fail(AuthError),
}

pub enum TokenStepShape {
    Use(Seq<char>),
    Refresh(Seq<char>),
    Authorize,
    Login,
    Fail(AuthFault),
}

impl View for TokenStep {
    type V = TokenStepShape;

    open spec fn view(&self) -> TokenStepShape {
        match self {
            TokenStep::Use(token) => TokenStepShape::Use(token@),
            TokenStep::Refresh(token) => TokenStepShape::Refresh(token@),
            TokenStep::Authorize => TokenStepShape::Authorize,
            TokenStep::Login => TokenStepShape::Login,
            TokenStep::Fail(e) => TokenStepShape::Fail(e@),
        }
    }
}

/// What dropping the cached token takes.
#[derive(Debug)]
pub enum InvalidateStep {
    /// Keep this in the store.
    Save(StoredToken),
    /// Empty the store.
    Clear,
}

/// How providers ask the human for input. CLI prompts on the terminal; MCP
/// mode denies with an instructive error; the TUI supplies a modal-backed one.
pub trait Interactor {
    fn prompt_line(&self, label: &str) -> Result<String, AuthError>;

    fn prompt_secret(&self, label: &str) -> Result<String, AuthError>;

    fn notify(&self, message: &str);
}

/// Refuses all interaction — used by MCP mode and other headless contexts.
#[derive(Debug)]
pub struct DenyInteractor {
    pub instruction: String,
}

impl Interactor for DenyInteractor {
    fn prompt_line(&self, _label: &str) -> (r: Result<String, AuthError>)
        ensures
            r matches Err(e) && e@ == AuthFault::InteractionRequired(self.instruction@),
    {
        Err(AuthError::InteractionRequired(self.instruction.clone()))
    }

    fn prompt_secret(&self, _label: &str) -> (r: Result<String, AuthError>)
        ensures
            r matches Err(e) && e@ == AuthFault::InteractionRequired(self.instruction@),
    {
        Err(AuthError::InteractionRequired(self.instruction.clone()))
    }

    fn notify(&self, _message: &str) {
    }
}

/// The provider of one project.
#[derive(Debug)]
pub enum Provider<'a> {
    JwtLogin(JwtLoginProvider<'a>),
    OAuth2Pkce(OAuth2PkceProvider<'a>),
}

/// The provider for one project and the store for its token.
#[derive(Debug)]
pub struct AuthManager<'a> {
    pub provider: Provider<'a>,
    pub store: StoreChoice,
}

// ---------------------------------------------------------------- the manager

/// How to come by a token, by the kind of authentication.
pub open spec fn step_of(
    provider: Provider<'_>,
    stored: Option<TokenShape>,
    now: u64,
) -> TokenStepShape {
    match provider {
        Provider::JwtLogin(jwt) => jwt_login::token_step(
            jwt.config.refresh_margin_secs,
            stored,
            now,
        ),
        Provider::OAuth2Pkce(oauth) => oauth_pkce::token_step(
            oauth.project@,
            oauth.headless,
            stored,
            now,
        ),
    }
}

/// Whether a token can be acquired without a browser or a human prompt.
pub open spec fn headless_of(provider: Provider<'_>) -> bool {
    match provider {
        Provider::JwtLogin(jwt) => !(jwt.config.username is Prompt) && !(
        jwt.config.password is Prompt),
        Provider::OAuth2Pkce(_) => false,
    }
}

impl<'a> AuthManager<'a> {
    /// Builds the manager for a project, or `None` when no auth is configured.
    pub fn for_project(
        project_name: &str,
        project: &'a ProjectConfig,
        settings: &Settings,
        paths: &Paths,
        keyring_available: bool,
        headless: bool,
    ) -> (r: Result<Option<AuthManager<'a>>, AuthError>)
        ensures
            match project.auth {
                None => r == Ok::<Option<AuthManager<'a>>, AuthError>(None),
                Some(auth) => if settings.token_store is Keyring && !keyring_available {
                    r matches Err(e) && e@ == AuthFault::Store(no_keyring_message())
                } else {
                    &&& r matches Ok(Some(manager))
                    &&& match auth {
                        AuthConfig::JwtLogin(config) => manager.provider matches Provider::JwtLogin(
                            jwt,
                        ) && jwt.base_url@ == project.base_url.text@ && *jwt.config == config,
                        AuthConfig::Oauth2Pkce(
                            config,
                        ) => manager.provider matches Provider::OAuth2Pkce(oauth)
                            && oauth.project@ == project_name@ && *oauth.config == config
                            && oauth.headless == headless,
                    }
                    &&& match manager.store {
                        StoreChoice::File(file) => file.dir@ == paths.token_dir@ && (
                        settings.token_store is File || settings.token_store is Auto
                            && !keyring_available),
                        StoreChoice::Keyring(_) => settings.token_store is Keyring,
                        StoreChoice::KeyringThenFile(_, file) => file.dir@ == paths.token_dir@
                            && settings.token_store is Auto && keyring_available,
                    }
                },
            },
    {
        let auth = match &project.auth {
            Some(auth) => auth,
            None => {
                return Ok(None);
            },
        };
        let store = match new_token_store(
            settings.token_store,
            paths.token_dir.clone(),
            keyring_available,
        ) {
            Ok(store) => store,
            Err(e) => {
                return Err(e);
            },
        };
        let provider = match auth {
            AuthConfig::JwtLogin(config) => Provider::JwtLogin(
                JwtLoginProvider { base_url: project.base_url.text.clone(), config },
            ),
            AuthConfig::Oauth2Pkce(config) => Provider::OAuth2Pkce(
                OAuth2PkceProvider { project: owned(project_name), config, headless },
            ),
        };
        Ok(Some(AuthManager { provider, store }))
    }

    /// How to come by a bearer token.
    pub fn bearer(&self, stored: &Option<StoredToken>, now: u64) -> (r: TokenStep)
        ensures
            r@ == step_of(self.provider, stored.deep_view(), now),
    {
        match &self.provider {
            Provider::JwtLogin(jwt) => jwt.token(stored, now),
            Provider::OAuth2Pkce(oauth) => oauth.token(stored, now),
        }
    }

    /// What dropping the cached token takes (called after a 401).
    pub fn invalidate(&self, stored: Option<StoredToken>) -> (r: InvalidateStep)
        ensures
            match (self.provider, stored) {
                (
                    Provider::OAuth2Pkce(_),
                    Some(token),
                ) if token.refresh_token is Some => r matches InvalidateStep::Save(kept) && kept@
                    == (TokenShape { expires_at_unix: Some(0), ..token@ }),
                _ => r is Clear,
            },
    {
        match &self.provider {
            Provider::JwtLogin(_) => InvalidateStep::Clear,
            Provider::OAuth2Pkce(_) => oauth_pkce::invalidate(stored),
        }
    }

    /// Expiry of the currently cached token, if known (unix seconds).
    pub fn cached_expiry(&self, stored: &Option<StoredToken>) -> (r: Option<u64>)
        ensures
            r == (match *stored {
                Some(token) => token.expires_at_unix,
                None => None,
            }),
    {
        match stored {
            Some(token) => token.expires_at_unix,
            None => None,
        }
    }

    /// False when acquiring a token needs a browser or a human prompt.
    pub fn supports_headless(&self) -> (r: bool)
        ensures
            r == headless_of(self.provider),
    {
        match &self.provider {
            Provider::JwtLogin(jwt) => jwt.supports_headless(),
            Provider::OAuth2Pkce(oauth) => oauth.supports_headless(),
        }
    }
}

// ---------------------------------------------------------------- credentials

/// Where a credential has to be taken from.
#[derive(Debug)]
pub enum CredentialStep {
    Ready(String),
    /// Read this environment variable; hand the outcome to `from_environment`.
    Environment(String),
    /// Read this keyring entry; hand the outcome to `from_keyring`.
    Keyring(String),
    /// Ask the human, showing this label.
    AskLine(String),
    /// Ask the human for a secret, showing this label.
    AskSecret(String),
    Fail(AuthError),
}

pub enum CredentialStepShape {
    Ready(Seq<char>),
    Environment(Seq<char>),
    Keyring(Seq<char>),
    AskLine(Seq<char>),
    AskSecret(Seq<char>),
    Fail(AuthFault),
}

impl View for CredentialStep {
    type V = CredentialStepShape;

    open spec fn view(&self) -> CredentialStepShape {
        match self {
            CredentialStep::Ready(s) => CredentialStepShape::Ready(s@),
            CredentialStep::Environment(s) => CredentialStepShape::Environment(s@),
            CredentialStep::Keyring(s) => CredentialStepShape::Keyring(s@),
            CredentialStep::AskLine(s) => CredentialStepShape::AskLine(s@),
            CredentialStep::AskSecret(s) => CredentialStepShape::AskSecret(s@),
            CredentialStep::Fail(e) => CredentialStepShape::Fail(e@),
        }
    }
}

/// Where a configured credential has to be taken from.
pub fn resolve_credential(cred: &CredentialRef, label: &str, secret: bool) -> (r: CredentialStep)
    ensures
        r@ == (match *cred {
            CredentialRef::Value { value } => CredentialStepShape::Ready(value@),
            CredentialRef::Env { env } => CredentialStepShape::Environment(env@),
            CredentialRef::Keyring { keyring } => CredentialStepShape::Keyring(keyring@),
            CredentialRef::Prompt { prompt } => if !prompt {
                CredentialStepShape::Fail(
                    AuthFault::Credential(
                        label@ + ": prompt = false makes the credential unreachable"@,
                    ),
                )
            } else if secret {
                CredentialStepShape::AskSecret(label@)
            } else {
                CredentialStepShape::AskLine(label@)
            },
        }),
{
    match cred {
        CredentialRef::Value { value } => CredentialStep::Ready(value.clone()),
        CredentialRef::Env { env } => CredentialStep::Environment(env.clone()),
        CredentialRef::Keyring { keyring } => CredentialStep::Keyring(keyring.clone()),
        CredentialRef::Prompt { prompt } => {
            if !*prompt {
                return CredentialStep::Fail(
                    AuthError::Credential(
                        cat(label, ": prompt = false makes the credential unreachable"),
                    ),
                );
            }
            if secret {
                CredentialStep::AskSecret(owned(label))
            } else {
                CredentialStep::AskLine(owned(label))
            }
        },
    }
}

/// The credential in an environment variable.
pub fn from_environment(env: &str, value: Option<String>) -> (r: Result<String, AuthError>)
    ensures
        match value {
            Some(text) => r == Ok::<String, AuthError>(text),
            None => r matches Err(e) && e@ == AuthFault::Credential(
                "environment variable "@ + env@ + " is not set"@,
            ),
        },
{
    match value {
        Some(text) => Ok(text),
        None => Err(AuthError::Credential(cat3("environment variable ", env, " is not set"))),
    }
}

/// What looking a keyring entry up came to.
#[derive(Debug)]
pub enum KeyringReply {
    Found(String),
    /// The keyring cannot be opened.
    Unreachable(String),
    /// The entry cannot be read.
    Unreadable(String),
    /// The build has no keyring.
    Unsupported,
}

/// The credential in a keyring entry.
pub fn from_keyring(entry_name: &str, reply: KeyringReply) -> (r: Result<String, AuthError>)
    ensures
        match reply {
            KeyringReply::Found(text) => r == Ok::<String, AuthError>(text),
            KeyringReply::Unreachable(message) => r matches Err(e) && e@ == AuthFault::Credential(
                "keyring: "@ + message@,
            ),
            KeyringReply::Unreadable(message) => r matches Err(e) && e@ == AuthFault::Credential(
                "keyring entry '"@ + entry_name@ + "': "@ + message@,
            ),
            KeyringReply::Unsupported => r matches Err(e) && e@ == AuthFault::Credential(
                "credential '"@ + entry_name@
                    + "' uses the keyring, but this build lacks the 'keyring' feature"@,
            ),
        },
{
    match reply {
        KeyringReply::Found(text) => Ok(text),
        KeyringReply::Unreachable(message) => Err(
            AuthError::Credential(cat("keyring: ", message.as_str())),
        ),
        KeyringReply::Unreadable(message) => {
            let head = cat3("keyring entry '", entry_name, "': ");
            Err(AuthError::Credential(cat(head.as_str(), message.as_str())))
        },
        KeyringReply::Unsupported => Err(
            AuthError::Credential(
                cat3(
                    "credential '",
                    entry_name,
                    "' uses the keyring, but this build lacks the 'keyring' feature",
                ),
            ),
        ),
    }
}

/// The text of a line that was typed, without its line end.
pub open spec fn line_text(line: Seq<char>) -> Seq<char>
    decreases line.len(),
{
    if line.len() > 0 && (line.last() == '\r' || line.last() == '\n') {
        line_text(line.drop_last())
    } else {
        line
    }
}

/// A line that was typed, without its line end.
pub fn typed_line(line: &str) -> (r: String)
    ensures
        r@ == line_text(line@),
{
    let chars = crate::text::chars_of(line);
    let mut end: usize = chars.len();
    assert(line@.take(end as int) =~= line@);
    while end > 0 && (chars[end - 1] == '\r' || chars[end - 1] == '\n')
        invariant
            chars@ == line@,
            end <= chars@.len(),
            line_text(line@.take(end as int)) == line_text(line@),
        decreases end,
    {
        assert(line@.take(end as int).drop_last() =~= line@.take(end - 1));
        end -= 1;
    }
    assert(line@.take(end as int) =~= line@.subrange(0, end as int));
    crate::text::text_between(&chars, 0, end)
}

// ---------------------------------------------------------------- laws

/// A provider that works headless never sends anyone to a browser.
pub proof fn law_headless_provider_needs_no_browser(
    provider: Provider<'_>,
    stored: Option<TokenShape>,
    now: u64,
)
    requires
        headless_of(provider),
    ensures
        !(step_of(provider, stored, now) is Authorize),
{
}

} // verus!
