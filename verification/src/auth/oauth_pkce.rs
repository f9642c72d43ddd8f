//! 3rd-party auth: OAuth2 authorization-code flow with PKCE. What to do with
//! a cached token, how to read the loopback callback, and what to store.
//!
//! MCP/headless contexts never reach the browser path: with no usable cached
//! or refreshable token they fail with an instruction to run `hit login`.

use super::token_store::{fresh_at, StoredToken, TokenShape};
use super::{InvalidateStep, TokenStep, TokenStepShape};
use crate::config::schema::{read_url, url_parts};
use crate::config::OAuth2PkceConfig;
use crate::error::{AuthError, AuthFault};
use crate::pairs::{value_in, value_of};
use crate::text::{
    byte_len, cat, cat3, decimal, owned, same, show, starts_with_text, words, words_of,
};
use vstd::prelude::*;
use vstd::string::*;
use vstd::utf8::{decode_utf8, encode_utf8, valid_utf8};

verus! {

/// How long we wait for the browser to hit the loopback callback, in seconds.
pub const CALLBACK_TIMEOUT_SECS: u64 = 180;

/// Refresh this many seconds before expiry.
pub const REFRESH_MARGIN_SECS: u64 = 60;

#[derive(Debug)]
pub struct OAuth2PkceProvider<'a> {
    pub project: String,
    pub config: &'a OAuth2PkceConfig,
    /// True in MCP/non-interactive contexts: never launch a browser.
    pub headless: bool,
}

/// What a request on the loopback listener came to.
#[derive(Debug)]
pub enum Callback {
    /// No request line: keep listening.
    Malformed,
    /// Another address than the callback: answer with this text, keep listening.
    NotFound { response: String },
    /// The address cannot be read.
    Unreadable(AuthError),
    /// The authorization server refused: answer with this text and fail.
    Refused { response: String, error: AuthError },
    /// No code or no state: answer with this text, keep listening.
    Incomplete { response: String },
    /// The flow goes on with this code, provided the state is the one sent.
    Granted { response: String, code: String, state: String },
}

// ---------------------------------------------------------------- model

#[allow(inconsistent_fields)]
pub enum CallbackShape {
    Malformed,
    NotFound { response: Seq<char> },
    Unreadable(AuthFault),
    Refused { response: Seq<char>, error: AuthFault },
    Incomplete { response: Seq<char> },
    Granted { response: Seq<char>, code: Seq<char>, state: Seq<char> },
}

impl View for Callback {
    type V = CallbackShape;

    open spec fn view(&self) -> CallbackShape {
        match self {
            Callback::Malformed => CallbackShape::Malformed,
            Callback::NotFound { response } => CallbackShape::NotFound { response: response@ },
            Callback::Unreadable(error) => CallbackShape::Unreadable(error@),
            Callback::Refused { response, error } => CallbackShape::Refused {
                response: response@,
                error: error@,
            },
            Callback::Incomplete { response } => CallbackShape::Incomplete { response: response@ },
            Callback::Granted { response, code, state } => CallbackShape::Granted {
                response: response@,
                code: code@,
                state: state@,
            },
        }
    }
}

pub open spec fn login_hint(project: Seq<char>) -> Seq<char> {
    "project '"@ + project + "' uses browser-based OAuth — run `hit login "@ + project
        + "` in a terminal"@
}

/// What remains when there is nothing to refresh.
pub open spec fn last_resort(project: Seq<char>, headless: bool) -> TokenStepShape {
    if headless {
        TokenStepShape::Fail(AuthFault::InteractionRequired(login_hint(project)))
    } else {
        TokenStepShape::Authorize
    }
}

/// How to come by a token: the cached one while it is fresh, then a refresh,
/// then the browser.
pub open spec fn token_step(
    project: Seq<char>,
    headless: bool,
    stored: Option<TokenShape>,
    now: u64,
) -> TokenStepShape {
    match stored {
        Some(token) => if fresh_at(token.expires_at_unix, now, REFRESH_MARGIN_SECS) {
            TokenStepShape::Use(token.access_token)
        } else {
            match token.refresh_token {
                Some(refresh) => TokenStepShape::Refresh(refresh),
                None => last_resort(project, headless),
            }
        },
        None => last_resort(project, headless),
    }
}

/// The token that is stored after a reply of the token endpoint.
pub open spec fn granted(
    access: Seq<char>,
    refresh: Option<Seq<char>>,
    expires_in: Option<u64>,
    previous: Option<Seq<char>>,
    now: u64,
) -> TokenShape {
    TokenShape {
        access_token: access,
        refresh_token: match refresh {
            Some(text) => Some(text),
            None => previous,
        },
        expires_at_unix: match expires_in {
            Some(secs) => Some((now + secs) as u64),
            None => None,
        },
        token_type: "Bearer"@,
    }
}

/// The second of the words that white space separates.
pub open spec fn second_word(s: Seq<char>) -> Option<Seq<char>> {
    if words_of(s).len() > 1 {
        Some(words_of(s)[1])
    } else {
        None
    }
}

/// An HTTP response with a page.
pub open spec fn page(body: Seq<char>) -> Seq<char> {
    "HTTP/1.1 200 OK\r\nContent-Type: text/html; charset=utf-8\r\nContent-Length: "@ + decimal(
        encode_utf8(body).len(),
    ) + "\r\nConnection: close\r\n\r\n"@ + body
}

/// What the query of the callback address says.
pub open spec fn answer_of(query: Seq<(Seq<char>, Seq<char>)>) -> CallbackShape {
    match value_of(query, "error"@) {
        Some(error) => {
            let description = match value_of(query, "error_description"@) {
                Some(text) => text,
                None => Seq::empty(),
            };
            CallbackShape::Refused {
                response: page("Login failed — you can close this tab."@),
                error: AuthFault::OAuth(
                    "authorization server returned '"@ + error + "': "@ + description,
                ),
            }
        },
        None => match (value_of(query, "code"@), value_of(query, "state"@)) {
            (Some(code), Some(state)) => CallbackShape::Granted {
                response: page("hitpoint: login complete — you can close this tab."@),
                code,
                state,
            },
            _ => CallbackShape::Incomplete { response: page("Missing code/state in callback."@) },
        },
    }
}

/// What a request on the loopback listener came to.
pub open spec fn callback_of(request: Seq<char>) -> CallbackShape {
    match second_word(request) {
        None => CallbackShape::Malformed,
        Some(path) => if !"/callback"@.is_prefix_of(path) {
            CallbackShape::NotFound { response: "HTTP/1.1 404 Not Found\r\n\r\n"@ }
        } else {
            match url_parts("http://localhost"@ + path) {
                Err(message) => CallbackShape::Unreadable(
                    AuthFault::OAuth("callback URL: "@ + message),
                ),
                Ok(parts) => answer_of(parts.query),
            }
        },
    }
}

/// The address at which a human consents, made from the client, the page of the
/// authorization server, where it sends the browser back to, the scopes, the
/// state and the code verifier.
pub uninterp spec fn consent_url(
    client_id: Seq<char>,
    auth_url: Seq<char>,
    redirect: Seq<char>,
    scopes: Seq<Seq<char>>,
    state: Seq<char>,
    verifier: Seq<char>,
) -> Seq<char>;

/// The text that bytes spell, with replacement characters for what is no UTF-8.
pub uninterp spec fn lossy(bytes: Seq<u8>) -> Seq<char>;

/// Why a configured address cannot be used.
pub open spec fn address_fault(label: Seq<char>, text: Seq<char>) -> Option<AuthFault> {
    match url_parts(text) {
        Err(message) => Some(AuthFault::OAuth(label + message)),
        Ok(_) => None,
    }
}

/// The first address of the flow that cannot be used.
pub open spec fn flow_fault(config: OAuth2PkceConfig, redirect: Seq<char>) -> Option<AuthFault> {
    if address_fault("auth_url: "@, config.auth_url.text@) is Some {
        address_fault("auth_url: "@, config.auth_url.text@)
    } else if address_fault("token_url: "@, config.token_url.text@) is Some {
        address_fault("token_url: "@, config.token_url.text@)
    } else {
        address_fault("redirect: "@, redirect)
    }
}

/// How long a code verifier may be, in bytes.
pub const MIN_VERIFIER: usize = 43;

pub const MAX_VERIFIER: usize = 128;

// ---------------------------------------------------------------- outside calls

/// `oauth2::AuthorizationRequest::url` of a `BasicClient` with the given id,
/// authorization URL and redirect URL, with the given scopes and state, and with
/// the SHA-256 challenge of the given verifier. The address is a function of
/// these alone. `AuthUrl::new` and `RedirectUrl::new` read their texts with
/// `url::Url::parse`, and the challenge is made only of a verifier of 43 to 128
/// bytes.
#[verifier::external_body]
fn build_consent_url(
    client_id: &str,
    auth_url: &str,
    redirect: &str,
    scopes: &Vec<String>,
    state: &str,
    verifier: &str,
) -> (r: String)
    requires
        url_parts(auth_url@) is Ok,
        url_parts(redirect@) is Ok,
        MIN_VERIFIER <= encode_utf8(verifier@).len() <= MAX_VERIFIER,
    ensures
        r@ == consent_url(
            client_id@,
            auth_url@,
            redirect@,
            scopes.deep_view(),
            state@,
            verifier@,
        ),
{
    let verifier = oauth2::PkceCodeVerifier::new(verifier.to_string());
    oauth2::basic::BasicClient::new(oauth2::ClientId::new(client_id.to_string()))
        .set_auth_uri(oauth2::AuthUrl::new(auth_url.to_string()).unwrap())
        .set_redirect_uri(oauth2::RedirectUrl::new(redirect.to_string()).unwrap())
        .authorize_url(|| oauth2::CsrfToken::new(state.to_string()))
        .add_scopes(scopes.iter().map(|scope| oauth2::Scope::new(scope.clone())))
        .set_pkce_challenge(oauth2::PkceCodeChallenge::from_code_verifier_sha256(&verifier))
        .url().0.to_string()
}

/// `String::from_utf8_lossy`: the text is a function of the bytes, and the one
/// that they encode where they are UTF-8.
#[verifier::external_body]
fn lossy_text(bytes: &[u8]) -> (r: String)
    ensures
        r@ == lossy(bytes@),
        valid_utf8(bytes@) ==> r@ == decode_utf8(bytes@),
{
    String::from_utf8_lossy(bytes).into_owned()
}

// ---------------------------------------------------------------- operations

impl<'a> OAuth2PkceProvider<'a> {
    fn resort(&self) -> (r: TokenStep)
        ensures
            r@ == last_resort(self.project@, self.headless),
    {
        if self.headless {
            let name = self.project.as_str();
            let head = cat3(
                "project '",
                name,
                "' uses browser-based OAuth — run `hit login ",
            );
            TokenStep::Fail(
                AuthError::InteractionRequired(cat3(head.as_str(), name, "` in a terminal")),
            )
        } else {
            TokenStep::Authorize
        }
    }

    /// How to come by a token.
    pub fn token(&self, stored: &Option<StoredToken>, now: u64) -> (r: TokenStep)
        ensures
            r@ == token_step(self.project@, self.headless, stored.deep_view(), now),
    {
        match stored {
            Some(token) => {
                if token.is_fresh_at(now, REFRESH_MARGIN_SECS) {
                    return TokenStep::Use(token.access_token.clone());
                }
                match &token.refresh_token {
                    Some(refresh) => TokenStep::Refresh(refresh.clone()),
                    None => self.resort(),
                }
            },
            None => self.resort(),
        }
    }

    /// How to go on when a refresh failed: full re-auth where that is possible.
    pub fn refresh_failed(&self) -> (r: TokenStep)
        ensures
            r@ == last_resort(self.project@, self.headless),
    {
        self.resort()
    }

    pub fn supports_headless(&self) -> (r: bool)
        ensures
            !r,
    {
        false
    }
}

/// What dropping the cached token takes. The refresh token is kept: a 401
/// usually means the access token aged out, and the next token request will
/// refresh, or fully re-auth if that fails too.
pub fn invalidate(stored: Option<StoredToken>) -> (r: InvalidateStep)
    ensures
        match stored {
            Some(token) if token.refresh_token is Some => r matches InvalidateStep::Save(kept)
                && kept@ == (TokenShape { expires_at_unix: Some(0), ..token@ }),
            _ => r is Clear,
        },
{
    match stored {
        Some(token) => if token.refresh_token.is_some() {
            InvalidateStep::Save(
                StoredToken {
                    access_token: token.access_token,
                    refresh_token: token.refresh_token,
                    expires_at_unix: Some(0),
                    token_type: token.token_type,
                },
            )
        } else {
            InvalidateStep::Clear
        },
        None => InvalidateStep::Clear,
    }
}

/// The token to store after a reply of the token endpoint. A reply without a
/// refresh token leaves the previous one in place.
pub fn store_response(
    access_token: String,
    refresh_token: Option<String>,
    expires_in_secs: Option<u64>,
    previous_refresh: Option<String>,
    now: u64,
) -> (r: StoredToken)
    requires
        expires_in_secs matches Some(secs) ==> now + secs <= u64::MAX,
    ensures
        r@ == granted(
            access_token@,
            refresh_token.deep_view(),
            expires_in_secs,
            previous_refresh.deep_view(),
            now,
        ),
{
    StoredToken {
        access_token,
        refresh_token: match refresh_token {
            Some(text) => Some(text),
            None => previous_refresh,
        },
        expires_at_unix: match expires_in_secs {
            Some(secs) => Some(now + secs),
            None => None,
        },
        token_type: owned("Bearer"),
    }
}

/// The address that the browser is sent back to.
pub fn redirect_uri(port: u16) -> (r: String)
    ensures
        r@ == "http://127.0.0.1:"@ + decimal(port as nat) + "/callback"@,
{
    let number = show(port as u64);
    cat3("http://127.0.0.1:", number.as_str(), "/callback")
}

fn check_address(label: &str, url: &str) -> (r: Result<(), AuthError>)
    ensures
        match r {
            Ok(()) => address_fault(label@, url@) is None && url_parts(url@) is Ok,
            Err(e) => address_fault(label@, url@) == Some(e@),
        },
{
    match read_url(url) {
        Ok(_) => Ok(()),
        Err(message) => Err(AuthError::OAuth(cat(label, message.as_str()))),
    }
}

/// The address at which the human consents: the browser is sent there, comes
/// back to `redirect` with `state`, and the code it brings is exchanged for a
/// token with `verifier`.
pub fn authorize_url(
    config: &OAuth2PkceConfig,
    redirect: &str,
    state: &str,
    verifier: &str,
) -> (r: Result<String, AuthError>)
    requires
        MIN_VERIFIER <= encode_utf8(verifier@).len() <= MAX_VERIFIER,
    ensures
        match r {
            Ok(url) => flow_fault(*config, redirect@) is None && url@ == consent_url(
                config.client_id@,
                config.auth_url.text@,
                redirect@,
                config.scopes.deep_view(),
                state@,
                verifier@,
            ),
            Err(e) => flow_fault(*config, redirect@) == Some(e@),
        },
{
    if let Err(e) = check_address("auth_url: ", config.auth_url.text.as_str()) {
        return Err(e);
    }
    if let Err(e) = check_address("token_url: ", config.token_url.text.as_str()) {
        return Err(e);
    }
    if let Err(e) = check_address("redirect: ", redirect) {
        return Err(e);
    }
    Ok(
        build_consent_url(
            config.client_id.as_str(),
            config.auth_url.text.as_str(),
            redirect,
            &config.scopes,
            state,
            verifier,
        ),
    )
}

/// What the human is told when the flow starts.
pub fn announcement(auth_url: &str) -> (r: String)
    ensures
        r@ == "Opening browser for OAuth login. If nothing happens, open:\n  "@ + auth_url@,
{
    cat("Opening browser for OAuth login. If nothing happens, open:\n  ", auth_url)
}

/// The error for a callback that never came.
pub fn callback_timed_out() -> (r: AuthError)
    ensures
        r@ == AuthFault::OAuth(
            "timed out after "@ + decimal(CALLBACK_TIMEOUT_SECS as nat)
                + "s waiting for the OAuth callback"@,
        ),
{
    let secs = show(CALLBACK_TIMEOUT_SECS);
    AuthError::OAuth(
        cat3("timed out after ", secs.as_str(), "s waiting for the OAuth callback"),
    )
}

/// A callback counts only with the state that was sent out.
pub fn check_state(state: &str, sent: &str) -> (r: Result<(), AuthError>)
    ensures
        match r {
            Ok(()) => state@ == sent@,
            Err(e) => state@ != sent@ && e@ == AuthFault::OAuth(
                "state mismatch in OAuth callback — possible CSRF; aborting"@,
            ),
        },
{
    if same(state, sent) {
        Ok(())
    } else {
        Err(
            AuthError::OAuth(owned("state mismatch in OAuth callback — possible CSRF; aborting")),
        )
    }
}

fn respond_html(body: &str) -> (r: String)
    ensures
        r@ == page(body@),
{
    let count = show(byte_len(body) as u64);
    let mut out = cat3(
        "HTTP/1.1 200 OK\r\nContent-Type: text/html; charset=utf-8\r\nContent-Length: ",
        count.as_str(),
        "\r\nConnection: close\r\n\r\n",
    );
    out.append(body);
    out
}

fn request_path(request: &str) -> (r: Option<String>)
    ensures
        r.deep_view() == second_word(request@),
{
    let parts = words(request);
    let ghost all = parts.deep_view();
    if parts.len() > 1 {
        assert(all[1] == parts@[1]@);
        Some(parts[1].clone())
    } else {
        None
    }
}

/// What the decoded query of the callback address says.
pub fn read_answer(query: &Vec<(String, String)>) -> (r: Callback)
    ensures
        r@ == answer_of(query.deep_view()),
{
    if let Some(error) = value_in(query, "error") {
        let description = match value_in(query, "error_description") {
            Some(text) => text,
            None => String::new(),
        };
        let mut message = cat3("authorization server returned '", error.as_str(), "': ");
        message.append(description.as_str());
        return Callback::Refused {
            response: respond_html("Login failed — you can close this tab."),
            error: AuthError::OAuth(message),
        };
    }
    match (value_in(query, "code"), value_in(query, "state")) {
        (Some(code), Some(state)) => Callback::Granted {
            response: respond_html("hitpoint: login complete — you can close this tab."),
            code,
            state,
        },
        _ => Callback::Incomplete { response: respond_html("Missing code/state in callback.") },
    }
}

/// What a request on the loopback listener came to: `code` and `state` are
/// pulled out of the request line.
pub fn accept_callback(request: &str) -> (r: Callback)
    ensures
        r@ == callback_of(request@),
{
    let path = match request_path(request) {
        Some(path) => path,
        None => {
            return Callback::Malformed;
        },
    };
    // Browsers also ask for /favicon.ico etc.
    if !starts_with_text(path.as_str(), "/callback") {
        return Callback::NotFound { response: owned("HTTP/1.1 404 Not Found\r\n\r\n") };
    }
    let address = cat("http://localhost", path.as_str());
    match read_url(address.as_str()) {
        Ok((_, _, query)) => read_answer(&query),
        Err(message) => Callback::Unreadable(
            AuthError::OAuth(cat("callback URL: ", message.as_str())),
        ),
    }
}

/// What the bytes of a request on the loopback listener came to.
pub fn accept_request(bytes: &[u8]) -> (r: Callback)
    ensures
        r@ == callback_of(lossy(bytes@)),
        valid_utf8(bytes@) ==> r@ == callback_of(decode_utf8(bytes@)),
{
    let request = lossy_text(bytes);
    accept_callback(request.as_str())
}

// ---------------------------------------------------------------- laws

/// Headless contexts never open a browser, whatever is cached.
pub proof fn law_headless_never_authorizes(
    project: Seq<char>,
    stored: Option<TokenShape>,
    now: u64,
)
    ensures
        !(token_step(project, true, stored, now) is Authorize),
        last_resort(project, true) == TokenStepShape::Fail(
            AuthFault::InteractionRequired(login_hint(project)),
        ),
{
}

/// A token that was dropped after a 401 is never used again: the next request
/// asks for a refresh with the refresh token that was kept.
pub proof fn law_dropped_token_is_refreshed(
    project: Seq<char>,
    headless: bool,
    token: TokenShape,
    now: u64,
)
    requires
        token.refresh_token is Some,
    ensures
        token_step(
            project,
            headless,
            Some(TokenShape { expires_at_unix: Some(0), ..token }),
            now,
        ) == TokenStepShape::Refresh(token.refresh_token->0),
{
}

/// A refresh token is only ever replaced by another one.
pub proof fn law_refresh_token_survives(
    access: Seq<char>,
    refresh: Option<Seq<char>>,
    expires_in: Option<u64>,
    previous: Seq<char>,
    now: u64,
)
    ensures
        granted(access, refresh, expires_in, Some(previous), now).refresh_token == Some(
            if refresh is Some {
                refresh->0
            } else {
                previous
            },
        ),
{
}

/// A token just granted for longer than the margin is used from the cache.
pub proof fn law_granted_token_is_used(
    project: Seq<char>,
    headless: bool,
    access: Seq<char>,
    refresh: Option<Seq<char>>,
    expires_in: u64,
    previous: Option<Seq<char>>,
    now: u64,
)
    requires
        now + expires_in <= u64::MAX,
        expires_in > REFRESH_MARGIN_SECS,
    ensures
        token_step(
            project,
            headless,
            Some(granted(access, refresh, Some(expires_in), previous, now)),
            now,
        ) == TokenStepShape::Use(access),
{
}

} // verus!
