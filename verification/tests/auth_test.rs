//! Tokens, credentials and the two ways of authenticating.

use hitpoint::auth::jwt_login::{jwt_expiry, read_claims};
use hitpoint::auth::oauth_pkce::{
    accept_callback, accept_request, announcement, authorize_url, callback_timed_out, check_state,
    read_answer, redirect_uri, store_response, Callback,
};
use hitpoint::auth::token_store::{
    after_keyring_load, after_keyring_save, new_token_store, now_unix, StoreStep,
};
use hitpoint::auth::{
    from_environment, from_keyring, resolve_credential, typed_line, AuthManager, CredentialStep,
    DenyInteractor, Interactor, InvalidateStep, JwtLoginProvider, KeyringReply,
    OAuth2PkceProvider, StoreChoice, StoredToken, TokenStep,
};
use hitpoint::cli::{login_cmd, logout_cmd, no_auth_configured};
use hitpoint::config::{
    AuthConfig, BaseUrl, CredentialRef, Framework, JwtLoginConfig, LoginContentType,
    OAuth2PkceConfig, Paths, ProjectConfig, Settings, TokenStoreKind,
};
use hitpoint::error::{AuthError, HitError};
use hitpoint::http::{Exchange, ExchangeStep, Payload};
use hitpoint::json::JsonValue;
use hitpoint::mcp::{browser_gate, deny_instruction, execute_args, tool_error, ExecuteParams};
use hitpoint::names::NameMap;

/// Claims `{"exp":4102444800}` between a header and a signature.
const FAR_FUTURE: u64 = 4102444800;
const JWT: &str = "eyJhbGciOiJub25lIn0.eyJleHAiOjQxMDI0NDQ4MDB9.c2ln";

/// A code verifier of the shortest length there is.
const VERIFIER: &str = "dBjftJeZ4CVP-mB92K27uhbUJU1p1r_wW1gFWFOEjXk";

fn stored(access: &str, refresh: Option<&str>, expires: Option<u64>) -> StoredToken {
    StoredToken {
        access_token: access.into(),
        refresh_token: refresh.map(String::from),
        expires_at_unix: expires,
        token_type: "Bearer".into(),
    }
}

fn jwt_config(content_type: LoginContentType) -> JwtLoginConfig {
    JwtLoginConfig {
        login_path: "/auth/login".into(),
        login_content_type: content_type,
        username: CredentialRef::Env {
            env: "HIT_TEST_USER".into(),
        },
        password: CredentialRef::Env {
            env: "HIT_TEST_PASS".into(),
        },
        token_json_pointer: "/access_token".into(),
        refresh_margin_secs: 60,
    }
}

fn pkce_config() -> OAuth2PkceConfig {
    OAuth2PkceConfig {
        auth_url: BaseUrl::parse("http://idp.example.com/authorize").unwrap(),
        token_url: BaseUrl::parse("http://idp.example.com/token").unwrap(),
        client_id: "hitpoint-test".into(),
        scopes: vec!["openid".into(), "api:read".into()],
        redirect_port: 0,
    }
}

fn project(auth: Option<AuthConfig>) -> ProjectConfig {
    ProjectConfig {
        base_url: BaseUrl::parse("http://localhost:1").unwrap(),
        spec_file: None,
        default_headers: NameMap::new(),
        auth,
        framework: Framework::Fastapi,
    }
}

fn paths() -> Paths {
    Paths {
        config_file: "c".into(),
        spec_cache_dir: "s".into(),
        token_dir: "tokens".into(),
        log_dir: "l".into(),
    }
}

#[test]
fn freshness_margin() {
    let token = StoredToken {
        access_token: "t".into(),
        refresh_token: None,
        expires_at_unix: Some(now_unix() + 30),
        token_type: "Bearer".into(),
    };
    assert!(token.is_fresh(0));
    assert!(!token.is_fresh(60));
}

#[test]
fn freshness_only_wears_off() {
    let token = stored("t", None, Some(100));
    assert!(token.is_fresh_at(39, 60));
    assert!(!token.is_fresh_at(40, 60));
    assert!(token.is_fresh_at(10, 60));
    assert!(token.is_fresh_at(39, 10));
    assert!(stored("t", None, None).is_fresh_at(u64::MAX, u64::MAX));
    // The clock is past the turn of the century.
    assert!(now_unix() > 946684800);
}

#[test]
fn stores_follow_the_settings() {
    assert!(matches!(
        new_token_store(TokenStoreKind::File, "d".into(), true).unwrap(),
        StoreChoice::File(file) if file.file_name("demo") == "demo.json"
            && file.temporary_name("demo") == "demo.json.tmp"
    ));
    assert!(matches!(
        new_token_store(TokenStoreKind::Auto, "d".into(), true).unwrap(),
        StoreChoice::KeyringThenFile(_, file) if file.dir == "d"
    ));
    assert!(matches!(
        new_token_store(TokenStoreKind::Auto, "d".into(), false).unwrap(),
        StoreChoice::File(_)
    ));
    assert!(matches!(
        new_token_store(TokenStoreKind::Keyring, "d".into(), true).unwrap(),
        StoreChoice::Keyring(_)
    ));
    let err = new_token_store(TokenStoreKind::Keyring, "d".into(), false).unwrap_err();
    assert!(matches!(err, AuthError::Store(_)));
}

#[test]
fn managers_follow_the_project() {
    let none = project(None);
    let settings = Settings::default();
    assert!(
        AuthManager::for_project("demo", &none, &settings, &paths(), false, false)
            .unwrap()
            .is_none()
    );
    let jwt = project(Some(AuthConfig::JwtLogin(jwt_config(LoginContentType::Form))));
    let manager = AuthManager::for_project("demo", &jwt, &settings, &paths(), false, true)
        .unwrap()
        .unwrap();
    assert!(manager.supports_headless());
    assert!(matches!(manager.bearer(&None, 0), TokenStep::Login));
    assert!(matches!(
        manager.invalidate(Some(stored("a", Some("r"), None))),
        InvalidateStep::Clear
    ));
    assert_eq!(
        manager.cached_expiry(&Some(stored("a", None, Some(9)))),
        Some(9)
    );
    let oauth = project(Some(AuthConfig::Oauth2Pkce(pkce_config())));
    let manager = AuthManager::for_project("demo", &oauth, &settings, &paths(), false, false)
        .unwrap()
        .unwrap();
    assert!(!manager.supports_headless());
    assert!(matches!(manager.bearer(&None, 0), TokenStep::Authorize));
    assert!(matches!(
        manager.invalidate(Some(stored("a", Some("r"), Some(99)))),
        InvalidateStep::Save(kept) if kept.expires_at_unix == Some(0)
            && kept.refresh_token.as_deref() == Some("r")
    ));
}

// ---------------------------------------------------------------- jwt login

#[test]
fn jwt_login_attaches_bearer_token() {
    let config = jwt_config(LoginContentType::Form);
    let provider = JwtLoginProvider {
        base_url: "http://localhost:1/".into(),
        config: &config,
    };
    assert!(matches!(provider.token(&None, 0), TokenStep::Login));
    assert_eq!(provider.login_url(), "http://localhost:1/auth/login");
    let Payload::Form(fields) = provider.login_payload("admin".into(), "secret".into()) else {
        panic!("expected a form");
    };
    assert_eq!(
        fields,
        vec![
            ("username".to_string(), "admin".to_string()),
            ("password".to_string(), "secret".to_string())
        ]
    );
    let answer = format!(r#"{{"access_token": "{JWT}", "token_type": "bearer"}}"#);
    let token = provider.read_login(200, &answer).unwrap();
    assert_eq!(token.access_token, JWT);
    assert_eq!(token.expires_at_unix, Some(FAR_FUTURE));
    // The second run reuses the cached token.
    assert!(matches!(
        provider.token(&Some(token), FAR_FUTURE - 61),
        TokenStep::Use(access) if access == JWT
    ));
}

#[test]
fn jwt_login_can_post_json() {
    let config = jwt_config(LoginContentType::Json);
    let provider = JwtLoginProvider {
        base_url: "http://localhost:1".into(),
        config: &config,
    };
    let Payload::Json(body) = provider.login_payload("u".into(), "p\"".into()) else {
        panic!("expected JSON");
    };
    assert_eq!(body.to_text(), r#"{"username":"u","password":"p\""}"#);
}

#[test]
fn stale_token_triggers_401_retry_with_relogin() {
    let config = jwt_config(LoginContentType::Form);
    let provider = JwtLoginProvider {
        base_url: "http://localhost:1".into(),
        config: &config,
    };
    // Stale opaque token (no exp -> treated as fresh until the server says 401).
    let stale = Some(stored("stale-opaque-token", None, None));
    assert!(matches!(
        provider.token(&stale, now_unix()),
        TokenStep::Use(access) if access == "stale-opaque-token"
    ));
    let (exchange, step) = Exchange::start(false, true);
    assert_eq!(step, ExchangeStep::Authorize);
    let (exchange, _) = exchange.authorized();
    let (exchange, step) = exchange.answered(401);
    assert_eq!(step, ExchangeStep::Invalidate);
    // The store is empty now: log in again.
    let (exchange, _) = exchange.invalidated();
    assert!(matches!(provider.token(&None, now_unix()), TokenStep::Login));
    let (exchange, _) = exchange.authorized();
    assert_eq!(exchange.answered(200).1, ExchangeStep::Done);
}

#[test]
fn login_failures_are_told_apart() {
    let config = jwt_config(LoginContentType::Form);
    let provider = JwtLoginProvider {
        base_url: "http://localhost:1".into(),
        config: &config,
    };
    let refused = provider.read_login(403, "").unwrap_err();
    assert_eq!(
        refused.message(),
        "login request to http://localhost:1/auth/login failed: HTTP 403"
    );
    assert!(matches!(
        provider.read_login(200, "<html>").unwrap_err(),
        AuthError::LoginFailed { .. }
    ));
    assert_eq!(
        provider.read_login(200, r#"{"token": "x"}"#).unwrap_err().message(),
        "token not found in login response at JSON pointer '/access_token'"
    );
    assert!(matches!(
        provider.read_login(200, r#"{"access_token": 7}"#).unwrap_err(),
        AuthError::TokenNotFound(_)
    ));
    // An opaque token has no known expiry.
    let opaque = provider
        .read_login(200, r#"{"access_token": "opaque"}"#)
        .unwrap();
    assert_eq!(opaque.expires_at_unix, None);
}

#[test]
fn expiry_is_read_from_the_claims() {
    assert_eq!(jwt_expiry(JWT), Some(FAR_FUTURE));
    assert_eq!(jwt_expiry("opaque"), None);
    assert_eq!(jwt_expiry("a.b"), None);
    assert_eq!(jwt_expiry("a.!!!!.c"), None);
    // Bytes that are no text.
    assert_eq!(jwt_expiry("a._w.c"), None);
    assert_eq!(read_claims(r#"{"exp": 5}"#), Some(5));
    assert_eq!(read_claims(r#"{"exp": "5"}"#), None);
    assert_eq!(read_claims("no"), None);
}

#[test]
fn login_and_logout_commands() {
    let output = login_cmd("demo", Some(130), 100);
    assert_eq!(output.data.get("expires_at_unix").unwrap().as_u64(), Some(130));
    assert_eq!(
        output.human,
        "logged in to 'demo' (token expires in 30s)"
    );
    assert!(login_cmd("demo", None, 100)
        .data
        .get("expires_at_unix")
        .unwrap()
        .is_null());
    assert_eq!(logout_cmd("demo").human, "cleared cached token for 'demo'");
    assert_eq!(logout_cmd("demo").exit_code, 0);
    assert!(no_auth_configured("demo").message().contains("demo"));
}

// ---------------------------------------------------------------- oauth

#[test]
fn full_pkce_flow_with_manual_callback_then_cache_then_refresh() {
    let config = pkce_config();
    let provider = OAuth2PkceProvider {
        project: "crm".into(),
        config: &config,
        headless: false,
    };
    assert!(matches!(provider.token(&None, 100), TokenStep::Authorize));
    assert_eq!(redirect_uri(8123), "http://127.0.0.1:8123/callback");
    let auth_url = authorize_url(&config, &redirect_uri(8123), "s-1", VERIFIER).unwrap();
    let message = announcement(&auth_url);
    let parsed = url::Url::parse(message[message.find("http").unwrap()..].trim()).unwrap();
    let query = |key: &str| {
        parsed
            .query_pairs()
            .find(|(k, _)| k == key)
            .map(|(_, v)| v.into_owned())
            .unwrap()
    };
    assert_eq!(query("response_type"), "code");
    assert_eq!(query("code_challenge_method"), "S256");
    assert!(query("scope").contains("api:read"));
    assert_eq!(
        query("code_challenge"),
        "E9Melhoa2OwvFrEMTJguCHaoeK1t8URWbuGJSstw-cM"
    );
    assert_eq!(query("client_id"), config.client_id);
    assert_eq!(query("redirect_uri"), "http://127.0.0.1:8123/callback");

    // Play the browser: hit the loopback callback with code + state.
    let callback = format!("/callback?code=test-code&state={}", query("state"));
    let request = format!("GET {callback} HTTP/1.1\r\nHost: x\r\n\r\n");
    let Callback::Granted { response, code, state } = accept_request(request.as_bytes()) else {
        panic!("expected a grant");
    };
    assert!(response.starts_with("HTTP/1.1 200 OK\r\n"));
    assert!(response.ends_with("hitpoint: login complete — you can close this tab."));
    assert!(response.contains("Content-Length: 52\r\n"));
    assert_eq!(code, "test-code");
    check_state(&state, "s-1").unwrap();

    let token = store_response(
        "access-1".into(),
        Some("refresh-1".into()),
        Some(3600),
        None,
        100,
    );
    assert_eq!(token.expires_at_unix, Some(3700));
    assert_eq!(token.token_type, "Bearer");

    // Second call: served from the store, no network.
    let token = Some(token);
    assert!(matches!(provider.token(&token, 101), TokenStep::Use(a) if a == "access-1"));

    // Refresh path: invalidate (keeps refresh token), expect refresh grant.
    let InvalidateStep::Save(kept) = hitpoint::auth::oauth_pkce::invalidate(token) else {
        panic!("expected the refresh token to be kept");
    };
    let kept = Some(kept);
    assert!(matches!(provider.token(&kept, 101), TokenStep::Refresh(r) if r == "refresh-1"));
    let renewed = store_response(
        "access-2".into(),
        None,
        Some(3600),
        Some("refresh-1".into()),
        101,
    );
    assert_eq!(renewed.refresh_token.as_deref(), Some("refresh-1"));
    assert!(matches!(provider.token(&Some(renewed), 102), TokenStep::Use(a) if a == "access-2"));
    assert!(matches!(provider.refresh_failed(), TokenStep::Authorize));
}

#[test]
fn addresses_that_cannot_be_read_stop_the_flow() {
    let mut config = pkce_config();
    let err = authorize_url(&config, "nowhere", "s", VERIFIER).unwrap_err();
    assert_eq!(err.message(), "OAuth2 flow failed: redirect: relative URL without a base");
    config.token_url.text = "://".into();
    let err = authorize_url(&config, "nowhere", "s", VERIFIER).unwrap_err();
    assert_eq!(err.message(), "OAuth2 flow failed: token_url: relative URL without a base");
    config.auth_url.text = "://".into();
    let err = authorize_url(&config, "nowhere", "s", VERIFIER).unwrap_err();
    assert_eq!(err.message(), "OAuth2 flow failed: auth_url: relative URL without a base");
}

#[test]
fn requests_that_are_no_text_are_read_all_the_same() {
    assert!(matches!(accept_request(&[0xff, 0xfe]), Callback::Malformed));
    let request = [&b"GET /callback?code=a&state=b HTTP/1.1\r\n"[..], &[0xff]].concat();
    assert!(matches!(
        accept_request(&request),
        Callback::Granted { code, state, .. } if code == "a" && state == "b"
    ));
    let Callback::Granted { code, .. } = accept_request(b"G /callback?code=a\xffb&state=c H") else {
        panic!("expected a grant");
    };
    assert_eq!(code, "a\u{fffd}b");
}

#[test]
fn the_file_stands_behind_the_keychain() {
    assert!(matches!(
        after_keyring_load(Some(stored("a", None, None))),
        StoreStep::Done(Some(token)) if token.access_token == "a"
    ));
    assert!(matches!(after_keyring_load(None), StoreStep::UseFile));
    assert!(matches!(after_keyring_save(Ok(())), StoreStep::Done(Ok(()))));
    assert!(matches!(
        after_keyring_save(Err(AuthError::Store("locked".into()))),
        StoreStep::UseFile
    ));
}

#[test]
fn state_mismatch_aborts_flow() {
    let Callback::Granted { state, .. } = accept_callback("GET /callback?code=x&state=WRONG HTTP/1.1")
    else {
        panic!("expected a grant");
    };
    let result = check_state(&state, "right");
    assert!(matches!(result, Err(AuthError::OAuth(message)) if message.contains("state mismatch")));
}

#[test]
fn headless_mode_never_opens_a_flow() {
    let config = pkce_config();
    let provider = OAuth2PkceProvider {
        project: "crm".into(),
        config: &config,
        headless: true,
    };
    // An expired token without a refresh token.
    let result = provider.token(&Some(stored("stale", None, Some(1))), now_unix());
    assert!(
        matches!(result, TokenStep::Fail(AuthError::InteractionRequired(m)) if m.contains("hit login"))
    );
    assert!(matches!(
        provider.refresh_failed(),
        TokenStep::Fail(AuthError::InteractionRequired(_))
    ));
}

#[test]
fn callbacks_are_told_apart() {
    assert!(matches!(accept_callback("GET"), Callback::Malformed));
    assert!(matches!(
        accept_callback("GET /favicon.ico HTTP/1.1"),
        Callback::NotFound { response } if response == "HTTP/1.1 404 Not Found\r\n\r\n"
    ));
    assert!(matches!(
        accept_callback("GET /callback?code=x HTTP/1.1"),
        Callback::Incomplete { .. }
    ));
    let Callback::Refused { error, .. } =
        accept_callback("GET /callback?error=access_denied&error_description=no+way HTTP/1.1")
    else {
        panic!("expected a refusal");
    };
    assert_eq!(
        error.message(),
        "OAuth2 flow failed: authorization server returned 'access_denied': no way"
    );
    let pairs = vec![("code".to_string(), "c".to_string())];
    assert!(matches!(read_answer(&pairs), Callback::Incomplete { .. }));
    assert_eq!(
        callback_timed_out().message(),
        "OAuth2 flow failed: timed out after 180s waiting for the OAuth callback"
    );
}

// ---------------------------------------------------------------- credentials

#[test]
fn credentials_come_from_their_place() {
    let value = CredentialRef::Value { value: "v".into() };
    assert!(
        matches!(resolve_credential(&value, "user", false), CredentialStep::Ready(v) if v == "v")
    );
    let env = CredentialRef::Env { env: "E".into() };
    assert!(
        matches!(resolve_credential(&env, "user", false), CredentialStep::Environment(e) if e == "E")
    );
    let keyring = CredentialRef::Keyring { keyring: "K".into() };
    assert!(
        matches!(resolve_credential(&keyring, "user", true), CredentialStep::Keyring(k) if k == "K")
    );
    let ask = CredentialRef::Prompt { prompt: true };
    assert!(
        matches!(resolve_credential(&ask, "user", false), CredentialStep::AskLine(l) if l == "user")
    );
    assert!(matches!(resolve_credential(&ask, "pw", true), CredentialStep::AskSecret(l) if l == "pw"));
    let never = CredentialRef::Prompt { prompt: false };
    let CredentialStep::Fail(err) = resolve_credential(&never, "pw", true) else {
        panic!("expected a failure");
    };
    assert_eq!(
        err.message(),
        "credential unavailable: pw: prompt = false makes the credential unreachable"
    );
}

#[test]
fn unreachable_credentials_are_reported() {
    assert_eq!(from_environment("E", Some("v".into())).unwrap(), "v");
    assert_eq!(
        from_environment("E", None).unwrap_err().message(),
        "credential unavailable: environment variable E is not set"
    );
    assert_eq!(from_keyring("k", KeyringReply::Found("v".into())).unwrap(), "v");
    assert_eq!(
        from_keyring("k", KeyringReply::Unreachable("locked".into()))
            .unwrap_err()
            .message(),
        "credential unavailable: keyring: locked"
    );
    assert_eq!(
        from_keyring("k", KeyringReply::Unreadable("gone".into()))
            .unwrap_err()
            .message(),
        "credential unavailable: keyring entry 'k': gone"
    );
    assert!(from_keyring("k", KeyringReply::Unsupported)
        .unwrap_err()
        .message()
        .contains("lacks the 'keyring' feature"));
    assert_eq!(typed_line("neo \r\n"), "neo ");
    assert_eq!(typed_line("\n"), "");
}

#[test]
fn denied_interaction_is_instructive() {
    let deny = DenyInteractor {
        instruction: deny_instruction("crm"),
    };
    deny.notify("unheard");
    for err in [
        deny.prompt_line("user").unwrap_err(),
        deny.prompt_secret("password").unwrap_err(),
    ] {
        let err = HitError::Auth(err);
        assert!(err.message().contains("hit login crm"));
        assert_eq!(err.kind(), "auth_interaction_required");
        assert_eq!(err.exit_code(), 3);
    }
}

// ---------------------------------------------------------------- tools

#[test]
fn tools_never_open_a_browser() {
    let oauth = project(Some(AuthConfig::Oauth2Pkce(pkce_config())));
    let manager =
        AuthManager::for_project("crm", &oauth, &Settings::default(), &paths(), false, true)
            .unwrap()
            .unwrap();
    let err = browser_gate("crm", Some(&manager), &None, false).unwrap_err();
    let shown = tool_error(&err);
    assert!(shown.message.contains("hit login crm"));
    assert_eq!(
        shown.data,
        JsonValue::parse(r#"{"kind": "auth_interaction_required"}"#).unwrap()
    );
    assert!(browser_gate("crm", None, &None, false).is_ok());
    assert!(browser_gate("crm", Some(&manager), &None, true).is_ok());
    let token = Some(stored("a", None, Some(1)));
    assert!(browser_gate("crm", Some(&manager), &token, false).is_ok());
    // A token whose expiry is not known is served too.
    let token = Some(stored("a", None, None));
    assert!(browser_gate("crm", Some(&manager), &token, false).is_ok());
}

#[test]
fn tool_arguments_become_requests() {
    let args = execute_args(ExecuteParams {
        project: "demo".into(),
        endpoint: "x".into(),
        path_params: Some(vec![("id".into(), "1".into())]),
        query_params: Some(vec![("q".into(), "2".into())]),
        headers: None,
        body: Some(JsonValue::Null),
        no_auth: true,
    });
    assert_eq!(args.path_params, vec![("id".to_string(), "1".to_string())]);
    assert_eq!(args.query_params, vec![("q".to_string(), "2".to_string())]);
    assert!(args.headers.is_empty());
    assert_eq!(args.body, Some(JsonValue::Null));
    assert!(args.no_auth);
}
