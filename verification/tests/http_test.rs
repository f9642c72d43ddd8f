//! Addresses, payloads, the exchange with a server, and what comes back.

use hitpoint::config::{BaseUrl, Framework, ProjectConfig};
use hitpoint::error::{HitError, RequestError};
use hitpoint::http::{
    attach_body, build_url, fill_path, outgoing, ApiResponse, Exchange, ExchangeStep, Payload,
    RequestArgs,
};
use hitpoint::json::JsonValue;
use hitpoint::model::Endpoint;
use hitpoint::names::NameMap;
use hitpoint::spec::build;
use hitpoint::spec::load::{
    cache_file, cache_is_fresh, fetched_document, read_spec_file, refresh_outcome, spec_url,
    CacheEntry, LoadAction, LoadRequest, SpecOrigin,
};

const SPEC: &str = r#"{"openapi": "3.1.0", "info": {"title": "T", "version": "1"}, "paths": {
    "/login": {"post": {"operationId": "login", "requestBody": {"content": {
        "application/x-www-form-urlencoded": {"schema": {"type": "object"}}}}}},
    "/a/{id}": {"get": {"operationId": "get_a"}}
}}"#;

fn json(text: &str) -> JsonValue {
    JsonValue::parse(text).unwrap()
}

fn endpoint(id: &str) -> Endpoint {
    build(&json(SPEC)).unwrap().find_endpoint(id).unwrap().clone()
}

fn plain_args() -> RequestArgs {
    RequestArgs {
        path_params: vec![],
        query_params: vec![],
        headers: vec![],
        body: None,
        no_auth: false,
    }
}

fn project(headers: &[(&str, &str)]) -> ProjectConfig {
    let mut default_headers = NameMap::new();
    for (key, value) in headers {
        default_headers.insert(key.to_string(), value.to_string());
    }
    ProjectConfig {
        base_url: BaseUrl::parse("http://localhost:1/api/").unwrap(),
        spec_file: None,
        default_headers,
        auth: None,
        framework: Framework::Fastapi,
    }
}

#[test]
fn fills_and_encodes_path_params() {
    let params = vec![("user_id".to_string(), "a b/c".to_string())];
    assert_eq!(
        fill_path("/users/{user_id}/posts", &params).unwrap(),
        "/users/a%20b%2Fc/posts"
    );
}

#[test]
fn missing_path_param_errors() {
    let err = fill_path("/users/{user_id}", &vec![]).unwrap_err();
    assert!(matches!(err, RequestError::MissingPathParam(name) if name == "user_id"));
}

#[test]
fn path_params_are_encoded_byte_by_byte() {
    let params = vec![("x".to_string(), "ä-Z9%".to_string())];
    assert_eq!(fill_path("/{x}", &params).unwrap(), "/%C3%A4-Z9%25");
    assert_eq!(
        fill_path("/a/{x", &params).unwrap_err().message(),
        "invalid request body: malformed path '/a/{x'"
    );
    assert_eq!(fill_path("/plain", &params).unwrap(), "/plain");
}

#[test]
fn urls_join_base_and_path() {
    let mut args = plain_args();
    args.path_params.push(("id".into(), "7".into()));
    assert_eq!(
        build_url("http://localhost:1/api/", &endpoint("get_a"), &args).unwrap(),
        "http://localhost:1/api/a/7"
    );
    let err = build_url("http://localhost:1/", &endpoint("get_a"), &plain_args()).unwrap_err();
    assert_eq!(
        HitError::Request(err).message(),
        "missing required path parameter 'id'"
    );
}

#[test]
fn form_bodies_become_fields() {
    let login = endpoint("login");
    let body = Some(json(r#"{"user": "neo", "age": 3, "ok": true}"#));
    let Payload::Form(fields) = attach_body(&login, &body).unwrap() else {
        panic!("expected a form");
    };
    assert_eq!(
        fields,
        vec![
            ("user".to_string(), "neo".to_string()),
            ("age".to_string(), "3".to_string()),
            ("ok".to_string(), "true".to_string())
        ]
    );
    let err = attach_body(&login, &Some(json("[1]"))).unwrap_err();
    assert!(matches!(err, RequestError::InvalidBody(_)));
    let Payload::Json(value) = attach_body(&endpoint("get_a"), &Some(json("[1]"))).unwrap() else {
        panic!("expected JSON");
    };
    assert_eq!(value, json("[1]"));
    assert!(matches!(attach_body(&login, &None).unwrap(), Payload::Nothing));
}

#[test]
fn default_headers_come_before_given_ones() {
    let mut args = plain_args();
    args.headers.push(("X-B".into(), "2".into()));
    let request = outgoing(
        &project(&[("X-Z", "1"), ("X-A", "0")]),
        &endpoint("get_a"),
        &args,
        "http://x/a/7",
        None,
    )
    .unwrap();
    assert_eq!(request.method, "GET");
    assert_eq!(
        request.headers,
        vec![
            ("X-A".to_string(), "0".to_string()),
            ("X-Z".to_string(), "1".to_string()),
            ("X-B".to_string(), "2".to_string())
        ]
    );
    assert!(request.bearer.is_none());
}

#[test]
fn unusable_methods_are_refused() {
    let mut odd = endpoint("get_a");
    odd.method = "NO GOOD".into();
    let err = outgoing(&project(&[]), &odd, &plain_args(), "u", None).unwrap_err();
    assert!(matches!(err, RequestError::InvalidHeader(name) if name == "NO GOOD"));
    odd.method = String::new();
    assert!(outgoing(&project(&[]), &odd, &plain_args(), "u", None).is_err());
    odd.method = "GÉT".into();
    assert!(outgoing(&project(&[]), &odd, &plain_args(), "u", None).is_err());
    odd.method = "!#$%&'*+-.^_`|~09azAZ".into();
    assert!(outgoing(&project(&[]), &odd, &plain_args(), "u", None).is_ok());
    odd.method = "PURGE".into();
    assert!(outgoing(&project(&[]), &odd, &plain_args(), "u", None).is_ok());
}

#[test]
fn rejected_tokens_are_renewed_once() {
    let (exchange, step) = Exchange::start(false, true);
    assert_eq!(step, ExchangeStep::Authorize);
    let (exchange, step) = exchange.authorized();
    assert_eq!(step, ExchangeStep::Send);
    let (exchange, step) = exchange.answered(401);
    assert_eq!(step, ExchangeStep::Invalidate);
    let (exchange, step) = exchange.invalidated();
    assert_eq!(step, ExchangeStep::Authorize);
    let (exchange, step) = exchange.authorized();
    assert_eq!(step, ExchangeStep::Send);
    let (_, step) = exchange.answered(401);
    assert_eq!(step, ExchangeStep::Done);
}

#[test]
fn requests_without_auth_are_sent_as_they_are() {
    let (exchange, step) = Exchange::start(true, true);
    assert_eq!(step, ExchangeStep::Send);
    assert_eq!(exchange.answered(401).1, ExchangeStep::Done);
    assert_eq!(Exchange::start(false, false).1, ExchangeStep::Send);
}

#[test]
fn responses_report_their_status() {
    let of = |status: u16, text: &str| {
        ApiResponse::from_parts("GET".into(), "u".into(), status, vec![], text.into(), 5)
    };
    assert!(of(204, "").is_success());
    assert!(of(399, "").is_success());
    assert!(!of(400, "").is_success());
    assert_eq!(of(200, "").exit_code(), 0);
    assert_eq!(of(404, "").exit_code(), 5);
    assert_eq!(of(500, "").exit_code(), 6);
    assert!(!of(200, "plain").body_is_json);
    assert_eq!(of(200, "plain").body_text(), "plain");
    assert_eq!(of(200, "[1]").body_text(), "[\n  1\n]");
    assert_eq!(
        of(200, "[1]").to_json().to_text(),
        r#"{"status":200,"headers":[],"body":[1],"body_is_json":true,"latency_ms":5,"url":"u","method":"GET"}"#
    );
}

#[test]
fn request_errors_have_kinds_and_codes() {
    let network = HitError::Request(RequestError::Network {
        url: "u".into(),
        message: "m".into(),
    });
    assert_eq!(network.message(), "request to u failed: m");
    assert_eq!(network.kind(), "network_error");
    assert_eq!(network.exit_code(), 4);
    let timeout = HitError::Request(RequestError::Timeout(30));
    assert_eq!(timeout.message(), "request timed out after 30s");
    assert_eq!(timeout.kind(), "timeout");
    assert_eq!(timeout.exit_code(), 4);
    let header = HitError::Request(RequestError::InvalidHeader("h".into()));
    assert_eq!(header.kind(), "request_error");
    assert_eq!(header.exit_code(), 1);
    assert_eq!(HitError::Other("o".into()).kind(), "error");
}

// ---------------------------------------------------------------- loading

fn load_request(spec_file: Option<&str>, no_cache: bool) -> LoadRequest {
    LoadRequest {
        project_name: "demo".into(),
        base_url: "http://localhost:1/".into(),
        spec_file: spec_file.map(String::from),
        ttl_secs: 300,
        no_cache,
    }
}

fn entry(fetched_at_unix: u64) -> Option<CacheEntry> {
    Some(CacheEntry {
        fetched_at_unix,
        openapi: json(SPEC),
    })
}

fn origin(action: LoadAction) -> SpecOrigin {
    let LoadAction::Done(Ok(loaded)) = action else {
        panic!("expected a spec");
    };
    assert_eq!(loaded.spec.title, "T");
    loaded.origin
}

#[test]
fn fresh_cache_is_used() {
    let request = load_request(None, false);
    assert!(matches!(request.start(), LoadAction::ReadCache));
    assert_eq!(
        origin(request.after_cache(entry(1000), Some(1299))),
        SpecOrigin::Cache
    );
    assert!(matches!(
        request.after_cache(entry(1000), Some(1300)),
        LoadAction::Fetch(url) if url == "http://localhost:1/openapi.json"
    ));
    assert!(matches!(
        request.after_cache(None, Some(0)),
        LoadAction::Fetch(_)
    ));
    assert!(matches!(load_request(None, true).start(), LoadAction::Fetch(_)));
    assert_eq!(
        origin(request.after_fetch(Ok(json(SPEC)))),
        SpecOrigin::Live
    );
}

#[test]
fn spec_file_fallback_when_server_down() {
    let request = load_request(Some("openapi.json"), false);
    let LoadAction::ReadFile(path) = request.after_fetch(Err("refused".into())) else {
        panic!("expected the file");
    };
    assert_eq!(path, "openapi.json");
    assert_eq!(
        origin(request.after_file("openapi.json", Ok(SPEC.to_string()))),
        SpecOrigin::File
    );
}

#[test]
fn stale_cache_is_the_last_resort() {
    let request = load_request(None, false);
    assert!(matches!(
        request.after_fetch(Err("refused".into())),
        LoadAction::ReadStaleCache
    ));
    assert_eq!(
        origin(request.after_stale(entry(0), "refused")),
        SpecOrigin::StaleCache
    );
    let LoadAction::Done(Err(err)) = request.after_stale(None, "refused") else {
        panic!("expected an error");
    };
    let err = HitError::Spec(err);
    assert_eq!(err.kind(), "spec_unavailable");
    assert_eq!(err.exit_code(), 2);
    assert_eq!(
        err.message(),
        "no spec available for 'demo': server unreachable and no usable fallback (refused)"
    );
}

#[test]
fn unusable_spec_files_leave_the_stale_cache() {
    let unread = read_spec_file("f", Err("gone".into())).unwrap_err();
    assert!(HitError::Spec(unread).message().contains("(spec_file f: gone)"));
    let broken = read_spec_file("f", Ok("{".into())).unwrap_err();
    assert!(HitError::Spec(broken)
        .message()
        .starts_with("failed to parse OpenAPI spec: spec_file f: "));
    assert_eq!(read_spec_file("f", Ok("[1]".into())).unwrap(), json("[1]"));

    let request = load_request(Some("f"), false);
    assert!(matches!(
        request.after_file("f", Err("gone".into())),
        LoadAction::ReadStaleCache
    ));
    assert!(matches!(
        request.after_file("f", Ok("{".into())),
        LoadAction::ReadStaleCache
    ));
    let entry = CacheEntry {
        fetched_at_unix: 0,
        openapi: json(SPEC),
    };
    let LoadAction::Done(Ok(loaded)) = request.after_stale(Some(entry), "refused") else {
        panic!("expected the stale cache to be served");
    };
    assert_eq!(loaded.origin, SpecOrigin::StaleCache);
    let LoadAction::Done(Err(err)) = request.after_stale(None, "refused") else {
        panic!("expected an error");
    };
    assert!(HitError::Spec(err).message().contains("refused"));
}

#[test]
fn refreshing_needs_the_server() {
    assert!(refresh_outcome("http://x/", Ok(json(SPEC))).is_ok());
    assert_eq!(
        fetched_document(200, "200 OK", Ok("[1]".into())),
        Ok(json("[1]"))
    );
    assert_eq!(
        fetched_document(404, "404 Not Found", Ok("[1]".into())).unwrap_err(),
        "server returned 404 Not Found"
    );
    assert_eq!(
        fetched_document(200, "200 OK", Err("no text".into())).unwrap_err(),
        "invalid JSON: no text"
    );
    assert!(fetched_document(200, "200 OK", Ok("{".into()))
        .unwrap_err()
        .starts_with("invalid JSON: "));
    let err = refresh_outcome("http://x/", Err("refused".into())).unwrap_err();
    assert_eq!(
        HitError::Spec(err).message(),
        "failed to fetch OpenAPI spec from http://x/openapi.json: refused"
    );
}

#[test]
fn cache_names_and_ages() {
    assert_eq!(spec_url("http://x//"), "http://x/openapi.json");
    assert_eq!(cache_file("demo"), "demo.json");
    assert!(cache_is_fresh(Some(10), 10, 1));
    assert!(!cache_is_fresh(Some(11), 10, 1));
    // An entry from the future counts as just fetched.
    assert!(cache_is_fresh(Some(5), 10, 1));
}
