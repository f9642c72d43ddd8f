//! Reading and checking `projects.toml`.

use hitpoint::cli::config_check_cmd;
use hitpoint::config::schema::{default_refresh_margin, default_token_pointer};
use hitpoint::config::{
    load, project, validate, AuthConfig, BaseUrl, ConfigSource, CredentialRef, Framework,
    JwtLoginConfig, LoginContentType, OAuth2PkceConfig, Paths, ProjectConfig, ProjectsConfig,
    Settings, TokenStoreKind, UserDirs,
};
use hitpoint::error::{exit_code, ConfigError, HitError};
use hitpoint::names::NameMap;

fn text(table: &toml::Table, key: &str) -> Option<String> {
    table.get(key).map(|v| v.as_str().unwrap().to_string())
}

fn number(table: &toml::Table, key: &str) -> Option<u64> {
    table.get(key).map(|v| v.as_integer().unwrap() as u64)
}

fn address(table: &toml::Table, key: &str) -> BaseUrl {
    BaseUrl::parse(&text(table, key).unwrap()).unwrap()
}

fn credential(table: &toml::Table, key: &str) -> CredentialRef {
    let inner = table.get(key).unwrap().as_table().unwrap();
    if let Some(env) = text(inner, "env") {
        CredentialRef::Env { env }
    } else if let Some(value) = text(inner, "value") {
        CredentialRef::Value { value }
    } else if let Some(keyring) = text(inner, "keyring") {
        CredentialRef::Keyring { keyring }
    } else {
        CredentialRef::Prompt {
            prompt: inner.get("prompt").unwrap().as_bool().unwrap(),
        }
    }
}

fn auth(table: &toml::Table) -> AuthConfig {
    match text(table, "type").unwrap().as_str() {
        "jwt_login" => AuthConfig::JwtLogin(JwtLoginConfig {
            login_path: text(table, "login_path").unwrap(),
            login_content_type: LoginContentType::default(),
            username: credential(table, "username"),
            password: credential(table, "password"),
            token_json_pointer: text(table, "token_json_pointer")
                .unwrap_or_else(default_token_pointer),
            refresh_margin_secs: number(table, "refresh_margin_secs")
                .unwrap_or_else(default_refresh_margin),
        }),
        _ => AuthConfig::Oauth2Pkce(OAuth2PkceConfig {
            auth_url: address(table, "auth_url"),
            token_url: address(table, "token_url"),
            client_id: text(table, "client_id").unwrap(),
            scopes: table
                .get("scopes")
                .unwrap()
                .as_array()
                .unwrap()
                .iter()
                .map(|v| v.as_str().unwrap().to_string())
                .collect(),
            redirect_port: 0,
        }),
    }
}

/// Reads a config the way the program does, for the keys these tests use.
fn config(toml_src: &str) -> ProjectsConfig {
    let table: toml::Table = toml::from_str(toml_src).unwrap();
    let mut settings = Settings::default();
    if let Some(given) = table.get("settings") {
        let given = given.as_table().unwrap();
        if let Some(secs) = number(given, "spec_cache_ttl_secs") {
            settings.spec_cache_ttl_secs = secs;
        }
        if let Some(secs) = number(given, "timeout_secs") {
            settings.timeout_secs = secs;
        }
    }
    let mut projects = NameMap::new();
    if let Some(given) = table.get("projects") {
        for (name, value) in given.as_table().unwrap() {
            let entry = value.as_table().unwrap();
            let mut default_headers = NameMap::new();
            if let Some(headers) = entry.get("default_headers") {
                for (key, value) in headers.as_table().unwrap() {
                    default_headers.insert(key.clone(), value.as_str().unwrap().to_string());
                }
            }
            projects.insert(
                name.clone(),
                ProjectConfig {
                    base_url: address(entry, "base_url"),
                    spec_file: text(entry, "spec_file"),
                    default_headers,
                    auth: entry.get("auth").map(|v| auth(v.as_table().unwrap())),
                    framework: Framework::default(),
                },
            );
        }
    }
    ProjectsConfig { settings, projects }
}

#[test]
fn parses_full_example() {
    let toml_src = r#"
            [settings]
            spec_cache_ttl_secs = 60

            [projects.billing]
            base_url = "http://localhost:8000"
            default_headers = { "X-Tenant" = "dev" }

            [projects.billing.auth]
            type = "jwt_login"
            login_path = "/auth/login"
            username = { env = "BILLING_USER" }
            password = { prompt = true }

            [projects.crm]
            base_url = "https://crm.example.com"

            [projects.crm.auth]
            type = "oauth2_pkce"
            auth_url = "https://idp.example.com/authorize"
            token_url = "https://idp.example.com/oauth/token"
            client_id = "hitpoint"
            scopes = ["openid"]
        "#;
    let config = config(toml_src);
    validate(&config).unwrap();
    assert_eq!(config.settings.spec_cache_ttl_secs, 60);
    assert_eq!(config.settings.timeout_secs, 30); // default survives partial [settings]
    let billing = config.projects.get("billing").unwrap();
    match billing.auth.as_ref().unwrap() {
        AuthConfig::JwtLogin(jwt) => {
            assert!(matches!(jwt.username, CredentialRef::Env { .. }));
            assert!(matches!(jwt.password, CredentialRef::Prompt { .. }));
            assert_eq!(jwt.token_json_pointer, "/access_token");
            assert_eq!(jwt.refresh_margin_secs, 60);
        }
        other => panic!("expected jwt_login, got {}", other.auth_type()),
    }
    assert!(matches!(
        config.projects.get("crm").unwrap().auth,
        Some(AuthConfig::Oauth2Pkce(_))
    ));
}

#[test]
fn rejects_bad_login_path() {
    let toml_src = r#"
            [projects.x]
            base_url = "http://localhost:1"
            [projects.x.auth]
            type = "jwt_login"
            login_path = "auth/login"
            username = { value = "u" }
            password = { value = "p" }
        "#;
    let config = config(toml_src);
    assert!(validate(&config).is_err());
    assert_eq!(
        validate(&config).unwrap_err().message(),
        "invalid value for projects.x.auth.login_path: login_path must start with '/'"
    );
}

#[test]
fn unknown_project_lists_alternatives() {
    let config = config("[projects.alpha]\nbase_url = \"http://x\"");
    let err = project(&config, "beta").unwrap_err();
    assert!(err.message().contains("alpha"));
}

#[test]
fn rejects_bad_schemes_and_names() {
    let ftp = config("[projects.a]\nbase_url = \"ftp://x\"");
    assert!(matches!(
        validate(&ftp),
        Err(ConfigError::Invalid { field, .. }) if field == "projects.a.base_url"
    ));
    let slash = config("[projects.\"a/b\"]\nbase_url = \"http://x\"");
    assert!(validate(&slash).is_err());
    // Letters and digits of every alphabet count.
    let umlaut = config("[projects.\"übung-1_x\"]\nbase_url = \"http://x\"");
    assert!(validate(&umlaut).is_ok());
    let pointer = config(
        "[projects.a]\nbase_url = \"http://x\"\n[projects.a.auth]\ntype = \"jwt_login\"\nlogin_path = \"/l\"\nusername = { value = \"u\" }\npassword = { value = \"p\" }\ntoken_json_pointer = \"token\"",
    );
    assert!(matches!(
        validate(&pointer),
        Err(ConfigError::Invalid { field, .. }) if field == "projects.a.auth.token_json_pointer"
    ));
}

#[test]
fn addresses_are_normalized() {
    let url = BaseUrl::parse("HTTP://Example.com:80").unwrap();
    assert_eq!(url.text, "http://example.com/");
    assert_eq!(url.scheme, "http");
    assert_eq!(
        BaseUrl::parse("/relative").unwrap_err(),
        "relative URL without a base"
    );
}

#[test]
fn missing_file_is_an_empty_config() {
    let config = load("projects.toml", ConfigSource::Missing).unwrap();
    assert_eq!(config.projects.len(), 0);
    assert_eq!(config.settings, Settings::default());
    assert_eq!(config.settings.spec_cache_ttl_secs, 300);
    assert_eq!(config.settings.token_store, TokenStoreKind::Auto);
}

#[test]
fn broken_files_are_reported() {
    let unreadable = load("p.toml", ConfigSource::Unreadable("denied".into())).unwrap_err();
    assert_eq!(unreadable.message(), "failed to read config p.toml: denied");
    let malformed = load("p.toml", ConfigSource::Malformed("line 1".into())).unwrap_err();
    assert_eq!(malformed.message(), "invalid config: p.toml: line 1");
    let invalid = load(
        "p.toml",
        ConfigSource::Parsed(config("[projects.a]\nbase_url = \"ftp://x\"")),
    );
    assert!(matches!(invalid, Err(ConfigError::Invalid { .. })));
}

#[test]
fn config_check_counts_the_projects() {
    let config = config("[projects.a]\nbase_url = \"http://x\"\n[projects.b]\nbase_url = \"http://y\"");
    let output = config_check_cmd(&config, "p.toml").unwrap();
    assert_eq!(output.human, "p.toml OK — 2 project(s)");
    assert_eq!(output.exit_code, exit_code::OK);
}

#[test]
fn auth_kinds_are_named() {
    let with_auth = config(
        "[projects.a]\nbase_url = \"http://x\"\n[projects.a.auth]\ntype = \"jwt_login\"\nlogin_path = \"/l\"\nusername = { value = \"u\" }\npassword = { keyring = \"k\" }",
    );
    let auth = with_auth.projects.get("a").unwrap().auth.as_ref().unwrap();
    assert_eq!(auth.auth_type(), "jwt_login");
}

#[test]
fn config_errors_have_messages() {
    assert_eq!(
        ConfigError::NotFound("p".into()).message(),
        "config file not found at p"
    );
    assert_eq!(
        ConfigError::UnknownProject {
            name: "x".into(),
            available: vec![]
        }
        .message(),
        "unknown project 'x'"
    );
    let duplicate = HitError::Config(ConfigError::DuplicateProject("x".into()));
    assert_eq!(duplicate.message(), "project 'x' already exists");
    assert_eq!(duplicate.kind(), "config_error");
    assert_eq!(duplicate.exit_code(), 1);
}

#[test]
fn names_stay_sorted() {
    let mut map: NameMap<u64> = NameMap::new();
    map.insert("b".into(), 1);
    map.insert("a".into(), 2);
    map.insert("b".into(), 3);
    assert_eq!(
        map.entries(),
        &vec![("a".to_string(), 2), ("b".to_string(), 3)]
    );
    assert_eq!(map.remove("a"), Some(2));
    assert_eq!(map.remove("a"), None);
    assert!(map.contains_key("b"));
    assert_eq!(map.names(), vec!["b".to_string()]);
    assert_eq!(map.position("b"), Some(0));
}

#[test]
fn locations_stand_beside_an_explicit_config_file() {
    let shown = |paths: Paths| {
        [
            paths.config_file,
            paths.spec_cache_dir,
            paths.token_dir,
            paths.log_dir,
        ]
    };
    let explicit = |file: &str, dir: Option<&str>| shown(Paths::resolve(Some((file, dir)), &None).unwrap());
    assert_eq!(
        explicit("/etc/hit/p.toml", Some("/etc/hit")),
        [
            "/etc/hit/p.toml",
            "/etc/hit/cache/specs",
            "/etc/hit/tokens",
            "/etc/hit/logs"
        ]
    );
    assert_eq!(
        explicit("p.toml", Some("")),
        ["p.toml", "cache/specs", "tokens", "logs"]
    );
    assert_eq!(
        explicit("/p.toml", Some("/")),
        ["/p.toml", "/cache/specs", "/tokens", "/logs"]
    );
    assert_eq!(
        explicit("", None),
        ["", "./cache/specs", "./tokens", "./logs"]
    );
    let dirs = UserDirs {
        config_dir: "/c".into(),
        cache_dir: "/k".into(),
        data_dir: "/d".into(),
    };
    assert_eq!(
        shown(Paths::resolve(None, &Some(dirs)).unwrap()),
        ["/c/projects.toml", "/k/specs", "/d/tokens", "/d/logs"]
    );
    let err = Paths::resolve(None, &None).unwrap_err();
    assert_eq!(
        err.message(),
        "invalid value for paths: could not determine a home directory"
    );
}
