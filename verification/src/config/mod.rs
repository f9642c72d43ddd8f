//! Validating `projects.toml` and looking projects up.

pub mod schema;

pub use schema::{
    AuthConfig, BaseUrl, CredentialRef, Framework, JwtLoginConfig, LoginContentType,
    OAuth2PkceConfig, ProjectConfig, ProjectsConfig, Settings, TokenStoreKind,
};

use crate::error::{ConfigError, ConfigFault};
use crate::names::{entry, named_values, names_of};
use crate::text::{cat, cat3, chars_of, owned, same, starts_with};
use vstd::prelude::*;

verus! {

/// Resolved filesystem locations for config, cache, and data.
#[derive(Debug)]
pub struct Paths {
    pub config_file: String,
    pub spec_cache_dir: String,
    pub token_dir: String,
    pub log_dir: String,
}

/// The directories of a user for config, cache and data.
#[derive(Debug)]
pub struct UserDirs {
    pub config_dir: String,
    pub cache_dir: String,
    pub data_dir: String,
}

/// What reading the config file came to.
#[derive(Debug)]
pub enum ConfigSource {
    /// There is no such file.
    Missing,
    /// The file could not be read.
    Unreadable(String),
    /// The file is not the TOML of a config.
    Malformed(String),
    Parsed(ProjectsConfig),
}

// ---------------------------------------------------------------- model

/// `Paths` as a mathematical value.
pub struct PathsShape {
    pub config_file: Seq<char>,
    pub spec_cache_dir: Seq<char>,
    pub token_dir: Seq<char>,
    pub log_dir: Seq<char>,
}

impl View for Paths {
    type V = PathsShape;

    open spec fn view(&self) -> PathsShape {
        PathsShape {
            config_file: self.config_file@,
            spec_cache_dir: self.spec_cache_dir@,
            token_dir: self.token_dir@,
            log_dir: self.log_dir@,
        }
    }
}

/// The path of a name inside a directory.
pub open spec fn inside(dir: Seq<char>, name: Seq<char>) -> Seq<char> {
    if dir.len() == 0 {
        name
    } else if dir.last() == '/' {
        dir + name
    } else {
        dir + "/"@ + name
    }
}

/// Everything rooted in the directory of an explicit config file.
pub open spec fn rooted(file: Seq<char>, dir: Seq<char>) -> PathsShape {
    PathsShape {
        config_file: file,
        spec_cache_dir: inside(dir, "cache/specs"@),
        token_dir: inside(dir, "tokens"@),
        log_dir: inside(dir, "logs"@),
    }
}

/// The standard locations.
pub open spec fn standard(dirs: UserDirs) -> PathsShape {
    PathsShape {
        config_file: inside(dirs.config_dir@, "projects.toml"@),
        spec_cache_dir: inside(dirs.cache_dir@, "specs"@),
        token_dir: inside(dirs.data_dir@, "tokens"@),
        log_dir: inside(dirs.data_dir@, "logs"@),
    }
}

/// Whether a character is a letter or a digit.
pub uninterp spec fn alphanumeric(c: char) -> bool;

/// `char::is_alphanumeric` depends on the character alone.
#[verifier::external_body]
fn is_alphanumeric(c: char) -> (r: bool)
    ensures
        r == alphanumeric(c),
{
    c.is_alphanumeric()
}

pub open spec fn name_char(c: char) -> bool {
    alphanumeric(c) || c == '-' || c == '_'
}

/// Project names are alphanumeric plus '-' or '_'.
pub open spec fn valid_name(name: Seq<char>) -> bool {
    name.len() > 0 && forall|i: int| 0 <= i < name.len() ==> name_char(#[trigger] name[i])
}

pub open spec fn invalid(field: Seq<char>, message: Seq<char>) -> ConfigFault {
    ConfigFault::Invalid { field, message }
}

pub open spec fn begins_with_slash(s: Seq<char>) -> bool {
    s.len() > 0 && s[0] == '/'
}

/// What is wrong with a project, if anything.
pub open spec fn project_fault(name: Seq<char>, project: ProjectConfig) -> Option<ConfigFault> {
    if !valid_name(name) {
        Some(
            invalid(
                "projects."@ + name,
                "project names must be alphanumeric plus '-' or '_'"@,
            ),
        )
    } else if project.base_url.scheme@ != "http"@ && project.base_url.scheme@ != "https"@ {
        Some(
            invalid(
                "projects."@ + name + ".base_url"@,
                "unsupported scheme '"@ + project.base_url.scheme@ + "'"@,
            ),
        )
    } else {
        match project.auth {
            Some(AuthConfig::JwtLogin(jwt)) => if !begins_with_slash(jwt.login_path@) {
                Some(
                    invalid(
                        "projects."@ + name + ".auth.login_path"@,
                        "login_path must start with '/'"@,
                    ),
                )
            } else if !begins_with_slash(jwt.token_json_pointer@) {
                Some(
                    invalid(
                        "projects."@ + name + ".auth.token_json_pointer"@,
                        "JSON pointers must start with '/'"@,
                    ),
                )
            } else {
                None
            },
            _ => None,
        }
    }
}

/// The first fault among the projects from position `i` on.
pub open spec fn first_fault(
    projects: Seq<(Seq<char>, ProjectConfig)>,
    i: int,
) -> Option<ConfigFault>
    decreases projects.len() - i,
{
    if i < 0 || i >= projects.len() {
        None
    } else {
        match project_fault(projects[i].0, projects[i].1) {
            Some(fault) => Some(fault),
            None => first_fault(projects, i + 1),
        }
    }
}

/// What is wrong with a config, if anything.
pub open spec fn config_fault(config: ProjectsConfig) -> Option<ConfigFault> {
    first_fault(config.projects@, 0)
}

// ---------------------------------------------------------------- validation

fn is_valid_name(name: &str) -> (r: bool)
    ensures
        r == valid_name(name@),
{
    let chars = chars_of(name);
    for i in 0..chars.len()
        invariant
            chars@ == name@,
            forall|k: int| 0 <= k < i ==> name_char(#[trigger] name@[k]),
    {
        let c: char = chars[i];
        if !(is_alphanumeric(c) || c == '-' || c == '_') {
            assert(!name_char(name@[i as int]));
            return false;
        }
    }
    chars.len() > 0
}

fn field_of(name: &str, suffix: &str) -> (r: String)
    ensures
        r@ == "projects."@ + name@ + suffix@,
{
    cat3("projects.", name, suffix)
}

fn check_project(name: &str, project: &ProjectConfig) -> (r: Result<(), ConfigError>)
    ensures
        match r {
            Ok(()) => project_fault(name@, *project) is None,
            Err(e) => project_fault(name@, *project) == Some(e@),
        },
{
    if !is_valid_name(name) {
        return Err(
            ConfigError::Invalid {
                field: cat("projects.", name),
                message: owned("project names must be alphanumeric plus '-' or '_'"),
            },
        );
    }
    let scheme = project.base_url.scheme.as_str();
    if !same(scheme, "http") && !same(scheme, "https") {
        return Err(
            ConfigError::Invalid {
                field: field_of(name, ".base_url"),
                message: cat3("unsupported scheme '", scheme, "'"),
            },
        );
    }
    match &project.auth {
        Some(AuthConfig::JwtLogin(jwt)) => {
            if !starts_with(jwt.login_path.as_str(), '/') {
                return Err(
                    ConfigError::Invalid {
                        field: field_of(name, ".auth.login_path"),
                        message: owned("login_path must start with '/'"),
                    },
                );
            }
            if !starts_with(jwt.token_json_pointer.as_str(), '/') {
                return Err(
                    ConfigError::Invalid {
                        field: field_of(name, ".auth.token_json_pointer"),
                        message: owned("JSON pointers must start with '/'"),
                    },
                );
            }
        },
        _ => {},
    }
    Ok(())
}

fn path_inside(dir: &str, name: &str) -> (r: String)
    ensures
        r@ == inside(dir@, name@),
{
    let chars = chars_of(dir);
    let len: usize = chars.len();
    if len == 0 {
        owned(name)
    } else if chars[len - 1] == '/' {
        cat(dir, name)
    } else {
        cat3(dir, "/", name)
    }
}

impl Paths {
    /// Standard locations, or everything rooted next to an explicit config file.
    /// `config_override` is that file with the directory it lies in, where it
    /// has one; `dirs` are the user's directories, where they are known.
    pub fn resolve(
        config_override: Option<(&str, Option<&str>)>,
        dirs: &Option<UserDirs>,
    ) -> (r: Result<Paths, ConfigError>)
        ensures
            match (config_override, *dirs) {
                (Some((file, dir)), _) => r matches Ok(paths) && paths@ == rooted(
                    file@,
                    if dir is Some {
                        dir->0@
                    } else {
                        "."@
                    },
                ),
                (None, Some(dirs)) => r matches Ok(paths) && paths@ == standard(dirs),
                (None, None) => r matches Err(e) && e@ == invalid(
                    "paths"@,
                    "could not determine a home directory"@,
                ),
            },
    {
        if let Some((file, dir)) = config_override {
            let root = match dir {
                Some(dir) => dir,
                None => ".",
            };
            return Ok(
                Paths {
                    config_file: owned(file),
                    spec_cache_dir: path_inside(root, "cache/specs"),
                    token_dir: path_inside(root, "tokens"),
                    log_dir: path_inside(root, "logs"),
                },
            );
        }
        match dirs {
            Some(dirs) => Ok(
                Paths {
                    config_file: path_inside(dirs.config_dir.as_str(), "projects.toml"),
                    spec_cache_dir: path_inside(dirs.cache_dir.as_str(), "specs"),
                    token_dir: path_inside(dirs.data_dir.as_str(), "tokens"),
                    log_dir: path_inside(dirs.data_dir.as_str(), "logs"),
                },
            ),
            None => Err(
                ConfigError::Invalid {
                    field: owned("paths"),
                    message: owned("could not determine a home directory"),
                },
            ),
        }
    }
}

/// Validation beyond what the file format enforces structurally.
pub fn validate(config: &ProjectsConfig) -> (r: Result<(), ConfigError>)
    ensures
        match r {
            Ok(()) => config_fault(*config) is None,
            Err(e) => config_fault(*config) == Some(e@),
        },
{
    let ghost all = config.projects@;
    let entries = config.projects.entries();
    for i in 0..entries.len()
        invariant
            all == named_values(entries@),
            config_fault(*config) == first_fault(all, i as int),
    {
        let (name, project) = &entries[i];
        assert(all[i as int] == (name@, *project));
        match check_project(name.as_str(), project) {
            Ok(()) => {},
            Err(e) => {
                return Err(e);
            },
        }
    }
    Ok(())
}

/// The config that a file holds. A missing file is an empty config, not an
/// error, so `hit projects add` works on first run.
pub fn load(config_file: &str, source: ConfigSource) -> (r: Result<ProjectsConfig, ConfigError>)
    ensures
        match source {
            ConfigSource::Missing => r matches Ok(config) && config.projects@.len() == 0
                && config.settings == (Settings {
                spec_cache_ttl_secs: 300,
                timeout_secs: 30,
                token_store: TokenStoreKind::Auto,
            }),
            ConfigSource::Unreadable(message) => r matches Err(e) && e@ == (ConfigFault::Io {
                path: config_file@,
                source: message@,
            }),
            ConfigSource::Malformed(message) => r matches Err(e) && e@ == ConfigFault::Parse(
                config_file@ + ": "@ + message@,
            ),
            ConfigSource::Parsed(config) => match config_fault(config) {
                Some(fault) => r matches Err(e) && e@ == fault,
                None => r == Ok::<ProjectsConfig, ConfigError>(config),
            },
        },
{
    match source {
        ConfigSource::Missing => Ok(ProjectsConfig::default()),
        ConfigSource::Unreadable(message) => Err(
            ConfigError::Io { path: owned(config_file), source: message },
        ),
        ConfigSource::Malformed(message) => Err(
            ConfigError::Parse(cat3(config_file, ": ", message.as_str())),
        ),
        ConfigSource::Parsed(config) => match validate(&config) {
            Ok(()) => Ok(config),
            Err(e) => Err(e),
        },
    }
}

/// Fetches one project or fails with suggestions.
pub fn project<'a>(config: &'a ProjectsConfig, name: &str) -> (r: Result<
    &'a ProjectConfig,
    ConfigError,
>)
    ensures
        match entry(config.projects@, name@) {
            Some(found) => r matches Ok(p) && *p == found,
            None => r matches Err(e) && e@ == (ConfigFault::UnknownProject {
                name: name@,
                available: names_of(config.projects@),
            }),
        },
{
    match config.projects.get(name) {
        Some(found) => Ok(found),
        None => Err(
            ConfigError::UnknownProject {
                name: owned(name),
                available: config.projects.names(),
            },
        ),
    }
}

// ---------------------------------------------------------------- laws

/// A config is valid exactly where each of its projects is.
pub proof fn law_valid_config_has_valid_projects(
    projects: Seq<(Seq<char>, ProjectConfig)>,
    i: int,
)
    requires
        0 <= i,
    ensures
        first_fault(projects, i) is None <==> forall|k: int|
            i <= k < projects.len() ==> project_fault(
                (#[trigger] projects[k]).0,
                projects[k].1,
            ) is None,
    decreases projects.len() - i,
{
    if i < projects.len() {
        law_valid_config_has_valid_projects(projects, i + 1);
        if project_fault(projects[i].0, projects[i].1) is Some {
            assert(!(project_fault(projects[i].0, projects[i].1) is None));
        }
    }
}

/// A project is valid exactly where its name is made of letters, digits, `-` and
/// `_`, its server is reached by HTTP, and the paths of its login start with a
/// slash. What is reported names the first of these that fails.
pub proof fn law_valid_projects(name: Seq<char>, project: ProjectConfig)
    ensures
        ({
            let named = name.len() > 0 && forall|i: int|
                0 <= i < name.len() ==> alphanumeric(#[trigger] name[i]) || name[i] == '-'
                    || name[i] == '_';
            let served = project.base_url.scheme@ == "http"@ || project.base_url.scheme@
                == "https"@;
            let fault = project_fault(name, project);
            &&& !named ==> (fault matches Some(ConfigFault::Invalid { field, .. }) && field
                == "projects."@ + name)
            &&& named && !served ==> (fault matches Some(ConfigFault::Invalid { field, .. })
                && field == "projects."@ + name + ".base_url"@)
            &&& named && served ==> match project.auth {
                Some(AuthConfig::JwtLogin(jwt)) => {
                    let path = jwt.login_path@.len() > 0 && jwt.login_path@[0] == '/';
                    let pointer = jwt.token_json_pointer@.len() > 0 && jwt.token_json_pointer@[0]
                        == '/';
                    &&& path && pointer ==> fault is None
                    &&& !path ==> (fault matches Some(ConfigFault::Invalid { field, .. }) && field
                        == "projects."@ + name + ".auth.login_path"@)
                    &&& path && !pointer ==> (fault matches Some(ConfigFault::Invalid { field, .. })
                        && field == "projects."@ + name + ".auth.token_json_pointer"@)
                },
                _ => fault is None,
            }
        }),
{
    if name.len() > 0 && forall|i: int|
        0 <= i < name.len() ==> alphanumeric(#[trigger] name[i]) || name[i] == '-' || name[i]
            == '_' {
        assert forall|i: int| 0 <= i < name.len() implies name_char(#[trigger] name[i]) by {}
        assert(valid_name(name));
    }
    if valid_name(name) {
        assert forall|i: int| 0 <= i < name.len() implies alphanumeric(#[trigger] name[i])
            || name[i] == '-' || name[i] == '_' by {
            assert(name_char(name[i]));
        }
    }
}

/// Files lie in their directory, with one slash between.
pub proof fn law_files_lie_inside(dir: Seq<char>, name: Seq<char>)
    ensures
        dir.len() > 0 && dir.last() != '/' ==> inside(dir, name) == dir + "/"@ + name,
        dir.len() > 0 && dir.last() == '/' ==> inside(dir, name) == dir + name,
        dir.len() == 0 ==> inside(dir, name) == name,
{
}

/// An explicit config file keeps everything beside it; otherwise each kind of file
/// has its own directory.
pub proof fn law_locations(file: Seq<char>, dir: Seq<char>, dirs: UserDirs)
    ensures
        rooted(file, dir).config_file == file,
        rooted(file, dir).spec_cache_dir == inside(dir, "cache/specs"@),
        rooted(file, dir).token_dir == inside(dir, "tokens"@),
        rooted(file, dir).log_dir == inside(dir, "logs"@),
        standard(dirs).config_file == inside(dirs.config_dir@, "projects.toml"@),
        standard(dirs).spec_cache_dir == inside(dirs.cache_dir@, "specs"@),
        standard(dirs).token_dir == inside(dirs.data_dir@, "tokens"@),
        standard(dirs).log_dir == inside(dirs.data_dir@, "logs"@),
{
}

} // verus!
