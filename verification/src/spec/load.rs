//! Spec acquisition: fresh cache -> live fetch -> disk file -> stale cache.
//!
//! The caller performs each `LoadAction` and hands its outcome back; the next
//! action follows from it. Nothing here touches the disk or the network.

use super::{build, built};
use crate::error::{SpecError, SpecFault};
use crate::json::parse::parsed;
use crate::json::{Json, JsonValue};
use crate::model::{ApiShape, ApiSpec};
use crate::text::{cat, cat3, owned, trim_end_matches, without_trailing};
use vstd::prelude::*;

verus! {

/// Where a spec document ultimately came from, surfaced in CLI/MCP output.
#[derive(Debug, Clone, Copy, PartialEq, Eq, Structural)]
pub enum SpecOrigin {
    Cache,
    Live,
    File,
    StaleCache,
}

#[derive(Debug)]
pub struct LoadedSpec {
    pub spec: ApiSpec,
    pub origin: SpecOrigin,
    /// The raw document, kept for schema normalization context ($ref targets).
    pub document: JsonValue,
}

/// A cached fetch result: the raw document plus when it was fetched.
#[derive(Debug)]
pub struct CacheEntry {
    pub fetched_at_unix: u64,
    pub openapi: JsonValue,
}

/// What a load depends on.
#[derive(Debug)]
pub struct LoadRequest {
    pub project_name: String,
    pub base_url: String,
    pub spec_file: Option<String>,
    pub ttl_secs: u64,
    pub no_cache: bool,
}

/// What has to be done next to load a spec.
#[derive(Debug)]
pub enum LoadAction {
    /// Read the cache; hand the entry to `after_cache`.
    ReadCache,
    /// Fetch the document at this address; hand the outcome to `after_fetch`.
    Fetch(String),
    /// Read this file; hand the outcome to `after_file`.
    ReadFile(String),
    /// Read the cache once more, whatever its age; hand the entry to `after_stale`.
    ReadStaleCache,
    /// The load is over. A live document is to be written to the cache.
    Done(Result<LoadedSpec, SpecError>),
}

// ---------------------------------------------------------------- model

pub enum LoadStep {
    ReadCache,
    Fetch(Seq<char>),
    ReadFile(Seq<char>),
    ReadStaleCache,
    Loaded { spec: ApiShape, origin: SpecOrigin, document: Json },
    Failed(SpecFault),
}

impl View for LoadAction {
    type V = LoadStep;

    open spec fn view(&self) -> LoadStep {
        match self {
            LoadAction::ReadCache => LoadStep::ReadCache,
            LoadAction::Fetch(url) => LoadStep::Fetch(url@),
            LoadAction::ReadFile(path) => LoadStep::ReadFile(path@),
            LoadAction::ReadStaleCache => LoadStep::ReadStaleCache,
            LoadAction::Done(Ok(loaded)) => LoadStep::Loaded {
                spec: loaded.spec@,
                origin: loaded.origin,
                document: loaded.document@,
            },
            LoadAction::Done(Err(e)) => LoadStep::Failed(e@),
        }
    }
}

/// The end of a load with the given document.
pub open spec fn finished(document: Json, origin: SpecOrigin) -> LoadStep {
    match built(document) {
        Ok(spec) => LoadStep::Loaded { spec, origin, document },
        Err(e) => LoadStep::Failed(e),
    }
}

/// The address of a server's spec.
pub open spec fn spec_address(base_url: Seq<char>) -> Seq<char> {
    without_trailing(base_url, '/') + "/openapi.json"@
}

/// Whether a document fetched at one time is still fresh at another.
pub open spec fn fresh(now: Option<u64>, fetched_at: u64, ttl: u64) -> bool {
    match now {
        Some(now) => (if now >= fetched_at {
            now - fetched_at
        } else {
            0
        }) < ttl,
        None => false,
    }
}

pub open spec fn first_step(no_cache: bool, base_url: Seq<char>) -> LoadStep {
    if no_cache {
        LoadStep::Fetch(spec_address(base_url))
    } else {
        LoadStep::ReadCache
    }
}

pub open spec fn step_after_cache(
    entry: Option<(u64, Json)>,
    now: Option<u64>,
    ttl: u64,
    base_url: Seq<char>,
) -> LoadStep {
    match entry {
        Some((fetched_at, document)) if fresh(now, fetched_at, ttl) => finished(
            document,
            SpecOrigin::Cache,
        ),
        _ => LoadStep::Fetch(spec_address(base_url)),
    }
}

pub open spec fn step_after_fetch(
    outcome: Result<Json, Seq<char>>,
    spec_file: Option<Seq<char>>,
) -> LoadStep {
    match outcome {
        Ok(document) => finished(document, SpecOrigin::Live),
        Err(_) => match spec_file {
            Some(path) => LoadStep::ReadFile(path),
            None => LoadStep::ReadStaleCache,
        },
    }
}

/// What an answer of the server holds.
pub open spec fn fetched(
    status: u16,
    shown: Seq<char>,
    body: Result<Seq<char>, Seq<char>>,
) -> Result<Json, Seq<char>> {
    if status < 200 || status > 299 {
        Err("server returned "@ + shown)
    } else {
        match body {
            Err(message) => Err("invalid JSON: "@ + message),
            Ok(text) => match parsed(text) {
                Ok(document) => Ok(document),
                Err(message) => Err("invalid JSON: "@ + message),
            },
        }
    }
}

/// The document in a spec file whose reading had the given outcome.
pub open spec fn file_document(
    path: Seq<char>,
    content: Result<Seq<char>, Seq<char>>,
) -> Result<Json, SpecFault> {
    match content {
        Err(message) => Err(
            SpecFault::Unavailable {
                project: Seq::empty(),
                detail: "spec_file "@ + path + ": "@ + message,
            },
        ),
        Ok(text) => match parsed(text) {
            Ok(document) => Ok(document),
            Err(message) => Err(SpecFault::Parse("spec_file "@ + path + ": "@ + message)),
        },
    }
}

pub open spec fn step_after_file(
    path: Seq<char>,
    content: Result<Seq<char>, Seq<char>>,
) -> LoadStep {
    match file_document(path, content) {
        Ok(document) => finished(document, SpecOrigin::File),
        Err(_) => LoadStep::ReadStaleCache,
    }
}

pub open spec fn step_after_stale(
    entry: Option<Json>,
    project: Seq<char>,
    fetch_error: Seq<char>,
) -> LoadStep {
    match entry {
        Some(document) => finished(document, SpecOrigin::StaleCache),
        None => LoadStep::Failed(SpecFault::Unavailable { project, detail: fetch_error }),
    }
}

// ---------------------------------------------------------------- steps

fn finish(document: JsonValue, origin: SpecOrigin) -> (r: LoadAction)
    ensures
        r@ == finished(document@, origin),
{
    match build(&document) {
        Ok(spec) => LoadAction::Done(Ok(LoadedSpec { spec, origin, document })),
        Err(e) => LoadAction::Done(Err(e)),
    }
}

/// The address of a server's spec.
pub fn spec_url(base_url: &str) -> (r: String)
    ensures
        r@ == spec_address(base_url@),
{
    let root = trim_end_matches(base_url, '/');
    cat(root.as_str(), "/openapi.json")
}

/// The document in an answer of the server, or why there is none: the answer is
/// no success, its body is no text, or the text is no JSON. `shown` is the
/// status as it is shown.
pub fn fetched_document(status: u16, shown: &str, body: Result<String, String>) -> (r: Result<
    JsonValue,
    String,
>)
    ensures
        match r {
            Ok(document) => fetched(status, shown@, text_outcome(body)) == Ok::<Json, Seq<char>>(
                document@,
            ),
            Err(message) => fetched(status, shown@, text_outcome(body)) == Err::<Json, Seq<char>>(
                message@,
            ),
        },
{
    if status < 200 || status > 299 {
        return Err(cat("server returned ", shown));
    }
    match body {
        Ok(text) => match JsonValue::parse(text.as_str()) {
            Ok(document) => Ok(document),
            Err(message) => Err(cat("invalid JSON: ", message.as_str())),
        },
        Err(message) => Err(cat("invalid JSON: ", message.as_str())),
    }
}

/// The name of a project's cache file.
pub fn cache_file(project_name: &str) -> (r: String)
    ensures
        r@ == project_name@ + ".json"@,
{
    cat(project_name, ".json")
}

/// Whether a document fetched at one time is still fresh at another.
pub fn cache_is_fresh(now: Option<u64>, fetched_at: u64, ttl: u64) -> (r: bool)
    ensures
        r == fresh(now, fetched_at, ttl),
{
    match now {
        Some(now) => {
            let age: u64 = if now >= fetched_at {
                now - fetched_at
            } else {
                0
            };
            age < ttl
        },
        None => false,
    }
}

/// The document in a spec file whose reading had the given outcome.
pub fn read_spec_file(path: &str, content: Result<String, String>) -> (r: Result<
    JsonValue,
    SpecError,
>)
    ensures
        match r {
            Ok(document) => file_document(path@, text_outcome(content)) == Ok::<Json, SpecFault>(
                document@,
            ),
            Err(e) => file_document(path@, text_outcome(content)) == Err::<Json, SpecFault>(e@),
        },
{
    let place = cat3("spec_file ", path, ": ");
    match content {
        Err(message) => Err(
            SpecError::Unavailable {
                project: String::new(),
                detail: cat(place.as_str(), message.as_str()),
            },
        ),
        Ok(text) => match JsonValue::parse(text.as_str()) {
            Ok(document) => Ok(document),
            Err(message) => Err(SpecError::Parse(cat(place.as_str(), message.as_str()))),
        },
    }
}

pub open spec fn text_outcome(content: Result<String, String>) -> Result<Seq<char>, Seq<char>> {
    match content {
        Ok(text) => Ok(text@),
        Err(message) => Err(message@),
    }
}

impl LoadRequest {
    /// The first thing to do.
    pub fn start(&self) -> (r: LoadAction)
        ensures
            r@ == first_step(self.no_cache, self.base_url@),
    {
        if self.no_cache {
            LoadAction::Fetch(spec_url(self.base_url.as_str()))
        } else {
            LoadAction::ReadCache
        }
    }

    /// What follows once the cache was read; `now` is the time of day, where known.
    pub fn after_cache(&self, entry: Option<CacheEntry>, now: Option<u64>) -> (r: LoadAction)
        ensures
            r@ == step_after_cache(
                match entry {
                    Some(entry) => Some((entry.fetched_at_unix, entry.openapi@)),
                    None => None,
                },
                now,
                self.ttl_secs,
                self.base_url@,
            ),
    {
        match entry {
            Some(entry) => {
                if cache_is_fresh(now, entry.fetched_at_unix, self.ttl_secs) {
                    finish(entry.openapi, SpecOrigin::Cache)
                } else {
                    LoadAction::Fetch(spec_url(self.base_url.as_str()))
                }
            },
            None => LoadAction::Fetch(spec_url(self.base_url.as_str())),
        }
    }

    /// What follows once the live fetch succeeded or failed.
    pub fn after_fetch(&self, outcome: Result<JsonValue, String>) -> (r: LoadAction)
        ensures
            r@ == step_after_fetch(
                match outcome {
                    Ok(document) => Ok(document@),
                    Err(message) => Err(message@),
                },
                self.spec_file.deep_view(),
            ),
    {
        match outcome {
            Ok(document) => finish(document, SpecOrigin::Live),
            Err(_) => match &self.spec_file {
                Some(path) => LoadAction::ReadFile(path.clone()),
                None => LoadAction::ReadStaleCache,
            },
        }
    }

    /// What follows once the spec file was read: a file that cannot be read or
    /// is no JSON leaves the stale cache.
    pub fn after_file(&self, path: &str, content: Result<String, String>) -> (r: LoadAction)
        ensures
            r@ == step_after_file(path@, text_outcome(content)),
    {
        match read_spec_file(path, content) {
            Ok(document) => finish(document, SpecOrigin::File),
            Err(_) => LoadAction::ReadStaleCache,
        }
    }

    /// What follows once the cache was read as the last resort.
    pub fn after_stale(&self, entry: Option<CacheEntry>, fetch_error: &str) -> (r: LoadAction)
        ensures
            r@ == step_after_stale(
                match entry {
                    Some(entry) => Some(entry.openapi@),
                    None => None,
                },
                self.project_name@,
                fetch_error@,
            ),
    {
        match entry {
            Some(entry) => finish(entry.openapi, SpecOrigin::StaleCache),
            None => LoadAction::Done(
                Err(
                    SpecError::Unavailable {
                        project: self.project_name.clone(),
                        detail: owned(fetch_error),
                    },
                ),
            ),
        }
    }
}

/// A forced refetch bypasses all fallbacks: a failed fetch is an error.
pub fn refresh_outcome(base_url: &str, outcome: Result<JsonValue, String>) -> (r: Result<
    LoadedSpec,
    SpecError,
>)
    ensures
        match outcome {
            Ok(document) => LoadAction::Done(r)@ == finished(document@, SpecOrigin::Live),
            Err(message) => r matches Err(e) && e@ == (SpecFault::Fetch {
                url: spec_address(base_url@),
                message: message@,
            }),
        },
{
    match outcome {
        Ok(document) => match build(&document) {
            Ok(spec) => Ok(LoadedSpec { spec, origin: SpecOrigin::Live, document }),
            Err(e) => Err(e),
        },
        Err(message) => Err(SpecError::Fetch { url: spec_url(base_url), message }),
    }
}

// ---------------------------------------------------------------- laws

/// The order of sources: a fresh cache is used without any fetch; a live
/// document wins over every fallback; the spec file is tried only after the
/// fetch failed, and the stale cache after that, where there is no spec file or
/// it holds no document.
pub proof fn law_load_order(
    fetched_at: u64,
    document: Json,
    now: Option<u64>,
    ttl: u64,
    base_url: Seq<char>,
    project: Seq<char>,
    message: Seq<char>,
    file: Seq<char>,
    content: Result<Seq<char>, Seq<char>>,
)
    ensures
        fresh(now, fetched_at, ttl) ==> step_after_cache(
            Some((fetched_at, document)),
            now,
            ttl,
            base_url,
        ) == finished(document, SpecOrigin::Cache),
        !fresh(now, fetched_at, ttl) ==> step_after_cache(
            Some((fetched_at, document)),
            now,
            ttl,
            base_url,
        ) == LoadStep::Fetch(spec_address(base_url)),
        first_step(true, base_url) == LoadStep::Fetch(spec_address(base_url)),
        step_after_fetch(Ok(document), Some(file)) == finished(document, SpecOrigin::Live),
        step_after_fetch(Err(message), Some(file)) == LoadStep::ReadFile(file),
        step_after_fetch(Err(message), None) == LoadStep::ReadStaleCache,
        file_document(file, content) == Ok::<Json, SpecFault>(document) ==> step_after_file(
            file,
            content,
        ) == finished(document, SpecOrigin::File),
        file_document(file, content) is Err ==> step_after_file(file, content)
            == LoadStep::ReadStaleCache,
        step_after_stale(Some(document), project, message) == finished(
            document,
            SpecOrigin::StaleCache,
        ),
        step_after_stale(None, project, message) == LoadStep::Failed(
            SpecFault::Unavailable { project, detail: message },
        ),
{
}

/// A document never grows fresh again: what is stale stays stale as time goes on.
pub proof fn law_stale_stays_stale(now: u64, later: u64, fetched_at: u64, ttl: u64)
    requires
        now <= later,
        !fresh(Some(now), fetched_at, ttl),
    ensures
        !fresh(Some(later), fetched_at, ttl),
{
}

} // verus!
