//! Listing, registering and unregistering projects.

use super::listing::{list_projects, project_lines, project_rows, projects_text};
use super::output::{CommandOutput, OutputShape};
use super::{header_of, parse_header, ProjectsCmd};
use crate::config::{config_fault, validate, BaseUrl, Framework, ProjectConfig, ProjectsConfig};
use crate::error::{exit_code, ConfigError, ConfigFault, Fault, HitError, RequestError, RequestFault};
use crate::json::{list_json, Json, JsonMap, JsonValue};
use crate::names::{
    ascending, entry, law_entry_after_placed, law_no_entry_after_without, law_placed_keeps_others,
    law_placed_stays_ascending, law_without_keeps_others, lemma_text_placed, names_of, placed,
    text_entries, without, NameMap,
};
use crate::text::{cat, cat3, join, joined, owned};
use vstd::prelude::*;
use vstd::string::*;

verus! {

// ---------------------------------------------------------------- model

/// The answer to `projects list`.
pub open spec fn list_output(config: ProjectsConfig) -> OutputShape {
    OutputShape {
        data: Json::Array(project_rows(config.projects@)),
        human: if config.projects@.len() == 0 {
            "no projects registered — add one with: hit projects add <name> --base-url <url>"@
        } else {
            joined(project_lines(config.projects@), "\n"@)
        },
        exit_code: exit_code::OK,
    }
}

/// The answer to `projects add`.
pub open spec fn add_output(name: Seq<char>, config_file: Seq<char>) -> OutputShape {
    OutputShape {
        data: Json::Object(seq![("added"@, Json::Text(name))]),
        human: "added project '"@ + name + "'. Configure auth by editing "@ + config_file,
        exit_code: exit_code::OK,
    }
}

/// The answer to `projects remove`.
pub open spec fn remove_output(name: Seq<char>) -> OutputShape {
    OutputShape {
        data: Json::Object(seq![("removed"@, Json::Text(name))]),
        human: "removed project '"@ + name + "'"@,
        exit_code: exit_code::OK,
    }
}

/// The headers from position `i` on put under their names, a later one in
/// place of an earlier one.
pub open spec fn header_map(
    headers: Seq<Seq<char>>,
    i: int,
    so_far: Seq<(Seq<char>, Seq<char>)>,
) -> Result<Seq<(Seq<char>, Seq<char>)>, RequestFault>
    decreases headers.len() - i,
{
    if i < 0 || i >= headers.len() {
        Ok(so_far)
    } else {
        match header_of(headers[i]) {
            Ok((name, value)) => header_map(headers, i + 1, placed(so_far, name, value)),
            Err(e) => Err(e),
        }
    }
}

/// What is left to do once a command succeeded.
#[derive(Debug, PartialEq, Eq)]
pub enum Aftermath {
    /// The config is as it was.
    Nothing,
    /// The config changed and is to be saved.
    Save,
    /// The config is to be saved; then the cached spec and the token of the
    /// named project are to be deleted.
    SaveAndForget(String),
}

pub enum AftermathShape {
    Nothing,
    Save,
    SaveAndForget(Seq<char>),
}

impl View for Aftermath {
    type V = AftermathShape;

    open spec fn view(&self) -> AftermathShape {
        match self {
            Aftermath::Nothing => AftermathShape::Nothing,
            Aftermath::Save => AftermathShape::Save,
            Aftermath::SaveAndForget(name) => AftermathShape::SaveAndForget(name@),
        }
    }
}

pub open spec fn answer_of(result: Result<(CommandOutput, Aftermath), HitError>) -> Result<
    (OutputShape, AftermathShape),
    Fault,
> {
    match result {
        Ok((output, rest)) => Ok((output@, rest@)),
        Err(e) => Err(e@),
    }
}

/// Whether `p` is a project as it is registered.
pub open spec fn registered(
    p: ProjectConfig,
    base_url: BaseUrl,
    spec_file: Option<String>,
    headers: Seq<(Seq<char>, Seq<char>)>,
) -> bool {
    &&& p.base_url == base_url
    &&& p.spec_file == spec_file
    &&& text_entries(p.default_headers@) == headers
    &&& p.auth is None
    &&& p.framework is Fastapi
}

/// The answer for a changed config: a config with a fault is not saved.
pub open spec fn accepted(
    config: ProjectsConfig,
    output: OutputShape,
    rest: AftermathShape,
) -> Result<(OutputShape, AftermathShape), Fault> {
    match config_fault(config) {
        Some(fault) => Err(Fault::Config(fault)),
        None => Ok((output, rest)),
    }
}

/// What a command answers, the config that it leaves, and what is left to do.
pub open spec fn carried_out(
    cmd: ProjectsCmd,
    before: ProjectsConfig,
    config_file: Seq<char>,
    after: ProjectsConfig,
    result: Result<(OutputShape, AftermathShape), Fault>,
) -> bool {
    match cmd {
        ProjectsCmd::List => after == before && result == Ok::<
            (OutputShape, AftermathShape),
            Fault,
        >((list_output(before), AftermathShape::Nothing)),
        ProjectsCmd::Add { name, base_url, spec_file, headers } => if entry(
            before.projects@,
            name@,
        ) is Some {
            after == before && result == Err::<(OutputShape, AftermathShape), Fault>(
                Fault::Config(ConfigFault::DuplicateProject(name@)),
            )
        } else {
            match header_map(headers.deep_view(), 0, Seq::empty()) {
                Err(e) => after == before && result == Err::<(OutputShape, AftermathShape), Fault>(
                    Fault::Request(e),
                ),
                Ok(map) => {
                    &&& result == accepted(
                        after,
                        add_output(name@, config_file),
                        AftermathShape::Save,
                    )
                    &&& after.settings == before.settings
                    &&& exists|p: ProjectConfig|
                        after.projects@ == #[trigger] placed(before.projects@, name@, p)
                            && registered(p, base_url, spec_file, map)
                },
            }
        },
        ProjectsCmd::Remove { name } => if entry(before.projects@, name@) is Some {
            &&& result == accepted(
                after,
                remove_output(name@),
                AftermathShape::SaveAndForget(name@),
            )
            &&& after.settings == before.settings
            &&& after.projects@ == without(before.projects@, name@)
        } else {
            after == before && result == Err::<(OutputShape, AftermathShape), Fault>(
                Fault::Config(
                    ConfigFault::UnknownProject {
                        name: name@,
                        available: names_of(before.projects@),
                    },
                ),
            )
        },
    }
}

// ---------------------------------------------------------------- operations

fn headers_of(headers: &Vec<String>) -> (r: Result<NameMap<String>, RequestError>)
    ensures
        match r {
            Ok(map) => header_map(headers.deep_view(), 0, Seq::empty()) == Ok::<
                Seq<(Seq<char>, Seq<char>)>,
                RequestFault,
            >(text_entries(map@)),
            Err(e) => header_map(headers.deep_view(), 0, Seq::empty()) == Err::<
                Seq<(Seq<char>, Seq<char>)>,
                RequestFault,
            >(e@),
        },
{
    let ghost all = headers.deep_view();
    let mut map: NameMap<String> = NameMap::new();
    assert(text_entries(map@) =~= Seq::empty());
    for i in 0..headers.len()
        invariant
            all == headers.deep_view(),
            header_map(all, i as int, text_entries(map@)) == header_map(all, 0, Seq::empty()),
    {
        assert(all[i as int] == headers@[i as int]@);
        match parse_header(headers[i].as_str()) {
            Ok((name, value)) => {
                proof {
                    lemma_text_placed(map@, name@, value);
                }
                map.insert(name, value);
            },
            Err(e) => {
                return Err(e);
            },
        }
    }
    Ok(map)
}

fn accept(config: &ProjectsConfig, output: CommandOutput, rest: Aftermath) -> (r: Result<
    (CommandOutput, Aftermath),
    HitError,
>)
    ensures
        answer_of(r) == accepted(*config, output@, rest@),
{
    match validate(config) {
        Ok(()) => Ok((output, rest)),
        Err(e) => Err(HitError::Config(e)),
    }
}

fn one_member(key: &str, text: &str) -> (r: JsonValue)
    ensures
        r@ == Json::Object(seq![(key@, Json::Text(text@))]),
{
    let mut data = JsonMap::new();
    data.append_text(key, text);
    assert(data@ =~= seq![(key@, Json::Text(text@))]);
    JsonValue::Object(data)
}

/// Carries a command on projects out, and says what is left to do: a config that
/// changed is to be saved, and a removed project's cached spec and token are to
/// be deleted.
pub fn projects_cmd(cmd: ProjectsCmd, config: &mut ProjectsConfig, config_file: &str) -> (r: Result<
    (CommandOutput, Aftermath),
    HitError,
>)
    ensures
        carried_out(cmd, *old(config), config_file@, *final(config), answer_of(r)),
{
    match cmd {
        ProjectsCmd::List => {
            let rows = list_projects(config);
            assert(list_json(&rows).len() == rows@.len());
            let human = if rows.len() == 0 {
                owned(
                    "no projects registered — add one with: hit projects add <name> --base-url <url>",
                )
            } else {
                let lines = projects_text(config);
                join(&lines, "\n")
            };
            Ok((CommandOutput::ok(JsonValue::Array(rows), human), Aftermath::Nothing))
        },
        ProjectsCmd::Add { name, base_url, spec_file, headers } => {
            if config.projects.contains_key(name.as_str()) {
                return Err(HitError::Config(ConfigError::DuplicateProject(name)));
            }
            let default_headers = match headers_of(&headers) {
                Ok(map) => map,
                Err(e) => {
                    return Err(HitError::Request(e));
                },
            };
            let added = ProjectConfig {
                base_url,
                spec_file,
                default_headers,
                auth: None,
                framework: Framework::Fastapi,
            };
            let head = cat3("added project '", name.as_str(), "'. Configure auth by editing ");
            let human = cat(head.as_str(), config_file);
            let data = one_member("added", name.as_str());
            let ghost p = added;
            let ghost before = config.projects@;
            config.projects.insert(name, added);
            assert(config.projects@ == placed(before, name@, p));
            assert(registered(
                p,
                base_url,
                spec_file,
                header_map(headers.deep_view(), 0, Seq::empty())->Ok_0,
            ));
            accept(config, CommandOutput::ok(data, human), Aftermath::Save)
        },
        ProjectsCmd::Remove { name } => {
            if !config.projects.contains_key(name.as_str()) {
                let available = config.projects.names();
                return Err(HitError::Config(ConfigError::UnknownProject { name, available }));
            }
            let _ = config.projects.remove(name.as_str());
            let output = CommandOutput::ok(
                one_member("removed", name.as_str()),
                cat3("removed project '", name.as_str(), "'"),
            );
            accept(config, output, Aftermath::SaveAndForget(name))
        },
    }
}

// ---------------------------------------------------------------- laws

/// A registered project is found under its name, and registering it again is
/// refused.
pub proof fn law_added_project_is_found(
    name: String,
    base_url: BaseUrl,
    spec_file: Option<String>,
    headers: Vec<String>,
    before: ProjectsConfig,
    config_file: Seq<char>,
    after: ProjectsConfig,
    answer: (OutputShape, AftermathShape),
    again: ProjectsConfig,
    result: Result<(OutputShape, AftermathShape), Fault>,
)
    requires
        carried_out(
            ProjectsCmd::Add { name, base_url, spec_file, headers },
            before,
            config_file,
            after,
            Ok(answer),
        ),
        carried_out(
            ProjectsCmd::Add { name, base_url, spec_file, headers },
            after,
            config_file,
            again,
            result,
        ),
    ensures
        entry(after.projects@, name@) matches Some(p) && p.base_url == base_url,
        again == after,
        result == Err::<(OutputShape, AftermathShape), Fault>(Fault::Config(ConfigFault::DuplicateProject(name@))),
{
    let map = header_map(headers.deep_view(), 0, Seq::empty())->Ok_0;
    let p = choose|p: ProjectConfig|
        after.projects@ == #[trigger] placed(before.projects@, name@, p) && registered(
            p,
            base_url,
            spec_file,
            map,
        );
    law_entry_after_placed(before.projects@, name@, p);
}

/// Every config that a command leaves to be saved is valid; where nothing is to
/// be saved, the config is as it was.
pub proof fn law_saved_config_is_valid(
    cmd: ProjectsCmd,
    before: ProjectsConfig,
    config_file: Seq<char>,
    after: ProjectsConfig,
    answer: (OutputShape, AftermathShape),
)
    requires
        carried_out(cmd, before, config_file, after, Ok(answer)),
    ensures
        match answer.1 {
            AftermathShape::Nothing => after == before,
            _ => config_fault(after) is None,
        },
{
}

/// A removed project is not found any more, and removing it again is refused.
pub proof fn law_removed_project_is_gone(
    name: String,
    before: ProjectsConfig,
    config_file: Seq<char>,
    after: ProjectsConfig,
    answer: (OutputShape, AftermathShape),
    again: ProjectsConfig,
    result: Result<(OutputShape, AftermathShape), Fault>,
)
    requires
        ascending(before.projects@),
        carried_out(ProjectsCmd::Remove { name }, before, config_file, after, Ok(answer)),
        carried_out(ProjectsCmd::Remove { name }, after, config_file, again, result),
    ensures
        entry(after.projects@, name@) is None,
        again == after,
        result is Err,
{
    law_no_entry_after_without(before.projects@, name@);
}

/// Registering or removing one project leaves the others, and the settings, as they
/// were.
pub proof fn law_other_projects_stay(
    cmd: ProjectsCmd,
    before: ProjectsConfig,
    config_file: Seq<char>,
    after: ProjectsConfig,
    answer: (OutputShape, AftermathShape),
    other: Seq<char>,
)
    requires
        ascending(before.projects@),
        carried_out(cmd, before, config_file, after, Ok(answer)),
        match cmd {
            ProjectsCmd::List => true,
            ProjectsCmd::Add { name, .. } => name@ != other,
            ProjectsCmd::Remove { name } => name@ != other,
        },
    ensures
        entry(after.projects@, other) == entry(before.projects@, other),
        after.settings == before.settings,
{
    match cmd {
        ProjectsCmd::List => {},
        ProjectsCmd::Add { name, base_url, spec_file, headers } => {
            let map = header_map(headers.deep_view(), 0, Seq::empty())->Ok_0;
            let p = choose|p: ProjectConfig|
                after.projects@ == #[trigger] placed(before.projects@, name@, p) && registered(
                    p,
                    base_url,
                    spec_file,
                    map,
                );
            law_placed_keeps_others(before.projects@, name@, p, other);
        },
        ProjectsCmd::Remove { name } => {
            law_without_keeps_others(before.projects@, name@, other);
        },
    }
}

/// Default headers are kept by name: each name once, in the order of names, with
/// what was given last for it.
pub proof fn law_default_headers(
    headers: Seq<Seq<char>>,
    i: int,
    so_far: Seq<(Seq<char>, Seq<char>)>,
    name: Seq<char>,
)
    requires
        0 <= i <= headers.len(),
        ascending(so_far),
    ensures
        header_map(headers, i, so_far) matches Ok(map) ==> {
            &&& ascending(map)
            &&& (forall|k: int|
                i <= k < headers.len() ==> header_of(#[trigger] headers[k])->Ok_0.0 != name)
                ==> entry(map, name) == entry(so_far, name)
            &&& forall|k: int|
                i <= k < headers.len() && header_of(#[trigger] headers[k])->Ok_0.0 == name && (
                forall|l: int|
                    k < l < headers.len() ==> header_of(#[trigger] headers[l])->Ok_0.0 != name)
                    ==> entry(map, name) == Some(header_of(headers[k])->Ok_0.1)
        },
        (forall|k: int| i <= k < headers.len() ==> header_of(#[trigger] headers[k]) is Ok)
            <==> header_map(headers, i, so_far) is Ok,
    decreases headers.len() - i,
{
    if i < headers.len() {
        match header_of(headers[i]) {
            Ok((own, value)) => {
                let next = placed(so_far, own, value);
                law_placed_stays_ascending(so_far, own, value);
                law_default_headers(headers, i + 1, next, name);
                law_entry_after_placed(so_far, own, value);
                if own != name {
                    law_placed_keeps_others(so_far, own, value, name);
                }
            },
            Err(_) => {},
        }
    }
}

} // verus!
