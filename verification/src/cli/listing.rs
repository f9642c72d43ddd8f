//! Projects, tags and endpoints as rows of JSON and lines of text.

use crate::config::{AuthConfig, ProjectConfig, ProjectsConfig};
use crate::error::{SpecError, SpecFault};
use crate::json::{list_json, Json, JsonMap, JsonValue};
use crate::model::schema_node::json_texts;
use crate::model::{
    group_names, group_position, ApiSpec, Endpoint, EndpointShape, GroupShape, TagGroup,
};
use crate::names::named_values;
use crate::text::{
    cat3, contains, contains_text, decimal, lower, pad, pad_left, padded, padded_left, same, show,
    to_lower,
};
use vstd::prelude::*;
use vstd::string::*;

verus! {

// ---------------------------------------------------------------- projects

pub open spec fn text_or_null(text: Option<Seq<char>>) -> Json {
    match text {
        Some(s) => Json::Text(s),
        None => Json::Null,
    }
}

/// The name of a project's kind of authentication.
pub open spec fn auth_name(auth: Option<AuthConfig>) -> Option<Seq<char>> {
    match auth {
        Some(auth) => Some(auth.kind_name()),
        None => None,
    }
}

/// What every listing says of a project.
pub open spec fn project_members(name: Seq<char>, p: ProjectConfig) -> Seq<(Seq<char>, Json)> {
    seq![
        ("name"@, Json::Text(name)),
        ("base_url"@, Json::Text(p.base_url.text@)),
        ("auth_type"@, text_or_null(auth_name(p.auth))),
    ]
}

/// The row of a project.
pub open spec fn project_row(name: Seq<char>, p: ProjectConfig) -> Json {
    Json::Object(
        project_members(name, p).push(("spec_file"@, text_or_null(p.spec_file.deep_view()))),
    )
}

/// The line of a project.
pub open spec fn project_line(name: Seq<char>, p: ProjectConfig) -> Seq<char> {
    padded(name, 20) + " "@ + p.base_url.text@ + "  [auth: "@ + (match auth_name(p.auth) {
        Some(kind) => kind,
        None => "none"@,
    }) + "]"@
}

pub open spec fn project_rows(projects: Seq<(Seq<char>, ProjectConfig)>) -> Seq<Json> {
    Seq::new(projects.len(), |i: int| project_row(projects[i].0, projects[i].1))
}

pub open spec fn project_briefs(projects: Seq<(Seq<char>, ProjectConfig)>) -> Seq<Json> {
    Seq::new(projects.len(), |i: int| Json::Object(project_members(projects[i].0, projects[i].1)))
}

pub open spec fn project_lines(projects: Seq<(Seq<char>, ProjectConfig)>) -> Seq<Seq<char>> {
    Seq::new(projects.len(), |i: int| project_line(projects[i].0, projects[i].1))
}

/// A text, or null where there is none.
pub fn nullable(text: &Option<String>) -> (r: JsonValue)
    ensures
        r@ == text_or_null(text.deep_view()),
{
    match text {
        Some(s) => JsonValue::Text(s.clone()),
        None => JsonValue::Null,
    }
}

fn brief_of(name: &str, p: &ProjectConfig) -> (r: JsonMap)
    ensures
        r@ == project_members(name@, *p),
{
    let mut map = JsonMap::new();
    map.append_text("name", name);
    map.append_text("base_url", p.base_url.text.as_str());
    let kind = match &p.auth {
        Some(auth) => JsonValue::text(auth.auth_type()),
        None => JsonValue::Null,
    };
    map.append("auth_type", kind);
    assert(map@ =~= project_members(name@, *p));
    map
}

/// The rows of the projects.
pub fn list_projects(config: &ProjectsConfig) -> (r: Vec<JsonValue>)
    ensures
        list_json(&r) == project_rows(config.projects@),
{
    let ghost all = config.projects@;
    let mut out: Vec<JsonValue> = Vec::new();
    let entries = config.projects.entries();
    for i in 0..entries.len()
        invariant
            all == named_values(entries@),
            out@.len() == i,
            forall|k: int| 0 <= k < i ==> (#[trigger] out@[k])@ == project_rows(all)[k],
    {
        let (name, p) = &entries[i];
        assert(all[i as int] == (name@, *p));
        let mut map = brief_of(name.as_str(), p);
        map.append("spec_file", nullable(&p.spec_file));
        assert(map@ =~= project_row(name@, *p)->Object_0);
        out.push(JsonValue::Object(map));
    }
    assert(list_json(&out) =~= project_rows(all));
    out
}

/// The rows of the projects without their spec files.
pub fn brief_projects(config: &ProjectsConfig) -> (r: Vec<JsonValue>)
    ensures
        list_json(&r) == project_briefs(config.projects@),
{
    let ghost all = config.projects@;
    let mut out: Vec<JsonValue> = Vec::new();
    let entries = config.projects.entries();
    for i in 0..entries.len()
        invariant
            all == named_values(entries@),
            out@.len() == i,
            forall|k: int| 0 <= k < i ==> (#[trigger] out@[k])@ == project_briefs(all)[k],
    {
        let (name, p) = &entries[i];
        assert(all[i as int] == (name@, *p));
        let map = brief_of(name.as_str(), p);
        out.push(JsonValue::Object(map));
    }
    assert(list_json(&out) =~= project_briefs(all));
    out
}

/// The lines of the projects.
pub fn projects_text(config: &ProjectsConfig) -> (r: Vec<String>)
    ensures
        r.deep_view() == project_lines(config.projects@),
{
    let ghost all = config.projects@;
    let mut out: Vec<String> = Vec::new();
    let entries = config.projects.entries();
    for i in 0..entries.len()
        invariant
            all == named_values(entries@),
            out@.len() == i,
            forall|k: int| 0 <= k < i ==> (#[trigger] out@[k])@ == project_lines(all)[k],
    {
        let (name, p) = &entries[i];
        assert(all[i as int] == (name@, *p));
        let column = pad(name.as_str(), 20);
        let mut line = cat3(column.as_str(), " ", p.base_url.text.as_str());
        line.append("  [auth: ");
        line.append(
            match &p.auth {
                Some(auth) => auth.auth_type(),
                None => "none",
            },
        );
        line.append("]");
        out.push(line);
    }
    assert(out.deep_view() =~= project_lines(all));
    out
}

// ---------------------------------------------------------------- tags

/// The row of a tag.
pub open spec fn tag_row(tag: GroupShape) -> Json {
    Json::Object(
        seq![
            ("name"@, Json::Text(tag.name)),
            ("description"@, text_or_null(tag.description)),
            ("endpoint_count"@, Json::Int(tag.endpoint_ids.len() as int)),
        ],
    )
}

/// The line of a tag.
pub open spec fn tag_line(tag: GroupShape) -> Seq<char> {
    padded(tag.name, 24) + " "@ + padded_left(decimal(tag.endpoint_ids.len()), 3)
        + " endpoints  "@ + (match tag.description {
        Some(text) => text,
        None => Seq::empty(),
    })
}

pub open spec fn tag_rows(tags: Seq<GroupShape>) -> Seq<Json> {
    Seq::new(tags.len(), |i: int| tag_row(tags[i]))
}

pub open spec fn tag_lines(tags: Seq<GroupShape>) -> Seq<Seq<char>> {
    Seq::new(tags.len(), |i: int| tag_line(tags[i]))
}

/// The rows of the tags.
pub fn list_tags(tags: &Vec<TagGroup>) -> (r: Vec<JsonValue>)
    ensures
        list_json(&r) == tag_rows(tags.deep_view()),
{
    let ghost all = tags.deep_view();
    let mut out: Vec<JsonValue> = Vec::new();
    for i in 0..tags.len()
        invariant
            all == tags.deep_view(),
            out@.len() == i,
            forall|k: int| 0 <= k < i ==> (#[trigger] out@[k])@ == tag_rows(all)[k],
    {
        let tag = &tags[i];
        assert(all[i as int] == tag@);
        let mut map = JsonMap::new();
        map.append_text("name", tag.name.as_str());
        map.append("description", nullable(&tag.description));
        map.append("endpoint_count", JsonValue::unsigned(tag.endpoint_ids.len() as u64));
        assert(map@ =~= tag_row(tag@)->Object_0);
        out.push(JsonValue::Object(map));
    }
    assert(list_json(&out) =~= tag_rows(all));
    out
}

/// The lines of the tags.
pub fn tags_text(tags: &Vec<TagGroup>) -> (r: Vec<String>)
    ensures
        r.deep_view() == tag_lines(tags.deep_view()),
{
    let ghost all = tags.deep_view();
    let mut out: Vec<String> = Vec::new();
    for i in 0..tags.len()
        invariant
            all == tags.deep_view(),
            out@.len() == i,
            forall|k: int| 0 <= k < i ==> (#[trigger] out@[k])@ == tag_lines(all)[k],
    {
        let tag = &tags[i];
        assert(all[i as int] == tag@);
        let column = pad(tag.name.as_str(), 24);
        let digits = show(tag.endpoint_ids.len() as u64);
        let count = pad_left(digits.as_str(), 3);
        let mut line = cat3(column.as_str(), " ", count.as_str());
        line.append(" endpoints  ");
        match &tag.description {
            Some(text) => {
                line.append(text.as_str());
            },
            None => {
                assert(line@ + Seq::<char>::empty() =~= line@);
            },
        }
        out.push(line);
    }
    assert(out.deep_view() =~= tag_lines(all));
    out
}

// ---------------------------------------------------------------- endpoints

/// The row of an endpoint.
pub open spec fn endpoint_row(e: EndpointShape) -> Json {
    Json::Object(
        seq![
            ("id"@, Json::Text(e.id)),
            ("method"@, Json::Text(e.method)),
            ("path"@, Json::Text(e.path)),
            ("summary"@, text_or_null(e.summary)),
            ("tags"@, json_texts(e.tags)),
            ("has_body"@, Json::Bool(e.body is Some)),
            ("auth_required"@, Json::Bool(e.auth_required)),
            ("deprecated"@, Json::Bool(e.deprecated)),
        ],
    )
}

/// The line of an endpoint.
pub open spec fn endpoint_line(e: EndpointShape) -> Seq<char> {
    padded(e.method, 7) + " "@ + padded(e.path, 40) + " "@ + (match e.summary {
        Some(text) => text,
        None => e.id,
    }) + (if e.deprecated {
        "  [deprecated]"@
    } else {
        ""@
    })
}

pub open spec fn endpoint_rows(endpoints: Seq<EndpointShape>) -> Seq<Json> {
    Seq::new(endpoints.len(), |i: int| endpoint_row(endpoints[i]))
}

pub open spec fn endpoint_lines(endpoints: Seq<EndpointShape>) -> Seq<Seq<char>> {
    Seq::new(endpoints.len(), |i: int| endpoint_line(endpoints[i]))
}

/// Whether a search text occurs in an endpoint's id, path, or summary,
/// whatever the case of its letters.
pub open spec fn matches_search(e: EndpointShape, search: Seq<char>) -> bool {
    let needle = lower(search);
    ||| contains_text(lower(e.id), needle)
    ||| contains_text(lower(e.path), needle)
    ||| contains_text(
        lower(
            match e.summary {
                Some(text) => text,
                None => ""@,
            },
        ),
        needle,
    )
}

/// Whether an endpoint is listed.
pub open spec fn listed(
    e: EndpointShape,
    ids: Option<Seq<Seq<char>>>,
    search: Option<Seq<char>>,
) -> bool {
    (ids matches Some(ids) ==> ids.contains(e.id)) && (search matches Some(text)
        ==> matches_search(e, text))
}

/// The listed endpoints from position `i` on.
pub open spec fn selection(
    endpoints: Seq<EndpointShape>,
    ids: Option<Seq<Seq<char>>>,
    search: Option<Seq<char>>,
    i: int,
) -> Seq<EndpointShape>
    decreases endpoints.len() - i,
{
    if i < 0 || i >= endpoints.len() {
        Seq::empty()
    } else if listed(endpoints[i], ids, search) {
        seq![endpoints[i]] + selection(endpoints, ids, search, i + 1)
    } else {
        selection(endpoints, ids, search, i + 1)
    }
}

/// The endpoints that a tag and a search text leave.
pub open spec fn selected(
    tags: Seq<GroupShape>,
    endpoints: Seq<EndpointShape>,
    tag: Option<Seq<char>>,
    search: Option<Seq<char>>,
) -> Result<Seq<EndpointShape>, SpecFault> {
    match tag {
        None => Ok(selection(endpoints, None, search, 0)),
        Some(name) => match group_position(tags, name, 0) {
            Some(p) => Ok(selection(endpoints, Some(tags[p].endpoint_ids), search, 0)),
            None => Err(SpecFault::UnknownTag { name, available: group_names(tags) }),
        },
    }
}

fn holds(ids: &Vec<String>, id: &str) -> (r: bool)
    ensures
        r == ids.deep_view().contains(id@),
{
    let ghost all = ids.deep_view();
    for i in 0..ids.len()
        invariant
            all == ids.deep_view(),
            forall|k: int| 0 <= k < i ==> all[k] != id@,
    {
        assert(all[i as int] == ids@[i as int]@);
        if same(ids[i].as_str(), id) {
            return true;
        }
    }
    false
}

/// Whether a search text occurs in an endpoint's id, path, or summary.
pub fn found_in(e: &Endpoint, search: &str) -> (r: bool)
    ensures
        r == matches_search(e@, search@),
{
    let needle = to_lower(search);
    let id = to_lower(e.id.as_str());
    let path = to_lower(e.path.as_str());
    let summary = to_lower(
        match &e.summary {
            Some(text) => text.as_str(),
            None => "",
        },
    );
    contains(id.as_str(), needle.as_str()) || contains(path.as_str(), needle.as_str()) || contains(
        summary.as_str(),
        needle.as_str(),
    )
}

/// The endpoints that a tag and a search text leave.
pub fn select_endpoints<'a>(
    spec: &'a ApiSpec,
    tag: Option<&str>,
    search: Option<&str>,
) -> (r: Result<Vec<&'a Endpoint>, SpecError>)
    ensures
        match r {
            Ok(list) => selected(
                spec@.tags,
                spec@.endpoints,
                tag.deep_view(),
                search.deep_view(),
            ) == Ok::<Seq<EndpointShape>, SpecFault>(list.deep_view()),
            Err(e) => selected(
                spec@.tags,
                spec@.endpoints,
                tag.deep_view(),
                search.deep_view(),
            ) == Err::<Seq<EndpointShape>, SpecFault>(e@),
        },
{
    let group: Option<&TagGroup> = match tag {
        Some(name) => match spec.tag(name) {
            Ok(group) => Some(group),
            Err(e) => {
                return Err(e);
            },
        },
        None => None,
    };
    let ghost all = spec@.endpoints;
    let ghost ids: Option<Seq<Seq<char>>> = match group {
        Some(g) => Some(g@.endpoint_ids),
        None => None,
    };
    let ghost text: Option<Seq<char>> = search.deep_view();
    let mut out: Vec<&'a Endpoint> = Vec::new();
    assert(out.deep_view() + selection(all, ids, text, 0) =~= selection(all, ids, text, 0));
    for i in 0..spec.endpoints.len()
        invariant
            all == spec@.endpoints,
            ids == (match group {
                Some(g) => Some(g@.endpoint_ids),
                None => None,
            }),
            text == search.deep_view(),
            out.deep_view() + selection(all, ids, text, i as int) == selection(all, ids, text, 0),
    {
        let e = &spec.endpoints[i];
        assert(all[i as int] == e@);
        let in_tag = match group {
            Some(g) => holds(&g.endpoint_ids, e.id.as_str()),
            None => true,
        };
        let sought = match search {
            Some(s) => found_in(e, s),
            None => true,
        };
        if in_tag && sought {
            let ghost before = out.deep_view();
            out.push(e);
            assert(out.deep_view() =~= before.push(e@));
            assert(before.push(e@) + selection(all, ids, text, i + 1) =~= before + (seq![e@]
                + selection(all, ids, text, i + 1)));
        }
    }
    assert(out.deep_view() =~= selection(all, ids, text, 0));
    Ok(out)
}

/// The rows of endpoints.
pub fn list_endpoints(endpoints: &Vec<&Endpoint>) -> (r: Vec<JsonValue>)
    ensures
        list_json(&r) == endpoint_rows(endpoints.deep_view()),
{
    let ghost all = endpoints.deep_view();
    let mut out: Vec<JsonValue> = Vec::new();
    for i in 0..endpoints.len()
        invariant
            all == endpoints.deep_view(),
            out@.len() == i,
            forall|k: int| 0 <= k < i ==> (#[trigger] out@[k])@ == endpoint_rows(all)[k],
    {
        let e = endpoints[i];
        assert(all[i as int] == e@);
        let mut map = JsonMap::new();
        map.append_text("id", e.id.as_str());
        map.append_text("method", e.method.as_str());
        map.append_text("path", e.path.as_str());
        map.append("summary", nullable(&e.summary));
        map.append("tags", JsonValue::texts(&e.tags));
        map.append("has_body", JsonValue::Bool(e.body.is_some()));
        map.append("auth_required", JsonValue::Bool(e.auth_required));
        map.append("deprecated", JsonValue::Bool(e.deprecated));
        assert(map@ =~= endpoint_row(e@)->Object_0);
        out.push(JsonValue::Object(map));
    }
    assert(list_json(&out) =~= endpoint_rows(all));
    out
}

/// The lines of endpoints.
pub fn endpoints_text(endpoints: &Vec<&Endpoint>) -> (r: Vec<String>)
    ensures
        r.deep_view() == endpoint_lines(endpoints.deep_view()),
{
    let ghost all = endpoints.deep_view();
    let mut out: Vec<String> = Vec::new();
    for i in 0..endpoints.len()
        invariant
            all == endpoints.deep_view(),
            out@.len() == i,
            forall|k: int| 0 <= k < i ==> (#[trigger] out@[k])@ == endpoint_lines(all)[k],
    {
        let e = endpoints[i];
        assert(all[i as int] == e@);
        let method = pad(e.method.as_str(), 7);
        let path = pad(e.path.as_str(), 40);
        let mut line = cat3(method.as_str(), " ", path.as_str());
        line.append(" ");
        line.append(
            match &e.summary {
                Some(text) => text.as_str(),
                None => e.id.as_str(),
            },
        );
        line.append(
            if e.deprecated {
                "  [deprecated]"
            } else {
                ""
            },
        );
        out.push(line);
    }
    assert(out.deep_view() =~= endpoint_lines(all));
    out
}

// ---------------------------------------------------------------- laws

/// Every endpoint of a listing meets the tag and the search text, and every
/// endpoint of the spec that meets them is in it.
pub proof fn law_selection_is_exact(
    endpoints: Seq<EndpointShape>,
    ids: Option<Seq<Seq<char>>>,
    search: Option<Seq<char>>,
    i: int,
    e: EndpointShape,
)
    requires
        0 <= i,
    ensures
        selection(endpoints, ids, search, i).contains(e) <==> listed(e, ids, search) && exists|
            k: int,
        |
            i <= k < endpoints.len() && #[trigger] endpoints[k] == e,
    decreases endpoints.len() - i,
{
    if i < endpoints.len() {
        law_selection_is_exact(endpoints, ids, search, i + 1, e);
        let here = selection(endpoints, ids, search, i);
        let rest = selection(endpoints, ids, search, i + 1);
        if listed(endpoints[i], ids, search) {
            assert(here == seq![endpoints[i]] + rest);
            if endpoints[i] == e {
                assert(here[0] == e);
            }
            if rest.contains(e) {
                let k = choose|k: int| 0 <= k < rest.len() && rest[k] == e;
                assert(here[k + 1] == e);
            }
            if here.contains(e) {
                let k = choose|k: int| 0 <= k < here.len() && here[k] == e;
                if k > 0 {
                    assert(rest[k - 1] == e);
                }
            }
        }
        if exists|k: int| i <= k < endpoints.len() && #[trigger] endpoints[k] == e {
            let k = choose|k: int| i <= k < endpoints.len() && #[trigger] endpoints[k] == e;
            if k > i {
                assert(i + 1 <= k && endpoints[k] == e);
            }
        }
    }
}

} // verus!
