//! Core domain model: parsed API specs, endpoints, schemas, templates.

pub mod forms;
pub mod laws;
pub mod schema_node;
pub mod template;

pub use schema_node::{Field, OneOfVariant, SchemaNode};
pub use template::{build_template, RequestTemplate, TemplateField};

use crate::error::{SpecError, SpecFault};
use crate::json::{Json, JsonValue};
use crate::lists::lemma_filter_from;
use crate::text::{
    contains, contains_text, lemma_padded, lemma_split_joined, lemma_unpadded, lower, owned, same,
    split_at_first, split_once, to_lower, to_upper, trim, trimmed, unpadded, upper, white_space,
};
use schema_node::{copied, copied_list, copied_value, Schema};
use vstd::prelude::*;

verus! {

/// A fully parsed and normalized API spec for one project.
#[derive(Debug)]
pub struct ApiSpec {
    pub title: String,
    pub version: String,
    /// The raw `openapi` version string, e.g. "3.1.0".
    pub openapi_version: String,
    /// Spec tag order is preserved; endpoints with no tag land in "untagged".
    pub tags: Vec<TagGroup>,
    pub endpoints: Vec<Endpoint>,
}

#[derive(Debug)]
pub struct TagGroup {
    pub name: String,
    pub description: Option<String>,
    pub endpoint_ids: Vec<String>,
}

#[derive(Debug)]
pub struct Endpoint {
    /// The operation id when present, otherwise "METHOD /path".
    pub id: String,
    /// Upper-case HTTP method.
    pub method: String,
    /// Path template with `{param}` placeholders, e.g. "/users/{user_id}".
    pub path: String,
    pub summary: Option<String>,
    pub description: Option<String>,
    pub tags: Vec<String>,
    pub deprecated: bool,
    pub params: Vec<Param>,
    pub body: Option<BodySpec>,
    /// Whether the operation declares an OpenAPI security requirement.
    pub auth_required: bool,
    /// The declared responses, in the order of the spec.
    pub responses: Vec<ResponseSpec>,
}

#[derive(Debug, Clone, Copy, PartialEq, Eq, Structural)]
pub enum ParamLocation {
    Path,
    Query,
    Header,
}

#[derive(Debug)]
pub struct Param {
    pub name: String,
    pub location: ParamLocation,
    pub required: bool,
    pub nullable: bool,
    pub schema: SchemaNode,
    pub default: Option<JsonValue>,
    pub description: Option<String>,
}

#[derive(Debug)]
pub struct BodySpec {
    /// The chosen request content type (application/json preferred).
    pub content_type: String,
    pub schema: SchemaNode,
    pub required: bool,
    /// Whether the whole body may be null.
    pub nullable: bool,
}

/// One declared response of an operation.
#[derive(Debug)]
pub struct ResponseSpec {
    /// The status code, or "default".
    pub status: String,
    pub description: Option<String>,
    /// The schema of the JSON content, where the response declares one.
    pub schema: Option<SchemaNode>,
}

// ---------------------------------------------------------------- model

pub struct ApiShape {
    pub title: Seq<char>,
    pub version: Seq<char>,
    pub openapi_version: Seq<char>,
    pub tags: Seq<GroupShape>,
    pub endpoints: Seq<EndpointShape>,
}

pub struct GroupShape {
    pub name: Seq<char>,
    pub description: Option<Seq<char>>,
    pub endpoint_ids: Seq<Seq<char>>,
}

pub struct EndpointShape {
    pub id: Seq<char>,
    pub method: Seq<char>,
    pub path: Seq<char>,
    pub summary: Option<Seq<char>>,
    pub description: Option<Seq<char>>,
    pub tags: Seq<Seq<char>>,
    pub deprecated: bool,
    pub params: Seq<ParamShape>,
    pub body: Option<BodyShape>,
    pub auth_required: bool,
    pub responses: Seq<ResponseShape>,
}

pub struct ParamShape {
    pub name: Seq<char>,
    pub location: ParamLocation,
    pub required: bool,
    pub nullable: bool,
    pub schema: Schema,
    pub default: Option<Json>,
    pub description: Option<Seq<char>>,
}

pub struct BodyShape {
    pub content_type: Seq<char>,
    pub schema: Schema,
    pub required: bool,
    pub nullable: bool,
}

pub struct ResponseShape {
    pub status: Seq<char>,
    pub description: Option<Seq<char>>,
    pub schema: Option<Schema>,
}

impl View for ApiSpec {
    type V = ApiShape;

    open spec fn view(&self) -> ApiShape {
        ApiShape {
            title: self.title@,
            version: self.version@,
            openapi_version: self.openapi_version@,
            tags: self.tags.deep_view(),
            endpoints: self.endpoints.deep_view(),
        }
    }
}

impl DeepView for ApiSpec {
    type V = ApiShape;

    open spec fn deep_view(&self) -> ApiShape {
        self.view()
    }
}

impl View for TagGroup {
    type V = GroupShape;

    open spec fn view(&self) -> GroupShape {
        GroupShape {
            name: self.name@,
            description: self.description.deep_view(),
            endpoint_ids: self.endpoint_ids.deep_view(),
        }
    }
}

impl DeepView for TagGroup {
    type V = GroupShape;

    open spec fn deep_view(&self) -> GroupShape {
        self.view()
    }
}

impl View for Endpoint {
    type V = EndpointShape;

    open spec fn view(&self) -> EndpointShape {
        EndpointShape {
            id: self.id@,
            method: self.method@,
            path: self.path@,
            summary: self.summary.deep_view(),
            description: self.description.deep_view(),
            tags: self.tags.deep_view(),
            deprecated: self.deprecated,
            params: self.params.deep_view(),
            body: self.body.deep_view(),
            auth_required: self.auth_required,
            responses: self.responses.deep_view(),
        }
    }
}

impl DeepView for Endpoint {
    type V = EndpointShape;

    open spec fn deep_view(&self) -> EndpointShape {
        self.view()
    }
}

impl View for Param {
    type V = ParamShape;

    open spec fn view(&self) -> ParamShape {
        ParamShape {
            name: self.name@,
            location: self.location,
            required: self.required,
            nullable: self.nullable,
            schema: self.schema@,
            default: self.default.deep_view(),
            description: self.description.deep_view(),
        }
    }
}

impl DeepView for Param {
    type V = ParamShape;

    open spec fn deep_view(&self) -> ParamShape {
        self.view()
    }
}

impl View for BodySpec {
    type V = BodyShape;

    open spec fn view(&self) -> BodyShape {
        BodyShape {
            content_type: self.content_type@,
            schema: self.schema@,
            required: self.required,
            nullable: self.nullable,
        }
    }
}

impl DeepView for BodySpec {
    type V = BodyShape;

    open spec fn deep_view(&self) -> BodyShape {
        self.view()
    }
}

impl View for ResponseSpec {
    type V = ResponseShape;

    open spec fn view(&self) -> ResponseShape {
        ResponseShape {
            status: self.status@,
            description: self.description.deep_view(),
            schema: self.schema.deep_view(),
        }
    }
}

impl DeepView for ResponseSpec {
    type V = ResponseShape;

    open spec fn deep_view(&self) -> ResponseShape {
        self.view()
    }
}

// ---------------------------------------------------------------- copies

impl Clone for Param {
    fn clone(&self) -> (r: Param)
        ensures
            r@ == self@,
    {
        Param {
            name: self.name.clone(),
            location: self.location,
            required: self.required,
            nullable: self.nullable,
            schema: self.schema.clone(),
            default: copied_value(&self.default),
            description: copied(&self.description),
        }
    }
}

impl Clone for BodySpec {
    fn clone(&self) -> (r: BodySpec)
        ensures
            r@ == self@,
    {
        BodySpec {
            content_type: self.content_type.clone(),
            schema: self.schema.clone(),
            required: self.required,
            nullable: self.nullable,
        }
    }
}

impl Clone for ResponseSpec {
    fn clone(&self) -> (r: ResponseSpec)
        ensures
            r@ == self@,
    {
        ResponseSpec {
            status: self.status.clone(),
            description: copied(&self.description),
            schema: match &self.schema {
                Some(schema) => Some(schema.clone()),
                None => None,
            },
        }
    }
}

fn copied_params(params: &Vec<Param>) -> (r: Vec<Param>)
    ensures
        r.deep_view() == params.deep_view(),
{
    let mut out: Vec<Param> = Vec::new();
    for i in 0..params.len()
        invariant
            out@.len() == i,
            forall|k: int| 0 <= k < i ==> (#[trigger] out@[k])@ == params@[k]@,
    {
        out.push(params[i].clone());
    }
    assert(out.deep_view() =~= params.deep_view());
    out
}

fn copied_responses(responses: &Vec<ResponseSpec>) -> (r: Vec<ResponseSpec>)
    ensures
        r.deep_view() == responses.deep_view(),
{
    let mut out: Vec<ResponseSpec> = Vec::new();
    for i in 0..responses.len()
        invariant
            out@.len() == i,
            forall|k: int| 0 <= k < i ==> (#[trigger] out@[k])@ == responses@[k]@,
    {
        out.push(responses[i].clone());
    }
    assert(out.deep_view() =~= responses.deep_view());
    out
}

impl Clone for Endpoint {
    fn clone(&self) -> (r: Endpoint)
        ensures
            r@ == self@,
    {
        Endpoint {
            id: self.id.clone(),
            method: self.method.clone(),
            path: self.path.clone(),
            summary: copied(&self.summary),
            description: copied(&self.description),
            tags: copied_list(&self.tags),
            deprecated: self.deprecated,
            params: copied_params(&self.params),
            body: match &self.body {
                Some(body) => Some(body.clone()),
                None => None,
            },
            auth_required: self.auth_required,
            responses: copied_responses(&self.responses),
        }
    }
}

// ---------------------------------------------------------------- lookup

/// Position of the first endpoint with the given id at or after `i`.
pub open spec fn id_position(endpoints: Seq<EndpointShape>, id: Seq<char>, i: int) -> Option<int>
    decreases endpoints.len() - i,
{
    if i < 0 || i >= endpoints.len() {
        None
    } else if endpoints[i].id == id {
        Some(i)
    } else {
        id_position(endpoints, id, i + 1)
    }
}

/// Position of the first endpoint with the given method and path at or after `i`.
pub open spec fn route_position(
    endpoints: Seq<EndpointShape>,
    method: Seq<char>,
    path: Seq<char>,
    i: int,
) -> Option<int>
    decreases endpoints.len() - i,
{
    if i < 0 || i >= endpoints.len() {
        None
    } else if endpoints[i].method == method && endpoints[i].path == path {
        Some(i)
    } else {
        route_position(endpoints, method, path, i + 1)
    }
}

/// Whether the id or the path of an endpoint holds `needle`, whatever the case.
pub open spec fn resembles(endpoint: EndpointShape, needle: Seq<char>) -> bool {
    contains_text(lower(endpoint.id), needle) || contains_text(lower(endpoint.path), needle)
}

/// The ids of the endpoints from position `i` on that resemble `needle`.
pub open spec fn similar_ids(
    endpoints: Seq<EndpointShape>,
    needle: Seq<char>,
    i: int,
) -> Seq<Seq<char>>
    decreases endpoints.len() - i,
{
    if i < 0 || i >= endpoints.len() {
        Seq::empty()
    } else if resembles(endpoints[i], needle) {
        seq![endpoints[i].id] + similar_ids(endpoints, needle, i + 1)
    } else {
        similar_ids(endpoints, needle, i + 1)
    }
}

/// At most the first `n` items.
pub open spec fn at_most<T>(items: Seq<T>, n: nat) -> Seq<T> {
    if items.len() > n {
        items.take(n as int)
    } else {
        items
    }
}

/// How many endpoints are suggested for an unknown name.
pub const MAX_SUGGESTIONS: usize = 5;

/// The endpoint that a "METHOD /path" key denotes.
pub open spec fn route_of(endpoints: Seq<EndpointShape>, key: Seq<char>) -> Option<int> {
    match split_at_first(key, ' ') {
        Some((method, path)) => route_position(endpoints, upper(method), trimmed(path), 0),
        None => None,
    }
}

/// The endpoint that a key denotes: by id, else by method and path.
pub open spec fn sought(
    endpoints: Seq<EndpointShape>,
    key: Seq<char>,
) -> Result<EndpointShape, SpecFault> {
    match id_position(endpoints, trimmed(key), 0) {
        Some(i) => Ok(endpoints[i]),
        None => match route_of(endpoints, trimmed(key)) {
            Some(i) => Ok(endpoints[i]),
            None => Err(
                SpecFault::UnknownEndpoint {
                    name: trimmed(key),
                    suggestions: at_most(
                        similar_ids(endpoints, lower(trimmed(key)), 0),
                        MAX_SUGGESTIONS as nat,
                    ),
                },
            ),
        },
    }
}

/// Position of the first group with the given name at or after `i`.
pub open spec fn group_position(groups: Seq<GroupShape>, name: Seq<char>, i: int) -> Option<int>
    decreases groups.len() - i,
{
    if i < 0 || i >= groups.len() {
        None
    } else if groups[i].name == name {
        Some(i)
    } else {
        group_position(groups, name, i + 1)
    }
}

pub open spec fn group_names(groups: Seq<GroupShape>) -> Seq<Seq<char>> {
    Seq::new(groups.len(), |i: int| groups[i].name)
}

/// The endpoints with the given ids from position `i` on; ids without an
/// endpoint are passed over.
pub open spec fn endpoints_with_ids(
    endpoints: Seq<EndpointShape>,
    ids: Seq<Seq<char>>,
    i: int,
) -> Seq<EndpointShape>
    decreases ids.len() - i,
{
    if i < 0 || i >= ids.len() {
        Seq::empty()
    } else {
        match id_position(endpoints, ids[i], 0) {
            Some(p) => seq![endpoints[p]] + endpoints_with_ids(endpoints, ids, i + 1),
            None => endpoints_with_ids(endpoints, ids, i + 1),
        }
    }
}

/// The parameters from position `i` on that are sent in `location`.
pub open spec fn params_at(
    params: Seq<ParamShape>,
    location: ParamLocation,
    i: int,
) -> Seq<ParamShape>
    decreases params.len() - i,
{
    if i < 0 || i >= params.len() {
        Seq::empty()
    } else if params[i].location == location {
        seq![params[i]] + params_at(params, location, i + 1)
    } else {
        params_at(params, location, i + 1)
    }
}

// ---------------------------------------------------------------- lookups

impl ApiSpec {
    fn position_of(&self, id: &str) -> (r: Option<usize>)
        ensures
            match r {
                Some(i) => i < self.endpoints@.len() && id_position(self@.endpoints, id@, 0)
                    == Some(i as int),
                None => id_position(self@.endpoints, id@, 0) is None,
            },
    {
        let ghost all = self@.endpoints;
        let mut i: usize = 0;
        while i < self.endpoints.len()
            invariant
                all == self@.endpoints,
                i <= self.endpoints@.len(),
                id_position(all, id@, 0) == id_position(all, id@, i as int),
            decreases self.endpoints@.len() - i,
        {
            assert(all[i as int] == self.endpoints@[i as int]@);
            if same(self.endpoints[i].id.as_str(), id) {
                return Some(i);
            }
            i += 1;
        }
        None
    }

    fn route(&self, key: &str) -> (r: Option<usize>)
        ensures
            match r {
                Some(i) => i < self.endpoints@.len() && route_of(self@.endpoints, key@) == Some(
                    i as int,
                ),
                None => route_of(self@.endpoints, key@) is None,
            },
    {
        let (method, path) = match split_once(key, ' ') {
            Some((method, path)) => (to_upper(method.as_str()), trim(path.as_str())),
            None => {
                return None;
            },
        };
        let ghost all = self@.endpoints;
        let mut i: usize = 0;
        while i < self.endpoints.len()
            invariant
                all == self@.endpoints,
                i <= self.endpoints@.len(),
                route_of(all, key@) == route_position(all, method@, path@, i as int),
            decreases self.endpoints@.len() - i,
        {
            assert(all[i as int] == self.endpoints@[i as int]@);
            if same(self.endpoints[i].method.as_str(), method.as_str()) && same(
                self.endpoints[i].path.as_str(),
                path.as_str(),
            ) {
                return Some(i);
            }
            i += 1;
        }
        None
    }

    fn similar(&self, needle: &str) -> (r: Vec<String>)
        ensures
            r.deep_view() == similar_ids(self@.endpoints, needle@, 0),
    {
        let ghost all = self@.endpoints;
        let mut out: Vec<String> = Vec::new();
        assert(out.deep_view() + similar_ids(all, needle@, 0) =~= similar_ids(all, needle@, 0));
        for i in 0..self.endpoints.len()
            invariant
                all == self@.endpoints,
                out.deep_view() + similar_ids(all, needle@, i as int) == similar_ids(
                    all,
                    needle@,
                    0,
                ),
        {
            let ghost before = out.deep_view();
            assert(all[i as int] == self.endpoints@[i as int]@);
            let id = to_lower(self.endpoints[i].id.as_str());
            let path = to_lower(self.endpoints[i].path.as_str());
            if contains(id.as_str(), needle) || contains(path.as_str(), needle) {
                out.push(self.endpoints[i].id.clone());
                assert(out.deep_view() =~= before.push(all[i as int].id));
                assert(before.push(all[i as int].id) + similar_ids(all, needle@, i + 1) =~= before
                    + (seq![all[i as int].id] + similar_ids(all, needle@, i + 1)));
            }
        }
        assert(out.deep_view() =~= similar_ids(all, needle@, 0));
        out
    }

    /// Looks up an endpoint by operation id or "METHOD /path" (the method in
    /// either case). On failure, names close-ish suggestions.
    pub fn find_endpoint(&self, key: &str) -> (r: Result<&Endpoint, SpecError>)
        ensures
            match r {
                Ok(endpoint) => sought(self@.endpoints, key@) == Ok::<EndpointShape, SpecFault>(
                    endpoint@,
                ),
                Err(e) => sought(self@.endpoints, key@) == Err::<EndpointShape, SpecFault>(e@),
            },
    {
        let normalized = trim(key);
        if let Some(i) = self.position_of(normalized.as_str()) {
            return Ok(&self.endpoints[i]);
        }
        if let Some(i) = self.route(normalized.as_str()) {
            return Ok(&self.endpoints[i]);
        }
        let needle = to_lower(normalized.as_str());
        let mut suggestions = self.similar(needle.as_str());
        let ghost all = suggestions.deep_view();
        if suggestions.len() > MAX_SUGGESTIONS {
            suggestions.truncate(MAX_SUGGESTIONS);
        }
        assert(suggestions.deep_view() =~= at_most(all, MAX_SUGGESTIONS as nat));
        Err(SpecError::UnknownEndpoint { name: normalized, suggestions })
    }

    /// The tag group with the given name.
    pub fn tag(&self, name: &str) -> (r: Result<&TagGroup, SpecError>)
        ensures
            match r {
                Ok(group) => match group_position(self@.tags, name@, 0) {
                    Some(i) => group@ == self@.tags[i],
                    None => false,
                },
                Err(e) => group_position(self@.tags, name@, 0) is None && e@
                    == (SpecFault::UnknownTag {
                    name: name@,
                    available: group_names(self@.tags),
                }),
            },
    {
        let ghost all = self@.tags;
        let mut available: Vec<String> = Vec::new();
        for i in 0..self.tags.len()
            invariant
                all == self@.tags,
                group_position(all, name@, 0) == group_position(all, name@, i as int),
                available@.len() == i,
                forall|k: int| 0 <= k < i ==> (#[trigger] available@[k])@ == all[k].name,
        {
            assert(all[i as int] == self.tags@[i as int]@);
            if same(self.tags[i].name.as_str(), name) {
                return Ok(&self.tags[i]);
            }
            available.push(self.tags[i].name.clone());
        }
        assert(available.deep_view() =~= group_names(all));
        Err(SpecError::UnknownTag { name: owned(name), available })
    }

    /// The endpoints of a tag group, in the group's order.
    pub fn endpoints_for_tag<'a>(&'a self, tag: &TagGroup) -> (r: Vec<&'a Endpoint>)
        ensures
            r.deep_view() == endpoints_with_ids(self@.endpoints, tag@.endpoint_ids, 0),
    {
        let ghost all = self@.endpoints;
        let ghost ids = tag@.endpoint_ids;
        let mut out: Vec<&'a Endpoint> = Vec::new();
        assert(out.deep_view() + endpoints_with_ids(all, ids, 0) =~= endpoints_with_ids(
            all,
            ids,
            0,
        ));
        for i in 0..tag.endpoint_ids.len()
            invariant
                all == self@.endpoints,
                ids == tag@.endpoint_ids,
                out.deep_view() + endpoints_with_ids(all, ids, i as int) == endpoints_with_ids(
                    all,
                    ids,
                    0,
                ),
        {
            let ghost before = out.deep_view();
            assert(ids[i as int] == tag.endpoint_ids@[i as int]@);
            match self.position_of(tag.endpoint_ids[i].as_str()) {
                Some(p) => {
                    out.push(&self.endpoints[p]);
                    assert(all[p as int] == self.endpoints@[p as int]@);
                    assert(out.deep_view() =~= before.push(all[p as int]));
                    assert(before.push(all[p as int]) + endpoints_with_ids(all, ids, i + 1)
                        =~= before + (seq![all[p as int]] + endpoints_with_ids(all, ids, i + 1)));
                },
                None => {},
            }
        }
        assert(out.deep_view() =~= endpoints_with_ids(all, ids, 0));
        out
    }
}

impl Endpoint {
    /// The parameters sent in `location`, in declaration order.
    pub fn params_in(&self, location: ParamLocation) -> (r: Vec<&Param>)
        ensures
            r.deep_view() == params_at(self@.params, location, 0),
    {
        let ghost all = self@.params;
        let mut out: Vec<&Param> = Vec::new();
        assert(out.deep_view() + params_at(all, location, 0) =~= params_at(all, location, 0));
        for i in 0..self.params.len()
            invariant
                all == self@.params,
                out.deep_view() + params_at(all, location, i as int) == params_at(
                    all,
                    location,
                    0,
                ),
        {
            let ghost before = out.deep_view();
            assert(all[i as int] == self.params@[i as int]@);
            if self.params[i].location == location {
                out.push(&self.params[i]);
                assert(out.deep_view() =~= before.push(all[i as int]));
                assert(before.push(all[i as int]) + params_at(all, location, i + 1) =~= before + (
                seq![all[i as int]] + params_at(all, location, i + 1)));
            }
        }
        assert(out.deep_view() =~= params_at(all, location, 0));
        out
    }
}

// ---------------------------------------------------------------- laws

proof fn lemma_id_position(endpoints: Seq<EndpointShape>, id: Seq<char>, i: int)
    requires
        0 <= i,
    ensures
        match id_position(endpoints, id, i) {
            Some(p) => i <= p < endpoints.len() && endpoints[p].id == id,
            None => forall|k: int| i <= k < endpoints.len() ==> (#[trigger] endpoints[k]).id != id,
        },
    decreases endpoints.len() - i,
{
    if i < endpoints.len() && endpoints[i].id != id {
        lemma_id_position(endpoints, id, i + 1);
    }
}

proof fn lemma_route_position(
    endpoints: Seq<EndpointShape>,
    method: Seq<char>,
    path: Seq<char>,
    i: int,
)
    requires
        0 <= i,
    ensures
        match route_position(endpoints, method, path, i) {
            Some(p) => i <= p < endpoints.len() && endpoints[p].method == method
                && endpoints[p].path == path,
            None => forall|k: int|
                i <= k < endpoints.len() ==> !((#[trigger] endpoints[k]).method == method
                    && endpoints[k].path == path),
        },
    decreases endpoints.len() - i,
{
    if i < endpoints.len() && !(endpoints[i].method == method && endpoints[i].path == path) {
        lemma_route_position(endpoints, method, path, i + 1);
    }
}

/// Whatever is found has the id that was asked for, or the method and path
/// that the key spells out; nothing is found only where no endpoint has them,
/// and then at most five ids are suggested, each of a resembling endpoint.
pub proof fn law_found_endpoint_matches(endpoints: Seq<EndpointShape>, key: Seq<char>)
    ensures
        match sought(endpoints, key) {
            Ok(endpoint) => endpoint.id == trimmed(key) || (split_at_first(
                trimmed(key),
                ' ',
            ) matches Some((method, path)) && endpoint.method == upper(method) && endpoint.path
                == trimmed(path)),
            Err(SpecFault::UnknownEndpoint { name, suggestions }) => {
                &&& name == trimmed(key)
                &&& suggestions.len() <= MAX_SUGGESTIONS
                &&& forall|k: int|
                    0 <= k < endpoints.len() ==> (#[trigger] endpoints[k]).id != trimmed(key)
            },
            Err(_) => false,
        },
{
    lemma_id_position(endpoints, trimmed(key), 0);
    match split_at_first(trimmed(key), ' ') {
        Some((method, path)) => {
            lemma_route_position(endpoints, upper(method), trimmed(path), 0);
        },
        None => {},
    }
}

proof fn lemma_id_is(endpoints: Seq<EndpointShape>, id: Seq<char>, i: int, at: int)
    requires
        0 <= i <= at < endpoints.len(),
        endpoints[at].id == id,
        forall|k: int| i <= k < at ==> (#[trigger] endpoints[k]).id != id,
    ensures
        id_position(endpoints, id, i) == Some(at),
    decreases at - i,
{
    if i < at {
        assert(endpoints[i].id != id);
        lemma_id_is(endpoints, id, i + 1, at);
    }
}

proof fn lemma_route_is(
    endpoints: Seq<EndpointShape>,
    method: Seq<char>,
    path: Seq<char>,
    i: int,
    at: int,
)
    requires
        0 <= i <= at < endpoints.len(),
        endpoints[at].method == method,
        endpoints[at].path == path,
        forall|k: int|
            i <= k < at ==> (#[trigger] endpoints[k]).method != method || endpoints[k].path != path,
    ensures
        route_position(endpoints, method, path, i) == Some(at),
    decreases at - i,
{
    if i < at {
        assert(endpoints[i].method != method || endpoints[i].path != path);
        lemma_route_is(endpoints, method, path, i + 1, at);
    }
}

/// White space around a key makes no difference to what it denotes.
pub proof fn law_padding_is_ignored(
    endpoints: Seq<EndpointShape>,
    key: Seq<char>,
    before: char,
    behind: char,
)
    requires
        white_space(before),
        white_space(behind),
    ensures
        sought(endpoints, seq![before] + key + seq![behind]) == sought(endpoints, key),
{
    lemma_padded(key, before, behind);
}

/// An endpoint is found under its id; of several with one id, the first.
pub proof fn law_id_is_found(endpoints: Seq<EndpointShape>, at: int)
    requires
        0 <= at < endpoints.len(),
        unpadded(endpoints[at].id),
        forall|k: int| 0 <= k < at ==> (#[trigger] endpoints[k]).id != endpoints[at].id,
    ensures
        sought(endpoints, endpoints[at].id) == Ok::<EndpointShape, SpecFault>(endpoints[at]),
        sought(endpoints, " "@ + endpoints[at].id + " "@) == Ok::<EndpointShape, SpecFault>(
            endpoints[at],
        ),
{
    let id = endpoints[at].id;
    lemma_unpadded(id);
    lemma_id_is(endpoints, id, 0, at);
    reveal_strlit(" ");
    assert(" "@ =~= seq![' ']);
    law_padding_is_ignored(endpoints, id, ' ', ' ');
}

/// An endpoint is found under its method, in whatever case, and its path, where
/// no id is spelled that way; of several with one route, the first.
pub proof fn law_route_is_found(endpoints: Seq<EndpointShape>, at: int, method: Seq<char>)
    requires
        0 <= at < endpoints.len(),
        endpoints[at].path.len() > 0,
        unpadded(endpoints[at].path),
        method.len() > 0,
        forall|k: int| 0 <= k < method.len() ==> !white_space(#[trigger] method[k]),
        upper(method) == endpoints[at].method,
        forall|k: int|
            0 <= k < at ==> (#[trigger] endpoints[k]).method != endpoints[at].method
                || endpoints[k].path != endpoints[at].path,
        forall|k: int|
            0 <= k < endpoints.len() ==> (#[trigger] endpoints[k]).id != method + " "@
                + endpoints[at].path,
    ensures
        sought(endpoints, method + " "@ + endpoints[at].path) == Ok::<EndpointShape, SpecFault>(
            endpoints[at],
        ),
{
    let path = endpoints[at].path;
    let key = method + " "@ + path;
    reveal_strlit(" ");
    assert(" "@ =~= seq![' ']);
    assert(key[0] == method[0]);
    assert(key.last() == path.last());
    lemma_unpadded(key);
    lemma_unpadded(path);
    lemma_id_position(endpoints, key, 0);
    assert forall|k: int| 0 <= k < method.len() implies #[trigger] method[k] != ' ' by {
        assert(!white_space(method[k]));
    }
    lemma_split_joined(method, ' ', path);
    lemma_route_is(endpoints, upper(method), path, 0, at);
}

/// The parameter is sent in the place.
pub open spec fn located(location: ParamLocation) -> spec_fn(ParamShape) -> bool {
    |param: ParamShape| param.location == location
}

/// The parameters of a location are those that are sent there, no more and no
/// fewer, in declaration order.
pub proof fn law_params_of_a_location(params: Seq<ParamShape>, location: ParamLocation)
    ensures
        params_at(params, location, 0) == params.filter(located(location)),
{
    lemma_params_from(params, location, 0);
    assert(params.skip(0) =~= params);
}

proof fn lemma_params_from(params: Seq<ParamShape>, location: ParamLocation, i: int)
    requires
        0 <= i <= params.len(),
    ensures
        params_at(params, location, i) == params.skip(i).filter(located(location)),
    decreases params.len() - i,
{
    lemma_filter_from(params, i, located(location));
    if i < params.len() {
        lemma_params_from(params, location, i + 1);
        assert(Seq::<ParamShape>::empty() + params_at(params, location, i + 1) =~= params_at(
            params,
            location,
            i + 1,
        ));
    }
}

} // verus!
