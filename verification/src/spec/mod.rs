//! From a raw OpenAPI document to the normalized `ApiSpec` domain model.

pub mod adapter;
pub mod endpoints;
pub mod groups;
pub mod keywords;
pub mod laws;
pub mod load;
pub mod normalize;
pub mod raw;
pub mod resolve;
pub mod sources;

use crate::error::{SpecError, SpecFault};
use crate::json::{
    lemma_position_bounds, lookup, position_from, Json, JsonMap, JsonValue,
};
use crate::model::schema_node::{copied, copied_list, Schema, SchemaNode};
use crate::model::{
    group_position, ApiShape, ApiSpec, BodyShape, BodySpec, Endpoint, EndpointShape, GroupShape,
    Param, ParamLocation, ParamShape, ResponseShape, ResponseSpec, TagGroup,
};
use crate::text::{cat3, contains, contains_text, occurs_at, owned, same, upper, white_space};
use normalize::{either, normalize, normalized, plain, Normalized, NormalizedShape};
use raw::{
    declared, fault, methods, parameter_of, spec_of, RawOperation, RawOperationShape, RawParameter,
    RawPathItem, RawPathShape, RawSpec, RawSpecShape, RawTagDecl, RawTagShape, Shape,
};
use resolve::{deref, dereferenced, MAX_HOPS};
use vstd::prelude::*;

verus! {

/// The message for a document without paths.
pub const NO_PATHS: &'static str = "document has no 'paths' object — is this an OpenAPI spec?";

// ---------------------------------------------------------------- model

/// What a node stands for once its references are followed.
pub open spec fn resolved(doc: Json, node: Json) -> Json {
    dereferenced(doc, node, MAX_HOPS as nat, None).0
}

pub open spec fn location_of(name: Seq<char>) -> Option<ParamLocation> {
    if name == "path"@ {
        Some(ParamLocation::Path)
    } else if name == "query"@ {
        Some(ParamLocation::Query)
    } else if name == "header"@ {
        Some(ParamLocation::Header)
    } else {
        None
    }
}

/// An optional schema; without one anything goes.
pub open spec fn normalized_or_any(doc: Json, schema: Option<Json>) -> NormalizedShape {
    match schema {
        Some(s) => normalized(doc, s),
        None => plain(Schema::Any),
    }
}

/// The parameter that a raw parameter describes; none where it cannot be read
/// or is sent in a place that is not supported.
pub open spec fn param_of(doc: Json, value: Json) -> Option<ParamShape> {
    let node = resolved(doc, value);
    let raw = parameter_of(node);
    if fault(Shape::Parameter, node) is Some {
        None
    } else {
        match location_of(raw.location) {
            Some(location) => {
                let schema = normalized_or_any(doc, raw.schema);
                Some(
                    ParamShape {
                        name: raw.name,
                        location,
                        // Path params are always required.
                        required: raw.required || location == ParamLocation::Path,
                        nullable: schema.nullable,
                        schema: schema.node,
                        default: schema.default,
                        description: either(raw.description, schema.description),
                    },
                )
            },
            None => None,
        }
    }
}

/// The parameters that the raw parameters from position `i` on describe.
pub open spec fn params_of(doc: Json, values: Seq<Json>, i: int) -> Seq<ParamShape>
    decreases values.len() - i,
{
    if i < 0 || i >= values.len() {
        Seq::empty()
    } else {
        match param_of(doc, values[i]) {
            Some(param) => seq![param] + params_of(doc, values, i + 1),
            None => params_of(doc, values, i + 1),
        }
    }
}

/// Position of the first member at or after `i` whose name mentions JSON.
pub open spec fn json_position(content: Seq<(Seq<char>, Json)>, i: int) -> Option<int>
    decreases content.len() - i,
{
    if i < 0 || i >= content.len() {
        None
    } else if contains_text(content[i].0, "json"@) {
        Some(i)
    } else {
        json_position(content, i + 1)
    }
}

/// The request content that can be driven: JSON preferred, then form variants,
/// then anything that mentions JSON.
pub open spec fn chosen_content(content: Seq<(Seq<char>, Json)>) -> Option<int> {
    if position_from(content, "application/json"@, 0) is Some {
        position_from(content, "application/json"@, 0)
    } else if position_from(content, "application/x-www-form-urlencoded"@, 0) is Some {
        position_from(content, "application/x-www-form-urlencoded"@, 0)
    } else if position_from(content, "multipart/form-data"@, 0) is Some {
        position_from(content, "multipart/form-data"@, 0)
    } else {
        json_position(content, 0)
    }
}

/// The request body of an endpoint. One with only unsupported content degrades
/// to JSON of any schema.
pub open spec fn body_of(doc: Json, request_body: Json) -> Option<BodyShape> {
    let node = resolved(doc, request_body);
    match node.member("content"@) {
        Some(Json::Object(content)) => match chosen_content(content) {
            Some(i) => Some(
                BodyShape {
                    content_type: content[i].0,
                    schema: normalized_or_any(doc, content[i].1.member("schema"@)).node,
                    required: node.member("required"@) == Some(Json::Bool(true)),
                    nullable: normalized_or_any(doc, content[i].1.member("schema"@)).nullable,
                },
            ),
            None => if content.len() > 0 {
                Some(
                    BodyShape {
                        content_type: "application/json"@,
                        schema: Schema::Any,
                        required: node.member("required"@) == Some(Json::Bool(true)),
                        nullable: false,
                    },
                )
            } else {
                None
            },
        },
        _ => None,
    }
}

/// The JSON content of a response.
pub open spec fn json_content(content: Seq<(Seq<char>, Json)>) -> Option<Json> {
    match lookup(content, "application/json"@) {
        Some(media) => Some(media),
        None => match json_position(content, 0) {
            Some(i) => Some(content[i].1),
            None => None,
        },
    }
}

pub open spec fn response_of(doc: Json, status: Seq<char>, response: Json) -> ResponseShape {
    let node = resolved(doc, response);
    let media = match node.member("content"@) {
        Some(Json::Object(content)) => json_content(content),
        _ => None,
    };
    let schema = match media {
        Some(media) => media.member("schema"@),
        None => None,
    };
    ResponseShape {
        status,
        description: match node.member("description"@) {
            Some(Json::Text(s)) => Some(s),
            _ => None,
        },
        schema: match schema {
            Some(s) => Some(normalized(doc, s).node),
            None => None,
        },
    }
}

pub open spec fn responses_of(doc: Json, responses: Seq<(Seq<char>, Json)>) -> Seq<ResponseShape> {
    Seq::new(responses.len(), |i: int| response_of(doc, responses[i].0, responses[i].1))
}

pub open spec fn endpoint_of(
    doc: Json,
    secured: bool,
    path: Seq<char>,
    shared: Seq<Json>,
    method: Seq<char>,
    op: RawOperationShape,
) -> EndpointShape {
    EndpointShape {
        id: match op.operation_id {
            Some(id) => id,
            None => method + " "@ + path,
        },
        method,
        path,
        summary: op.summary,
        description: op.description,
        tags: op.tags,
        deprecated: op.deprecated,
        params: params_of(doc, shared, 0) + params_of(doc, op.parameters, 0),
        body: match op.request_body {
            Some(body) => body_of(doc, body),
            None => None,
        },
        auth_required: match op.security {
            Some(requirements) => requirements.len() > 0,
            None => secured,
        },
        responses: responses_of(doc, op.responses),
    }
}

/// The endpoints of one path item from its operation `i` on.
pub open spec fn item_endpoints(
    doc: Json,
    secured: bool,
    path: Seq<char>,
    item: RawPathShape,
) -> Seq<EndpointShape> {
    let ops = declared(item.operations, 0);
    Seq::new(
        ops.len(),
        |i: int| endpoint_of(doc, secured, path, item.parameters, ops[i].0, ops[i].1),
    )
}

/// The endpoints of the path items from position `i` on.
pub open spec fn endpoints_of(
    doc: Json,
    secured: bool,
    paths: Seq<(Seq<char>, RawPathShape)>,
    i: int,
) -> Seq<EndpointShape>
    decreases paths.len() - i,
{
    if i < 0 || i >= paths.len() {
        Seq::empty()
    } else {
        item_endpoints(doc, secured, paths[i].0, paths[i].1) + endpoints_of(
            doc,
            secured,
            paths,
            i + 1,
        )
    }
}

/// The groups after filing an endpoint under a tag.
pub open spec fn filed(
    groups: Seq<GroupShape>,
    tag: Seq<char>,
    id: Seq<char>,
) -> Seq<GroupShape> {
    match group_position(groups, tag, 0) {
        Some(i) => groups.update(
            i,
            GroupShape { endpoint_ids: groups[i].endpoint_ids.push(id), ..groups[i] },
        ),
        None => groups.push(
            GroupShape { name: tag, description: None, endpoint_ids: seq![id] },
        ),
    }
}

/// The groups after filing an endpoint under its tags from position `j` on.
pub open spec fn filed_under(
    groups: Seq<GroupShape>,
    tags: Seq<Seq<char>>,
    id: Seq<char>,
    j: int,
) -> Seq<GroupShape>
    decreases tags.len() - j,
{
    if j < 0 || j >= tags.len() {
        groups
    } else {
        filed_under(filed(groups, tags[j], id), tags, id, j + 1)
    }
}

/// The groups after filing the endpoints from position `i` on.
pub open spec fn filed_all(
    groups: Seq<GroupShape>,
    endpoints: Seq<EndpointShape>,
    i: int,
) -> Seq<GroupShape>
    decreases endpoints.len() - i,
{
    if i < 0 || i >= endpoints.len() {
        groups
    } else {
        filed_all(
            filed_under(groups, endpoints[i].tags, endpoints[i].id, 0),
            endpoints,
            i + 1,
        )
    }
}

/// The ids of the endpoints without tags from position `i` on.
pub open spec fn untagged_ids(endpoints: Seq<EndpointShape>, i: int) -> Seq<Seq<char>>
    decreases endpoints.len() - i,
{
    if i < 0 || i >= endpoints.len() {
        Seq::empty()
    } else if endpoints[i].tags.len() == 0 {
        seq![endpoints[i].id] + untagged_ids(endpoints, i + 1)
    } else {
        untagged_ids(endpoints, i + 1)
    }
}

/// The groups from position `i` on that hold endpoints.
pub open spec fn inhabited(groups: Seq<GroupShape>, i: int) -> Seq<GroupShape>
    decreases groups.len() - i,
{
    if i < 0 || i >= groups.len() {
        Seq::empty()
    } else if groups[i].endpoint_ids.len() > 0 {
        seq![groups[i]] + inhabited(groups, i + 1)
    } else {
        inhabited(groups, i + 1)
    }
}

/// A group for each declared tag, still without endpoints.
pub open spec fn declared_groups(tags: Seq<RawTagShape>) -> Seq<GroupShape> {
    Seq::new(
        tags.len(),
        |i: int|
            GroupShape {
                name: tags[i].name,
                description: tags[i].description,
                endpoint_ids: Seq::empty(),
            },
    )
}

/// Tag groups: declared order first, then first-seen order from endpoints,
/// with an "untagged" group at the end when needed.
pub open spec fn tag_groups(
    tags: Seq<RawTagShape>,
    endpoints: Seq<EndpointShape>,
) -> Seq<GroupShape> {
    inhabited(filed_all(declared_groups(tags), endpoints, 0), 0) + (if untagged_ids(
        endpoints,
        0,
    ).len() > 0 {
        seq![
            GroupShape {
                name: "untagged"@,
                description: None,
                endpoint_ids: untagged_ids(endpoints, 0),
            },
        ]
    } else {
        Seq::empty()
    })
}

/// The model of a document that was read as `raw`.
pub open spec fn api_of(doc: Json, raw: RawSpecShape) -> ApiShape {
    let secured = match raw.security {
        Some(requirements) => requirements.len() > 0,
        None => false,
    };
    let endpoints = endpoints_of(doc, secured, raw.paths, 0);
    ApiShape {
        title: raw.title,
        version: raw.version,
        openapi_version: raw.openapi,
        tags: tag_groups(raw.tags, endpoints),
        endpoints,
    }
}

/// The model of a document, or why there is none.
pub open spec fn built(doc: Json) -> Result<ApiShape, SpecFault> {
    match fault(Shape::Spec, doc) {
        Some(message) => Err(SpecFault::Parse(message)),
        None => if spec_of(doc).paths.len() == 0 && !(doc.member("paths"@) matches Some(
            Json::Object(_),
        )) {
            Err(SpecFault::Parse(NO_PATHS@))
        } else {
            Ok(api_of(doc, spec_of(doc)))
        },
    }
}

// ---------------------------------------------------------------- building

fn normalize_or_any(document: &JsonValue, schema: Option<&JsonValue>) -> (r: Normalized)
    ensures
        r@ == normalized_or_any(document@, schema.deep_view()),
{
    match schema {
        Some(s) => normalize(document, s),
        None => Normalized::any(),
    }
}

fn build_param(document: &JsonValue, param_value: &JsonValue) -> (r: Option<Param>)
    ensures
        r.deep_view() == param_of(document@, param_value@),
{
    let (node, _) = deref(document, param_value);
    let raw = match RawParameter::read(node) {
        Ok(raw) => raw,
        Err(_) => {
            return None;
        },
    };
    let place = raw.location.as_str();
    let location = if same(place, "path") {
        ParamLocation::Path
    } else if same(place, "query") {
        ParamLocation::Query
    } else if same(place, "header") {
        ParamLocation::Header
    } else {
        // Cookie params are out of scope; auth handles its own headers.
        return None;
    };
    let schema = match &raw.schema {
        Some(s) => normalize(document, s),
        None => Normalized::any(),
    };
    Some(
        Param {
            name: raw.name,
            location,
            // Path params are always required regardless of what the spec says.
            required: raw.required || location == ParamLocation::Path,
            nullable: schema.nullable,
            schema: schema.node,
            default: schema.default,
            description: match raw.description {
                Some(s) => Some(s),
                None => schema.description,
            },
        },
    )
}

/// Appends the parameters that the raw parameters describe.
fn append_params(document: &JsonValue, values: &Vec<JsonValue>, params: &mut Vec<Param>)
    ensures
        final(params).deep_view() == old(params).deep_view() + params_of(
            document@,
            values.deep_view(),
            0,
        ),
{
    let ghost start = params.deep_view();
    let ghost all = values.deep_view();
    for i in 0..values.len()
        invariant
            all == values.deep_view(),
            params.deep_view() + params_of(document@, all, i as int) == start + params_of(
                document@,
                all,
                0,
            ),
    {
        let ghost before = params.deep_view();
        assert(all[i as int] == values@[i as int]@);
        match build_param(document, &values[i]) {
            Some(p) => {
                let ghost added = p@;
                params.push(p);
                assert(params.deep_view() =~= before.push(added));
                assert(before.push(added) + params_of(document@, all, i + 1) =~= before + (seq![
                    added,
                ] + params_of(document@, all, i + 1)));
            },
            None => {},
        }
    }
    assert(params.deep_view() =~= start + params_of(document@, all, 0));
}

/// Position of the first member whose name mentions JSON.
fn json_content_position(content: &JsonMap) -> (r: Option<usize>)
    ensures
        match r {
            Some(i) => i < content@.len() && json_position(content@, 0) == Some(i as int),
            None => json_position(content@, 0) is None,
        },
{
    let ghost all = content@;
    for i in 0..content.entries.len()
        invariant
            all == content@,
            json_position(all, 0) == json_position(all, i as int),
    {
        assert(all[i as int].0 == content.entries@[i as int].0@);
        if contains(content.entries[i].0.as_str(), "json") {
            return Some(i);
        }
    }
    None
}

fn choose_content(content: &JsonMap) -> (r: Option<usize>)
    ensures
        match r {
            Some(i) => i < content@.len() && chosen_content(content@) == Some(i as int),
            None => chosen_content(content@) is None,
        },
{
    if let Some(i) = content.position("application/json") {
        return Some(i);
    }
    if let Some(i) = content.position("application/x-www-form-urlencoded") {
        return Some(i);
    }
    if let Some(i) = content.position("multipart/form-data") {
        return Some(i);
    }
    json_content_position(content)
}

/// Picks the request content type that can be driven: JSON preferred, then form
/// variants. Endpoints with only unsupported content degrade to JSON of any
/// schema.
fn build_body(document: &JsonValue, request_body: &JsonValue) -> (r: Option<BodySpec>)
    ensures
        r.deep_view() == body_of(document@, request_body@),
{
    let (node, _) = deref(document, request_body);
    let content = match node.get("content") {
        Some(JsonValue::Object(content)) => content,
        _ => {
            return None;
        },
    };
    let required = match node.get("required") {
        Some(JsonValue::Bool(b)) => *b,
        _ => false,
    };
    match choose_content(content) {
        Some(i) => {
            assert(content@[i as int] == (content.entries@[i as int].0@, content.entries@[i as int].1@));
            let media = &content.entries[i].1;
            let normalized = normalize_or_any(document, media.get("schema"));
            Some(
                BodySpec {
                    content_type: content.entries[i].0.clone(),
                    schema: normalized.node,
                    required,
                    nullable: normalized.nullable,
                },
            )
        },
        None => if content.len() > 0 {
            Some(
                BodySpec {
                    content_type: owned("application/json"),
                    schema: SchemaNode::Any,
                    required,
                    nullable: false,
                },
            )
        } else {
            None
        },
    }
}

/// One declared response: description plus the normalized JSON schema when
/// the response declares JSON content.
fn build_response(document: &JsonValue, status: &str, response: &JsonValue) -> (r: ResponseSpec)
    ensures
        r@ == response_of(document@, status@, response@),
{
    let (node, _) = deref(document, response);
    let description = match node.get("description") {
        Some(JsonValue::Text(s)) => Some(s.clone()),
        _ => None,
    };
    let media = match node.get("content") {
        Some(JsonValue::Object(content)) => match content.get("application/json") {
            Some(media) => Some(media),
            None => match json_content_position(content) {
                Some(i) => {
                    assert(content@[i as int].1 == content.entries@[i as int].1@);
                    Some(&content.entries[i].1)
                },
                None => None,
            },
        },
        _ => None,
    };
    let schema = match media {
        Some(media) => match media.get("schema") {
            Some(s) => Some(normalize(document, s).node),
            None => None,
        },
        None => None,
    };
    ResponseSpec { status: owned(status), description, schema }
}

fn build_endpoint(
    document: &JsonValue,
    secured: bool,
    path: &str,
    shared: &Vec<JsonValue>,
    method: &str,
    op: &RawOperation,
) -> (r: Endpoint)
    ensures
        r@ == endpoint_of(document@, secured, path@, shared.deep_view(), method@, op@),
{
    let id = match &op.operation_id {
        Some(id) => id.clone(),
        None => cat3(method, " ", path),
    };
    let mut params: Vec<Param> = Vec::new();
    append_params(document, shared, &mut params);
    append_params(document, &op.parameters, &mut params);
    assert(params.deep_view() =~= params_of(document@, shared.deep_view(), 0) + params_of(
        document@,
        op@.parameters,
        0,
    ));
    let body = match &op.request_body {
        Some(body) => build_body(document, body),
        None => None,
    };
    let auth_required = match &op.security {
        Some(requirements) => requirements.len() > 0,
        None => secured,
    };
    let ghost all = op@.responses;
    let mut responses: Vec<ResponseSpec> = Vec::new();
    for i in 0..op.responses.entries.len()
        invariant
            all == op.responses@,
            responses@.len() == i,
            forall|k: int|
                0 <= k < i ==> (#[trigger] responses@[k])@ == response_of(
                    document@,
                    all[k].0,
                    all[k].1,
                ),
    {
        let (status, response) = &op.responses.entries[i];
        assert(all[i as int] == (status@, response@));
        responses.push(build_response(document, status.as_str(), response));
    }
    assert(responses.deep_view() =~= responses_of(document@, all));
    Endpoint {
        id,
        method: owned(method),
        path: owned(path),
        summary: copied(&op.summary),
        description: copied(&op.description),
        tags: copied_list(&op.tags),
        deprecated: op.deprecated,
        params,
        body,
        auth_required,
        responses,
    }
}

fn build_endpoints(
    document: &JsonValue,
    secured: bool,
    paths: &Vec<(String, RawPathItem)>,
) -> (r: Vec<Endpoint>)
    ensures
        r.deep_view() == endpoints_of(document@, secured, paths.deep_view(), 0),
{
    let ghost all = paths.deep_view();
    let mut out: Vec<Endpoint> = Vec::new();
    assert(out.deep_view() + endpoints_of(document@, secured, all, 0) =~= endpoints_of(
        document@,
        secured,
        all,
        0,
    ));
    for i in 0..paths.len()
        invariant
            all == paths.deep_view(),
            out.deep_view() + endpoints_of(document@, secured, all, i as int) == endpoints_of(
                document@,
                secured,
                all,
                0,
            ),
    {
        let ghost before = out.deep_view();
        let (path, item) = &paths[i];
        assert(all[i as int] == (path@, item@));
        let ops = item.operations();
        let ghost found = item_endpoints(document@, secured, path@, item@);
        for j in 0..ops.len()
            invariant
                ops.deep_view() == declared(item@.operations, 0),
                found == item_endpoints(document@, secured, path@, item@),
                out.deep_view() == before + found.take(j as int),
        {
            let ghost so_far = out.deep_view();
            let (method, op) = ops[j];
            assert(ops.deep_view()[j as int] == (method@, op@));
            let endpoint = build_endpoint(
                document,
                secured,
                path.as_str(),
                &item.parameters,
                method,
                op,
            );
            let ghost added = endpoint@;
            out.push(endpoint);
            assert(out.deep_view() =~= so_far.push(added));
            assert(found[j as int] == added);
            assert(so_far.push(added) =~= before + found.take(j + 1));
        }
        assert(found.take(found.len() as int) =~= found);
        assert(out.deep_view() + endpoints_of(document@, secured, all, i + 1) =~= before + (found
            + endpoints_of(document@, secured, all, i + 1)));
    }
    assert(out.deep_view() =~= endpoints_of(document@, secured, all, 0));
    out
}

/// Files an endpoint under a tag.
fn file(groups: &mut Vec<TagGroup>, tag: &str, id: &str)
    ensures
        final(groups).deep_view() == filed(old(groups).deep_view(), tag@, id@),
{
    let ghost before = groups.deep_view();
    let mut i: usize = 0;
    while i < groups.len()
        invariant
            i <= groups@.len(),
            *groups == *old(groups),
            before == groups.deep_view(),
            group_position(before, tag@, 0) == group_position(before, tag@, i as int),
        decreases groups@.len() - i,
    {
        assert(before[i as int] == groups@[i as int]@);
        if same(groups[i].name.as_str(), tag) {
            let mut ids = copied_list(&groups[i].endpoint_ids);
            let ghost ids_before = ids.deep_view();
            ids.push(owned(id));
            assert(ids.deep_view() =~= ids_before.push(id@));
            let group = TagGroup {
                name: groups[i].name.clone(),
                description: copied(&groups[i].description),
                endpoint_ids: ids,
            };
            let ghost shape = group@;
            groups.set(i, group);
            assert(groups.deep_view() =~= before.update(i as int, shape));
            return;
        }
        i += 1;
    }
    let mut ids: Vec<String> = Vec::new();
    ids.push(owned(id));
    assert(ids.deep_view() =~= seq![id@]);
    let group = TagGroup { name: owned(tag), description: None, endpoint_ids: ids };
    let ghost shape = group@;
    groups.push(group);
    assert(groups.deep_view() =~= before.push(shape));
}

/// Tag groups: declared spec order first, then first-seen order from
/// endpoints, with an "untagged" group at the end when needed.
fn group_tags(tags: &Vec<RawTagDecl>, endpoints: &Vec<Endpoint>) -> (r: Vec<TagGroup>)
    ensures
        r.deep_view() == tag_groups(tags.deep_view(), endpoints.deep_view()),
{
    let ghost all = endpoints.deep_view();
    let ghost start = declared_groups(tags.deep_view());
    let mut groups: Vec<TagGroup> = Vec::new();
    for i in 0..tags.len()
        invariant
            start == declared_groups(tags.deep_view()),
            groups@.len() == i,
            forall|k: int| 0 <= k < i ==> (#[trigger] groups@[k])@ == start[k],
    {
        let none: Vec<String> = Vec::new();
        assert(none.deep_view() =~= Seq::<Seq<char>>::empty());
        assert(tags.deep_view()[i as int] == tags@[i as int]@);
        groups.push(
            TagGroup {
                name: tags[i].name.clone(),
                description: copied(&tags[i].description),
                endpoint_ids: none,
            },
        );
    }
    assert(groups.deep_view() =~= start);
    let mut untagged: Vec<String> = Vec::new();
    assert(untagged.deep_view() + untagged_ids(all, 0) =~= untagged_ids(all, 0));
    for i in 0..endpoints.len()
        invariant
            all == endpoints.deep_view(),
            filed_all(groups.deep_view(), all, i as int) == filed_all(start, all, 0),
            untagged.deep_view() + untagged_ids(all, i as int) == untagged_ids(all, 0),
    {
        let endpoint = &endpoints[i];
        assert(all[i as int] == endpoint@);
        if endpoint.tags.len() == 0 {
            let ghost before = untagged.deep_view();
            untagged.push(endpoint.id.clone());
            assert(untagged.deep_view() =~= before.push(endpoint@.id));
            assert(before.push(endpoint@.id) + untagged_ids(all, i + 1) =~= before + (seq![
                endpoint@.id,
            ] + untagged_ids(all, i + 1)));
        }
        let ghost before = groups.deep_view();
        let ghost names = endpoint@.tags;
        for j in 0..endpoint.tags.len()
            invariant
                names == endpoint.tags.deep_view(),
                filed_under(groups.deep_view(), names, endpoint@.id, j as int) == filed_under(
                    before,
                    names,
                    endpoint@.id,
                    0,
                ),
        {
            assert(names[j as int] == endpoint.tags@[j as int]@);
            file(&mut groups, endpoint.tags[j].as_str(), endpoint.id.as_str());
        }
    }
    let ghost full = groups.deep_view();
    let mut out: Vec<TagGroup> = Vec::new();
    assert(out.deep_view() + inhabited(full, 0) =~= inhabited(full, 0));
    for i in 0..groups.len()
        invariant
            full == groups.deep_view(),
            out.deep_view() + inhabited(full, i as int) == inhabited(full, 0),
    {
        let ghost before = out.deep_view();
        assert(full[i as int] == groups@[i as int]@);
        if groups[i].endpoint_ids.len() > 0 {
            let group = TagGroup {
                name: groups[i].name.clone(),
                description: copied(&groups[i].description),
                endpoint_ids: copied_list(&groups[i].endpoint_ids),
            };
            out.push(group);
            assert(out.deep_view() =~= before.push(full[i as int]));
            assert(before.push(full[i as int]) + inhabited(full, i + 1) =~= before + (seq![
                full[i as int],
            ] + inhabited(full, i + 1)));
        }
    }
    assert(out.deep_view() =~= inhabited(full, 0));
    assert(untagged.deep_view() =~= untagged_ids(all, 0));
    if untagged.len() > 0 {
        let ghost before = out.deep_view();
        let group = TagGroup {
            name: owned("untagged"),
            description: None,
            endpoint_ids: untagged,
        };
        let ghost shape = group@;
        out.push(group);
        assert(out.deep_view() =~= before + seq![shape]);
    }
    assert(out.deep_view() =~= tag_groups(tags.deep_view(), all));
    out
}

/// Builds the normalized domain model from a raw OpenAPI document.
pub fn build(document: &JsonValue) -> (r: Result<ApiSpec, SpecError>)
    ensures
        match r {
            Ok(api) => built(document@) == Ok::<ApiShape, SpecFault>(api@),
            Err(e) => built(document@) == Err::<ApiShape, SpecFault>(e@),
        },
{
    let raw = match RawSpec::read(document) {
        Ok(raw) => raw,
        Err(message) => {
            return Err(SpecError::Parse(message));
        },
    };
    if raw.paths.len() == 0 {
        let declared = match document.get("paths") {
            Some(paths) => paths.is_object(),
            None => false,
        };
        if !declared {
            return Err(SpecError::Parse(owned(NO_PATHS)));
        }
    }
    let secured = match &raw.security {
        Some(requirements) => requirements.len() > 0,
        None => false,
    };
    let endpoints = build_endpoints(document, secured, &raw.paths);
    let tags = group_tags(&raw.tags, &endpoints);
    Ok(
        ApiSpec {
            title: raw.info.title,
            version: raw.info.version,
            openapi_version: raw.openapi,
            tags,
            endpoints,
        },
    )
}

// ---------------------------------------------------------------- laws

/// Some group named `name` lists the endpoint `id`.
pub open spec fn lists(groups: Seq<GroupShape>, name: Seq<char>, id: Seq<char>) -> bool {
    exists|k: int|
        0 <= k < groups.len() && (#[trigger] groups[k]).name == name
            && groups[k].endpoint_ids.contains(id)
}

proof fn lemma_group_position(groups: Seq<GroupShape>, name: Seq<char>, i: int)
    requires
        0 <= i,
    ensures
        group_position(groups, name, i) matches Some(p) ==> i <= p < groups.len()
            && groups[p].name == name,
    decreases groups.len() - i,
{
    if i < groups.len() && groups[i].name != name {
        lemma_group_position(groups, name, i + 1);
    }
}

/// Filing keeps every group in its place, under its name and with its
/// description, and every endpoint that was listed.
proof fn lemma_filed(groups: Seq<GroupShape>, tag: Seq<char>, id: Seq<char>)
    ensures
        lists(filed(groups, tag, id), tag, id),
        filed(groups, tag, id).len() >= groups.len(),
        forall|k: int|
            #![trigger groups[k]]
            0 <= k < groups.len() ==> filed(groups, tag, id)[k].name == groups[k].name && filed(
                groups,
                tag,
                id,
            )[k].description == groups[k].description,
        forall|n: Seq<char>, other: Seq<char>| #[trigger]
            lists(groups, n, other) ==> lists(filed(groups, tag, id), n, other),
{
    lemma_group_position(groups, tag, 0);
    let after = filed(groups, tag, id);
    match group_position(groups, tag, 0) {
        Some(p) => {
            let ids = groups[p].endpoint_ids.push(id);
            assert(ids[ids.len() - 1] == id);
            assert(after[p].endpoint_ids.contains(id));
            assert forall|n: Seq<char>, other: Seq<char>| #[trigger]
                lists(groups, n, other) implies lists(after, n, other) by {
                let k = choose|k: int|
                    0 <= k < groups.len() && (#[trigger] groups[k]).name == n
                        && groups[k].endpoint_ids.contains(other);
                let at = choose|at: int|
                    0 <= at < groups[k].endpoint_ids.len() && groups[k].endpoint_ids[at] == other;
                assert(after[k].name == n);
                assert(after[k].endpoint_ids[at] == other);
            }
        },
        None => {
            let last = groups.len() as int;
            assert(after[last].endpoint_ids =~= seq![id]);
            assert(after[last].endpoint_ids[0] == id);
            assert forall|n: Seq<char>, other: Seq<char>| #[trigger]
                lists(groups, n, other) implies lists(after, n, other) by {
                let k = choose|k: int|
                    0 <= k < groups.len() && (#[trigger] groups[k]).name == n
                        && groups[k].endpoint_ids.contains(other);
                assert(after[k] == groups[k]);
            }
        },
    }
}

proof fn lemma_filed_under(
    groups: Seq<GroupShape>,
    tags: Seq<Seq<char>>,
    id: Seq<char>,
    j: int,
)
    requires
        0 <= j,
    ensures
        filed_under(groups, tags, id, j).len() >= groups.len(),
        forall|k: int|
            #![trigger groups[k]]
            0 <= k < groups.len() ==> filed_under(groups, tags, id, j)[k].name == groups[k].name
                && filed_under(groups, tags, id, j)[k].description == groups[k].description,
        forall|n: Seq<char>, other: Seq<char>| #[trigger]
            lists(groups, n, other) ==> lists(filed_under(groups, tags, id, j), n, other),
        forall|t: int|
            j <= t < tags.len() ==> lists(filed_under(groups, tags, id, j), #[trigger] tags[t], id),
    decreases tags.len() - j,
{
    if j < tags.len() {
        let next = filed(groups, tags[j], id);
        lemma_filed(groups, tags[j], id);
        lemma_filed_under(next, tags, id, j + 1);
        assert forall|k: int| #![trigger groups[k]] 0 <= k < groups.len() implies filed_under(
            groups,
            tags,
            id,
            j,
        )[k].name == groups[k].name && filed_under(groups, tags, id, j)[k].description
            == groups[k].description by {
            assert(next[k].name == groups[k].name);
        }
    }
}

proof fn lemma_filed_all(groups: Seq<GroupShape>, endpoints: Seq<EndpointShape>, i: int)
    requires
        0 <= i,
    ensures
        filed_all(groups, endpoints, i).len() >= groups.len(),
        forall|k: int|
            #![trigger groups[k]]
            0 <= k < groups.len() ==> filed_all(groups, endpoints, i)[k].name == groups[k].name
                && filed_all(groups, endpoints, i)[k].description == groups[k].description,
        forall|n: Seq<char>, other: Seq<char>| #[trigger]
            lists(groups, n, other) ==> lists(filed_all(groups, endpoints, i), n, other),
        forall|e: int, t: int|
            i <= e < endpoints.len() && 0 <= t < endpoints[e].tags.len() ==> lists(
                filed_all(groups, endpoints, i),
                #[trigger] endpoints[e].tags[t],
                endpoints[e].id,
            ),
    decreases endpoints.len() - i,
{
    if i < endpoints.len() {
        let next = filed_under(groups, endpoints[i].tags, endpoints[i].id, 0);
        lemma_filed_under(groups, endpoints[i].tags, endpoints[i].id, 0);
        lemma_filed_all(next, endpoints, i + 1);
        assert forall|k: int| #![trigger groups[k]] 0 <= k < groups.len() implies filed_all(
            groups,
            endpoints,
            i,
        )[k].name == groups[k].name && filed_all(groups, endpoints, i)[k].description
            == groups[k].description by {
            assert(next[k].name == groups[k].name);
        }
        assert forall|e: int, t: int|
            i <= e < endpoints.len() && 0 <= t < endpoints[e].tags.len() implies lists(
            filed_all(groups, endpoints, i),
            #[trigger] endpoints[e].tags[t],
            endpoints[e].id,
        ) by {
            if e == i {
                assert(lists(next, endpoints[i].tags[t], endpoints[i].id));
            }
        }
    }
}

proof fn lemma_inhabited(groups: Seq<GroupShape>, i: int)
    requires
        0 <= i,
    ensures
        forall|k: int|
            0 <= k < inhabited(groups, i).len() ==> (#[trigger] inhabited(
                groups,
                i,
            )[k]).endpoint_ids.len() > 0,
        forall|k: int|
            i <= k < groups.len() && (#[trigger] groups[k]).endpoint_ids.len() > 0 ==> inhabited(
                groups,
                i,
            ).contains(groups[k]),
    decreases groups.len() - i,
{
    if i < groups.len() {
        lemma_inhabited(groups, i + 1);
        let rest = inhabited(groups, i + 1);
        let here = inhabited(groups, i);
        if groups[i].endpoint_ids.len() > 0 {
            assert(here == seq![groups[i]] + rest);
            assert(here[0] == groups[i]);
            assert forall|k: int|
                i <= k < groups.len() && (#[trigger] groups[k]).endpoint_ids.len()
                    > 0 implies here.contains(groups[k]) by {
                if k > i {
                    let at = choose|at: int| 0 <= at < rest.len() && rest[at] == groups[k];
                    assert(here[at + 1] == groups[k]);
                }
            }
        }
    }
}

/// No tag group is empty.
pub proof fn law_no_group_is_empty(tags: Seq<RawTagShape>, endpoints: Seq<EndpointShape>, k: int)
    requires
        0 <= k < tag_groups(tags, endpoints).len(),
    ensures
        tag_groups(tags, endpoints)[k].endpoint_ids.len() > 0,
{
    lemma_inhabited(filed_all(declared_groups(tags), endpoints, 0), 0);
}

/// Every endpoint is listed under each of its tags.
pub proof fn law_tagged_endpoint_is_listed(
    tags: Seq<RawTagShape>,
    endpoints: Seq<EndpointShape>,
    e: int,
    t: int,
)
    requires
        0 <= e < endpoints.len(),
        0 <= t < endpoints[e].tags.len(),
    ensures
        lists(tag_groups(tags, endpoints), endpoints[e].tags[t], endpoints[e].id),
{
    let full = filed_all(declared_groups(tags), endpoints, 0);
    lemma_filed_all(declared_groups(tags), endpoints, 0);
    lemma_inhabited(full, 0);
    let name = endpoints[e].tags[t];
    let id = endpoints[e].id;
    assert(lists(full, name, id));
    let k = choose|k: int|
        0 <= k < full.len() && (#[trigger] full[k]).name == name && full[k].endpoint_ids.contains(
            id,
        );
    let kept = inhabited(full, 0);
    let at = choose|at: int| 0 <= at < kept.len() && kept[at] == full[k];
    assert(tag_groups(tags, endpoints)[at] == full[k]);
}

/// Every endpoint without tags is listed in the last group, "untagged".
pub proof fn law_untagged_endpoint_is_listed_last(
    tags: Seq<RawTagShape>,
    endpoints: Seq<EndpointShape>,
    e: int,
)
    requires
        0 <= e < endpoints.len(),
        endpoints[e].tags.len() == 0,
    ensures
        tag_groups(tags, endpoints).last().name == "untagged"@,
        tag_groups(tags, endpoints).last().endpoint_ids.contains(endpoints[e].id),
{
    lemma_untagged(endpoints, 0, e);
}

proof fn lemma_untagged(endpoints: Seq<EndpointShape>, i: int, e: int)
    requires
        0 <= i <= e < endpoints.len(),
        endpoints[e].tags.len() == 0,
    ensures
        untagged_ids(endpoints, i).contains(endpoints[e].id),
    decreases endpoints.len() - i,
{
    let ids = untagged_ids(endpoints, i);
    if i == e {
        assert(ids[0] == endpoints[e].id);
    } else {
        lemma_untagged(endpoints, i + 1, e);
        let rest = untagged_ids(endpoints, i + 1);
        let at = choose|at: int| 0 <= at < rest.len() && rest[at] == endpoints[e].id;
        if endpoints[i].tags.len() == 0 {
            assert(ids[at + 1] == endpoints[e].id);
        }
    }
}

/// Declared tags come first, in their declared order and with their
/// descriptions: filing endpoints never moves or renames a group.
pub proof fn law_declared_groups_keep_their_place(
    tags: Seq<RawTagShape>,
    endpoints: Seq<EndpointShape>,
    k: int,
)
    requires
        0 <= k < tags.len(),
    ensures
        k < filed_all(declared_groups(tags), endpoints, 0).len(),
        filed_all(declared_groups(tags), endpoints, 0)[k].name == tags[k].name,
        filed_all(declared_groups(tags), endpoints, 0)[k].description == tags[k].description,
{
    lemma_filed_all(declared_groups(tags), endpoints, 0);
    assert(declared_groups(tags)[k].name == tags[k].name);
}

/// A parameter in the path is required, whatever the document says.
pub proof fn law_path_params_are_required(doc: Json, value: Json)
    requires
        param_of(doc, value) is Some,
        param_of(doc, value)->0.location == ParamLocation::Path,
    ensures
        param_of(doc, value)->0.required,
{
}

/// A body that can only be sent in an unsupported way is offered as JSON of any
/// schema, required as declared.
pub proof fn law_unsupported_content_degrades(doc: Json, request_body: Json)
    requires
        resolved(doc, request_body).member("content"@) is Some,
        resolved(doc, request_body).member("content"@)->0 is Object,
        resolved(doc, request_body).member("content"@)->0->Object_0.len() > 0,
        forall|i: int|
            0 <= i < resolved(doc, request_body).member("content"@)->0->Object_0.len() ==> {
                let name = (#[trigger] resolved(doc, request_body).member(
                    "content"@,
                )->0->Object_0[i]).0;
                &&& name != "application/x-www-form-urlencoded"@
                &&& name != "multipart/form-data"@
                &&& !contains_text(name, "json"@)
            },
    ensures
        body_of(doc, request_body) == Some(
            BodyShape {
                content_type: "application/json"@,
                schema: Schema::Any,
                required: resolved(doc, request_body).member("required"@) == Some(
                    Json::Bool(true),
                ),
                nullable: false,
            },
        ),
{
    let content = resolved(doc, request_body).member("content"@)->0->Object_0;
    lemma_mentions_json();
    lemma_position_bounds(content, "application/json"@, 0);
    lemma_position_bounds(content, "application/x-www-form-urlencoded"@, 0);
    lemma_position_bounds(content, "multipart/form-data"@, 0);
    lemma_json_position(content, 0);
}

proof fn lemma_mentions_json()
    ensures
        contains_text("application/json"@, "json"@),
{
    reveal_strlit("application/json");
    reveal_strlit("json");
    assert("application/json"@.subrange(12, 16) =~= "json"@);
    assert(occurs_at("application/json"@, "json"@, 12));
}

proof fn lemma_json_position(content: Seq<(Seq<char>, Json)>, i: int)
    requires
        0 <= i,
    ensures
        json_position(content, i) matches Some(p) ==> i <= p < content.len() && contains_text(
            content[p].0,
            "json"@,
        ),
    decreases content.len() - i,
{
    if i < content.len() {
        lemma_json_position(content, i + 1);
    }
}

/// A method in upper case, without white space.
pub open spec fn plain_method(method: Seq<char>) -> bool {
    &&& method.len() > 0
    &&& upper(method) == method
    &&& forall|k: int| 0 <= k < method.len() ==> !white_space(#[trigger] method[k])
}

proof fn lemma_methods(i: int)
    requires
        0 <= i < 8,
    ensures
        plain_method(methods()[i]),
{
    reveal_strlit("GET");
    reveal_strlit("PUT");
    reveal_strlit("POST");
    reveal_strlit("DELETE");
    reveal_strlit("OPTIONS");
    reveal_strlit("HEAD");
    reveal_strlit("PATCH");
    reveal_strlit("TRACE");
    let method = methods()[i];
    assert(forall|k: int| 0 <= k < method.len() ==> 'A' <= #[trigger] method[k] <= 'Z');
    assert(upper(method) =~= method);
}

proof fn lemma_declared_methods(operations: Seq<Option<RawOperationShape>>, i: int)
    requires
        0 <= i,
        operations.len() <= 8,
    ensures
        forall|k: int|
            0 <= k < declared(operations, i).len() ==> plain_method(
                (#[trigger] declared(operations, i)[k]).0,
            ),
    decreases operations.len() - i,
{
    if i < operations.len() {
        lemma_declared_methods(operations, i + 1);
        lemma_methods(i);
        let rest = declared(operations, i + 1);
        let here = declared(operations, i);
        assert forall|k: int| 0 <= k < here.len() implies plain_method((#[trigger] here[k]).0) by {
            if operations[i] is None {
                assert(here[k] == rest[k]);
            } else if k > 0 {
                assert(here[k] == rest[k - 1]);
            }
        }
    }
}

proof fn lemma_endpoint_methods(
    doc: Json,
    secured: bool,
    paths: Seq<(Seq<char>, RawPathShape)>,
    i: int,
)
    requires
        0 <= i,
        forall|k: int| 0 <= k < paths.len() ==> (#[trigger] paths[k]).1.operations.len() <= 8,
    ensures
        forall|k: int|
            0 <= k < endpoints_of(doc, secured, paths, i).len() ==> plain_method(
                (#[trigger] endpoints_of(doc, secured, paths, i)[k]).method,
            ),
    decreases paths.len() - i,
{
    if i < paths.len() {
        lemma_endpoint_methods(doc, secured, paths, i + 1);
        let ops = declared(paths[i].1.operations, 0);
        lemma_declared_methods(paths[i].1.operations, 0);
        let first = item_endpoints(doc, secured, paths[i].0, paths[i].1);
        let rest = endpoints_of(doc, secured, paths, i + 1);
        let here = endpoints_of(doc, secured, paths, i);
        assert forall|k: int| 0 <= k < here.len() implies plain_method(
            (#[trigger] here[k]).method,
        ) by {
            if k < first.len() {
                assert(here[k] == first[k]);
                assert(plain_method(ops[k].0));
            } else {
                assert(here[k] == rest[k - first.len()]);
            }
        }
    }
}

/// Every endpoint of a spec that was built from a document has its method in
/// upper case.
pub proof fn law_built_methods_are_upper_case(doc: Json)
    ensures
        built(doc) matches Ok(spec) ==> forall|k: int|
            0 <= k < spec.endpoints.len() ==> plain_method((#[trigger] spec.endpoints[k]).method),
{
    match built(doc) {
        Ok(spec) => {
            let raw = spec_of(doc);
            let secured = match raw.security {
                Some(requirements) => requirements.len() > 0,
                None => false,
            };
            lemma_endpoint_methods(doc, secured, raw.paths, 0);
        },
        Err(_) => {},
    }
}

} // verus!
