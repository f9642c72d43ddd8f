//! What a document becomes, said of the document as it is written: which
//! operation becomes which endpoint, and what of it the endpoint carries.

use super::normalize::{normalized, plain};
use super::raw::{
    declared, fault, held_fault, members_fault, methods, name_position, operation_of, path_item_of, spec_of,
    tag_of, Holds, RawOperationShape, RawPathShape, RawTagShape, Shape,
};
use super::resolve::dereferenced;
use super::{
    body_of, built, declared_groups, endpoint_of, endpoints_of, filed, filed_all, filed_under,
    inhabited, item_endpoints, json_position, param_of, params_of, response_of, tag_groups,
    untagged_ids,
};
use crate::json::laws::law_member_is_found;
use crate::json::{lemma_position_bounds, lookup, Json};
use crate::lists::{lemma_filter_from, lemma_filtered_from};
use crate::model::schema_node::Schema;
use crate::model::{
    group_position, BodyShape, EndpointShape, GroupShape, ParamLocation, ParamShape,
};
use crate::text::contains_text;
use vstd::prelude::*;
use vstd::string::*;

verus! {

// ---------------------------------------------------------------- operations

/// The verbs of a path item with the methods that they stand for.
pub open spec fn verbs() -> Seq<(Seq<char>, Seq<char>)> {
    seq![
        ("get"@, "GET"@),
        ("put"@, "PUT"@),
        ("post"@, "POST"@),
        ("delete"@, "DELETE"@),
        ("options"@, "OPTIONS"@),
        ("head"@, "HEAD"@),
        ("patch"@, "PATCH"@),
        ("trace"@, "TRACE"@),
    ]
}

/// The path item has an operation under the verb.
pub open spec fn has_operation(item: Seq<(Seq<char>, Json)>) -> spec_fn(
    (Seq<char>, Seq<char>),
) -> bool {
    |verb: (Seq<char>, Seq<char>)|
        lookup(item, verb.0) is Some && lookup(item, verb.0) != Some(Json::Null)
}

/// The endpoint of the operation under a verb.
pub open spec fn endpoint_under(
    doc: Json,
    secured: bool,
    path: Seq<char>,
    item: Seq<(Seq<char>, Json)>,
) -> spec_fn((Seq<char>, Seq<char>)) -> EndpointShape {
    |verb: (Seq<char>, Seq<char>)|
        endpoint_of(
            doc,
            secured,
            path,
            match lookup(item, "parameters"@) {
                Some(Json::Array(shared)) => shared,
                _ => Seq::empty(),
            },
            verb.1,
            operation_of(lookup(item, verb.0)->0),
        )
}

proof fn lemma_declared(
    doc: Json,
    secured: bool,
    path: Seq<char>,
    item: Seq<(Seq<char>, Json)>,
    i: int,
)
    requires
        0 <= i <= 8,
    ensures
        declared(path_item_of(Json::Object(item)).operations, i).map_values(
            |op: (Seq<char>, RawOperationShape)|
                endpoint_of(
                    doc,
                    secured,
                    path,
                    path_item_of(Json::Object(item)).parameters,
                    op.0,
                    op.1,
                ),
        ) == verbs().skip(i).filter(has_operation(item)).map_values(
            endpoint_under(doc, secured, path, item),
        ),
    decreases 8 - i,
{
    let raw = path_item_of(Json::Object(item));
    let made = |op: (Seq<char>, RawOperationShape)|
        endpoint_of(doc, secured, path, raw.parameters, op.0, op.1);
    let under = endpoint_under(doc, secured, path, item);
    lemma_filter_from(verbs(), i, has_operation(item));
    let left = declared(raw.operations, i).map_values(made);
    let right = verbs().skip(i).filter(has_operation(item)).map_values(under);
    if i < 8 {
        lemma_declared(doc, secured, path, item, i + 1);
        let rest = declared(raw.operations, i + 1).map_values(made);
        let other = verbs().skip(i + 1).filter(has_operation(item)).map_values(under);
        assert(Shape::PathItem.names()[i] == verbs()[i].0);
        assert(methods()[i] == verbs()[i].1);
        if has_operation(item)(verbs()[i]) {
            assert(left =~= seq![under(verbs()[i])] + rest);
            assert(right =~= seq![under(verbs()[i])] + other);
        } else {
            assert(left =~= rest);
            assert(right =~= other);
        }
    } else {
        assert(left =~= right);
    }
}

/// A path item becomes one endpoint for each of its operations, in the order of
/// the verbs, each with the method that its verb stands for.
pub proof fn law_operations_become_endpoints(
    doc: Json,
    secured: bool,
    path: Seq<char>,
    item: Seq<(Seq<char>, Json)>,
)
    ensures
        item_endpoints(doc, secured, path, path_item_of(Json::Object(item))) == verbs().filter(
            has_operation(item),
        ).map_values(endpoint_under(doc, secured, path, item)),
{
    let raw = path_item_of(Json::Object(item));
    lemma_declared(doc, secured, path, item, 0);
    assert(verbs().skip(0) =~= verbs());
    assert(item_endpoints(doc, secured, path, raw) =~= declared(raw.operations, 0).map_values(
        |op: (Seq<char>, RawOperationShape)|
            endpoint_of(doc, secured, path, raw.parameters, op.0, op.1),
    ));
}

proof fn lemma_endpoints_listed(
    doc: Json,
    secured: bool,
    paths: Seq<(Seq<char>, RawPathShape)>,
    i: int,
)
    requires
        0 <= i <= paths.len(),
    ensures
        endpoints_of(doc, secured, paths, i) == paths.skip(i).map_values(
            |entry: (Seq<char>, RawPathShape)| item_endpoints(doc, secured, entry.0, entry.1),
        ).flatten(),
    decreases paths.len() - i,
{
    let made = |entry: (Seq<char>, RawPathShape)| item_endpoints(doc, secured, entry.0, entry.1);
    let lists = paths.skip(i).map_values(made);
    if i < paths.len() {
        lemma_endpoints_listed(doc, secured, paths, i + 1);
        assert(lists.drop_first() =~= paths.skip(i + 1).map_values(made));
        assert(lists.first() == made(paths[i]));
    }
}

/// The document demands a login by default.
pub open spec fn demands_login(doc: Seq<(Seq<char>, Json)>) -> bool {
    lookup(doc, "security"@) matches Some(Json::Array(requirements)) && requirements.len() > 0
}

/// The path items of a document.
pub open spec fn path_items(doc: Seq<(Seq<char>, Json)>) -> Seq<(Seq<char>, Json)> {
    match lookup(doc, "paths"@) {
        Some(Json::Object(paths)) => paths,
        _ => Seq::empty(),
    }
}

/// A document that can be read becomes the endpoints of its path items, one item
/// after another, under its own title and versions.
pub proof fn law_document_becomes_endpoints(doc: Seq<(Seq<char>, Json)>)
    ensures
        built(Json::Object(doc)) matches Ok(spec) ==> {
            let secured = demands_login(doc);
            &&& spec.endpoints == path_items(doc).map_values(
                |entry: (Seq<char>, Json)|
                    item_endpoints(
                        Json::Object(doc),
                        secured,
                        entry.0,
                        path_item_of(entry.1),
                    ),
            ).flatten()
            &&& lookup(doc, "openapi"@) matches Some(Json::Text(version)) ==> spec.openapi_version
                == version
            &&& lookup(doc, "info"@) matches Some(Json::Object(info)) ==> {
                &&& lookup(info, "title"@) matches Some(Json::Text(title)) ==> spec.title == title
                &&& lookup(info, "version"@) matches Some(Json::Text(version)) ==> spec.version
                    == version
            }
        },
        lookup(doc, "paths"@) is None ==> built(Json::Object(doc)) is Err,
        built(Json::Object(doc)) is Err <==> fault(Shape::Spec, Json::Object(doc)) is Some
            || !(lookup(doc, "paths"@) matches Some(Json::Object(_))),
{
    let whole = Json::Object(doc);
    assert(Shape::Spec.names()[0] == "openapi"@);
    assert(Shape::Spec.names()[1] == "info"@);
    assert(Shape::Spec.names()[2] == "paths"@);
    assert(Shape::Spec.names()[3] == "tags"@);
    assert(Shape::Spec.names()[4] == "security"@);
    assert(Shape::Info.names()[0] == "title"@);
    assert(Shape::Info.names()[1] == "version"@);
    let raw = spec_of(whole);
    let secured = demands_login(doc);
    lemma_endpoints_listed(whole, secured, raw.paths, 0);
    assert(raw.paths.skip(0) =~= raw.paths);
    let items = path_items(doc);
    assert(raw.paths.len() == items.len());
    assert(raw.paths.map_values(
        |entry: (Seq<char>, RawPathShape)| item_endpoints(whole, secured, entry.0, entry.1),
    ) =~= items.map_values(
        |entry: (Seq<char>, Json)|
            item_endpoints(whole, secured, entry.0, path_item_of(entry.1)),
    ));
}

// ---------------------------------------------------------------- endpoints

/// An endpoint carries what its operation says: its id, or the method and path
/// where it has none, its texts, tags and flags, the parameters of the path before
/// its own, its body and its responses. It demands a login where the operation
/// says so, and where the operation says nothing, as the document does.
pub proof fn law_endpoint_carries_its_operation(
    doc: Json,
    secured: bool,
    path: Seq<char>,
    shared: Seq<Json>,
    method: Seq<char>,
    op: Seq<(Seq<char>, Json)>,
)
    ensures
        ({
            let e = endpoint_of(doc, secured, path, shared, method, operation_of(Json::Object(op)));
            let own = match lookup(op, "parameters"@) {
                Some(Json::Array(params)) => params,
                _ => Seq::empty(),
            };
            &&& e.method == method
            &&& e.path == path
            &&& e.id == (match lookup(op, "operationId"@) {
                Some(Json::Text(id)) => id,
                _ => method + " "@ + path,
            })
            &&& e.summary == (match lookup(op, "summary"@) {
                Some(Json::Text(text)) => Some(text),
                _ => None,
            })
            &&& e.description == (match lookup(op, "description"@) {
                Some(Json::Text(text)) => Some(text),
                _ => None,
            })
            &&& e.deprecated == (lookup(op, "deprecated"@) == Some(Json::Bool(true)))
            &&& e.params == params_of(doc, shared, 0) + params_of(doc, own, 0)
            &&& e.auth_required == (match lookup(op, "security"@) {
                Some(Json::Array(requirements)) => requirements.len() > 0,
                _ => secured,
            })
            &&& e.body == (match lookup(op, "requestBody"@) {
                None => None,
                Some(Json::Null) => None,
                Some(body) => body_of(doc, body),
            })
            &&& lookup(op, "responses"@) matches Some(Json::Object(responses))
                ==> e.responses.len() == responses.len() && forall|k: int|
                0 <= k < responses.len() ==> #[trigger] e.responses[k] == response_of(
                    doc,
                    responses[k].0,
                    responses[k].1,
                )
            &&& lookup(op, "responses"@) is None ==> e.responses.len() == 0
            &&& lookup(op, "tags"@) matches Some(Json::Array(tags)) ==> e.tags.len() == tags.len()
                && forall|k: int|
                0 <= k < tags.len() && (tags[k] is Text) ==> #[trigger] e.tags[k] == tags[k]->Text_0
            &&& lookup(op, "tags"@) is None ==> e.tags.len() == 0
        }),
{
    assert(Shape::Operation.names()[0] == "tags"@);
    assert(Shape::Operation.names()[1] == "summary"@);
    assert(Shape::Operation.names()[2] == "description"@);
    assert(Shape::Operation.names()[3] == "operationId"@);
    assert(Shape::Operation.names()[4] == "parameters"@);
    assert(Shape::Operation.names()[5] == "requestBody"@);
    assert(Shape::Operation.names()[6] == "security"@);
    assert(Shape::Operation.names()[7] == "deprecated"@);
    assert(Shape::Operation.names()[8] == "responses"@);
}

// ---------------------------------------------------------------- parameters

/// The raw parameter can be sent.
pub open spec fn can_be_sent(doc: Json) -> spec_fn(Json) -> bool {
    |value: Json| param_of(doc, value) is Some
}

/// The parameters of a list are those that can be sent, in order.
pub proof fn law_params_are_listed(doc: Json, values: Seq<Json>)
    ensures
        params_of(doc, values, 0) == values.filter(can_be_sent(doc)).map_values(
            |value: Json| param_of(doc, value)->0,
        ),
{
    lemma_params_listed(doc, values, 0);
    assert(values.skip(0) =~= values);
}

proof fn lemma_params_listed(doc: Json, values: Seq<Json>, i: int)
    requires
        0 <= i <= values.len(),
    ensures
        params_of(doc, values, i) == values.skip(i).filter(can_be_sent(doc)).map_values(
            |value: Json| param_of(doc, value)->0,
        ),
    decreases values.len() - i,
{
    let made = |value: Json| param_of(doc, value)->0;
    lemma_filter_from(values, i, can_be_sent(doc));
    let right = values.skip(i).filter(can_be_sent(doc)).map_values(made);
    if i < values.len() {
        lemma_params_listed(doc, values, i + 1);
        let rest = values.skip(i + 1).filter(can_be_sent(doc)).map_values(made);
        if param_of(doc, values[i]) is Some {
            assert(right =~= seq![made(values[i])] + rest);
        } else {
            assert(right =~= rest);
        }
    } else {
        assert(right =~= Seq::empty());
    }
}

/// Every member of a raw parameter that is read has the type that it must have.
pub open spec fn readable_param(members: Seq<(Seq<char>, Json)>) -> bool {
    forall|k: int|
        #![trigger members[k]]
        0 <= k < members.len() ==> {
            &&& members[k].0 == "name"@ ==> members[k].1 is Text
            &&& members[k].0 == "in"@ ==> members[k].1 is Text
            &&& members[k].0 == "required"@ ==> members[k].1 is Bool
            &&& members[k].0 == "description"@ ==> members[k].1 is Text || members[k].1 is Null
        }
}

proof fn lemma_param_names(name: Seq<char>)
    ensures
        name_position(Shape::Parameter.names(), name, 0) matches Some(i) ==> {
            &&& 0 <= i < 5
            &&& i == 0 ==> name == "name"@
            &&& i == 1 ==> name == "in"@
            &&& i == 2 ==> name == "required"@
            &&& i == 3 ==> name == "description"@
        },
{
    reveal_with_fuel(name_position, 6);
}

proof fn lemma_param_faultless(members: Seq<(Seq<char>, Json)>, i: int)
    requires
        readable_param(members),
        0 <= i <= members.len(),
    ensures
        members_fault(Shape::Parameter, members, i) is None,
    decreases members.len() - i,
{
    if i < members.len() {
        lemma_param_names(members[i].0);
        lemma_param_faultless(members, i + 1);
        match name_position(Shape::Parameter.names(), members[i].0, 0) {
            Some(k) => {
                let value = members[i].1;
                assert(held_fault(Shape::Parameter.holds(k), value) is None);
            },
            None => {},
        }
    }
}

/// The place that a name stands for.
pub open spec fn place_named(name: Seq<char>) -> Option<ParamLocation> {
    if name == "path"@ {
        Some(ParamLocation::Path)
    } else if name == "query"@ {
        Some(ParamLocation::Query)
    } else if name == "header"@ {
        Some(ParamLocation::Header)
    } else {
        None
    }
}

/// A parameter is sent in the place that it names, under its own name, and is
/// required where it says so or stands in the path. Its schema says the rest; a
/// description beside the schema comes first. Other places are not supported.
pub proof fn law_parameter_is_read(
    doc: Json,
    members: Seq<(Seq<char>, Json)>,
    name: Seq<char>,
    place: Seq<char>,
)
    requires
        lookup(members, "$ref"@) is None,
        readable_param(members),
        lookup(members, "name"@) == Some(Json::Text(name)),
        lookup(members, "in"@) == Some(Json::Text(place)),
    ensures
        ({
            let schema = match lookup(members, "schema"@) {
                None => plain(Schema::Any),
                Some(Json::Null) => plain(Schema::Any),
                Some(schema) => normalized(doc, schema),
            };
            match place_named(place) {
                None => param_of(doc, Json::Object(members)) is None,
                Some(location) => {
                    let required = lookup(members, "required"@) == Some(Json::Bool(true));
                    param_of(doc, Json::Object(members)) == Some(
                        ParamShape {
                            name,
                            location,
                            required: required || location == ParamLocation::Path,
                            nullable: schema.nullable,
                            schema: schema.node,
                            default: schema.default,
                            description: match lookup(members, "description"@) {
                                Some(Json::Text(text)) => Some(text),
                                _ => schema.description,
                            },
                        },
                    )
                },
            }
        }),
{
    lemma_param_faultless(members, 0);
    reveal_with_fuel(dereferenced, 2);
    assert(Shape::Parameter.names()[0] == "name"@);
    assert(Shape::Parameter.names()[1] == "in"@);
    assert(Shape::Parameter.names()[2] == "required"@);
    assert(Shape::Parameter.names()[3] == "description"@);
    assert(Shape::Parameter.names()[4] == "schema"@);
    assert(fault(Shape::Parameter, Json::Object(members)) is None);
}

// ---------------------------------------------------------------- bodies

/// The body that media content describes.
pub open spec fn described(
    doc: Json,
    content_type: Seq<char>,
    media: Json,
    required: bool,
) -> BodyShape {
    let schema = match media {
        Json::Object(members) => match lookup(members, "schema"@) {
            Some(schema) => normalized(doc, schema),
            None => plain(Schema::Any),
        },
        _ => plain(Schema::Any),
    };
    BodyShape { content_type, schema: schema.node, required, nullable: schema.nullable }
}

/// A body is sent as JSON where it can be, else as a form, else as multipart; any
/// other content that mentions JSON comes last. It is required where it says so.
pub proof fn law_body_prefers_json(
    doc: Json,
    body: Seq<(Seq<char>, Json)>,
    content: Seq<(Seq<char>, Json)>,
)
    requires
        lookup(body, "$ref"@) is None,
        lookup(body, "content"@) == Some(Json::Object(content)),
    ensures
        ({
            let required = lookup(body, "required"@) == Some(Json::Bool(true));
            let json = lookup(content, "application/json"@);
            let form = lookup(content, "application/x-www-form-urlencoded"@);
            let multipart = lookup(content, "multipart/form-data"@);
            let got = body_of(doc, Json::Object(body));
            &&& json matches Some(media) ==> got == Some(
                described(doc, "application/json"@, media, required),
            )
            &&& json is None && form is Some ==> got == Some(
                described(doc, "application/x-www-form-urlencoded"@, form->0, required),
            )
            &&& json is None && form is None && multipart is Some ==> got == Some(
                described(doc, "multipart/form-data"@, multipart->0, required),
            )
            &&& json is None && form is None && multipart is None ==> forall|k: int|
                0 <= k < content.len() && contains_text((#[trigger] content[k]).0, "json"@) && (
                forall|j: int|
                    0 <= j < k ==> !contains_text((#[trigger] content[j]).0, "json"@)) ==> got
                    == Some(described(doc, content[k].0, content[k].1, required))
            &&& content.len() == 0 ==> got is None
        }),
{
    reveal_with_fuel(dereferenced, 2);
    lemma_position_bounds(content, "application/json"@, 0);
    lemma_position_bounds(content, "application/x-www-form-urlencoded"@, 0);
    lemma_position_bounds(content, "multipart/form-data"@, 0);
    let json = lookup(content, "application/json"@);
    let form = lookup(content, "application/x-www-form-urlencoded"@);
    let multipart = lookup(content, "multipart/form-data"@);
    if json is None && form is None && multipart is None {
        let required = lookup(body, "required"@) == Some(Json::Bool(true));
        assert forall|k: int|
            0 <= k < content.len() && contains_text((#[trigger] content[k]).0, "json"@) && (forall|
                j: int,
            |
                0 <= j < k ==> !contains_text((#[trigger] content[j]).0, "json"@)) implies body_of(
            doc,
            Json::Object(body),
        ) == Some(described(doc, content[k].0, content[k].1, required)) by {
            lemma_json_first(content, 0, k);
        }
    }
}

proof fn lemma_json_first(content: Seq<(Seq<char>, Json)>, i: int, k: int)
    requires
        0 <= i <= k < content.len(),
        contains_text(content[k].0, "json"@),
        forall|j: int| i <= j < k ==> !contains_text((#[trigger] content[j]).0, "json"@),
    ensures
        json_position(content, i) == Some(k),
    decreases k - i,
{
    if i < k {
        assert(!contains_text(content[i].0, "json"@));
        lemma_json_first(content, i + 1, k);
    }
}

/// A response keeps its status and its description, and has the schema of its JSON
/// content.
pub proof fn law_response_is_read(
    doc: Json,
    status: Seq<char>,
    response: Seq<(Seq<char>, Json)>,
)
    requires
        lookup(response, "$ref"@) is None,
    ensures
        ({
            let got = response_of(doc, status, Json::Object(response));
            &&& got.status == status
            &&& got.description == (match lookup(response, "description"@) {
                Some(Json::Text(text)) => Some(text),
                _ => None,
            })
            &&& lookup(response, "content"@) is None ==> got.schema is None
            &&& lookup(response, "content"@) matches Some(Json::Object(content)) ==> {
                &&& lookup(content, "application/json"@) matches Some(Json::Object(media))
                    ==> got.schema == (match lookup(media, "schema"@) {
                    Some(schema) => Some(normalized(doc, schema).node),
                    None => None,
                })
                &&& (forall|k: int|
                    0 <= k < content.len() ==> (#[trigger] content[k]).0 != "application/json"@
                        && !contains_text(content[k].0, "json"@)) ==> got.schema is None
                &&& lookup(content, "application/json"@) is None ==> forall|k: int|
                    0 <= k < content.len() && contains_text((#[trigger] content[k]).0, "json"@) && (
                    forall|j: int|
                        0 <= j < k ==> !contains_text((#[trigger] content[j]).0, "json"@))
                        && content[k].1 is Object ==> got.schema == (match lookup(
                        content[k].1->Object_0,
                        "schema"@,
                    ) {
                        Some(schema) => Some(normalized(doc, schema).node),
                        None => None,
                    })
            }
        }),
{
    reveal_with_fuel(dereferenced, 2);
    match lookup(response, "content"@) {
        Some(Json::Object(content)) => {
            if forall|k: int|
                0 <= k < content.len() ==> (#[trigger] content[k]).0 != "application/json"@
                    && !contains_text(content[k].0, "json"@) {
                lemma_no_json(content, 0);
                law_member_is_found(content, "application/json"@);
            }
            if lookup(content, "application/json"@) is None {
                assert forall|k: int|
                    0 <= k < content.len() && contains_text((#[trigger] content[k]).0, "json"@) && (
                    forall|j: int|
                        0 <= j < k ==> !contains_text((#[trigger] content[j]).0, "json"@))
                        && content[k].1 is Object implies response_of(
                    doc,
                    status,
                    Json::Object(response),
                ).schema == (match lookup(content[k].1->Object_0, "schema"@) {
                    Some(schema) => Some(normalized(doc, schema).node),
                    None => None,
                }) by {
                    lemma_json_first(content, 0, k);
                }
            }
        },
        _ => {},
    }
}

proof fn lemma_no_json(content: Seq<(Seq<char>, Json)>, i: int)
    requires
        0 <= i,
        forall|k: int| 0 <= k < content.len() ==> !contains_text((#[trigger] content[k]).0, "json"@),
    ensures
        json_position(content, i) is None,
    decreases content.len() - i,
{
    if i < content.len() {
        lemma_no_json(content, i + 1);
    }
}

// ---------------------------------------------------------------- tags

/// Some endpoint of that id has the tag.
pub open spec fn tagged_so(
    endpoints: Seq<EndpointShape>,
    tag: Seq<char>,
    id: Seq<char>,
) -> bool {
    exists|e: int, t: int|
        0 <= e < endpoints.len() && 0 <= t < endpoints[e].tags.len()
            && #[trigger] endpoints[e].tags[t] == tag && endpoints[e].id == id
}

/// The groups list only endpoints that have the group's tag.
spec fn files_truly(groups: Seq<GroupShape>, endpoints: Seq<EndpointShape>) -> bool {
    forall|k: int, j: int|
        0 <= k < groups.len() && 0 <= j < groups[k].endpoint_ids.len() ==> tagged_so(
            endpoints,
            groups[k].name,
            #[trigger] groups[k].endpoint_ids[j],
        )
}

proof fn lemma_group_found(groups: Seq<GroupShape>, name: Seq<char>, i: int)
    requires
        0 <= i,
    ensures
        group_position(groups, name, i) matches Some(p) ==> i <= p < groups.len()
            && groups[p].name == name,
    decreases groups.len() - i,
{
    if i < groups.len() && groups[i].name != name {
        lemma_group_found(groups, name, i + 1);
    }
}

proof fn lemma_filed_truly(
    groups: Seq<GroupShape>,
    endpoints: Seq<EndpointShape>,
    e: int,
    t: int,
)
    requires
        files_truly(groups, endpoints),
        0 <= e < endpoints.len(),
        0 <= t < endpoints[e].tags.len(),
    ensures
        files_truly(filed(groups, endpoints[e].tags[t], endpoints[e].id), endpoints),
{
    let tag = endpoints[e].tags[t];
    let id = endpoints[e].id;
    let after = filed(groups, tag, id);
    lemma_group_found(groups, tag, 0);
    assert(tagged_so(endpoints, tag, id));
    assert forall|k: int, j: int|
        0 <= k < after.len() && 0 <= j < after[k].endpoint_ids.len() implies tagged_so(
        endpoints,
        after[k].name,
        #[trigger] after[k].endpoint_ids[j],
    ) by {
        if k < groups.len() {
            assert(after[k].name == groups[k].name);
            if j < groups[k].endpoint_ids.len() {
                assert(after[k].endpoint_ids[j] == groups[k].endpoint_ids[j]);
            } else {
                assert(after[k].endpoint_ids[j] == id);
            }
        } else {
            assert(after[k].endpoint_ids[j] == id);
        }
    }
}

proof fn lemma_filed_under_truly(
    groups: Seq<GroupShape>,
    endpoints: Seq<EndpointShape>,
    e: int,
    j: int,
)
    requires
        files_truly(groups, endpoints),
        0 <= e < endpoints.len(),
        0 <= j,
    ensures
        files_truly(
            filed_under(groups, endpoints[e].tags, endpoints[e].id, j),
            endpoints,
        ),
    decreases endpoints[e].tags.len() - j,
{
    if j < endpoints[e].tags.len() {
        lemma_filed_truly(groups, endpoints, e, j);
        lemma_filed_under_truly(
            filed(groups, endpoints[e].tags[j], endpoints[e].id),
            endpoints,
            e,
            j + 1,
        );
    }
}

proof fn lemma_filed_all_truly(groups: Seq<GroupShape>, endpoints: Seq<EndpointShape>, i: int)
    requires
        files_truly(groups, endpoints),
        0 <= i,
    ensures
        files_truly(filed_all(groups, endpoints, i), endpoints),
    decreases endpoints.len() - i,
{
    if i < endpoints.len() {
        lemma_filed_under_truly(groups, endpoints, i, 0);
        lemma_filed_all_truly(
            filed_under(groups, endpoints[i].tags, endpoints[i].id, 0),
            endpoints,
            i + 1,
        );
    }
}

/// The group lists endpoints.
pub open spec fn lists_some() -> spec_fn(GroupShape) -> bool {
    |group: GroupShape| group.endpoint_ids.len() > 0
}

pub proof fn lemma_inhabited_kept(groups: Seq<GroupShape>, i: int)
    requires
        0 <= i <= groups.len(),
    ensures
        inhabited(groups, i) == groups.skip(i).filter(lists_some()),
    decreases groups.len() - i,
{
    lemma_filter_from(groups, i, lists_some());
    if i < groups.len() {
        lemma_inhabited_kept(groups, i + 1);
        let rest = groups.skip(i + 1).filter(lists_some());
        assert(Seq::<GroupShape>::empty() + rest =~= rest);
    }
}

/// The endpoint has no tag.
pub open spec fn has_no_tag() -> spec_fn(EndpointShape) -> bool {
    |endpoint: EndpointShape| endpoint.tags.len() == 0
}

pub proof fn lemma_untagged_kept(endpoints: Seq<EndpointShape>, i: int)
    requires
        0 <= i <= endpoints.len(),
    ensures
        untagged_ids(endpoints, i) == endpoints.skip(i).filter(has_no_tag()).map_values(
            |endpoint: EndpointShape| endpoint.id,
        ),
    decreases endpoints.len() - i,
{
    let id = |endpoint: EndpointShape| endpoint.id;
    lemma_filter_from(endpoints, i, has_no_tag());
    let ids = endpoints.skip(i).filter(has_no_tag()).map_values(id);
    if i < endpoints.len() {
        lemma_untagged_kept(endpoints, i + 1);
        let rest = endpoints.skip(i + 1).filter(has_no_tag()).map_values(id);
        if endpoints[i].tags.len() == 0 {
            assert(ids =~= seq![endpoints[i].id] + rest);
        } else {
            assert(ids =~= rest);
        }
    } else {
        assert(ids =~= Seq::empty());
    }
}

/// A group lists only endpoints that have its tag. The last group may hold
/// those that have none instead, all of them, in order.
pub proof fn law_groups_list_only_their_endpoints(
    tags: Seq<RawTagShape>,
    endpoints: Seq<EndpointShape>,
)
    ensures
        ({
            let groups = tag_groups(tags, endpoints);
            let without = endpoints.filter(has_no_tag()).map_values(
                |endpoint: EndpointShape| endpoint.id,
            );
            let own = if without.len() > 0 {
                groups.len() - 1
            } else {
                groups.len() as int
            };
            &&& forall|k: int, j: int|
                0 <= k < own && 0 <= j < groups[k].endpoint_ids.len() ==> tagged_so(
                    endpoints,
                    groups[k].name,
                    #[trigger] groups[k].endpoint_ids[j],
                )
            &&& without.len() > 0 ==> groups.len() > 0 && groups.last().name == "untagged"@
                && groups.last().endpoint_ids == without
        }),
{
    let start = declared_groups(tags);
    let full = filed_all(start, endpoints, 0);
    lemma_filed_all_truly(start, endpoints, 0);
    lemma_inhabited_kept(full, 0);
    assert(full.skip(0) =~= full);
    lemma_untagged_kept(endpoints, 0);
    assert(endpoints.skip(0) =~= endpoints);
    let kept = full.filter(lists_some());
    let groups = tag_groups(tags, endpoints);
    assert forall|k: int, j: int|
        0 <= k < kept.len() && 0 <= j < groups[k].endpoint_ids.len() implies tagged_so(
        endpoints,
        groups[k].name,
        #[trigger] groups[k].endpoint_ids[j],
    ) by {
        assert(groups[k] == kept[k]);
        lemma_filtered_from(full, lists_some(), k);
        let at = choose|at: int| 0 <= at < full.len() && full[at] == kept[k];
        assert(full[at].endpoint_ids[j] == groups[k].endpoint_ids[j]);
    }
}

/// The tags of a document are read by name.
pub proof fn law_declared_tags_are_read(tag: Seq<(Seq<char>, Json)>)
    ensures
        lookup(tag, "name"@) matches Some(Json::Text(name)) ==> tag_of(Json::Object(tag)).name
            == name,
        tag_of(Json::Object(tag)).description == (match lookup(tag, "description"@) {
            Some(Json::Text(text)) => Some(text),
            _ => None,
        }),
{
    assert(Shape::Tag.names()[0] == "name"@);
    assert(Shape::Tag.names()[1] == "description"@);
}

// ---------------------------------------------------------------- faults

/// What the member named so must be, for the object to be readable.
pub open spec fn acceptable(shape: Shape, name: Seq<char>, value: Json) -> bool {
    forall|k: int|
        0 <= k < shape.names().len() && #[trigger] shape.names()[k] == name ==> held_fault(
            shape.holds(k),
            value,
        ) is None
}

proof fn lemma_name_found(names: Seq<Seq<char>>, name: Seq<char>, i: int)
    requires
        0 <= i,
    ensures
        match name_position(names, name, i) {
            Some(k) => i <= k < names.len() && names[k] == name,
            None => forall|k: int| i <= k < names.len() ==> #[trigger] names[k] != name,
        },
    decreases names.len() - i,
{
    if i < names.len() && names[i] != name {
        lemma_name_found(names, name, i + 1);
    }
}

proof fn lemma_members_faultless(shape: Shape, members: Seq<(Seq<char>, Json)>, i: int)
    requires
        0 <= i <= members.len(),
        forall|k: int|
            0 <= k < members.len() ==> acceptable(
                shape,
                (#[trigger] members[k]).0,
                members[k].1,
            ),
    ensures
        members_fault(shape, members, i) is None,
    decreases members.len() - i,
{
    if i < members.len() {
        lemma_members_faultless(shape, members, i + 1);
        lemma_name_found(shape.names(), members[i].0, 0);
        assert(acceptable(shape, members[i].0, members[i].1));
        match name_position(shape.names(), members[i].0, 0) {
            Some(k) => {
                assert(shape.names()[k] == members[i].0);
            },
            None => {},
        }
    }
}

/// An object can be read where each of its known members is acceptable; unknown
/// members are ignored, and only parameters have members that they need.
pub proof fn law_readable_objects(shape: Shape, members: Seq<(Seq<char>, Json)>)
    requires
        forall|k: int|
            0 <= k < members.len() ==> acceptable(
                shape,
                (#[trigger] members[k]).0,
                members[k].1,
            ),
        shape is Parameter ==> lookup(members, "name"@) is Some && lookup(members, "in"@) is Some,
    ensures
        fault(shape, Json::Object(members)) is None,
{
    lemma_members_faultless(shape, members, 0);
}

/// What stands for an object, a text, a flag or a list must be one; texts and lists
/// that may be absent may be null as well.
pub proof fn law_values_of_the_wrong_type_are_faults(value: Json)
    ensures
        !(value is Object) && !(value is Array) ==> fault(Shape::Spec, value) is Some && fault(
            Shape::Operation,
            value,
        ) is Some && fault(Shape::Parameter, value) is Some,
        held_fault(Holds::Text, value) is None <==> value is Text,
        held_fault(Holds::OptionalText, value) is None <==> value is Text || value is Null,
        held_fault(Holds::Flag, value) is None <==> value is Bool,
        held_fault(Holds::Values, value) is None <==> value is Array,
        held_fault(Holds::OptionalValues, value) is None <==> value is Array || value is Null,
        held_fault(Holds::Anything, value) is None,
        held_fault(Holds::ValueMap, value) is None <==> value is Object,
{
}

} // verus!
