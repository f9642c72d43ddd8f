//! Request templates: turns an `Endpoint` into a fill-in-the-blanks request
//! description consumed by `hit template`, the MCP `get_request_template`
//! tool, and the form seed.

use super::schema_node::{
    copied, json_texts, optional_member, optional_text, schema_json, FieldShape, Schema, SchemaNode,
};
use super::schema_node::{append_optional_text, append_optional_value, field_shapes, variant_shapes};
use super::{
    law_params_of_a_location, located, params_at, Endpoint, EndpointShape, Param, ParamLocation,
    ParamShape,
};
use crate::json::{
    has_key, law_lookup_after_put, law_put_keeps_others, list_json, lookup, put, Json, JsonMap,
    JsonValue,
};
use crate::lists::{lemma_filter_from, lemma_filter_keeps, lemma_filtered_from};
use crate::text::{cat, cat3, owned};
use vstd::prelude::*;

verus! {

/// How deep example bodies auto-expand before degrading to `{}`/`[]`.
pub const MAX_EXAMPLE_DEPTH: usize = 6;

#[derive(Debug)]
pub struct RequestTemplate {
    pub endpoint_id: String,
    pub method: String,
    pub path: String,
    pub summary: Option<String>,
    pub path_params: Vec<TemplateField>,
    pub query_params: Vec<TemplateField>,
    pub header_params: Vec<TemplateField>,
    /// Example JSON body: defaults filled in, `<type:format>` placeholders
    /// elsewhere. Optional fields are present but listed in `optional_paths`.
    pub body: Option<JsonValue>,
    /// The normalized body schema, for consumers that want the full shape.
    pub body_schema: Option<SchemaNode>,
    pub body_content_type: Option<String>,
    /// Dotted body paths that may be omitted entirely (e.g. "address.line2").
    pub optional_paths: Vec<String>,
    /// Dotted body paths that accept JSON null.
    pub nullable_paths: Vec<String>,
    pub auth_required: bool,
}

#[derive(Debug)]
pub struct TemplateField {
    pub name: String,
    pub required: bool,
    pub nullable: bool,
    /// Placeholder or default value.
    pub value: JsonValue,
    pub kind: String,
    pub description: Option<String>,
}

// ---------------------------------------------------------------- model

pub struct TemplateShape {
    pub endpoint_id: Seq<char>,
    pub method: Seq<char>,
    pub path: Seq<char>,
    pub summary: Option<Seq<char>>,
    pub path_params: Seq<SlotShape>,
    pub query_params: Seq<SlotShape>,
    pub header_params: Seq<SlotShape>,
    pub body: Option<Json>,
    pub body_schema: Option<Schema>,
    pub body_content_type: Option<Seq<char>>,
    pub optional_paths: Seq<Seq<char>>,
    pub nullable_paths: Seq<Seq<char>>,
    pub auth_required: bool,
}

/// A `TemplateField` as a mathematical value.
pub struct SlotShape {
    pub name: Seq<char>,
    pub required: bool,
    pub nullable: bool,
    pub value: Json,
    pub kind: Seq<char>,
    pub description: Option<Seq<char>>,
}

impl View for TemplateField {
    type V = SlotShape;

    open spec fn view(&self) -> SlotShape {
        SlotShape {
            name: self.name@,
            required: self.required,
            nullable: self.nullable,
            value: self.value@,
            kind: self.kind@,
            description: self.description.deep_view(),
        }
    }
}

impl DeepView for TemplateField {
    type V = SlotShape;

    open spec fn deep_view(&self) -> SlotShape {
        self.view()
    }
}

impl View for RequestTemplate {
    type V = TemplateShape;

    open spec fn view(&self) -> TemplateShape {
        TemplateShape {
            endpoint_id: self.endpoint_id@,
            method: self.method@,
            path: self.path@,
            summary: self.summary.deep_view(),
            path_params: self.path_params.deep_view(),
            query_params: self.query_params.deep_view(),
            header_params: self.header_params.deep_view(),
            body: self.body.deep_view(),
            body_schema: self.body_schema.deep_view(),
            body_content_type: self.body_content_type.deep_view(),
            optional_paths: self.optional_paths.deep_view(),
            nullable_paths: self.nullable_paths.deep_view(),
            auth_required: self.auth_required,
        }
    }
}

/// An example value with the dotted paths recorded on the way.
pub struct Example {
    pub value: Json,
    pub optional: Seq<Seq<char>>,
    pub nullable: Seq<Seq<char>>,
}

/// An example value without recorded paths.
pub open spec fn bare(value: Json) -> Example {
    Example { value, optional: Seq::empty(), nullable: Seq::empty() }
}

pub open spec fn empty_object() -> Json {
    Json::Object(Seq::empty())
}

/// The value of a node too deep to expand.
pub open spec fn cut_off(node: Schema) -> Json {
    match node {
        Schema::Array { .. } => Json::Array(Seq::empty()),
        _ => empty_object(),
    }
}

/// Leaf placeholder: enum/const pick a real value; scalars get a
/// `<type:format>` marker.
pub open spec fn placeholder_of(node: Schema) -> Json {
    match node {
        Schema::String { enum_values: Some(values), .. } => if values.len() > 0 {
            Json::Text(values[0])
        } else {
            Json::Null
        },
        Schema::String { enum_values: None, format: Some(f) } => Json::Text(
            "<string:"@ + f + ">"@,
        ),
        Schema::String { enum_values: None, format: None } => Json::Text("<string>"@),
        Schema::Integer { enum_values: Some(values), .. } => if values.len() > 0 {
            Json::Int(values[0] as int)
        } else {
            Json::Null
        },
        Schema::Integer { .. } => Json::Text("<integer>"@),
        Schema::Number { .. } => Json::Text("<number>"@),
        Schema::Boolean => Json::Bool(false),
        Schema::Const { value } => value,
        _ => cut_off(node),
    }
}

/// The dotted path of a member.
pub open spec fn dotted(parent: Seq<char>, name: Seq<char>) -> Seq<char> {
    if parent.len() == 0 {
        name
    } else {
        parent + "."@ + name
    }
}

/// The example of one member of an object.
pub open spec fn field_example_of(
    default: Option<Json>,
    schema: Schema,
    path: Seq<char>,
    depth: nat,
) -> Example
    decreases schema, 1int,
{
    match default {
        Some(value) => bare(value),
        None => example(schema, path, depth + 1),
    }
}

/// The members so far with those of the fields from position `i` on; fields
/// that are read only are left out.
pub open spec fn members_example(
    members: Seq<(Seq<char>, Json)>,
    fields: Seq<FieldShape>,
    i: int,
    path: Seq<char>,
    depth: nat,
) -> (Seq<(Seq<char>, Json)>, Seq<Seq<char>>, Seq<Seq<char>>)
    decreases fields, fields.len() - i,
{
    if i < 0 || i >= fields.len() {
        (members, Seq::empty(), Seq::empty())
    } else if fields[i].read_only {
        members_example(members, fields, i + 1, path, depth)
    } else {
        let child = dotted(path, fields[i].name);
        let inner = field_example_of(fields[i].default, fields[i].schema, child, depth);
        let rest = members_example(
            put(members, fields[i].name, inner.value),
            fields,
            i + 1,
            path,
            depth,
        );
        (
            rest.0,
            (if fields[i].required {
                Seq::empty()
            } else {
                seq![child]
            }) + inner.optional + rest.1,
            (if fields[i].nullable {
                seq![child]
            } else {
                Seq::empty()
            }) + inner.nullable + rest.2,
        )
    }
}

/// An example value for a schema, with the dotted paths that may be omitted
/// and those that accept null. `path` is the dotted location of the node.
pub open spec fn example(node: Schema, path: Seq<char>, depth: nat) -> Example
    decreases node, 0int,
{
    if depth > MAX_EXAMPLE_DEPTH {
        bare(cut_off(node))
    } else {
        match node {
            Schema::Object { fields, additional } => {
                let own = members_example(Seq::empty(), fields, 0, path, depth);
                match additional {
                    Some(extra) if fields.len() == 0 => {
                        let inner = example(*extra, path, depth + 1);
                        Example {
                            value: Json::Object(put(own.0, "<key>"@, inner.value)),
                            optional: own.1 + inner.optional,
                            nullable: own.2 + inner.nullable,
                        }
                    },
                    _ => Example {
                        value: Json::Object(own.0),
                        optional: own.1,
                        nullable: own.2,
                    },
                }
            },
            Schema::Array { item, .. } => {
                let inner = example(*item, path + "[]"@, depth + 1);
                Example { value: Json::Array(seq![inner.value]), ..inner }
            },
            Schema::OneOf { variants } => if variants.len() > 0 {
                example(variants[0].node, path, depth + 1)
            } else {
                bare(Json::Null)
            },
            _ => bare(placeholder_of(node)),
        }
    }
}

/// The slot of a parameter.
pub open spec fn slot_of(param: ParamShape) -> SlotShape {
    SlotShape {
        name: param.name,
        required: param.required,
        nullable: param.nullable,
        value: match param.default {
            Some(value) => value,
            None => placeholder_of(param.schema),
        },
        kind: param.schema.label(),
        description: param.description,
    }
}

pub open spec fn slots_of(params: Seq<ParamShape>) -> Seq<SlotShape> {
    Seq::new(params.len(), |i: int| slot_of(params[i]))
}

/// The template of an endpoint.
pub open spec fn template_of(endpoint: EndpointShape) -> TemplateShape {
    let body = match endpoint.body {
        Some(body) => Some(example(body.schema, Seq::empty(), 0)),
        None => None,
    };
    TemplateShape {
        endpoint_id: endpoint.id,
        method: endpoint.method,
        path: endpoint.path,
        summary: endpoint.summary,
        path_params: slots_of(params_at(endpoint.params, ParamLocation::Path, 0)),
        query_params: slots_of(params_at(endpoint.params, ParamLocation::Query, 0)),
        header_params: slots_of(params_at(endpoint.params, ParamLocation::Header, 0)),
        body: match body {
            Some(e) => Some(e.value),
            None => None,
        },
        body_schema: match endpoint.body {
            Some(body) => Some(body.schema),
            None => None,
        },
        body_content_type: match endpoint.body {
            Some(body) => Some(body.content_type),
            None => None,
        },
        optional_paths: match body {
            Some(e) => e.optional,
            None => Seq::empty(),
        },
        nullable_paths: match body {
            Some(e) => e.nullable,
            None => Seq::empty(),
        },
        auth_required: endpoint.auth_required,
    }
}

// ---------------------------------------------------------------- building

fn slots(endpoint: &Endpoint, location: ParamLocation) -> (r: Vec<TemplateField>)
    ensures
        r.deep_view() == slots_of(params_at(endpoint@.params, location, 0)),
{
    let params = endpoint.params_in(location);
    let ghost all = params.deep_view();
    let mut out: Vec<TemplateField> = Vec::new();
    for i in 0..params.len()
        invariant
            all == params.deep_view(),
            out@.len() == i,
            forall|k: int| 0 <= k < i ==> (#[trigger] out@[k])@ == slot_of(all[k]),
    {
        let p: &Param = params[i];
        assert(all[i as int] == p@);
        out.push(
            TemplateField {
                name: p.name.clone(),
                required: p.required,
                nullable: p.nullable,
                value: match &p.default {
                    Some(value) => value.clone(),
                    None => placeholder(&p.schema),
                },
                kind: p.schema.kind_label(),
                description: copied(&p.description),
            },
        );
    }
    assert(out.deep_view() =~= slots_of(all));
    out
}

/// The fill-in-the-blanks description of a request to an endpoint.
pub fn build_template(endpoint: &Endpoint) -> (r: RequestTemplate)
    ensures
        r@ == template_of(endpoint@),
{
    let mut optional_paths: Vec<String> = Vec::new();
    let mut nullable_paths: Vec<String> = Vec::new();
    let body = match &endpoint.body {
        Some(b) => {
            proof {
                reveal_strlit("");
            }
            assert(""@ =~= Seq::empty());
            Some(example_value(&b.schema, "", &mut optional_paths, &mut nullable_paths, 0))
        },
        None => None,
    };
    assert(optional_paths.deep_view() =~= template_of(endpoint@).optional_paths);
    assert(nullable_paths.deep_view() =~= template_of(endpoint@).nullable_paths);
    RequestTemplate {
        endpoint_id: endpoint.id.clone(),
        method: endpoint.method.clone(),
        path: endpoint.path.clone(),
        summary: copied(&endpoint.summary),
        path_params: slots(endpoint, ParamLocation::Path),
        query_params: slots(endpoint, ParamLocation::Query),
        header_params: slots(endpoint, ParamLocation::Header),
        body,
        body_schema: match &endpoint.body {
            Some(b) => Some(b.schema.clone()),
            None => None,
        },
        body_content_type: match &endpoint.body {
            Some(b) => Some(b.content_type.clone()),
            None => None,
        },
        optional_paths,
        nullable_paths,
        auth_required: endpoint.auth_required,
    }
}

/// Builds an example value for a schema, recording optional and nullable
/// paths on the way down. `path` is the dotted location of the node.
fn example_value(
    node: &SchemaNode,
    path: &str,
    optional: &mut Vec<String>,
    nullable: &mut Vec<String>,
    depth: usize,
) -> (r: JsonValue)
    requires
        depth <= MAX_EXAMPLE_DEPTH + 1,
    ensures
        r@ == example(node@, path@, depth as nat).value,
        final(optional).deep_view() == old(optional).deep_view() + example(
            node@,
            path@,
            depth as nat,
        ).optional,
        final(nullable).deep_view() == old(nullable).deep_view() + example(
            node@,
            path@,
            depth as nat,
        ).nullable,
    decreases node,
{
    let ghost e = example(node@, path@, depth as nat);
    let ghost optional_before = optional.deep_view();
    let ghost nullable_before = nullable.deep_view();
    if depth > MAX_EXAMPLE_DEPTH {
        assert(optional_before + e.optional =~= optional_before);
        assert(nullable_before + e.nullable =~= nullable_before);
        return degraded(node);
    }
    match node {
        SchemaNode::Object { fields, additional } => {
            let mut map = JsonMap::new();
            let ghost shapes = field_shapes(fields);
            let ghost own = members_example(Seq::empty(), shapes, 0, path@, depth as nat);
            assert(optional.deep_view() + own.1 == optional_before + own.1);
            for i in 0..fields.len()
                invariant
                    decreases_to!(node => fields),
                    depth <= MAX_EXAMPLE_DEPTH,
                    shapes == field_shapes(fields),
                    own == members_example(Seq::empty(), shapes, 0, path@, depth as nat),
                    members_example(map@, shapes, i as int, path@, depth as nat).0 == own.0,
                    optional.deep_view() + members_example(
                        map@,
                        shapes,
                        i as int,
                        path@,
                        depth as nat,
                    ).1 == optional_before + own.1,
                    nullable.deep_view() + members_example(
                        map@,
                        shapes,
                        i as int,
                        path@,
                        depth as nat,
                    ).2 == nullable_before + own.2,
            {
                let ghost here = members_example(map@, shapes, i as int, path@, depth as nat);
                let ghost o = optional.deep_view();
                let ghost n = nullable.deep_view();
                let field = &fields[i];
                assert(shapes[i as int] == field@);
                if !field.read_only {
                    let child_path = join_path(path, field.name.as_str());
                    if !field.required {
                        optional.push(child_path.clone());
                        assert(optional.deep_view() =~= o + seq![child_path@]);
                    } else {
                        assert(optional.deep_view() =~= o + Seq::<Seq<char>>::empty());
                    }
                    let ghost o2 = optional.deep_view();
                    if field.nullable {
                        nullable.push(child_path.clone());
                        assert(nullable.deep_view() =~= n + seq![child_path@]);
                    } else {
                        assert(nullable.deep_view() =~= n + Seq::<Seq<char>>::empty());
                    }
                    let ghost n2 = nullable.deep_view();
                    let ghost inner = field_example_of(
                        field@.default,
                        field@.schema,
                        child_path@,
                        depth as nat,
                    );
                    let value = match &field.default {
                        Some(value) => {
                            assert(o2 + inner.optional =~= o2);
                            assert(n2 + inner.nullable =~= n2);
                            value.clone()
                        },
                        None => example_value(
                            &field.schema,
                            child_path.as_str(),
                            optional,
                            nullable,
                            depth + 1,
                        ),
                    };
                    let ghost members = map@;
                    map.insert(field.name.clone(), value);
                    let ghost rest = members_example(
                        map@,
                        shapes,
                        i + 1,
                        path@,
                        depth as nat,
                    );
                    assert(map@ == put(members, field@.name, inner.value));
                    assert(optional.deep_view() == o2 + inner.optional);
                    assert(nullable.deep_view() == n2 + inner.nullable);
                    assert(optional.deep_view() + rest.1 =~= o + here.1);
                    assert(nullable.deep_view() + rest.2 =~= n + here.2);
                }
            }
            assert(map@ == own.0);
            assert(optional.deep_view() =~= optional_before + own.1);
            assert(nullable.deep_view() =~= nullable_before + own.2);
            if fields.len() == 0 {
                match additional {
                    Some(extra) => {
                        // An open map: show one illustrative key.
                        let value = example_value(extra, path, optional, nullable, depth + 1);
                        map.insert(owned("<key>"), value);
                        assert(optional.deep_view() =~= optional_before + e.optional);
                        assert(nullable.deep_view() =~= nullable_before + e.nullable);
                    },
                    None => {},
                }
            }
            JsonValue::Object(map)
        },
        SchemaNode::Array { item, .. } => {
            let item_path = cat(path, "[]");
            let inner = example_value(item, item_path.as_str(), optional, nullable, depth + 1);
            let mut items: Vec<JsonValue> = Vec::new();
            let ghost first = inner@;
            items.push(inner);
            assert(list_json(&items) =~= seq![first]);
            JsonValue::Array(items)
        },
        SchemaNode::OneOf { variants } => {
            assert(node@->OneOf_variants == variant_shapes(variants));
            if variants.len() > 0 {
                example_value(&variants[0].node, path, optional, nullable, depth + 1)
            } else {
                assert(optional_before + e.optional =~= optional_before);
                assert(nullable_before + e.nullable =~= nullable_before);
                JsonValue::Null
            }
        },
        _ => {
            assert(optional_before + e.optional =~= optional_before);
            assert(nullable_before + e.nullable =~= nullable_before);
            placeholder(node)
        },
    }
}

/// An example value of a schema.
pub fn example_of(node: &SchemaNode) -> (r: JsonValue)
    ensures
        r@ == example(node@, Seq::empty(), 0).value,
{
    let mut optional: Vec<String> = Vec::new();
    let mut nullable: Vec<String> = Vec::new();
    proof {
        reveal_strlit("");
    }
    assert(""@ =~= Seq::<char>::empty());
    example_value(node, "", &mut optional, &mut nullable, 0)
}

/// Leaf placeholder: enum/const pick a real value; scalars get a
/// `<type:format>` marker the caller is expected to replace.
pub fn placeholder(node: &SchemaNode) -> (r: JsonValue)
    ensures
        r@ == placeholder_of(node@),
{
    match node {
        SchemaNode::String { enum_values: Some(values), .. } => if values.len() > 0 {
            JsonValue::Text(values[0].clone())
        } else {
            JsonValue::Null
        },
        SchemaNode::String { enum_values: None, format: Some(f) } => JsonValue::Text(
            cat3("<string:", f.as_str(), ">"),
        ),
        SchemaNode::String { enum_values: None, format: None } => JsonValue::text("<string>"),
        SchemaNode::Integer { enum_values: Some(values), .. } => if values.len() > 0 {
            JsonValue::signed(values[0])
        } else {
            JsonValue::Null
        },
        SchemaNode::Integer { .. } => JsonValue::text("<integer>"),
        SchemaNode::Number { .. } => JsonValue::text("<number>"),
        SchemaNode::Boolean => JsonValue::Bool(false),
        SchemaNode::Const { value } => value.clone(),
        _ => degraded(node),
    }
}

fn degraded(node: &SchemaNode) -> (r: JsonValue)
    ensures
        r@ == cut_off(node@),
{
    match node {
        SchemaNode::Array { .. } => {
            let items: Vec<JsonValue> = Vec::new();
            assert(list_json(&items) =~= Seq::empty());
            JsonValue::Array(items)
        },
        _ => JsonValue::Object(JsonMap::new()),
    }
}

fn join_path(parent: &str, name: &str) -> (r: String)
    ensures
        r@ == dotted(parent@, name@),
{
    if parent.is_empty() {
        owned(name)
    } else {
        cat3(parent, ".", name)
    }
}

// ---------------------------------------------------------------- JSON form

/// The JSON form of a parameter of a template.
pub open spec fn slot_json(slot: SlotShape) -> Json {
    Json::Object(
        seq![
            ("name"@, Json::Text(slot.name)),
            ("required"@, Json::Bool(slot.required)),
            ("nullable"@, Json::Bool(slot.nullable)),
            ("value"@, slot.value),
            ("kind"@, Json::Text(slot.kind)),
        ] + optional_text("description"@, slot.description),
    )
}

pub open spec fn slots_json(slots: Seq<SlotShape>) -> Json {
    Json::Array(Seq::new(slots.len(), |i: int| slot_json(slots[i])))
}

/// The JSON form of a template.
pub open spec fn template_json(t: TemplateShape) -> Json {
    Json::Object(
        seq![
            ("endpoint_id"@, Json::Text(t.endpoint_id)),
            ("method"@, Json::Text(t.method)),
            ("path"@, Json::Text(t.path)),
        ] + optional_text("summary"@, t.summary) + seq![
            ("path_params"@, slots_json(t.path_params)),
            ("query_params"@, slots_json(t.query_params)),
            ("header_params"@, slots_json(t.header_params)),
        ] + optional_member("body"@, t.body) + optional_member(
            "body_schema"@,
            match t.body_schema {
                Some(schema) => Some(schema_json(schema)),
                None => None,
            },
        ) + optional_text("body_content_type"@, t.body_content_type) + seq![
            ("optional_paths"@, json_texts(t.optional_paths)),
            ("nullable_paths"@, json_texts(t.nullable_paths)),
            ("auth_required"@, Json::Bool(t.auth_required)),
        ],
    )
}

impl TemplateField {
    /// The JSON form of the parameter.
    pub fn to_json(&self) -> (r: JsonValue)
        ensures
            r@ == slot_json(self@),
    {
        let mut map = JsonMap::new();
        map.append_text("name", self.name.as_str());
        map.append("required", JsonValue::Bool(self.required));
        map.append("nullable", JsonValue::Bool(self.nullable));
        map.append("value", self.value.clone());
        map.append_text("kind", self.kind.as_str());
        append_optional_text(&mut map, "description", &self.description);
        assert(map@ =~= slot_json(self@)->Object_0);
        JsonValue::Object(map)
    }
}

fn slot_list(slots: &Vec<TemplateField>) -> (r: JsonValue)
    ensures
        r@ == slots_json(slots.deep_view()),
{
    let ghost shown = slots.deep_view();
    let mut out: Vec<JsonValue> = Vec::new();
    for i in 0..slots.len()
        invariant
            shown == slots.deep_view(),
            out@.len() == i,
            forall|k: int| 0 <= k < i ==> (#[trigger] out@[k])@ == slot_json(shown[k]),
    {
        assert(shown[i as int] == slots@[i as int]@);
        out.push(slots[i].to_json());
    }
    assert(list_json(&out) =~= slots_json(shown)->Array_0);
    JsonValue::Array(out)
}

impl RequestTemplate {
    /// The JSON form of the template.
    pub fn to_json(&self) -> (r: JsonValue)
        ensures
            r@ == template_json(self@),
    {
        let mut map = JsonMap::new();
        map.append_text("endpoint_id", self.endpoint_id.as_str());
        map.append_text("method", self.method.as_str());
        map.append_text("path", self.path.as_str());
        append_optional_text(&mut map, "summary", &self.summary);
        map.append("path_params", slot_list(&self.path_params));
        map.append("query_params", slot_list(&self.query_params));
        map.append("header_params", slot_list(&self.header_params));
        append_optional_value(&mut map, "body", &self.body);
        let schema = match &self.body_schema {
            Some(schema) => Some(schema.to_json()),
            None => None,
        };
        append_optional_value(&mut map, "body_schema", &schema);
        append_optional_text(&mut map, "body_content_type", &self.body_content_type);
        map.append("optional_paths", JsonValue::texts(&self.optional_paths));
        map.append("nullable_paths", JsonValue::texts(&self.nullable_paths));
        map.append("auth_required", JsonValue::Bool(self.auth_required));
        assert(map@ =~= template_json(self@)->Object_0);
        JsonValue::Object(map)
    }
}

// ---------------------------------------------------------------- laws

/// Fields that are read only never show up in an example body.
pub proof fn law_read_only_fields_are_hidden(
    members: Seq<(Seq<char>, Json)>,
    fields: Seq<FieldShape>,
    i: int,
    path: Seq<char>,
    depth: nat,
    name: Seq<char>,
)
    requires
        0 <= i,
        !has_key(members, name),
        forall|k: int|
            i <= k < fields.len() && (#[trigger] fields[k]).name == name ==> fields[k].read_only,
    ensures
        !has_key(members_example(members, fields, i, path, depth).0, name),
    decreases fields.len() - i,
{
    if i < fields.len() {
        if fields[i].read_only {
            law_read_only_fields_are_hidden(members, fields, i + 1, path, depth, name);
        } else {
            let child = dotted(path, fields[i].name);
            let inner = field_example_of(fields[i].default, fields[i].schema, child, depth);
            law_put_keeps_others(members, fields[i].name, inner.value, name);
            law_read_only_fields_are_hidden(
                put(members, fields[i].name, inner.value),
                fields,
                i + 1,
                path,
                depth,
                name,
            );
        }
    }
}

/// Every field that may be omitted is listed among the optional paths, and
/// every field that accepts null among the nullable paths.
pub proof fn law_optional_and_nullable_fields_are_listed(
    members: Seq<(Seq<char>, Json)>,
    fields: Seq<FieldShape>,
    i: int,
    path: Seq<char>,
    depth: nat,
    k: int,
)
    requires
        0 <= i <= k < fields.len(),
        !fields[k].read_only,
    ensures
        !fields[k].required ==> members_example(members, fields, i, path, depth).1.contains(
            dotted(path, fields[k].name),
        ),
        fields[k].nullable ==> members_example(members, fields, i, path, depth).2.contains(
            dotted(path, fields[k].name),
        ),
    decreases fields.len() - i,
{
    let here = members_example(members, fields, i, path, depth);
    if fields[i].read_only {
        law_optional_and_nullable_fields_are_listed(members, fields, i + 1, path, depth, k);
    } else {
        let child = dotted(path, fields[i].name);
        let inner = field_example_of(fields[i].default, fields[i].schema, child, depth);
        let next = put(members, fields[i].name, inner.value);
        let rest = members_example(next, fields, i + 1, path, depth);
        if i == k {
            if !fields[k].required {
                assert(here.1[0] == child);
            }
            if fields[k].nullable {
                assert(here.2[0] == child);
            }
        } else {
            law_optional_and_nullable_fields_are_listed(next, fields, i + 1, path, depth, k);
            let wanted = dotted(path, fields[k].name);
            if !fields[k].required {
                let at = choose|at: int| 0 <= at < rest.1.len() && rest.1[at] == wanted;
                assert(here.1[here.1.len() - rest.1.len() + at] == wanted);
            }
            if fields[k].nullable {
                let at = choose|at: int| 0 <= at < rest.2.len() && rest.2[at] == wanted;
                assert(here.2[here.2.len() - rest.2.len() + at] == wanted);
            }
        }
    }
}

/// The slots describe the parameters, one each, in order: name, flags, kind and
/// description are the parameter's own, and so is its default where it has one.
pub open spec fn describe(slots: Seq<SlotShape>, params: Seq<ParamShape>) -> bool {
    &&& slots.len() == params.len()
    &&& forall|k: int|
        #![trigger slots[k]]
        0 <= k < slots.len() ==> {
            &&& slots[k].name == params[k].name
            &&& slots[k].required == params[k].required
            &&& slots[k].nullable == params[k].nullable
            &&& slots[k].description == params[k].description
            &&& slots[k].kind == params[k].schema.label()
            &&& params[k].default matches Some(value) ==> slots[k].value == value
        }
}

/// A template lists the parameters of an endpoint where they belong: those sent
/// in the path under path params, and likewise for query and header params.
/// Everything else that names the request is the endpoint's own.
pub proof fn law_template_describes_the_endpoint(endpoint: EndpointShape)
    ensures
        ({
            let t = template_of(endpoint);
            &&& describe(t.path_params, endpoint.params.filter(located(ParamLocation::Path)))
            &&& describe(t.query_params, endpoint.params.filter(located(ParamLocation::Query)))
            &&& describe(t.header_params, endpoint.params.filter(located(ParamLocation::Header)))
            &&& t.endpoint_id == endpoint.id
            &&& t.method == endpoint.method
            &&& t.path == endpoint.path
            &&& t.summary == endpoint.summary
            &&& t.auth_required == endpoint.auth_required
            &&& endpoint.body matches Some(body) ==> {
                let shown = example(body.schema, Seq::empty(), 0);
                &&& t.body == Some(shown.value)
                &&& t.optional_paths == shown.optional
                &&& t.nullable_paths == shown.nullable
                &&& t.body_schema == Some(body.schema)
                &&& t.body_content_type == Some(body.content_type)
            }
            &&& endpoint.body is None ==> t.body is None && t.body_schema is None
                && t.body_content_type is None && t.optional_paths.len() == 0
                && t.nullable_paths.len() == 0
        }),
{
    law_params_of_a_location(endpoint.params, ParamLocation::Path);
    law_params_of_a_location(endpoint.params, ParamLocation::Query);
    law_params_of_a_location(endpoint.params, ParamLocation::Header);
}

/// The slots of a template for one place.
pub open spec fn slots_in(template: TemplateShape, location: ParamLocation) -> Seq<SlotShape> {
    match location {
        ParamLocation::Path => template.path_params,
        ParamLocation::Query => template.query_params,
        ParamLocation::Header => template.header_params,
    }
}

/// One of the slots has the name.
pub open spec fn names_slot(slots: Seq<SlotShape>, name: Seq<char>) -> bool {
    exists|k: int| 0 <= k < slots.len() && (#[trigger] slots[k]).name == name
}

/// One of the parameters has the name and is sent in the place.
pub open spec fn names_param(
    params: Seq<ParamShape>,
    location: ParamLocation,
    name: Seq<char>,
) -> bool {
    exists|i: int|
        0 <= i < params.len() && (#[trigger] params[i]).location == location && params[i].name
            == name
}

/// A name is listed among the slots of a place exactly where the endpoint has a
/// parameter of that name in that place.
pub proof fn law_template_names_each_param(
    endpoint: EndpointShape,
    location: ParamLocation,
    name: Seq<char>,
)
    ensures
        names_slot(slots_in(template_of(endpoint), location), name) <==> names_param(
            endpoint.params,
            location,
            name,
        ),
{
    law_template_describes_the_endpoint(endpoint);
    let params = endpoint.params;
    let found = params.filter(located(location));
    let slots = slots_in(template_of(endpoint), location);
    assert(describe(slots, found));
    if names_slot(slots, name) {
        let k = choose|k: int| 0 <= k < slots.len() && (#[trigger] slots[k]).name == name;
        lemma_filtered_from(params, located(location), k);
        let i = choose|i: int| 0 <= i < params.len() && params[i] == found[k];
        assert(params[i].name == name);
        assert(names_param(params, location, name));
    }
    if names_param(params, location, name) {
        let i = choose|i: int|
            0 <= i < params.len() && (#[trigger] params[i]).location == location && params[i].name
                == name;
        let k = lemma_filter_keeps(params, located(location), i);
        assert(slots[k].name == name);
        assert(names_slot(slots, name));
    }
}

/// The placeholder of a parameter without a default shows its type: the first of
/// its listed values, its constant, or a marker with its type and format.
pub proof fn law_placeholders_show_the_type(param: ParamShape)
    requires
        param.default is None,
    ensures
        ({
            let shown = slot_of(param).value;
            match param.schema {
                Schema::String { enum_values: Some(values), .. } => values.len() > 0 ==> shown
                    == Json::Text(values[0]),
                Schema::String { format: Some(f), .. } => shown == Json::Text(
                    "<string:"@ + f + ">"@,
                ),
                Schema::String { .. } => shown == Json::Text("<string>"@),
                Schema::Integer { enum_values: Some(values), .. } => values.len() > 0 ==> shown
                    == Json::Int(values[0] as int),
                Schema::Integer { .. } => shown == Json::Text("<integer>"@),
                Schema::Number { .. } => shown == Json::Text("<number>"@),
                Schema::Boolean => shown == Json::Bool(false),
                Schema::Const { value } => shown == value,
                Schema::Array { .. } => shown == Json::Array(Seq::empty()),
                _ => shown == Json::Object(Seq::empty()),
            }
        }),
{
}

/// The name of a field is looked up among fields that are not read only.
pub open spec fn shows(fields: Seq<FieldShape>, k: int) -> bool {
    &&& 0 <= k < fields.len()
    &&& !fields[k].read_only
    &&& forall|j: int|
        k < j < fields.len() && !(#[trigger] fields[j]).read_only ==> fields[j].name
            != fields[k].name
}

proof fn lemma_members_shown(
    members: Seq<(Seq<char>, Json)>,
    fields: Seq<FieldShape>,
    i: int,
    path: Seq<char>,
    depth: nat,
    k: int,
)
    requires
        0 <= i <= k,
        shows(fields, k),
    ensures
        lookup(members_example(members, fields, i, path, depth).0, fields[k].name) == Some(
            match fields[k].default {
                Some(value) => value,
                None => example(
                    fields[k].schema,
                    dotted(path, fields[k].name),
                    depth + 1,
                ).value,
            },
        ),
    decreases fields.len() - i,
{
    if fields[i].read_only {
        lemma_members_shown(members, fields, i + 1, path, depth, k);
    } else {
        let child = dotted(path, fields[i].name);
        let inner = field_example_of(fields[i].default, fields[i].schema, child, depth);
        let next = put(members, fields[i].name, inner.value);
        if i == k {
            law_lookup_after_put(members, fields[i].name, inner.value);
            lemma_members_kept(next, fields, i + 1, path, depth, fields[k].name);
        } else {
            lemma_members_shown(next, fields, i + 1, path, depth, k);
        }
    }
}

proof fn lemma_members_kept(
    members: Seq<(Seq<char>, Json)>,
    fields: Seq<FieldShape>,
    i: int,
    path: Seq<char>,
    depth: nat,
    name: Seq<char>,
)
    requires
        0 <= i,
        forall|j: int|
            i <= j < fields.len() && !(#[trigger] fields[j]).read_only ==> fields[j].name != name,
    ensures
        lookup(members_example(members, fields, i, path, depth).0, name) == lookup(members, name),
    decreases fields.len() - i,
{
    if i < fields.len() {
        if fields[i].read_only {
            lemma_members_kept(members, fields, i + 1, path, depth, name);
        } else {
            let child = dotted(path, fields[i].name);
            let inner = field_example_of(fields[i].default, fields[i].schema, child, depth);
            law_put_keeps_others(members, fields[i].name, inner.value, name);
            lemma_members_kept(
                put(members, fields[i].name, inner.value),
                fields,
                i + 1,
                path,
                depth,
                name,
            );
        }
    }
}

/// An example body has every field that can be written: its default where it has
/// one, else an example of its own schema.
pub proof fn law_example_has_every_field(node: Schema, path: Seq<char>, depth: nat, k: int)
    requires
        depth <= MAX_EXAMPLE_DEPTH,
        node is Object,
        shows(node->Object_fields, k),
    ensures
        ({
            let field = node->Object_fields[k];
            &&& example(node, path, depth).value is Object
            &&& lookup(example(node, path, depth).value->Object_0, field.name) == Some(
                match field.default {
                    Some(value) => value,
                    None => example(
                        field.schema,
                        if path.len() == 0 {
                            field.name
                        } else {
                            path + "."@ + field.name
                        },
                        depth + 1,
                    ).value,
                },
            )
            &&& !field.required ==> example(node, path, depth).optional.contains(
                if path.len() == 0 {
                    field.name
                } else {
                    path + "."@ + field.name
                },
            )
            &&& field.nullable ==> example(node, path, depth).nullable.contains(
                if path.len() == 0 {
                    field.name
                } else {
                    path + "."@ + field.name
                },
            )
        }),
{
    let fields = node->Object_fields;
    lemma_members_shown(Seq::empty(), fields, 0, path, depth, k);
    law_optional_and_nullable_fields_are_listed(Seq::empty(), fields, 0, path, depth, k);
}

/// An example array holds one example item, whose paths are marked as those of
/// an item.
pub proof fn law_example_array_holds_an_item(node: Schema, path: Seq<char>, depth: nat)
    requires
        depth <= MAX_EXAMPLE_DEPTH,
        node is Array,
    ensures
        ({
            let inner = example(*node->Array_item, path + "[]"@, depth + 1);
            &&& example(node, path, depth).value == Json::Array(seq![inner.value])
            &&& example(node, path, depth).optional == inner.optional
            &&& example(node, path, depth).nullable == inner.nullable
        }),
{
}

/// The field can be written.
pub open spec fn writable() -> spec_fn(FieldShape) -> bool {
    |field: FieldShape| !field.read_only
}

/// The paths that a field adds to those that may be left out: its own where it is
/// not required, then those within its example.
pub open spec fn optional_under(path: Seq<char>, depth: nat) -> spec_fn(FieldShape) -> Seq<
    Seq<char>,
> {
    |field: FieldShape|
        (if field.required {
            Seq::empty()
        } else {
            seq![dotted(path, field.name)]
        }) + (if field.default is Some {
            Seq::empty()
        } else {
            example(field.schema, dotted(path, field.name), depth + 1).optional
        })
}

/// The paths that a field adds to those that accept null: its own where it is
/// nullable, then those within its example.
pub open spec fn nullable_under(path: Seq<char>, depth: nat) -> spec_fn(FieldShape) -> Seq<
    Seq<char>,
> {
    |field: FieldShape|
        (if field.nullable {
            seq![dotted(path, field.name)]
        } else {
            Seq::empty()
        }) + (if field.default is Some {
            Seq::empty()
        } else {
            example(field.schema, dotted(path, field.name), depth + 1).nullable
        })
}

proof fn lemma_paths(
    members: Seq<(Seq<char>, Json)>,
    fields: Seq<FieldShape>,
    i: int,
    path: Seq<char>,
    depth: nat,
)
    requires
        0 <= i <= fields.len(),
    ensures
        members_example(members, fields, i, path, depth).1 == fields.skip(i).filter(
            writable(),
        ).map_values(optional_under(path, depth)).flatten(),
        members_example(members, fields, i, path, depth).2 == fields.skip(i).filter(
            writable(),
        ).map_values(nullable_under(path, depth)).flatten(),
    decreases fields.len() - i,
{
    lemma_filter_from(fields, i, writable());
    let shown = fields.skip(i).filter(writable());
    let optional = shown.map_values(optional_under(path, depth));
    let nullable = shown.map_values(nullable_under(path, depth));
    if i < fields.len() {
        let field = fields[i];
        let rest = fields.skip(i + 1).filter(writable());
        if field.read_only {
            lemma_paths(members, fields, i + 1, path, depth);
            assert(shown =~= rest);
        } else {
            let child = dotted(path, field.name);
            let inner = field_example_of(field.default, field.schema, child, depth);
            let next = put(members, field.name, inner.value);
            lemma_paths(next, fields, i + 1, path, depth);
            assert(shown =~= seq![field] + rest);
            assert(optional.drop_first() =~= rest.map_values(optional_under(path, depth)));
            assert(nullable.drop_first() =~= rest.map_values(nullable_under(path, depth)));
            assert(optional.first() =~= (if field.required {
                Seq::empty()
            } else {
                seq![child]
            }) + inner.optional);
            assert(nullable.first() =~= (if field.nullable {
                seq![child]
            } else {
                Seq::empty()
            }) + inner.nullable);
        }
    } else {
        assert(optional =~= Seq::empty());
        assert(nullable =~= Seq::empty());
    }
}

/// The paths that may be left out are those of the optional fields, and those that
/// accept null are those of the nullable fields, at every depth, and no others.
pub proof fn law_paths_are_those_of_the_fields(node: Schema, path: Seq<char>, depth: nat)
    requires
        depth <= MAX_EXAMPLE_DEPTH,
        node is Object,
        node->Object_fields.len() > 0 || node->Object_additional is None,
    ensures
        example(node, path, depth).optional == node->Object_fields.filter(writable()).map_values(
            optional_under(path, depth),
        ).flatten(),
        example(node, path, depth).nullable == node->Object_fields.filter(writable()).map_values(
            nullable_under(path, depth),
        ).flatten(),
{
    let fields = node->Object_fields;
    lemma_paths(Seq::empty(), fields, 0, path, depth);
    assert(fields.skip(0) =~= fields);
}

/// An open map shows one entry, a choice its first variant, and a scalar its
/// placeholder; none of them adds a path of its own.
pub proof fn law_other_examples(node: Schema, path: Seq<char>, depth: nat)
    requires
        depth <= MAX_EXAMPLE_DEPTH,
    ensures
        ({
            let shown = example(node, path, depth);
            &&& node is Object && node->Object_fields.len() == 0 && node->Object_additional is Some
                ==> shown.value == Json::Object(
                seq![("<key>"@, example(*node->Object_additional->0, path, depth + 1).value)],
            )
            &&& node is OneOf && node->OneOf_variants.len() > 0 ==> shown == example(
                node->OneOf_variants[0].node,
                path,
                depth + 1,
            )
            &&& node is Boolean ==> shown.value == Json::Bool(false)
            &&& node matches Schema::Const { value } ==> shown.value == value
            &&& node is Any ==> shown.value == Json::Object(Seq::empty())
            &&& !(node is Object) && !(node is Array) && !(node is OneOf) ==> shown.optional.len()
                == 0 && shown.nullable.len() == 0
        }),
{
    match node {
        Schema::Object { fields, additional: Some(extra) } => {
            if fields.len() == 0 {
                let own = members_example(Seq::empty(), fields, 0, path, depth);
                assert(own.0 =~= Seq::<(Seq<char>, Json)>::empty());
                let value = example(*extra, path, depth + 1).value;
                assert(put(own.0, "<key>"@, value) =~= seq![("<key>"@, value)]);
            }
        },
        _ => {},
    }
}

/// The schema inside `n` arrays.
pub open spec fn in_arrays(node: Schema, n: nat) -> Schema
    decreases n,
{
    if n == 0 {
        node
    } else {
        Schema::Array {
            item: Box::new(in_arrays(node, (n - 1) as nat)),
            item_nullable: false,
            min_items: None,
            max_items: None,
        }
    }
}

/// The value inside `n` arrays of one item.
pub open spec fn first_inside(value: Json, n: nat) -> Option<Json>
    decreases n,
{
    if n == 0 {
        Some(value)
    } else {
        match value {
            Json::Array(items) => if items.len() == 1 {
                first_inside(items[0], (n - 1) as nat)
            } else {
                None
            },
            _ => None,
        }
    }
}

/// The path of an item inside `n` arrays.
pub open spec fn item_path(path: Seq<char>, n: nat) -> Seq<char>
    decreases n,
{
    if n == 0 {
        path
    } else {
        item_path(path + "[]"@, (n - 1) as nat)
    }
}

/// Examples are expanded at least six levels deep.
pub proof fn law_examples_are_expanded(node: Schema, path: Seq<char>, depth: nat, n: nat)
    requires
        depth + n <= 6,
    ensures
        first_inside(example(in_arrays(node, n), path, depth).value, n) == Some(
            example(node, item_path(path, n), depth + n).value,
        ),
    decreases n,
{
    if n > 0 {
        law_examples_are_expanded(node, path + "[]"@, depth + 1, (n - 1) as nat);
        law_example_array_holds_an_item(in_arrays(node, n), path, depth);
    }
}

/// What nests deeper than examples go is left blank: an array without items, or an
/// object without members, with nothing to omit in it.
pub proof fn law_deep_examples_are_blank(node: Schema, path: Seq<char>, depth: nat)
    requires
        depth > 6,
    ensures
        node is Array ==> example(node, path, depth).value == Json::Array(Seq::empty()),
        !(node is Array) ==> example(node, path, depth).value == Json::Object(Seq::empty()),
        example(node, path, depth).optional.len() == 0,
        example(node, path, depth).nullable.len() == 0,
{
}

} // verus!
