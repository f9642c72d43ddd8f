//! What the JSON forms of schemas and templates hold, by name.

use super::schema_node::{
    field_json, fields_json, json_texts, optional_member, optional_text, schema_json,
    variants_json, FieldShape, Schema,
};
use super::template::{slot_json, slots_json, template_json, SlotShape, TemplateShape};
use crate::json::{lookup, position_from, Json};
use vstd::prelude::*;
use vstd::string::*;

verus! {

/// The member of an object, if it has it.
pub open spec fn under(form: Json, name: Seq<char>) -> Option<Json> {
    match form {
        Json::Object(members) => lookup(members, name),
        _ => None,
    }
}

/// An optional text as an optional document.
pub open spec fn as_text(text: Option<Seq<char>>) -> Option<Json> {
    match text {
        Some(text) => Some(Json::Text(text)),
        None => None,
    }
}

proof fn lemma_position_in_front(
    a: Seq<(Seq<char>, Json)>,
    b: Seq<(Seq<char>, Json)>,
    name: Seq<char>,
    i: int,
)
    requires
        0 <= i <= a.len(),
    ensures
        position_from(a + b, name, i) == (match position_from(a, name, i) {
            Some(p) => Some(p),
            None => match position_from(b, name, 0) {
                Some(p) => Some(a.len() + p),
                None => None,
            },
        }),
    decreases a.len() - i,
{
    if i < a.len() {
        assert((a + b)[i] == a[i]);
        if a[i].0 != name {
            lemma_position_in_front(a, b, name, i + 1);
        }
    } else {
        lemma_position_behind(a, b, name, 0);
    }
}

proof fn lemma_position_behind(
    a: Seq<(Seq<char>, Json)>,
    b: Seq<(Seq<char>, Json)>,
    name: Seq<char>,
    i: int,
)
    requires
        0 <= i <= b.len(),
    ensures
        position_from(a + b, name, a.len() + i) == (match position_from(b, name, i) {
            Some(p) => Some(a.len() + p),
            None => None::<int>,
        }),
    decreases b.len() - i,
{
    if i < b.len() {
        assert((a + b)[a.len() + i] == b[i]);
        if b[i].0 != name {
            lemma_position_behind(a, b, name, i + 1);
        }
    }
}

proof fn lemma_first_position(members: Seq<(Seq<char>, Json)>, name: Seq<char>, i: int)
    requires
        0 <= i,
    ensures
        position_from(members, name, i) matches Some(p) ==> i <= p < members.len(),
    decreases members.len() - i,
{
    if i < members.len() && members[i].0 != name {
        lemma_first_position(members, name, i + 1);
    }
}

/// Among members in two parts, the first part is looked through first.
pub proof fn lemma_lookup_in_parts(
    a: Seq<(Seq<char>, Json)>,
    b: Seq<(Seq<char>, Json)>,
    name: Seq<char>,
)
    ensures
        lookup(a + b, name) == (if lookup(a, name) is Some {
            lookup(a, name)
        } else {
            lookup(b, name)
        }),
{
    lemma_position_in_front(a, b, name, 0);
    lemma_first_position(a, name, 0);
    lemma_first_position(b, name, 0);
}

proof fn lemma_one(name: Seq<char>, value: Json, other: Seq<char>)
    ensures
        lookup(seq![(name, value)], other) == (if name == other {
            Some(value)
        } else {
            None
        }),
        lookup(Seq::empty(), other) is None,
{
    reveal_with_fuel(position_from, 3);
}

proof fn lemma_optional(name: Seq<char>, value: Option<Json>, text: Option<Seq<char>>, other: Seq<char>)
    ensures
        lookup(optional_member(name, value), other) == (if name == other {
            value
        } else {
            None
        }),
        lookup(optional_text(name, text), other) == (if name == other {
            as_text(text)
        } else {
            None
        }),
{
    lemma_one(name, Json::Null, other);
    if value is Some {
        lemma_one(name, value->0, other);
    }
    if text is Some {
        lemma_one(name, Json::Text(text->0), other);
    }
}

// ---------------------------------------------------------------- fields

proof fn lemma_field_names()
    ensures
        "name"@ != "schema"@ && "name"@ != "required"@ && "name"@ != "nullable"@ && "name"@
            != "default"@ && "name"@ != "description"@ && "name"@ != "read_only"@,
        "schema"@ != "required"@ && "schema"@ != "nullable"@ && "schema"@ != "default"@
            && "schema"@ != "description"@ && "schema"@ != "read_only"@,
        "required"@ != "nullable"@ && "required"@ != "default"@ && "required"@ != "description"@
            && "required"@ != "read_only"@,
        "nullable"@ != "default"@ && "nullable"@ != "description"@ && "nullable"@ != "read_only"@,
        "default"@ != "description"@ && "default"@ != "read_only"@,
        "description"@ != "read_only"@,
{
    reveal_strlit("name");
    reveal_strlit("schema");
    reveal_strlit("required");
    reveal_strlit("nullable");
    reveal_strlit("default");
    reveal_strlit("description");
    reveal_strlit("read_only");
    assert("name"@.len() == 4 && "schema"@.len() == 6 && "required"@.len() == 8 && "nullable"@.len()
        == 8 && "default"@.len() == 7 && "description"@.len() == 11 && "read_only"@.len() == 9);
    assert("required"@[0] == 'r' && "nullable"@[0] == 'n');
}

/// The form of a field has its name, its schema and its flags, and its default and
/// description where it has them.
pub proof fn law_field_form(field: FieldShape)
    ensures
        under(field_json(field), "name"@) == Some(Json::Text(field.name)),
        under(field_json(field), "schema"@) == Some(schema_json(field.schema)),
        under(field_json(field), "required"@) == Some(Json::Bool(field.required)),
        under(field_json(field), "nullable"@) == Some(Json::Bool(field.nullable)),
        under(field_json(field), "default"@) == field.default,
        under(field_json(field), "description"@) == as_text(field.description),
        under(field_json(field), "read_only"@) == (if field.read_only {
            Some(Json::Bool(true))
        } else {
            None
        }),
{
    lemma_field_names();
    let head = seq![
        ("name"@, Json::Text(field.name)),
        ("schema"@, schema_json(field.schema)),
        ("required"@, Json::Bool(field.required)),
        ("nullable"@, Json::Bool(field.nullable)),
    ];
    let default = optional_member("default"@, field.default);
    let description = optional_text("description"@, field.description);
    let last = if field.read_only {
        seq![("read_only"@, Json::Bool(true))]
    } else {
        Seq::empty()
    };
    assert forall|name: Seq<char>| #[trigger] under(field_json(field), name) == (if lookup(
        head,
        name,
    ) is Some {
        lookup(head, name)
    } else if lookup(default, name) is Some {
        lookup(default, name)
    } else if lookup(description, name) is Some {
        lookup(description, name)
    } else {
        lookup(last, name)
    }) by {
        lemma_lookup_in_parts(head + default + description, last, name);
        lemma_lookup_in_parts(head + default, description, name);
        lemma_lookup_in_parts(head, default, name);
    }
    reveal_with_fuel(position_from, 5);
    lemma_optional("default"@, field.default, field.description, "default"@);
    lemma_optional("default"@, field.default, field.description, "description"@);
    lemma_optional("default"@, field.default, field.description, "read_only"@);
    lemma_optional("description"@, field.default, field.description, "default"@);
    lemma_optional("description"@, field.default, field.description, "description"@);
    lemma_optional("description"@, field.default, field.description, "read_only"@);
    lemma_one("read_only"@, Json::Bool(true), "default"@);
    lemma_one("read_only"@, Json::Bool(true), "description"@);
    lemma_one("read_only"@, Json::Bool(true), "read_only"@);
}

// ---------------------------------------------------------------- schemas

proof fn lemma_schema_names()
    ensures
        "kind"@ != "fields"@ && "kind"@ != "additional"@ && "kind"@ != "item"@ && "kind"@
            != "min_items"@ && "kind"@ != "max_items"@ && "kind"@ != "enum_values"@ && "kind"@
            != "format"@ && "kind"@ != "minimum"@ && "kind"@ != "maximum"@ && "kind"@
            != "variants"@ && "kind"@ != "value"@,
        "fields"@ != "additional"@,
        "item"@ != "min_items"@ && "item"@ != "max_items"@ && "min_items"@ != "max_items"@,
        "enum_values"@ != "format"@ && "enum_values"@ != "minimum"@ && "enum_values"@
            != "maximum"@,
        "minimum"@ != "maximum"@,
{
    reveal_strlit("kind");
    reveal_strlit("fields");
    reveal_strlit("additional");
    reveal_strlit("item");
    reveal_strlit("min_items");
    reveal_strlit("max_items");
    reveal_strlit("enum_values");
    reveal_strlit("format");
    reveal_strlit("minimum");
    reveal_strlit("maximum");
    reveal_strlit("variants");
    reveal_strlit("value");
    assert("kind"@.len() == 4 && "item"@.len() == 4 && "kind"@[0] == 'k' && "item"@[0] == 'i');
    assert("min_items"@[1] == 'i' && "max_items"@[1] == 'a');
    assert("minimum"@[1] == 'i' && "maximum"@[1] == 'a');
    assert("value"@.len() == 5 && "fields"@.len() == 6 && "additional"@.len() == 10);
    assert("enum_values"@.len() == 11 && "format"@.len() == 6 && "variants"@.len() == 8);
    assert("minimum"@.len() == 7 && "min_items"@.len() == 9);
}

/// The form of a schema names its kind, and holds its parts and bounds under their
/// names.
pub proof fn law_schema_form(node: Schema)
    ensures
        match node {
            Schema::Object { fields, additional } => {
                &&& under(schema_json(node), "kind"@) == Some(Json::Text("object"@))
                &&& under(schema_json(node), "fields"@) matches Some(Json::Array(items))
                    && items.len() == fields.len() && forall|k: int|
                    0 <= k < fields.len() ==> #[trigger] items[k] == field_json(fields[k])
                &&& under(schema_json(node), "additional"@) == (match additional {
                    Some(extra) => Some(schema_json(*extra)),
                    None => None,
                })
            },
            Schema::Array { item, min_items, max_items, .. } => {
                &&& under(schema_json(node), "kind"@) == Some(Json::Text("array"@))
                &&& under(schema_json(node), "item"@) == Some(schema_json(*item))
                &&& under(schema_json(node), "min_items"@) == (match min_items {
                    Some(n) => Some(Json::Int(n as int)),
                    None => None,
                })
                &&& under(schema_json(node), "max_items"@) == (match max_items {
                    Some(n) => Some(Json::Int(n as int)),
                    None => None,
                })
            },
            Schema::String { enum_values, format } => {
                &&& under(schema_json(node), "kind"@) == Some(Json::Text("string"@))
                &&& under(schema_json(node), "format"@) == as_text(format)
                &&& match enum_values {
                    Some(values) => under(schema_json(node), "enum_values"@) matches Some(
                        Json::Array(items),
                    ) && items.len() == values.len() && forall|k: int|
                        0 <= k < values.len() ==> #[trigger] items[k] == Json::Text(values[k]),
                    None => under(schema_json(node), "enum_values"@) is None,
                }
            },
            Schema::Integer { minimum, maximum, enum_values } => {
                &&& under(schema_json(node), "kind"@) == Some(Json::Text("integer"@))
                &&& under(schema_json(node), "minimum"@) == (match minimum {
                    Some(n) => Some(Json::Int(n as int)),
                    None => None,
                })
                &&& under(schema_json(node), "maximum"@) == (match maximum {
                    Some(n) => Some(Json::Int(n as int)),
                    None => None,
                })
                &&& match enum_values {
                    Some(values) => under(schema_json(node), "enum_values"@) matches Some(
                        Json::Array(items),
                    ) && items.len() == values.len() && forall|k: int|
                        0 <= k < values.len() ==> #[trigger] items[k] == Json::Int(
                            values[k] as int,
                        ),
                    None => under(schema_json(node), "enum_values"@) is None,
                }
            },
            Schema::Number { minimum, maximum } => {
                &&& under(schema_json(node), "kind"@) == Some(Json::Text("number"@))
                &&& under(schema_json(node), "minimum"@) == (match minimum {
                    Some(n) => Some(Json::Float(n)),
                    None => None,
                })
                &&& under(schema_json(node), "maximum"@) == (match maximum {
                    Some(n) => Some(Json::Float(n)),
                    None => None,
                })
            },
            Schema::Boolean => under(schema_json(node), "kind"@) == Some(Json::Text("boolean"@)),
            Schema::OneOf { variants } => {
                &&& under(schema_json(node), "kind"@) == Some(Json::Text("one_of"@))
                &&& under(schema_json(node), "variants"@) matches Some(Json::Array(items))
                    && items.len() == variants.len() && forall|k: int|
                    0 <= k < variants.len() ==> #[trigger] items[k] == Json::Object(
                        seq![
                            ("label"@, Json::Text(variants[k].label)),
                            ("node"@, schema_json(variants[k].node)),
                        ],
                    )
            },
            Schema::Const { value } => {
                &&& under(schema_json(node), "kind"@) == Some(Json::Text("const"@))
                &&& under(schema_json(node), "value"@) == Some(value)
            },
            Schema::Any => under(schema_json(node), "kind"@) == Some(Json::Text("any"@)),
        },
{
    lemma_schema_names();
    reveal_with_fuel(position_from, 5);
    match node {
        Schema::Object { fields, additional } => {
            let items = fields_json(fields);
            assert(items.len() == fields.len());
            assert forall|k: int| 0 <= k < fields.len() implies #[trigger] items[k] == field_json(
                fields[k],
            ) by {}
            assert(under(schema_json(node), "fields"@) == Some(Json::Array(items)));
        },
        Schema::OneOf { variants } => {
            let items = variants_json(variants);
            assert(items.len() == variants.len());
            assert forall|k: int| 0 <= k < variants.len() implies #[trigger] items[k]
                == Json::Object(
                seq![
                    ("label"@, Json::Text(variants[k].label)),
                    ("node"@, schema_json(variants[k].node)),
                ],
            ) by {}
            assert(under(schema_json(node), "variants"@) == Some(Json::Array(items)));
        },
        _ => {},
    }
}

// ---------------------------------------------------------------- templates

/// The form of a parameter slot has every part of it under its name.
pub proof fn law_slot_form(slot: SlotShape)
    ensures
        under(slot_json(slot), "name"@) == Some(Json::Text(slot.name)),
        under(slot_json(slot), "required"@) == Some(Json::Bool(slot.required)),
        under(slot_json(slot), "nullable"@) == Some(Json::Bool(slot.nullable)),
        under(slot_json(slot), "value"@) == Some(slot.value),
        under(slot_json(slot), "kind"@) == Some(Json::Text(slot.kind)),
        under(slot_json(slot), "description"@) == as_text(slot.description),
{
    reveal_strlit("name");
    reveal_strlit("required");
    reveal_strlit("nullable");
    reveal_strlit("value");
    reveal_strlit("kind");
    reveal_strlit("description");
    assert("name"@[0] == 'n' && "kind"@[0] == 'k' && "required"@[0] == 'r' && "nullable"@[0]
        == 'n' && "value"@[0] == 'v' && "description"@[0] == 'd');
    assert("name"@.len() == 4 && "nullable"@.len() == 8);
    reveal_with_fuel(position_from, 7);
}

/// The names that the form of a template may have.
spec fn template_names() -> Seq<Seq<char>> {
    seq![
        "endpoint_id"@,
        "method"@,
        "path"@,
        "summary"@,
        "path_params"@,
        "query_params"@,
        "header_params"@,
        "body"@,
        "body_schema"@,
        "body_content_type"@,
        "optional_paths"@,
        "nullable_paths"@,
        "auth_required"@,
    ]
}

proof fn lemma_template_names()
    ensures
        forall|i: int, j: int|
            0 <= i < j < 13 ==> #[trigger] template_names()[i] != #[trigger] template_names()[j],
{
    reveal_strlit("endpoint_id");
    reveal_strlit("method");
    reveal_strlit("path");
    reveal_strlit("summary");
    reveal_strlit("path_params");
    reveal_strlit("query_params");
    reveal_strlit("header_params");
    reveal_strlit("body");
    reveal_strlit("body_schema");
    reveal_strlit("body_content_type");
    reveal_strlit("optional_paths");
    reveal_strlit("nullable_paths");
    reveal_strlit("auth_required");
    assert("endpoint_id"@.len() == 11 && "method"@.len() == 6 && "path"@.len() == 4
        && "summary"@.len() == 7 && "path_params"@.len() == 11 && "query_params"@.len() == 12
        && "header_params"@.len() == 13 && "body"@.len() == 4 && "body_schema"@.len() == 11
        && "body_content_type"@.len() == 17 && "optional_paths"@.len() == 14
        && "nullable_paths"@.len() == 14 && "auth_required"@.len() == 13);
    assert("endpoint_id"@[0] == 'e' && "path_params"@[0] == 'p' && "body_schema"@[0] == 'b');
    assert("path"@[0] == 'p' && "body"@[0] == 'b');
    assert("header_params"@[0] == 'h' && "auth_required"@[0] == 'a');
    assert("optional_paths"@[0] == 'o' && "nullable_paths"@[0] == 'n');
}

/// The form of a template has every part of it under its name; what a template
/// lacks is left out.
pub proof fn law_template_form(t: TemplateShape)
    ensures
        under(template_json(t), "endpoint_id"@) == Some(Json::Text(t.endpoint_id)),
        under(template_json(t), "method"@) == Some(Json::Text(t.method)),
        under(template_json(t), "path"@) == Some(Json::Text(t.path)),
        under(template_json(t), "summary"@) == as_text(t.summary),
        under(template_json(t), "path_params"@) == Some(slots_json(t.path_params)),
        under(template_json(t), "query_params"@) == Some(slots_json(t.query_params)),
        under(template_json(t), "header_params"@) == Some(slots_json(t.header_params)),
        under(template_json(t), "body"@) == t.body,
        under(template_json(t), "body_schema"@) == (match t.body_schema {
            Some(schema) => Some(schema_json(schema)),
            None => None,
        }),
        under(template_json(t), "body_content_type"@) == as_text(t.body_content_type),
        under(template_json(t), "optional_paths"@) == Some(json_texts(t.optional_paths)),
        under(template_json(t), "nullable_paths"@) == Some(json_texts(t.nullable_paths)),
        under(template_json(t), "auth_required"@) == Some(Json::Bool(t.auth_required)),
{
    lemma_template_names();
    let names = template_names();
    assert forall|k: int| 0 <= k < 13 implies under(template_json(t), #[trigger] names[k])
        == template_part(t, k) by {
        lemma_template_part(t, k);
    }
    assert(names[0] == "endpoint_id"@ && names[1] == "method"@ && names[2] == "path"@ && names[3]
        == "summary"@ && names[4] == "path_params"@ && names[5] == "query_params"@ && names[6]
        == "header_params"@ && names[7] == "body"@ && names[8] == "body_schema"@ && names[9]
        == "body_content_type"@ && names[10] == "optional_paths"@ && names[11]
        == "nullable_paths"@ && names[12] == "auth_required"@);
}

spec fn template_part(t: TemplateShape, k: int) -> Option<Json> {
    if k == 0 {
        Some(Json::Text(t.endpoint_id))
    } else if k == 1 {
        Some(Json::Text(t.method))
    } else if k == 2 {
        Some(Json::Text(t.path))
    } else if k == 3 {
        as_text(t.summary)
    } else if k == 4 {
        Some(slots_json(t.path_params))
    } else if k == 5 {
        Some(slots_json(t.query_params))
    } else if k == 6 {
        Some(slots_json(t.header_params))
    } else if k == 7 {
        t.body
    } else if k == 8 {
        match t.body_schema {
            Some(schema) => Some(schema_json(schema)),
            None => None,
        }
    } else if k == 9 {
        as_text(t.body_content_type)
    } else if k == 10 {
        Some(json_texts(t.optional_paths))
    } else if k == 11 {
        Some(json_texts(t.nullable_paths))
    } else {
        Some(Json::Bool(t.auth_required))
    }
}

proof fn lemma_template_part(t: TemplateShape, k: int)
    requires
        0 <= k < 13,
    ensures
        under(template_json(t), template_names()[k]) == template_part(t, k),
{
    lemma_template_names();
    let names = template_names();
    let name = names[k];
    assert forall|j: int| 0 <= j < 13 && j != k implies #[trigger] names[j] != name by {
        if j < k {
            assert(names[j] != names[k]);
        } else {
            assert(names[k] != names[j]);
        }
    }
    assert(names[0] == "endpoint_id"@ && names[1] == "method"@ && names[2] == "path"@ && names[3]
        == "summary"@ && names[4] == "path_params"@ && names[5] == "query_params"@ && names[6]
        == "header_params"@ && names[7] == "body"@ && names[8] == "body_schema"@ && names[9]
        == "body_content_type"@ && names[10] == "optional_paths"@ && names[11]
        == "nullable_paths"@ && names[12] == "auth_required"@);
    let schema = match t.body_schema {
        Some(schema) => Some(schema_json(schema)),
        None => None,
    };
    let a = seq![
        ("endpoint_id"@, Json::Text(t.endpoint_id)),
        ("method"@, Json::Text(t.method)),
        ("path"@, Json::Text(t.path)),
    ];
    let b = optional_text("summary"@, t.summary);
    let c = seq![
        ("path_params"@, slots_json(t.path_params)),
        ("query_params"@, slots_json(t.query_params)),
        ("header_params"@, slots_json(t.header_params)),
    ];
    let d = optional_member("body"@, t.body);
    let e = optional_member("body_schema"@, schema);
    let f = optional_text("body_content_type"@, t.body_content_type);
    let g = seq![
        ("optional_paths"@, json_texts(t.optional_paths)),
        ("nullable_paths"@, json_texts(t.nullable_paths)),
        ("auth_required"@, Json::Bool(t.auth_required)),
    ];
    lemma_lookup_in_parts(a, b, name);
    lemma_lookup_in_parts(a + b, c, name);
    lemma_lookup_in_parts(a + b + c, d, name);
    lemma_lookup_in_parts(a + b + c + d, e, name);
    lemma_lookup_in_parts(a + b + c + d + e, f, name);
    lemma_lookup_in_parts(a + b + c + d + e + f, g, name);
    lemma_optional("summary"@, t.body, t.summary, name);
    lemma_optional("body"@, t.body, t.summary, name);
    lemma_optional("body_schema"@, schema, t.summary, name);
    lemma_optional("body_content_type"@, t.body, t.body_content_type, name);
    reveal_with_fuel(position_from, 4);
}

// ---------------------------------------------------------------- labels

/// A schema is labelled by its type; texts add their format, and listed values
/// make an enum.
pub proof fn law_labels(node: Schema)
    ensures
        match node {
            Schema::Object { .. } => node.label() == "object"@,
            Schema::Array { .. } => node.label() == "array"@,
            Schema::String { enum_values, format } => node.label() == (if enum_values is Some {
                "enum"@
            } else if format is Some {
                "string("@ + format->0 + ")"@
            } else {
                "string"@
            }),
            Schema::Integer { enum_values, .. } => node.label() == (if enum_values is Some {
                "enum(int)"@
            } else {
                "integer"@
            }),
            Schema::Number { .. } => node.label() == "number"@,
            Schema::Boolean => node.label() == "boolean"@,
            Schema::OneOf { .. } => node.label() == "oneOf"@,
            Schema::Const { .. } => node.label() == "const"@,
            Schema::Any => node.label() == "any"@,
        },
{
}

} // verus!
