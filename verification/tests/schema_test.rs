//! Schemas, references and error bodies.

use hitpoint::config::Framework;
use hitpoint::json::JsonValue;
use hitpoint::model::{OneOfVariant, SchemaNode};
use hitpoint::spec::adapter::{adapter_for, FastApiAdapter, FrameworkAdapter};
use hitpoint::spec::normalize::{normalize, Normalized};
use hitpoint::spec::resolve::{deref, resolve_ref};

fn json(text: &str) -> JsonValue {
    JsonValue::parse(text).unwrap()
}

fn norm(schema: &str) -> Normalized {
    normalize(&json("{}"), &json(schema))
}

#[test]
fn renders_422_detail_lines() {
    let body = json(
        r#"{"detail": [
            {"loc": ["body", "email"], "msg": "field required", "type": "missing"},
            {"loc": ["query", "limit"], "msg": "must be positive", "type": "value_error"}
        ]}"#,
    );
    let lines = FastApiAdapter.render_error_lines(422, &body).unwrap();
    assert_eq!(lines[0], "body.email: field required");
    assert_eq!(lines[1], "query.limit: must be positive");
}

#[test]
fn renders_string_detail() {
    let body = json(r#"{"detail": "Not authenticated"}"#);
    let lines = FastApiAdapter.render_error_lines(401, &body).unwrap();
    assert_eq!(lines, vec!["401: Not authenticated"]);
}

#[test]
fn ignores_foreign_bodies() {
    assert!(FastApiAdapter
        .render_error_lines(500, &json(r#"{"error": "boom"}"#))
        .is_none());
}

#[test]
fn numbers_in_locations_are_shown() {
    let body = json(r#"{"detail": [{"loc": ["body", "items", 0], "msg": "bad"}]}"#);
    let lines = FastApiAdapter.render_error_lines(422, &body).unwrap();
    assert_eq!(lines, vec!["body.items.0: bad"]);
    assert_eq!(adapter_for(Framework::Fastapi).name(), "fastapi");
    assert_eq!(
        FastApiAdapter.validation_schemas(),
        vec!["HTTPValidationError", "ValidationError"]
    );
}

#[test]
fn openapi30_nullable_flag() {
    let n = norm(r#"{"type": "string", "nullable": true}"#);
    assert!(n.nullable);
    assert!(matches!(n.node, SchemaNode::String { .. }));
}

#[test]
fn openapi31_type_array_null() {
    let n = norm(r#"{"type": ["string", "null"]}"#);
    assert!(n.nullable);
    assert!(matches!(n.node, SchemaNode::String { .. }));
}

#[test]
fn fastapi_optional_anyof_null() {
    // Optional[str] on FastAPI/Pydantic v2: anyOf [string, null]
    let n = norm(r#"{"anyOf": [{"type": "string"}, {"type": "null"}], "title": "Name"}"#);
    assert!(n.nullable);
    assert!(matches!(n.node, SchemaNode::String { .. }));
}

#[test]
fn optional_union_keeps_oneof_and_nullable() {
    let n = norm(
        r#"{
            "anyOf": [
                {"type": "string", "title": "Str"},
                {"type": "integer", "title": "Int"},
                {"type": "null"}
            ]
        }"#,
    );
    assert!(n.nullable);
    let SchemaNode::OneOf { variants } = &n.node else {
        panic!("expected OneOf, got {:?}", n.node)
    };
    assert_eq!(variants.len(), 2);
    assert_eq!(variants[0].label, "Str");
    let second: &OneOfVariant = &variants[1];
    assert_eq!(second.label, "Int");
}

#[test]
fn variants_are_labelled_by_title_discriminator_or_kind() {
    let doc = json(
        r#"{"components": {"schemas": {
            "Cat": {"type": "object", "properties": {"kind": {"const": "cat"}}},
            "Dog": {"type": "object", "title": "Dog", "properties": {"kind": {"const": "dog"}}}
        }}}"#,
    );
    let n = normalize(
        &doc,
        &json(
            r##"{
                "oneOf": [
                    {"$ref": "#/components/schemas/Cat"},
                    {"$ref": "#/components/schemas/Dog"},
                    {"type": "integer"}
                ],
                "discriminator": {"propertyName": "kind", "mapping": {
                    "dog": "#/components/schemas/Dog",
                    "cat": "#/components/schemas/Cat"
                }}
            }"##,
        ),
    );
    let SchemaNode::OneOf { variants } = &n.node else {
        panic!("expected OneOf, got {:?}", n.node)
    };
    let labels: Vec<&str> = variants.iter().map(|v| v.label.as_str()).collect();
    assert_eq!(labels, vec!["cat", "Dog", "integer #3"]);
}

#[test]
fn allof_single_ref_with_sibling_default() {
    // FastAPI 3.0-era: field with default referencing an enum model.
    let doc = json(
        r#"{"components": {"schemas": {
            "Color": {"type": "string", "enum": ["red", "blue"]}
        }}}"#,
    );
    let schema = json(r##"{"allOf": [{"$ref": "#/components/schemas/Color"}], "default": "red"}"##);
    let n = normalize(&doc, &schema);
    assert_eq!(n.default, Some(json("\"red\"")));
    assert!(matches!(&n.node, SchemaNode::String { enum_values: Some(v), .. } if v.len() == 2));
}

#[test]
fn ref_resolution_and_required_orthogonal_to_nullable() {
    let doc = json(
        r#"{"components": {"schemas": {
            "User": {
                "type": "object",
                "required": ["name", "nickname"],
                "properties": {
                    "name": {"type": "string"},
                    "nickname": {"anyOf": [{"type": "string"}, {"type": "null"}]},
                    "bio": {"anyOf": [{"type": "string"}, {"type": "null"}], "default": null},
                    "level": {"type": "integer", "default": 3}
                }
            }
        }}}"#,
    );
    let n = normalize(&doc, &json(r##"{"$ref": "#/components/schemas/User"}"##));
    let SchemaNode::Object { fields, .. } = &n.node else {
        panic!("expected object")
    };
    let get = |name: &str| fields.iter().find(|f| f.name == name).unwrap();
    // str -> required, not nullable
    assert!(get("name").required && !get("name").nullable);
    // Optional[str] (no default) -> required AND nullable
    assert!(get("nickname").required && get("nickname").nullable);
    // Optional[str] = None -> optional + nullable
    assert!(!get("bio").required && get("bio").nullable);
    // int = 3 -> optional, not nullable, default kept
    let level = get("level");
    assert!(!level.required && !level.nullable);
    assert_eq!(level.default, Some(json("3")));
}

#[test]
fn recursive_ref_degrades_to_any() {
    let doc = json(
        r##"{"components": {"schemas": {
            "Node": {
                "type": "object",
                "properties": {
                    "value": {"type": "string"},
                    "child": {"anyOf": [{"$ref": "#/components/schemas/Node"}, {"type": "null"}]}
                }
            }
        }}}"##,
    );
    let n = normalize(&doc, &json(r##"{"$ref": "#/components/schemas/Node"}"##));
    let SchemaNode::Object { fields, .. } = &n.node else {
        panic!("expected object")
    };
    let child = fields.iter().find(|f| f.name == "child").unwrap();
    assert_eq!(child.schema, SchemaNode::Any);
    assert!(child.nullable);
}

#[test]
fn literal_single_enum_becomes_const() {
    let n = norm(r#"{"type": "string", "enum": ["fixed"]}"#);
    assert_eq!(
        n.node,
        SchemaNode::Const {
            value: json("\"fixed\"")
        }
    );
}

#[test]
fn malformed_schema_degrades_to_any() {
    assert_eq!(norm("true").node, SchemaNode::Any);
    assert_eq!(norm(r#"{"type": 42}"#).node, SchemaNode::Any);
    assert_eq!(norm("{}").node, SchemaNode::Any);
}

#[test]
fn dict_str_model_open_map() {
    let n = norm(
        r#"{
            "type": "object",
            "additionalProperties": {"type": "integer"}
        }"#,
    );
    let SchemaNode::Object { fields, additional } = &n.node else {
        panic!("expected object")
    };
    assert!(fields.is_empty());
    assert!(matches!(
        additional.as_deref(),
        Some(SchemaNode::Integer { .. })
    ));
}

#[test]
fn resolves_component_schema() {
    let doc = json(r#"{"components": {"schemas": {"User": {"type": "object"}}}}"#);
    let node = json(r##"{"$ref": "#/components/schemas/User"}"##);
    let (resolved, reference) = deref(&doc, &node);
    assert_eq!(resolved, &json(r#"{"type": "object"}"#));
    assert_eq!(reference.as_deref(), Some("#/components/schemas/User"));
}

#[test]
fn missing_ref_degrades_to_null() {
    let doc = json("{}");
    let node = json(r##"{"$ref": "#/components/schemas/Nope"}"##);
    let (resolved, _) = deref(&doc, &node);
    assert!(resolved.is_null());
}

#[test]
fn non_ref_passes_through() {
    let doc = json("{}");
    let node = json(r#"{"type": "string"}"#);
    let (resolved, reference) = deref(&doc, &node);
    assert_eq!(resolved, &node);
    assert!(reference.is_none());
}

#[test]
fn chains_of_references_are_followed() {
    let doc = json(r##"{"a": {"$ref": "#/b"}, "b": {"$ref": "#/c~1d"}, "c/d": 7}"##);
    let start = json(r##"{"$ref": "#/a"}"##);
    let (resolved, reference) = deref(&doc, &start);
    assert_eq!(resolved, &json("7"));
    assert_eq!(reference.as_deref(), Some("#/c~1d"));
    assert!(resolve_ref(&doc, "other.json#/a").is_none());
    // A loop of references ends.
    let looped = json(r##"{"a": {"$ref": "#/a"}}"##);
    let (last, _) = deref(&looped, &start);
    assert!(last.is_null());
}

#[test]
fn schemas_print_their_kind() {
    assert_eq!(norm(r#"{"type": "string", "format": "date"}"#).node.kind_label(), "string(date)");
    assert_eq!(
        norm(r#"{"type": "array", "items": {"type": "integer"}}"#).node.kind_label(),
        "array"
    );
    assert_eq!(norm(r#"{"type": "boolean"}"#).node.kind_label(), "boolean");
}
