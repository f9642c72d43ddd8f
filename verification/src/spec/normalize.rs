//! The normalization pass: raw OpenAPI 3.0/3.1 JSON-schema fragments become
//! `SchemaNode`s. All version differences are erased here: `nullable: true`
//! (3.0), `type: ["T", "null"]` (3.1), and `anyOf: [T, {type: "null"}]`
//! (FastAPI's `Optional[T]`) all collapse to the same shape.
//!
//! Malformed or unsupported schemas degrade to `SchemaNode::Any` rather than
//! failing the endpoint or the project.

use crate::json::parse::decimal_fraction;
use crate::json::{
    has_key, law_lookup_after_put, law_put_keeps_others, list_json, lookup, position_from, put, Json,
    JsonMap, JsonValue,
};
use crate::model::schema_node::{
    copied, copied_value, field_shapes, variant_shapes, Field, FieldShape, OneOfVariant, Schema,
    SchemaNode, VariantShape,
};
use crate::spec::resolve::{deref, dereferenced, ref_of, MAX_HOPS};
use crate::text::{cat3, decimal, same, show, signed_decimal};
use vstd::prelude::*;

verus! {

/// Hard recursion cap, beyond ref-cycle detection, for pathological nesting.
pub const MAX_DEPTH: usize = 48;

/// A normalized schema plus the field-level attributes that live alongside
/// the type in JSON Schema but belong to `Field` in the model.
#[derive(Debug)]
pub struct Normalized {
    pub node: SchemaNode,
    pub nullable: bool,
    pub default: Option<JsonValue>,
    pub description: Option<String>,
    pub title: Option<String>,
    pub read_only: bool,
}

/// A `Normalized` as a mathematical value.
pub struct NormalizedShape {
    pub node: Schema,
    pub nullable: bool,
    pub default: Option<Json>,
    pub description: Option<Seq<char>>,
    pub title: Option<Seq<char>>,
    pub read_only: bool,
}

impl View for Normalized {
    type V = NormalizedShape;

    open spec fn view(&self) -> NormalizedShape {
        NormalizedShape {
            node: self.node@,
            nullable: self.nullable,
            default: self.default.deep_view(),
            description: self.description.deep_view(),
            title: self.title.deep_view(),
            read_only: self.read_only,
        }
    }
}

impl DeepView for Normalized {
    type V = NormalizedShape;

    open spec fn deep_view(&self) -> NormalizedShape {
        self.view()
    }
}

impl Clone for Normalized {
    fn clone(&self) -> (r: Normalized)
        ensures
            r@ == self@,
    {
        Normalized {
            node: self.node.clone(),
            nullable: self.nullable,
            default: copied_value(&self.default),
            description: copied(&self.description),
            title: copied(&self.title),
            read_only: self.read_only,
        }
    }
}

// ---------------------------------------------------------------- model

/// A shape without attributes.
pub open spec fn plain(node: Schema) -> NormalizedShape {
    NormalizedShape {
        node,
        nullable: false,
        default: None,
        description: None,
        title: None,
        read_only: false,
    }
}

pub open spec fn text_at(obj: Seq<(Seq<char>, Json)>, key: Seq<char>) -> Option<Seq<char>> {
    match lookup(obj, key) {
        Some(value) => value.as_text(),
        None => None,
    }
}

/// Whether the member is the literal `true`.
pub open spec fn flag_at(obj: Seq<(Seq<char>, Json)>, key: Seq<char>) -> bool {
    lookup(obj, key) == Some(Json::Bool(true))
}

pub open spec fn items_at(obj: Seq<(Seq<char>, Json)>, key: Seq<char>) -> Option<Seq<Json>> {
    match lookup(obj, key) {
        Some(value) => value.as_items(),
        None => None,
    }
}

pub open spec fn members_at(
    obj: Seq<(Seq<char>, Json)>,
    key: Seq<char>,
) -> Option<Seq<(Seq<char>, Json)>> {
    match lookup(obj, key) {
        Some(value) => value.as_members(),
        None => None,
    }
}

pub open spec fn i64_at(obj: Seq<(Seq<char>, Json)>, key: Seq<char>) -> Option<i64> {
    match lookup(obj, key) {
        Some(value) => value.as_i64(),
        None => None,
    }
}

pub open spec fn u64_at(obj: Seq<(Seq<char>, Json)>, key: Seq<char>) -> Option<u64> {
    match lookup(obj, key) {
        Some(value) => value.as_u64(),
        None => None,
    }
}

/// A number in the notation of a binary fraction.
pub open spec fn fraction_at(obj: Seq<(Seq<char>, Json)>, key: Seq<char>) -> Option<Seq<char>> {
    match lookup(obj, key) {
        Some(Json::Float(notation)) => Some(notation),
        Some(Json::Int(n)) => match decimal_fraction(signed_decimal(n)) {
            Some(Some(notation)) => Some(notation),
            _ => None,
        },
        _ => None,
    }
}

/// The first of two options that is there.
pub open spec fn either<T>(a: Option<T>, b: Option<T>) -> Option<T> {
    if a is Some {
        a
    } else {
        b
    }
}

/// The attributes beside `$ref`/`allOf`/`anyOf`/`type` laid over a shape.
pub open spec fn overlaid(
    obj: Seq<(Seq<char>, Json)>,
    inner: NormalizedShape,
) -> NormalizedShape {
    NormalizedShape {
        node: inner.node,
        nullable: inner.nullable || flag_at(obj, "nullable"@),
        default: either(lookup(obj, "default"@), inner.default),
        description: either(text_at(obj, "description"@), inner.description),
        title: either(text_at(obj, "title"@), inner.title),
        read_only: inner.read_only || flag_at(obj, "readOnly"@),
    }
}

/// The first type name from position `i` on that is not `null`.
pub open spec fn first_type(items: Seq<Json>, i: int) -> Option<Seq<char>>
    decreases items.len() - i,
{
    if i < 0 || i >= items.len() {
        None
    } else {
        match items[i] {
            Json::Text(name) if name != "null"@ => Some(name),
            _ => first_type(items, i + 1),
        }
    }
}

/// The type name and whether `null` is listed beside it.
pub open spec fn type_of(value: Option<Json>) -> (Option<Seq<char>>, bool) {
    match value {
        Some(Json::Text(name)) => (Some(name), false),
        Some(Json::Array(items)) => (first_type(items, 0), items.contains(Json::Text("null"@))),
        _ => (None, false),
    }
}

/// The texts of an array from position `i` on.
pub open spec fn texts_from(items: Seq<Json>, i: int) -> Seq<Seq<char>>
    decreases items.len() - i,
{
    if i < 0 || i >= items.len() {
        Seq::empty()
    } else {
        match items[i] {
            Json::Text(s) => seq![s] + texts_from(items, i + 1),
            _ => texts_from(items, i + 1),
        }
    }
}

/// The 64-bit integers of an array from position `i` on.
pub open spec fn ints_from(items: Seq<Json>, i: int) -> Seq<i64>
    decreases items.len() - i,
{
    if i < 0 || i >= items.len() {
        Seq::empty()
    } else {
        match items[i].as_i64() {
            Some(n) => seq![n] + ints_from(items, i + 1),
            None => ints_from(items, i + 1),
        }
    }
}

pub open spec fn enum_texts(obj: Seq<(Seq<char>, Json)>) -> Option<Seq<Seq<char>>> {
    match items_at(obj, "enum"@) {
        Some(items) => if texts_from(items, 0).len() == 0 {
            None
        } else {
            Some(texts_from(items, 0))
        },
        None => None,
    }
}

pub open spec fn enum_integers(obj: Seq<(Seq<char>, Json)>) -> Option<Seq<i64>> {
    match items_at(obj, "enum"@) {
        Some(items) => if ints_from(items, 0).len() == 0 {
            None
        } else {
            Some(ints_from(items, 0))
        },
        None => None,
    }
}

/// Whether the `required` list of an object names a member.
pub open spec fn is_required(obj: Seq<(Seq<char>, Json)>, name: Seq<char>) -> bool {
    match items_at(obj, "required"@) {
        Some(items) => items.contains(Json::Text(name)),
        None => false,
    }
}

/// A member of an object schema.
pub open spec fn field_of(
    name: Seq<char>,
    required: bool,
    normalized: NormalizedShape,
) -> FieldShape {
    FieldShape {
        name,
        schema: normalized.node,
        required,
        nullable: normalized.nullable,
        default: normalized.default,
        description: normalized.description,
        read_only: normalized.read_only,
    }
}

/// The property schemas of an object, in order.
pub open spec fn property_schemas(obj: Seq<(Seq<char>, Json)>) -> Seq<Json> {
    match members_at(obj, "properties"@) {
        Some(props) => Seq::new(props.len(), |i: int| props[i].1),
        None => Seq::empty(),
    }
}

pub open spec fn property_names(obj: Seq<(Seq<char>, Json)>) -> Seq<Seq<char>> {
    match members_at(obj, "properties"@) {
        Some(props) => Seq::new(props.len(), |i: int| props[i].0),
        None => Seq::empty(),
    }
}

/// The fields of an object whose properties were normalized to `props`.
pub open spec fn object_fields(
    obj: Seq<(Seq<char>, Json)>,
    props: Seq<NormalizedShape>,
) -> Seq<FieldShape> {
    Seq::new(
        props.len(),
        |i: int|
            field_of(
                property_names(obj)[i],
                is_required(obj, property_names(obj)[i]),
                props[i],
            ),
    )
}

/// Position of the first field named `name` at or after `i`.
pub open spec fn field_position(fields: Seq<FieldShape>, name: Seq<char>, i: int) -> Option<int>
    decreases fields.len() - i,
{
    if i < 0 || i >= fields.len() {
        None
    } else if fields[i].name == name {
        Some(i)
    } else {
        field_position(fields, name, i + 1)
    }
}

/// The fields after adding one: a field of the same name is replaced in place.
pub open spec fn with_field(fields: Seq<FieldShape>, field: FieldShape) -> Seq<FieldShape> {
    match field_position(fields, field.name, 0) {
        Some(i) => fields.update(i, field),
        None => fields.push(field),
    }
}

/// The fields after adding those of `more` from position `i` on.
pub open spec fn with_fields(
    fields: Seq<FieldShape>,
    more: Seq<FieldShape>,
    i: int,
) -> Seq<FieldShape>
    decreases more.len() - i,
{
    if i < 0 || i >= more.len() {
        fields
    } else {
        with_fields(with_field(fields, more[i]), more, i + 1)
    }
}

/// The merged fields of object parts from position `i` on.
pub open spec fn merged_fields(
    fields: Seq<FieldShape>,
    parts: Seq<NormalizedShape>,
    i: int,
) -> Seq<FieldShape>
    decreases parts.len() - i,
{
    if i < 0 || i >= parts.len() {
        fields
    } else {
        merged_fields(with_fields(fields, parts[i].node->Object_fields, 0), parts, i + 1)
    }
}

/// The last open-map schema among the object parts from position `i` on.
pub open spec fn merged_additional(
    found: Option<Box<Schema>>,
    parts: Seq<NormalizedShape>,
    i: int,
) -> Option<Box<Schema>>
    decreases parts.len() - i,
{
    if i < 0 || i >= parts.len() {
        found
    } else {
        merged_additional(either(parts[i].node->Object_additional, found), parts, i + 1)
    }
}

pub open spec fn all_object_parts(parts: Seq<NormalizedShape>) -> bool {
    forall|i: int| 0 <= i < parts.len() ==> (#[trigger] parts[i]).node is Object
}

pub open spec fn some_part_nullable(parts: Seq<NormalizedShape>) -> bool {
    exists|i: int| 0 <= i < parts.len() && (#[trigger] parts[i]).nullable
}

/// The first part from position `i` on that is not `Any`.
pub open spec fn first_concrete(parts: Seq<NormalizedShape>, i: int) -> NormalizedShape
    decreases parts.len() - i,
{
    if i < 0 || i >= parts.len() {
        plain(Schema::Any)
    } else if parts[i].node !is Any {
        parts[i]
    } else {
        first_concrete(parts, i + 1)
    }
}

/// The merge of the parts of an `allOf`.
pub open spec fn merged(parts: Seq<NormalizedShape>) -> NormalizedShape {
    if parts.len() == 0 {
        plain(Schema::Any)
    } else if parts.len() == 1 {
        parts[0]
    } else if all_object_parts(parts) {
        NormalizedShape {
            nullable: some_part_nullable(parts),
            ..plain(
                Schema::Object {
                    fields: merged_fields(Seq::empty(), parts, 0),
                    additional: merged_additional(None, parts, 0),
                },
            )
        }
    } else {
        first_concrete(parts, 0)
    }
}

pub open spec fn null_schema(schema: Json) -> bool {
    schema.member("type"@) == Some(Json::Text("null"@))
}

/// The alternatives from position `i` on that are not the null schema.
pub open spec fn concrete_variants(variants: Seq<Json>, i: int) -> Seq<Json>
    decreases variants.len() - i,
{
    if i < 0 || i >= variants.len() {
        Seq::empty()
    } else if null_schema(variants[i]) {
        concrete_variants(variants, i + 1)
    } else {
        seq![variants[i]] + concrete_variants(variants, i + 1)
    }
}

pub open spec fn some_null_schema(variants: Seq<Json>) -> bool {
    exists|i: int| 0 <= i < variants.len() && null_schema(#[trigger] variants[i])
}

/// The discriminator values of a schema, each with the schema it stands for.
pub open spec fn mapping_at(obj: Seq<(Seq<char>, Json)>) -> Seq<(Seq<char>, Json)> {
    match lookup(obj, "discriminator"@) {
        Some(discriminator) => match discriminator.member("mapping"@) {
            Some(Json::Object(mapping)) => mapping,
            _ => Seq::empty(),
        },
        None => Seq::empty(),
    }
}

/// The first discriminator value at or after `i` that stands for a reference.
pub open spec fn value_naming(
    mapping: Seq<(Seq<char>, Json)>,
    reference: Seq<char>,
    i: int,
) -> Option<Seq<char>>
    decreases mapping.len() - i,
{
    if i < 0 || i >= mapping.len() {
        None
    } else if mapping[i].1 == Json::Text(reference) {
        Some(mapping[i].0)
    } else {
        value_naming(mapping, reference, i + 1)
    }
}

/// The discriminator value that names an alternative.
pub open spec fn discriminated(mapping: Seq<(Seq<char>, Json)>, variant: Json) -> Option<
    Seq<char>,
> {
    match variant.member("$ref"@) {
        Some(Json::Text(reference)) => value_naming(mapping, reference, 0),
        _ => None,
    }
}

/// The discriminator values that name the alternatives.
pub open spec fn variant_names(
    mapping: Seq<(Seq<char>, Json)>,
    variants: Seq<Json>,
) -> Seq<Option<Seq<char>>> {
    Seq::new(variants.len(), |i: int| discriminated(mapping, variants[i]))
}

/// The label of an alternative: its title, the discriminator value that names
/// it, or its kind and number.
pub open spec fn variant_label(
    normalized: NormalizedShape,
    name: Option<Seq<char>>,
    i: int,
) -> Seq<char> {
    match (normalized.title, name) {
        (Some(title), _) => title,
        (None, Some(name)) => name,
        (None, None) => normalized.node.label() + " #"@ + decimal((i + 1) as nat),
    }
}

/// What the non-null alternatives amount to; `names` are the discriminator
/// values that name them.
pub open spec fn alternatives(
    nullable: bool,
    names: Seq<Option<Seq<char>>>,
    concrete: Seq<NormalizedShape>,
) -> NormalizedShape {
    if concrete.len() == 0 {
        NormalizedShape { nullable: true, ..plain(Schema::Any) }
    } else if concrete.len() == 1 {
        NormalizedShape { nullable: concrete[0].nullable || nullable, ..concrete[0] }
    } else {
        NormalizedShape {
            nullable,
            ..plain(
                Schema::OneOf {
                    variants: Seq::new(
                        concrete.len(),
                        |i: int|
                            VariantShape {
                                label: variant_label(concrete[i], names[i], i),
                                node: concrete[i].node,
                            },
                    ),
                },
            )
        }
    }
}

/// What is to be done with a schema that is neither a reference nor composed.
pub enum Kind {
    Object,
    Array,
    Leaf(NormalizedShape),
}

/// The kind of a schema with the given type name; without one it is inferred
/// from the structure.
pub open spec fn kind_of(obj: Seq<(Seq<char>, Json)>, name: Option<Seq<char>>) -> Kind {
    match name {
        Some(name) => {
            if name == "object"@ {
                Kind::Object
            } else if name == "array"@ {
                Kind::Array
            } else if name == "string"@ {
                Kind::Leaf(
                    plain(
                        Schema::String {
                            enum_values: enum_texts(obj),
                            format: text_at(obj, "format"@),
                        },
                    ),
                )
            } else if name == "integer"@ {
                Kind::Leaf(
                    plain(
                        Schema::Integer {
                            minimum: i64_at(obj, "minimum"@),
                            maximum: i64_at(obj, "maximum"@),
                            enum_values: enum_integers(obj),
                        },
                    ),
                )
            } else if name == "number"@ {
                Kind::Leaf(
                    plain(
                        Schema::Number {
                            minimum: fraction_at(obj, "minimum"@),
                            maximum: fraction_at(obj, "maximum"@),
                        },
                    ),
                )
            } else if name == "boolean"@ {
                Kind::Leaf(plain(Schema::Boolean))
            } else if name == "null"@ {
                Kind::Leaf(NormalizedShape { nullable: true, ..plain(Schema::Any) })
            } else {
                Kind::Leaf(plain(Schema::Any))
            }
        },
        None => {
            if has_key(obj, "properties"@) || has_key(obj, "additionalProperties"@) {
                Kind::Object
            } else if has_key(obj, "items"@) {
                Kind::Array
            } else if enum_texts(obj) is Some {
                Kind::Leaf(plain(Schema::String { enum_values: enum_texts(obj), format: None }))
            } else {
                Kind::Leaf(plain(Schema::Any))
            }
        },
    }
}

/// A text enum with one value behaves like a constant.
pub open spec fn single_enum_as_const(inner: NormalizedShape) -> NormalizedShape {
    match inner.node {
        Schema::String { enum_values: Some(values), .. } if values.len() == 1 => NormalizedShape {
            node: Schema::Const { value: Json::Text(values[0]) },
            ..inner
        },
        _ => inner,
    }
}

/// The open-map schema of an object whose `additionalProperties`, where it is
/// a schema, was normalized to `extra`.
pub open spec fn additional_of(
    obj: Seq<(Seq<char>, Json)>,
    extra: NormalizedShape,
) -> Option<Box<Schema>> {
    match lookup(obj, "additionalProperties"@) {
        Some(Json::Bool(true)) => Some(Box::new(Schema::Any)),
        Some(Json::Object(_)) => Some(Box::new(extra.node)),
        _ => None,
    }
}

/// The array schema whose `items` was normalized to `item`.
pub open spec fn array_of(obj: Seq<(Seq<char>, Json)>, item: NormalizedShape) -> NormalizedShape {
    plain(
        Schema::Array {
            item: Box::new(item.node),
            item_nullable: item.nullable,
            min_items: u64_at(obj, "minItems"@),
            max_items: u64_at(obj, "maxItems"@),
        },
    )
}

/// The member's value, or null where it is absent.
pub open spec fn at_or_null(obj: Seq<(Seq<char>, Json)>, key: Seq<char>) -> Json {
    match lookup(obj, key) {
        Some(value) => value,
        None => Json::Null,
    }
}

/// The schemas, each normalized at the given depth.
pub open spec fn all_normalized(
    doc: Json,
    schemas: Seq<Json>,
    visited: Seq<Seq<char>>,
    depth: nat,
) -> Seq<NormalizedShape>
    decreases MAX_DEPTH + 1 - depth, 1int,
{
    Seq::new(schemas.len(), |i: int| normalized_at(doc, schemas[i], visited, depth))
}

/// What a schema amounts to, where `visited` are the references being followed
/// and `depth` is the nesting so far.
pub open spec fn normalized_at(
    doc: Json,
    schema: Json,
    visited: Seq<Seq<char>>,
    depth: nat,
) -> NormalizedShape
    decreases MAX_DEPTH + 1 - depth, 0int,
{
    match schema {
        Json::Object(obj) if depth <= MAX_DEPTH => {
            overlaid(
                obj,
                if text_at(obj, "$ref"@) is Some {
                    let reference = text_at(obj, "$ref"@)->0;
                    if visited.contains(reference) {
                        plain(Schema::Any)
                    } else {
                        normalized_at(
                            doc,
                            dereferenced(doc, schema, MAX_HOPS as nat, None).0,
                            visited.push(reference),
                            depth + 1,
                        )
                    }
                } else if items_at(obj, "allOf"@) is Some {
                    merged(all_normalized(doc, items_at(obj, "allOf"@)->0, visited, depth + 1))
                } else if items_at(obj, "anyOf"@) is Some {
                    let variants = items_at(obj, "anyOf"@)->0;
                    alternatives(
                        some_null_schema(variants),
                        variant_names(mapping_at(obj), concrete_variants(variants, 0)),
                        all_normalized(doc, concrete_variants(variants, 0), visited, depth + 1),
                    )
                } else if items_at(obj, "oneOf"@) is Some {
                    let variants = items_at(obj, "oneOf"@)->0;
                    alternatives(
                        some_null_schema(variants),
                        variant_names(mapping_at(obj), concrete_variants(variants, 0)),
                        all_normalized(doc, concrete_variants(variants, 0), visited, depth + 1),
                    )
                } else if has_key(obj, "const"@) {
                    plain(Schema::Const { value: at_or_null(obj, "const"@) })
                } else {
                    let (name, nullable) = type_of(lookup(obj, "type"@));
                    let inner = match kind_of(obj, name) {
                        Kind::Object => plain(
                            Schema::Object {
                                fields: object_fields(
                                    obj,
                                    all_normalized(
                                        doc,
                                        property_schemas(obj),
                                        visited,
                                        depth + 1,
                                    ),
                                ),
                                additional: additional_of(
                                    obj,
                                    normalized_at(
                                        doc,
                                        at_or_null(obj, "additionalProperties"@),
                                        visited,
                                        depth + 1,
                                    ),
                                ),
                            },
                        ),
                        Kind::Array => array_of(
                            obj,
                            normalized_at(doc, at_or_null(obj, "items"@), visited, depth + 1),
                        ),
                        Kind::Leaf(leaf) => single_enum_as_const(leaf),
                    };
                    NormalizedShape { nullable: inner.nullable || nullable, ..inner }
                },
            )
        },
        _ => plain(Schema::Any),
    }
}

/// What a schema of a document amounts to.
pub open spec fn normalized(doc: Json, schema: Json) -> NormalizedShape {
    normalized_at(doc, schema, Seq::empty(), 0)
}

// ---------------------------------------------------------------- members

fn text_of<'a>(obj: &'a JsonMap, key: &str) -> (r: Option<&'a str>)
    ensures
        r.deep_view() == text_at(obj@, key@),
{
    match obj.get(key) {
        Some(value) => value.as_str(),
        None => None,
    }
}

fn string_of(obj: &JsonMap, key: &str) -> (r: Option<String>)
    ensures
        r.deep_view() == text_at(obj@, key@),
{
    match text_of(obj, key) {
        Some(s) => Some(s.to_owned()),
        None => None,
    }
}

fn flag_of(obj: &JsonMap, key: &str) -> (r: bool)
    ensures
        r == flag_at(obj@, key@),
{
    match obj.get(key) {
        Some(JsonValue::Bool(b)) => *b,
        _ => false,
    }
}

fn items_of<'a>(obj: &'a JsonMap, key: &str) -> (r: Option<&'a Vec<JsonValue>>)
    ensures
        match r {
            Some(items) => items_at(obj@, key@) == Some(list_json(items)),
            None => items_at(obj@, key@) is None,
        },
{
    match obj.get(key) {
        Some(value) => value.as_array(),
        None => None,
    }
}

fn i64_of(obj: &JsonMap, key: &str) -> (r: Option<i64>)
    ensures
        r == i64_at(obj@, key@),
{
    match obj.get(key) {
        Some(value) => value.as_i64(),
        None => None,
    }
}

fn u64_of(obj: &JsonMap, key: &str) -> (r: Option<u64>)
    ensures
        r == u64_at(obj@, key@),
{
    match obj.get(key) {
        Some(value) => value.as_u64(),
        None => None,
    }
}

fn fraction_of(obj: &JsonMap, key: &str) -> (r: Option<String>)
    ensures
        r.deep_view() == fraction_at(obj@, key@),
{
    match obj.get(key) {
        Some(JsonValue::Number(n)) => n.fraction(),
        _ => None,
    }
}

fn value_of(obj: &JsonMap, key: &str) -> (r: Option<JsonValue>)
    ensures
        r.deep_view() == lookup(obj@, key@),
{
    match obj.get(key) {
        Some(value) => Some(value.clone()),
        None => None,
    }
}

/// The type name and whether `null` is listed beside it. `type` may be a text
/// ("string") or, in 3.1, an array (["string", "null"]).
fn extract_type(type_value: Option<&JsonValue>) -> (r: (Option<String>, bool))
    ensures
        (r.0.deep_view(), r.1) == type_of(type_value.deep_view()),
{
    match type_value {
        Some(JsonValue::Text(s)) => (Some(s.clone()), false),
        Some(JsonValue::Array(items)) => {
            let mut nullable = false;
            let mut name: Option<String> = None;
            let ghost all = list_json(items);
            for i in 0..items.len()
                invariant
                    all == list_json(items),
                    nullable == all.take(i as int).contains(Json::Text("null"@)),
                    match name {
                        Some(found) => first_type(all, 0) == Some(found@),
                        None => first_type(all, 0) == first_type(all, i as int),
                    },
            {
                let ghost before = all.take(i as int);
                let ghost after = all.take(i + 1);
                assert(after =~= before.push(all[i as int]));
                assert(after[i as int] == all[i as int]);
                assert(all[i as int] == items@[i as int]@);
                match &items[i] {
                    JsonValue::Text(s) => {
                        if same(s.as_str(), "null") {
                            nullable = true;
                            assert(after.contains(Json::Text("null"@)));
                        } else {
                            if name.is_none() {
                                name = Some(s.clone());
                            }
                            proof {
                                lemma_contains_push(before, all[i as int], Json::Text("null"@));
                            }
                        }
                    },
                    _ => {
                        proof {
                            lemma_contains_push(before, all[i as int], Json::Text("null"@));
                        }
                    },
                }
            }
            assert(all.take(all.len() as int) =~= all);
            (name, nullable)
        },
        _ => (None, false),
    }
}

proof fn lemma_contains_push<T>(s: Seq<T>, x: T, y: T)
    ensures
        s.push(x).contains(y) == (s.contains(y) || x == y),
{
    if s.contains(y) {
        let i = choose|i: int| 0 <= i < s.len() && s[i] == y;
        assert(s.push(x)[i] == y);
    }
    if x == y {
        assert(s.push(x)[s.len() as int] == y);
    }
    if s.push(x).contains(y) {
        let i = choose|i: int| 0 <= i < s.push(x).len() && s.push(x)[i] == y;
        if i < s.len() {
            assert(s[i] == y);
        }
    }
}

fn enum_strings(obj: &JsonMap) -> (r: Option<Vec<String>>)
    ensures
        r.deep_view() == enum_texts(obj@),
{
    let items = match items_of(obj, "enum") {
        Some(items) => items,
        None => {
            return None;
        },
    };
    let mut values: Vec<String> = Vec::new();
    let ghost all = list_json(items);
    assert(values.deep_view() + texts_from(all, 0) =~= texts_from(all, 0));
    for i in 0..items.len()
        invariant
            all == list_json(items),
            values.deep_view() + texts_from(all, i as int) == texts_from(all, 0),
    {
        let ghost before = values.deep_view();
        assert(all[i as int] == items@[i as int]@);
        match &items[i] {
            JsonValue::Text(s) => {
                values.push(s.clone());
                assert(values.deep_view() =~= before.push(s@));
                assert(before.push(s@) + texts_from(all, i + 1) =~= before + (seq![s@]
                    + texts_from(all, i + 1)));
            },
            _ => {},
        }
    }
    assert(values.deep_view() =~= texts_from(all, 0));
    if values.len() == 0 {
        None
    } else {
        Some(values)
    }
}

fn enum_ints(obj: &JsonMap) -> (r: Option<Vec<i64>>)
    ensures
        match r {
            Some(values) => enum_integers(obj@) == Some(values@),
            None => enum_integers(obj@) is None,
        },
{
    let items = match items_of(obj, "enum") {
        Some(items) => items,
        None => {
            return None;
        },
    };
    let mut values: Vec<i64> = Vec::new();
    let ghost all = list_json(items);
    assert(values@ + ints_from(all, 0) =~= ints_from(all, 0));
    for i in 0..items.len()
        invariant
            all == list_json(items),
            values@ + ints_from(all, i as int) == ints_from(all, 0),
    {
        let ghost before = values@;
        assert(all[i as int] == items@[i as int]@);
        match items[i].as_i64() {
            Some(n) => {
                values.push(n);
                assert(before.push(n) + ints_from(all, i + 1) =~= before + (seq![n] + ints_from(
                    all,
                    i + 1,
                )));
            },
            None => {},
        }
    }
    assert(values@ =~= ints_from(all, 0));
    if values.len() == 0 {
        None
    } else {
        Some(values)
    }
}

fn required_by(obj: &JsonMap, name: &str) -> (r: bool)
    ensures
        r == is_required(obj@, name@),
{
    let items = match items_of(obj, "required") {
        Some(items) => items,
        None => {
            return false;
        },
    };
    let ghost all = list_json(items);
    for i in 0..items.len()
        invariant
            all == list_json(items),
            is_required(obj@, name@) == all.contains(Json::Text(name@)),
            forall|k: int| 0 <= k < i ==> all[k] != Json::Text(name@),
    {
        assert(all[i as int] == items@[i as int]@);
        match &items[i] {
            JsonValue::Text(s) => {
                if same(s.as_str(), name) {
                    assert(all[i as int] == Json::Text(name@));
                    return true;
                }
            },
            _ => {},
        }
    }
    false
}

fn is_null_schema(schema: &JsonValue) -> (r: bool)
    ensures
        r == null_schema(schema@),
{
    match schema.get("type") {
        Some(JsonValue::Text(s)) => same(s.as_str(), "null"),
        _ => false,
    }
}

// ---------------------------------------------------------------- normalization

impl Normalized {
    /// A shape without attributes.
    pub(crate) fn of(node: SchemaNode) -> (r: Normalized)
        ensures
            r@ == plain(node@),
    {
        Normalized {
            node,
            nullable: false,
            default: None,
            description: None,
            title: None,
            read_only: false,
        }
    }

    /// The shape of what is not modelled.
    pub(crate) fn any() -> (r: Normalized)
        ensures
            r@ == plain(Schema::Any),
    {
        Normalized::of(SchemaNode::Any)
    }
}

/// Lays the attributes beside `$ref`/`allOf`/`anyOf`/`type` over a shape.
fn overlay(obj: &JsonMap, inner: Normalized) -> (r: Normalized)
    ensures
        r@ == overlaid(obj@, inner@),
{
    let default = match value_of(obj, "default") {
        Some(value) => Some(value),
        None => inner.default,
    };
    let description = match string_of(obj, "description") {
        Some(s) => Some(s),
        None => inner.description,
    };
    let title = match string_of(obj, "title") {
        Some(s) => Some(s),
        None => inner.title,
    };
    Normalized {
        node: inner.node,
        nullable: inner.nullable || flag_of(obj, "nullable"),
        default,
        description,
        title,
        read_only: inner.read_only || flag_of(obj, "readOnly"),
    }
}

/// Normalizes `schema` against the root spec document.
pub fn normalize(doc: &JsonValue, schema: &JsonValue) -> (r: Normalized)
    ensures
        r@ == normalized(doc@, schema@),
{
    let mut visited: Vec<String> = Vec::new();
    assert(visited.deep_view() =~= Seq::<Seq<char>>::empty());
    normalize_inner(doc, schema, &mut visited, 0)
}

fn holds(texts: &Vec<String>, text: &str) -> (r: bool)
    ensures
        r == texts.deep_view().contains(text@),
{
    let ghost all = texts.deep_view();
    for i in 0..texts.len()
        invariant
            all == texts.deep_view(),
            forall|k: int| 0 <= k < i ==> all[k] != text@,
    {
        assert(all[i as int] == texts@[i as int]@);
        if same(texts[i].as_str(), text) {
            return true;
        }
    }
    false
}

/// The schema of a leaf type, or `None` for objects and arrays.
fn leaf(obj: &JsonMap, name: &Option<String>) -> (r: Option<Normalized>)
    ensures
        match r {
            Some(normalized) => kind_of(obj@, name.deep_view()) == Kind::Leaf(normalized@),
            None => kind_of(obj@, name.deep_view()) !is Leaf,
        },
{
    match name {
        Some(name) => {
            let name = name.as_str();
            if same(name, "object") || same(name, "array") {
                None
            } else if same(name, "string") {
                Some(
                    Normalized::of(
                        SchemaNode::String {
                            enum_values: enum_strings(obj),
                            format: string_of(obj, "format"),
                        },
                    ),
                )
            } else if same(name, "integer") {
                Some(
                    Normalized::of(
                        SchemaNode::Integer {
                            minimum: i64_of(obj, "minimum"),
                            maximum: i64_of(obj, "maximum"),
                            enum_values: enum_ints(obj),
                        },
                    ),
                )
            } else if same(name, "number") {
                Some(
                    Normalized::of(
                        SchemaNode::Number {
                            minimum: fraction_of(obj, "minimum"),
                            maximum: fraction_of(obj, "maximum"),
                        },
                    ),
                )
            } else if same(name, "boolean") {
                Some(Normalized::of(SchemaNode::Boolean))
            } else if same(name, "null") {
                let mut normalized = Normalized::any();
                normalized.nullable = true;
                Some(normalized)
            } else {
                Some(Normalized::any())
            }
        },
        None => {
            if obj.contains_key("properties") || obj.contains_key("additionalProperties") {
                None
            } else if obj.contains_key("items") {
                None
            } else {
                match enum_strings(obj) {
                    Some(values) => Some(
                        Normalized::of(
                            SchemaNode::String { enum_values: Some(values), format: None },
                        ),
                    ),
                    None => Some(Normalized::any()),
                }
            }
        },
    }
}

/// Turns a text enum with one value into a constant.
fn literal(inner: Normalized) -> (r: Normalized)
    ensures
        r@ == single_enum_as_const(inner@),
{
    let mut inner = inner;
    let single = match &inner.node {
        SchemaNode::String { enum_values: Some(values), .. } => {
            if values.len() == 1 {
                Some(values[0].clone())
            } else {
                None
            }
        },
        _ => None,
    };
    match single {
        Some(value) => {
            inner.node = SchemaNode::Const { value: JsonValue::Text(value) };
            inner
        },
        None => inner,
    }
}

/// Normalizes each schema of a list.
fn normalize_all(
    doc: &JsonValue,
    schemas: &Vec<&JsonValue>,
    visited: &mut Vec<String>,
    depth: usize,
) -> (r: Vec<Normalized>)
    requires
        depth <= MAX_DEPTH + 1,
    ensures
        r.deep_view() == all_normalized(
            doc@,
            schemas.deep_view(),
            old(visited).deep_view(),
            depth as nat,
        ),
        final(visited).deep_view() == old(visited).deep_view(),
    decreases MAX_DEPTH + 1 - depth, 2int,
{
    let mut out: Vec<Normalized> = Vec::new();
    let ghost seen = visited.deep_view();
    for i in 0..schemas.len()
        invariant
            depth <= MAX_DEPTH + 1,
            visited.deep_view() == seen,
            out@.len() == i,
            forall|k: int|
                0 <= k < i ==> (#[trigger] out@[k])@ == normalized_at(
                    doc@,
                    schemas@[k]@,
                    seen,
                    depth as nat,
                ),
    {
        out.push(normalize_inner(doc, schemas[i], visited, depth));
    }
    assert(out.deep_view() =~= all_normalized(
        doc@,
        schemas.deep_view(),
        seen,
        depth as nat,
    ));
    out
}

fn normalize_object(
    doc: &JsonValue,
    obj: &JsonMap,
    visited: &mut Vec<String>,
    depth: usize,
) -> (r: Normalized)
    requires
        depth <= MAX_DEPTH,
    ensures
        r@ == plain(
            Schema::Object {
                fields: object_fields(
                    obj@,
                    all_normalized(
                        doc@,
                        property_schemas(obj@),
                        old(visited).deep_view(),
                        (depth + 1) as nat,
                    ),
                ),
                additional: additional_of(
                    obj@,
                    normalized_at(
                        doc@,
                        at_or_null(obj@, "additionalProperties"@),
                        old(visited).deep_view(),
                        (depth + 1) as nat,
                    ),
                ),
            },
        ),
        final(visited).deep_view() == old(visited).deep_view(),
    decreases MAX_DEPTH + 1 - depth, 0int,
{
    let ghost seen = visited.deep_view();
    let ghost props = all_normalized(doc@, property_schemas(obj@), seen, (depth + 1) as nat);
    let mut fields: Vec<Field> = Vec::new();
    match obj.get("properties") {
        Some(JsonValue::Object(map)) => {
            assert(members_at(obj@, "properties"@) == Some(map@));
            for i in 0..map.entries.len()
                invariant
                    depth <= MAX_DEPTH,
                    visited.deep_view() == seen,
                    members_at(obj@, "properties"@) == Some(map@),
                    props == all_normalized(
                        doc@,
                        property_schemas(obj@),
                        seen,
                        (depth + 1) as nat,
                    ),
                    fields@.len() == i,
                    forall|k: int|
                        0 <= k < i ==> (#[trigger] fields@[k])@ == object_fields(obj@, props)[k],
            {
                assert(map@[i as int] == (map.entries@[i as int].0@, map.entries@[i as int].1@));
                let name = map.entries[i].0.clone();
                let required = required_by(obj, name.as_str());
                let normalized = normalize_inner(doc, &map.entries[i].1, visited, depth + 1);
                fields.push(
                    Field {
                        name,
                        schema: normalized.node,
                        required,
                        nullable: normalized.nullable,
                        default: normalized.default,
                        description: normalized.description,
                        read_only: normalized.read_only,
                    },
                );
            }
        },
        _ => {
            assert(members_at(obj@, "properties"@) is None);
        },
    }
    assert(field_shapes(&fields) =~= object_fields(obj@, props));
    let additional = match obj.get("additionalProperties") {
        Some(JsonValue::Bool(true)) => Some(Box::new(SchemaNode::Any)),
        Some(JsonValue::Object(map)) => {
            let value = obj.get("additionalProperties").unwrap();
            let normalized = normalize_inner(doc, value, visited, depth + 1);
            Some(Box::new(normalized.node))
        },
        _ => None,
    };
    assert(boxed(additional) == additional_of(
        obj@,
        normalized_at(
            doc@,
            at_or_null(obj@, "additionalProperties"@),
            seen,
            (depth + 1) as nat,
        ),
    ));
    Normalized::of(SchemaNode::Object { fields, additional })
}

fn normalize_array(
    doc: &JsonValue,
    obj: &JsonMap,
    visited: &mut Vec<String>,
    depth: usize,
) -> (r: Normalized)
    requires
        depth <= MAX_DEPTH,
    ensures
        r@ == array_of(
            obj@,
            normalized_at(
                doc@,
                at_or_null(obj@, "items"@),
                old(visited).deep_view(),
                (depth + 1) as nat,
            ),
        ),
        final(visited).deep_view() == old(visited).deep_view(),
    decreases MAX_DEPTH + 1 - depth, 0int,
{
    let item = match obj.get("items") {
        Some(items) => normalize_inner(doc, items, visited, depth + 1),
        None => Normalized::any(),
    };
    assert(item@ == normalized_at(
        doc@,
        at_or_null(obj@, "items"@),
        old(visited).deep_view(),
        (depth + 1) as nat,
    ));
    Normalized::of(
        SchemaNode::Array {
            item: Box::new(item.node),
            item_nullable: item.nullable,
            min_items: u64_of(obj, "minItems"),
            max_items: u64_of(obj, "maxItems"),
        },
    )
}

/// Adds a field; one of the same name is replaced in place.
fn add_field(fields: &mut Vec<Field>, field: Field)
    ensures
        field_shapes(final(fields)) == with_field(field_shapes(old(fields)), field@),
{
    let ghost before = field_shapes(fields);
    let ghost added = field@;
    let mut i: usize = 0;
    while i < fields.len()
        invariant
            i <= fields@.len(),
            before == field_shapes(old(fields)),
            *fields == *old(fields),
            added == field@,
            field_position(before, added.name, 0) == field_position(before, added.name, i as int),
        decreases fields@.len() - i,
    {
        assert(before[i as int] == fields@[i as int]@);
        if same(fields[i].name.as_str(), field.name.as_str()) {
            fields.set(i, field);
            assert(field_shapes(fields) =~= before.update(i as int, added));
            return;
        }
        i += 1;
    }
    fields.push(field);
    assert(field_shapes(fields) =~= before.push(added));
}

/// The merge of object parts.
fn merge_objects(parts: &Vec<Normalized>) -> (r: Normalized)
    requires
        all_object_parts(parts.deep_view()),
    ensures
        r@ == (NormalizedShape {
            nullable: some_part_nullable(parts.deep_view()),
            ..plain(
                Schema::Object {
                    fields: merged_fields(Seq::empty(), parts.deep_view(), 0),
                    additional: merged_additional(None, parts.deep_view(), 0),
                },
            )
        }),
{
    let ghost all = parts.deep_view();
    let mut fields: Vec<Field> = Vec::new();
    let mut additional: Option<Box<SchemaNode>> = None;
    let mut nullable = false;
    assert(field_shapes(&fields) =~= Seq::empty());
    for i in 0..parts.len()
        invariant
            all == parts.deep_view(),
            all_object_parts(all),
            merged_fields(Seq::empty(), all, 0) == merged_fields(
                field_shapes(&fields),
                all,
                i as int,
            ),
            merged_additional(None, all, 0) == merged_additional(
                boxed(additional),
                all,
                i as int,
            ),
            nullable == exists|k: int| 0 <= k < i && (#[trigger] all[k]).nullable,
    {
        assert(all[i as int] == parts@[i as int]@);
        nullable = nullable || parts[i].nullable;
        assert(parts@[i as int].node@ is Object);
        match &parts[i].node {
            SchemaNode::Object { fields: more, additional: extra } => {
                let ghost shapes = field_shapes(more);
                let ghost start = field_shapes(&fields);
                for j in 0..more.len()
                    invariant
                        shapes == field_shapes(more),
                        with_fields(start, shapes, 0) == with_fields(
                            field_shapes(&fields),
                            shapes,
                            j as int,
                        ),
                {
                    assert(shapes[j as int] == more@[j as int]@);
                    add_field(&mut fields, more[j].clone());
                }
                match extra {
                    Some(node) => {
                        additional = Some(Box::new((&**node).clone()));
                    },
                    None => {},
                }
            },
            _ => {},
        }
    }
    let mut r = Normalized::of(SchemaNode::Object { fields, additional });
    r.nullable = nullable;
    r
}

/// The shape of an optional boxed schema.
spec fn boxed(node: Option<Box<SchemaNode>>) -> Option<Box<Schema>> {
    match node {
        Some(node) => Some(Box::new(node@)),
        None => None,
    }
}

/// The merge of the parts of an `allOf`. The common FastAPI 3.0-era pattern is
/// `allOf: [{$ref: Model}]` with default/description as siblings; the general
/// case merges object fields left to right (later parts override by name).
fn merge_all_of(parts: Vec<Normalized>) -> (r: Normalized)
    ensures
        r@ == merged(parts.deep_view()),
{
    let ghost all = parts.deep_view();
    if parts.len() == 0 {
        return Normalized::any();
    }
    if parts.len() == 1 {
        return parts[0].clone();
    }
    let mut i: usize = 0;
    while i < parts.len()
        invariant_except_break
            i <= parts@.len(),
        invariant
            all == parts.deep_view(),
            forall|k: int| 0 <= k < i ==> (#[trigger] all[k]).node is Object,
        ensures
            i <= parts@.len(),
            i == parts@.len() ==> all_object_parts(all),
            i < parts@.len() ==> !all_object_parts(all),
        decreases parts@.len() - i,
    {
        assert(all[i as int] == parts@[i as int]@);
        match &parts[i].node {
            SchemaNode::Object { .. } => {},
            _ => {
                break;
            },
        }
        i += 1;
    }
    if i == parts.len() {
        return merge_objects(&parts);
    }
    let mut j: usize = 0;
    while j < parts.len()
        invariant
            all == parts.deep_view(),
            j <= parts@.len(),
            first_concrete(all, 0) == first_concrete(all, j as int),
            merged(all) == first_concrete(all, 0),
        decreases parts@.len() - j,
    {
        assert(all[j as int] == parts@[j as int]@);
        match &parts[j].node {
            SchemaNode::Any => {},
            _ => {
                return parts[j].clone();
            },
        }
        j += 1;
    }
    Normalized::any()
}

/// What the non-null alternatives of an anyOf/oneOf amount to: none leaves
/// null alone, a single one collapses, several become `OneOf`.
fn branch(nullable: bool, names: &Vec<Option<String>>, concrete: Vec<Normalized>) -> (r: Normalized)
    requires
        names@.len() == concrete@.len(),
    ensures
        r@ == alternatives(nullable, names.deep_view(), concrete.deep_view()),
{
    let ghost all = concrete.deep_view();
    if concrete.len() == 0 {
        let mut r = Normalized::any();
        r.nullable = true;
        return r;
    }
    if concrete.len() == 1 {
        let mut single = concrete[0].clone();
        single.nullable = single.nullable || nullable;
        return single;
    }
    let mut variants: Vec<OneOfVariant> = Vec::new();
    let ghost values = names.deep_view();
    let ghost expected = alternatives(nullable, values, all).node->OneOf_variants;
    for i in 0..concrete.len()
        invariant
            all == concrete.deep_view(),
            values == names.deep_view(),
            names@.len() == concrete@.len(),
            all.len() > 1,
            expected == alternatives(nullable, values, all).node->OneOf_variants,
            variants@.len() == i,
            forall|k: int| 0 <= k < i ==> (#[trigger] variants@[k])@ == expected[k],
    {
        assert(all[i as int] == concrete@[i as int]@);
        assert(values[i as int] == names@[i as int].deep_view());
        let label = match (&concrete[i].title, &names[i]) {
            (Some(title), _) => title.clone(),
            (None, Some(name)) => name.clone(),
            (None, None) => {
                let kind = concrete[i].node.kind_label();
                let number = show(i as u64 + 1);
                cat3(kind.as_str(), " #", number.as_str())
            },
        };
        variants.push(OneOfVariant { label, node: concrete[i].node.clone() });
    }
    assert(variant_shapes(&variants) =~= expected);
    let mut r = Normalized::of(SchemaNode::OneOf { variants });
    r.nullable = nullable;
    r
}

/// The discriminator value that names an alternative of a schema.
fn discriminator_value(obj: &JsonMap, variant: &JsonValue) -> (r: Option<String>)
    ensures
        r.deep_view() == discriminated(mapping_at(obj@), variant@),
{
    let reference = match variant.get("$ref") {
        Some(JsonValue::Text(reference)) => reference,
        _ => {
            return None;
        },
    };
    let discriminator = match obj.get("discriminator") {
        Some(discriminator) => discriminator,
        None => {
            return None;
        },
    };
    let mapping = match discriminator.get("mapping") {
        Some(JsonValue::Object(mapping)) => mapping,
        _ => {
            return None;
        },
    };
    let ghost all = mapping@;
    for i in 0..mapping.entries.len()
        invariant
            all == mapping@,
            discriminated(mapping_at(obj@), variant@) == value_naming(
                all,
                reference@,
                i as int,
            ),
    {
        assert(all[i as int] == (mapping.entries@[i as int].0@, mapping.entries@[i as int].1@));
        if let JsonValue::Text(target) = &mapping.entries[i].1 {
            if same(target.as_str(), reference.as_str()) {
                return Some(mapping.entries[i].0.clone());
            }
        }
    }
    None
}

/// anyOf/oneOf handling: null variants set `nullable`, the others are
/// normalized and branched on. `obj` is the schema that lists the variants.
fn normalize_variants(
    doc: &JsonValue,
    obj: &JsonMap,
    variants: &Vec<JsonValue>,
    visited: &mut Vec<String>,
    depth: usize,
) -> (r: Normalized)
    requires
        depth <= MAX_DEPTH,
    ensures
        r@ == alternatives(
            some_null_schema(list_json(variants)),
            variant_names(mapping_at(obj@), concrete_variants(list_json(variants), 0)),
            all_normalized(
                doc@,
                concrete_variants(list_json(variants), 0),
                old(visited).deep_view(),
                (depth + 1) as nat,
            ),
        ),
        final(visited).deep_view() == old(visited).deep_view(),
    decreases MAX_DEPTH + 1 - depth, 0int,
{
    let ghost all = list_json(variants);
    let mut nullable = false;
    let mut concrete: Vec<&JsonValue> = Vec::new();
    assert(concrete.deep_view() + concrete_variants(all, 0) =~= concrete_variants(all, 0));
    for i in 0..variants.len()
        invariant
            all == list_json(variants),
            concrete.deep_view() + concrete_variants(all, i as int) == concrete_variants(all, 0),
            nullable == exists|k: int| 0 <= k < i && null_schema(#[trigger] all[k]),
    {
        let ghost before = concrete.deep_view();
        assert(all[i as int] == variants@[i as int]@);
        if is_null_schema(&variants[i]) {
            nullable = true;
        } else {
            concrete.push(&variants[i]);
            assert(concrete.deep_view() =~= before.push(all[i as int]));
            assert(before.push(all[i as int]) + concrete_variants(all, i + 1) =~= before + (seq![
                all[i as int],
            ] + concrete_variants(all, i + 1)));
        }
    }
    assert(concrete.deep_view() =~= concrete_variants(all, 0));
    let mut names: Vec<Option<String>> = Vec::new();
    for i in 0..concrete.len()
        invariant
            names@.len() == i,
            forall|k: int|
                0 <= k < i ==> (#[trigger] names@[k]).deep_view() == discriminated(
                    mapping_at(obj@),
                    concrete@[k]@,
                ),
    {
        names.push(discriminator_value(obj, concrete[i]));
    }
    assert(names.deep_view() =~= variant_names(mapping_at(obj@), concrete.deep_view()));
    branch(nullable, &names, normalize_all(doc, &concrete, visited, depth + 1))
}

fn normalize_inner(
    doc: &JsonValue,
    schema: &JsonValue,
    visited: &mut Vec<String>,
    depth: usize,
) -> (r: Normalized)
    requires
        depth <= MAX_DEPTH + 1,
    ensures
        r@ == normalized_at(doc@, schema@, old(visited).deep_view(), depth as nat),
        final(visited).deep_view() == old(visited).deep_view(),
    decreases MAX_DEPTH + 1 - depth, 1int,
{
    if depth > MAX_DEPTH {
        return Normalized::any();
    }
    // Boolean schemas (3.1) and anything else that is no object allow anything.
    let obj = match schema {
        JsonValue::Object(obj) => obj,
        _ => {
            return Normalized::any();
        },
    };
    let ghost seen = visited.deep_view();
    if let Some(reference) = text_of(obj, "$ref") {
        if holds(visited, reference) {
            // A recursive model: cut the cycle.
            return overlay(obj, Normalized::any());
        }
        let (target, _) = deref(doc, schema);
        visited.push(reference.to_owned());
        assert(visited.deep_view() =~= seen.push(reference@));
        let inner = normalize_inner(doc, target, visited, depth + 1);
        let ghost followed = visited.deep_view();
        let _ = visited.pop();
        assert(visited.deep_view() =~= followed.drop_last());
        assert(followed.drop_last() =~= seen);
        return overlay(obj, inner);
    }
    if let Some(parts) = items_of(obj, "allOf") {
        let mut schemas: Vec<&JsonValue> = Vec::new();
        for i in 0..parts.len()
            invariant
                schemas@.len() == i,
                forall|k: int| 0 <= k < i ==> (#[trigger] schemas@[k])@ == parts@[k]@,
        {
            schemas.push(&parts[i]);
        }
        assert(schemas.deep_view() =~= list_json(parts));
        return overlay(obj, merge_all_of(normalize_all(doc, &schemas, visited, depth + 1)));
    }
    if let Some(variants) = items_of(obj, "anyOf") {
        return overlay(obj, normalize_variants(doc, obj, variants, visited, depth));
    }
    if let Some(variants) = items_of(obj, "oneOf") {
        return overlay(obj, normalize_variants(doc, obj, variants, visited, depth));
    }
    if let Some(value) = obj.get("const") {
        return overlay(obj, Normalized::of(SchemaNode::Const { value: value.clone() }));
    }
    let (name, nullable) = extract_type(obj.get("type"));
    let mut result = match leaf(obj, &name) {
        Some(normalized) => literal(normalized),
        None => {
            let is_object = match &name {
                Some(name) => same(name.as_str(), "object"),
                None => obj.contains_key("properties") || obj.contains_key(
                    "additionalProperties",
                ),
            };
            if is_object {
                normalize_object(doc, obj, visited, depth)
            } else {
                normalize_array(doc, obj, visited, depth)
            }
        },
    };
    result.nullable = result.nullable || nullable;
    overlay(obj, result)
}

// ---------------------------------------------------------------- laws

/// The keys that decide what a schema amounts to, apart from `nullable` and
/// `type`, are neither of these two.
proof fn lemma_keys_distinct()
    ensures
        "$ref"@ != "nullable"@ && "allOf"@ != "nullable"@ && "anyOf"@ != "nullable"@ && "oneOf"@
            != "nullable"@ && "const"@ != "nullable"@ && "type"@ != "nullable"@ && "properties"@
            != "nullable"@ && "additionalProperties"@ != "nullable"@ && "items"@ != "nullable"@
            && "enum"@ != "nullable"@ && "required"@ != "nullable"@ && "default"@ != "nullable"@
            && "description"@ != "nullable"@ && "title"@ != "nullable"@ && "readOnly"@
            != "nullable"@ && "format"@ != "nullable"@ && "minimum"@ != "nullable"@ && "maximum"@
            != "nullable"@ && "minItems"@ != "nullable"@ && "maxItems"@ != "nullable"@
            && "discriminator"@ != "nullable"@,
        "$ref"@ != "type"@ && "allOf"@ != "type"@ && "anyOf"@ != "type"@ && "oneOf"@ != "type"@
            && "const"@ != "type"@ && "properties"@ != "type"@ && "additionalProperties"@
            != "type"@ && "items"@ != "type"@ && "enum"@ != "type"@ && "required"@ != "type"@
            && "default"@ != "type"@ && "description"@ != "type"@ && "title"@ != "type"@
            && "readOnly"@ != "type"@ && "format"@ != "type"@ && "minimum"@ != "type"@
            && "maximum"@ != "type"@ && "minItems"@ != "type"@ && "maxItems"@ != "type"@,
{
    reveal_strlit("nullable");
    reveal_strlit("type");
    reveal_strlit("$ref");
    reveal_strlit("allOf");
    reveal_strlit("anyOf");
    reveal_strlit("oneOf");
    reveal_strlit("const");
    reveal_strlit("properties");
    reveal_strlit("additionalProperties");
    reveal_strlit("items");
    reveal_strlit("enum");
    reveal_strlit("required");
    reveal_strlit("default");
    reveal_strlit("description");
    reveal_strlit("title");
    reveal_strlit("readOnly");
    reveal_strlit("format");
    reveal_strlit("minimum");
    reveal_strlit("maximum");
    reveal_strlit("minItems");
    reveal_strlit("maxItems");
    reveal_strlit("discriminator");
    assert("discriminator"@.len() == 13);
    assert("required"@[0] != "nullable"@[0]);
    assert("readOnly"@[0] != "nullable"@[0]);
    assert("minItems"@[0] != "nullable"@[0]);
    assert("maxItems"@[0] != "nullable"@[0]);
    assert("$ref"@[0] != "type"@[0]);
    assert("enum"@[0] != "type"@[0]);
    assert("type"@.len() == 4);
    assert("allOf"@.len() == 5 && "anyOf"@.len() == 5 && "oneOf"@.len() == 5);
    assert("const"@.len() == 5 && "items"@.len() == 5 && "title"@.len() == 5);
    assert("properties"@.len() == 10 && "additionalProperties"@.len() == 20);
    assert("required"@.len() == 8 && "readOnly"@.len() == 8);
    assert("minItems"@.len() == 8 && "maxItems"@.len() == 8);
    assert("default"@.len() == 7 && "minimum"@.len() == 7 && "maximum"@.len() == 7);
    assert("description"@.len() == 11 && "format"@.len() == 6);
}

/// Two objects that agree on every other key have the same lookups there.
proof fn lemma_put_elsewhere(obj: Seq<(Seq<char>, Json)>, key: Seq<char>, value: Json)
    ensures
        forall|other: Seq<char>|
            other != key ==> #[trigger] lookup(put(obj, key, value), other) == lookup(obj, other),
        forall|other: Seq<char>|
            other != key ==> #[trigger] has_key(put(obj, key, value), other) == has_key(obj, other),
{
    assert forall|other: Seq<char>| other != key implies #[trigger] lookup(
        put(obj, key, value),
        other,
    ) == lookup(obj, other) by {
        law_put_keeps_others(obj, key, value, other);
    }
    assert forall|other: Seq<char>| other != key implies #[trigger] has_key(
        put(obj, key, value),
        other,
    ) == has_key(obj, other) by {
        law_put_keeps_others(obj, key, value, other);
    }
}

/// The OpenAPI 3.0 flag: `nullable: true` makes a schema nullable and changes
/// nothing else of it.
pub proof fn law_nullable_flag(
    doc: Json,
    obj: Seq<(Seq<char>, Json)>,
    visited: Seq<Seq<char>>,
    depth: nat,
)
    requires
        depth <= MAX_DEPTH,
    ensures
        normalized_at(
            doc,
            Json::Object(put(obj, "nullable"@, Json::Bool(true))),
            visited,
            depth,
        ) == (NormalizedShape {
            nullable: true,
            ..normalized_at(doc, Json::Object(obj), visited, depth)
        }),
{
    let flagged = put(obj, "nullable"@, Json::Bool(true));
    lemma_keys_distinct();
    lemma_put_elsewhere(obj, "nullable"@, Json::Bool(true));
    law_lookup_after_put(obj, "nullable"@, Json::Bool(true));
    assert(ref_of(Json::Object(flagged)) == ref_of(Json::Object(obj)));
    assert(kind_of(flagged, type_of(lookup(flagged, "type"@)).0) == kind_of(
        obj,
        type_of(lookup(obj, "type"@)).0,
    ));
    assert(mapping_at(flagged) == mapping_at(obj));
    assert(property_schemas(flagged) == property_schemas(obj));
    assert(property_names(flagged) == property_names(obj));
    let props = all_normalized(doc, property_schemas(obj), visited, depth + 1);
    assert(object_fields(flagged, props) =~= object_fields(obj, props));
}

/// The OpenAPI 3.1 type array: listing `null` beside a type name makes the
/// schema nullable and changes nothing else of it.
pub proof fn law_nullable_type_array(
    doc: Json,
    obj: Seq<(Seq<char>, Json)>,
    name: Seq<char>,
    visited: Seq<Seq<char>>,
    depth: nat,
)
    requires
        depth <= MAX_DEPTH,
        lookup(obj, "type"@) == Some(Json::Text(name)),
        name != "null"@,
        text_at(obj, "$ref"@) is None,
        items_at(obj, "allOf"@) is None,
        items_at(obj, "anyOf"@) is None,
        items_at(obj, "oneOf"@) is None,
        !has_key(obj, "const"@),
    ensures
        normalized_at(
            doc,
            Json::Object(
                put(obj, "type"@, Json::Array(seq![Json::Text(name), Json::Text("null"@)])),
            ),
            visited,
            depth,
        ) == (NormalizedShape {
            nullable: true,
            ..normalized_at(doc, Json::Object(obj), visited, depth)
        }),
{
    let types = seq![Json::Text(name), Json::Text("null"@)];
    let listed = put(obj, "type"@, Json::Array(types));
    lemma_keys_distinct();
    lemma_put_elsewhere(obj, "type"@, Json::Array(types));
    law_lookup_after_put(obj, "type"@, Json::Array(types));
    assert(types[1] == Json::Text("null"@));
    assert(types.contains(Json::Text("null"@)));
    assert(first_type(types, 0) == Some(name));
    assert(kind_of(listed, Some(name)) == kind_of(obj, Some(name)));
    assert(property_schemas(listed) == property_schemas(obj));
    assert(property_names(listed) == property_names(obj));
    let props = all_normalized(doc, property_schemas(obj), visited, depth + 1);
    assert(object_fields(listed, props) =~= object_fields(obj, props));
}

/// FastAPI's `Optional[T]`: an `anyOf` of one schema and the null schema is
/// that schema, made nullable.
pub proof fn law_any_of_null(doc: Json, schema: Json, visited: Seq<Seq<char>>, depth: nat)
    requires
        depth <= MAX_DEPTH,
        !null_schema(schema),
    ensures
        normalized_at(
            doc,
            Json::Object(
                seq![
                    (
                        "anyOf"@,
                        Json::Array(
                            seq![schema, Json::Object(seq![("type"@, Json::Text("null"@))])],
                        ),
                    ),
                ],
            ),
            visited,
            depth,
        ) == (NormalizedShape {
            nullable: true,
            ..normalized_at(doc, schema, visited, depth + 1)
        }),
{
    let null = Json::Object(seq![("type"@, Json::Text("null"@))]);
    let variants = seq![schema, null];
    let obj = seq![("anyOf"@, Json::Array(variants))];
    lemma_single_lookup("type"@, Json::Text("null"@));
    lemma_single_lookup("anyOf"@, Json::Array(variants));
    assert(null_schema(null));
    assert(variants[1] == null);
    assert(some_null_schema(variants));
    reveal_with_fuel(concrete_variants, 3);
    assert(concrete_variants(variants, 0) =~= seq![schema]);
    let parts = all_normalized(doc, seq![schema], visited, depth + 1);
    assert(parts[0] == normalized_at(doc, schema, visited, depth + 1));
    reveal_strlit("anyOf");
    reveal_strlit("allOf");
    reveal_strlit("$ref");
    reveal_strlit("nullable");
    reveal_strlit("default");
    reveal_strlit("description");
    reveal_strlit("title");
    reveal_strlit("readOnly");
    assert("anyOf"@[1] != "allOf"@[1]);
    assert("anyOf"@[0] != "title"@[0]);
}

proof fn lemma_single_lookup(key: Seq<char>, value: Json)
    ensures
        lookup(seq![(key, value)], key) == Some(value),
        forall|other: Seq<char>|
            other != key ==> #[trigger] lookup(seq![(key, value)], other) is None,
{
    reveal_with_fuel(position_from, 3);
}

/// A reference that is already being followed is cut to `Any`; only the
/// attributes beside it survive.
pub proof fn law_recursive_reference_is_cut(
    doc: Json,
    obj: Seq<(Seq<char>, Json)>,
    visited: Seq<Seq<char>>,
    depth: nat,
)
    requires
        depth <= MAX_DEPTH,
        text_at(obj, "$ref"@) is Some,
        visited.contains(text_at(obj, "$ref"@)->0),
    ensures
        normalized_at(doc, Json::Object(obj), visited, depth) == overlaid(obj, plain(Schema::Any)),
        normalized_at(doc, Json::Object(obj), visited, depth).node == Schema::Any,
{
}

/// Whether a field is required depends on the object's `required` list alone,
/// and whether it is nullable on the property's schema alone; the fields keep
/// the order of the properties.
pub proof fn law_required_is_orthogonal_to_nullable(
    obj: Seq<(Seq<char>, Json)>,
    props: Seq<NormalizedShape>,
    i: int,
)
    requires
        0 <= i < props.len(),
    ensures
        object_fields(obj, props)[i].name == property_names(obj)[i],
        object_fields(obj, props)[i].required == is_required(obj, property_names(obj)[i]),
        object_fields(obj, props)[i].nullable == props[i].nullable,
{
}

/// Whatever is no object, and whatever nests too deep, degrades to `Any`.
pub proof fn law_malformed_schema_is_any(
    doc: Json,
    schema: Json,
    visited: Seq<Seq<char>>,
    depth: nat,
)
    requires
        schema !is Object || depth > MAX_DEPTH,
    ensures
        normalized_at(doc, schema, visited, depth) == plain(Schema::Any),
{
}

/// Merging keeps the names of the fields distinct.
pub proof fn law_merged_names_distinct(
    fields: Seq<FieldShape>,
    more: Seq<FieldShape>,
    i: int,
)
    requires
        names_distinct(fields),
    ensures
        names_distinct(with_fields(fields, more, i)),
    decreases more.len() - i,
{
    if 0 <= i < more.len() {
        lemma_with_field_distinct(fields, more[i]);
        law_merged_names_distinct(with_field(fields, more[i]), more, i + 1);
    }
}

/// No two fields share a name.
pub open spec fn names_distinct(fields: Seq<FieldShape>) -> bool {
    forall|i: int, j: int|
        0 <= i < j < fields.len() ==> (#[trigger] fields[i]).name != (#[trigger] fields[j]).name
}

proof fn lemma_field_position(fields: Seq<FieldShape>, name: Seq<char>, i: int)
    requires
        0 <= i,
    ensures
        match field_position(fields, name, i) {
            Some(p) => i <= p < fields.len() && fields[p].name == name,
            None => forall|k: int| i <= k < fields.len() ==> (#[trigger] fields[k]).name != name,
        },
    decreases fields.len() - i,
{
    if i < fields.len() && fields[i].name != name {
        lemma_field_position(fields, name, i + 1);
    }
}

proof fn lemma_with_field_distinct(fields: Seq<FieldShape>, field: FieldShape)
    requires
        names_distinct(fields),
    ensures
        names_distinct(with_field(fields, field)),
{
    lemma_field_position(fields, field.name, 0);
    let after = with_field(fields, field);
    assert forall|i: int, j: int| 0 <= i < j < after.len() implies (#[trigger] after[i]).name != (
    #[trigger] after[j]).name by {
        match field_position(fields, field.name, 0) {
            Some(p) => {
                assert(after[i].name == fields[i].name);
                assert(after[j].name == fields[j].name);
            },
            None => {
                assert(after[i] == fields[i]);
                if j < fields.len() {
                    assert(after[j] == fields[j]);
                }
            },
        }
    }
}

} // verus!
