//! The normalized schema model shared by the form, template generation, and
//! the printed descriptions. Nothing past `spec::normalize` sees raw OpenAPI.

use crate::json::{list_json, Json, JsonMap, JsonValue, Number};
use crate::text::{cat3, owned};
use vstd::prelude::*;

verus! {

/// A normalized JSON-schema shape. The differences between OpenAPI 3.0 and 3.1
/// (nullable, type arrays, anyOf-null) are erased before one is constructed.
#[allow(inconsistent_fields)]
#[derive(Debug, PartialEq)]
pub enum SchemaNode {
    Object {
        fields: Vec<Field>,
        /// The `additionalProperties` schema, when the object is an open map.
        additional: Option<Box<SchemaNode>>,
    },
    Array {
        item: Box<SchemaNode>,
        /// Whether an item may be null.
        item_nullable: bool,
        min_items: Option<u64>,
        max_items: Option<u64>,
    },
    String {
        enum_values: Option<Vec<String>>,
        /// OpenAPI format hint: uuid, date-time, email, binary, ...
        format: Option<String>,
    },
    Integer { minimum: Option<i64>, maximum: Option<i64>, enum_values: Option<Vec<i64>> },
    /// The bounds are held in their decimal notation.
    Number { minimum: Option<String>, maximum: Option<String> },
    Boolean,
    /// Several non-null alternatives (anyOf/oneOf). The label comes from the
    /// variant's `title`, discriminator value, or type name.
    OneOf { variants: Vec<OneOfVariant> },
    /// `const` or a single-value enum.
    Const { value: JsonValue },
    /// An empty schema, an unresolvable ref, a recursion cutoff, or anything
    /// that is not modelled. Edited as raw JSON.
    Any,
}

/// One alternative of a `OneOf`.
#[derive(Debug, PartialEq)]
pub struct OneOfVariant {
    pub label: String,
    pub node: SchemaNode,
}

/// A named member of an object schema, or a request parameter.
///
/// `required` and `nullable` are orthogonal:
/// - `Optional[str] = None`  -> optional + nullable (may omit, may send null)
/// - `Optional[str]`         -> required + nullable (must send, null allowed)
/// - `str = "x"`             -> optional, not nullable (may omit only)
#[derive(Debug, PartialEq)]
pub struct Field {
    pub name: String,
    pub schema: SchemaNode,
    pub required: bool,
    pub nullable: bool,
    pub default: Option<JsonValue>,
    pub description: Option<String>,
    /// `readOnly` fields are response-only; hidden from request forms.
    pub read_only: bool,
}

// ---------------------------------------------------------------- model

/// A schema as a mathematical value.
#[allow(inconsistent_fields)]
pub enum Schema {
    Object { fields: Seq<FieldShape>, additional: Option<Box<Schema>> },
    Array {
        item: Box<Schema>,
        item_nullable: bool,
        min_items: Option<u64>,
        max_items: Option<u64>,
    },
    String { enum_values: Option<Seq<Seq<char>>>, format: Option<Seq<char>> },
    Integer { minimum: Option<i64>, maximum: Option<i64>, enum_values: Option<Seq<i64>> },
    Number { minimum: Option<Seq<char>>, maximum: Option<Seq<char>> },
    Boolean,
    OneOf { variants: Seq<VariantShape> },
    Const { value: Json },
    Any,
}

pub struct VariantShape {
    pub label: Seq<char>,
    pub node: Schema,
}

pub struct FieldShape {
    pub name: Seq<char>,
    pub schema: Schema,
    pub required: bool,
    pub nullable: bool,
    pub default: Option<Json>,
    pub description: Option<Seq<char>>,
    pub read_only: bool,
}

impl SchemaNode {
    pub open spec fn shape(&self) -> Schema
        decreases self,
    {
        match self {
            SchemaNode::Object { fields, additional } => Schema::Object {
                fields: field_shapes(fields),
                additional: match additional {
                    Some(node) => Some(Box::new(node.shape())),
                    None => None,
                },
            },
            SchemaNode::Array { item, item_nullable, min_items, max_items } => Schema::Array {
                item: Box::new(item.shape()),
                item_nullable: *item_nullable,
                min_items: *min_items,
                max_items: *max_items,
            },
            SchemaNode::String { enum_values, format } => Schema::String {
                enum_values: enum_values.deep_view(),
                format: format.deep_view(),
            },
            SchemaNode::Integer { minimum, maximum, enum_values } => Schema::Integer {
                minimum: *minimum,
                maximum: *maximum,
                enum_values: match enum_values {
                    Some(values) => Some(values@),
                    None => None,
                },
            },
            SchemaNode::Number { minimum, maximum } => Schema::Number {
                minimum: minimum.deep_view(),
                maximum: maximum.deep_view(),
            },
            SchemaNode::Boolean => Schema::Boolean,
            SchemaNode::OneOf { variants } => Schema::OneOf { variants: variant_shapes(variants) },
            SchemaNode::Const { value } => Schema::Const { value: value@ },
            SchemaNode::Any => Schema::Any,
        }
    }
}

pub open spec fn field_shapes(fields: &Vec<Field>) -> Seq<FieldShape>
    decreases fields,
{
    Seq::new(
        fields@.len(),
        |i: int|
            if 0 <= i < fields@.len() {
                fields@[i].shape()
            } else {
                arbitrary()
            },
    )
}

pub open spec fn variant_shapes(variants: &Vec<OneOfVariant>) -> Seq<VariantShape>
    decreases variants,
{
    Seq::new(
        variants@.len(),
        |i: int|
            if 0 <= i < variants@.len() {
                variants@[i].shape()
            } else {
                arbitrary()
            },
    )
}

impl Field {
    pub open spec fn shape(&self) -> FieldShape
        decreases self,
    {
        FieldShape {
            name: self.name@,
            schema: self.schema.shape(),
            required: self.required,
            nullable: self.nullable,
            default: self.default.deep_view(),
            description: self.description.deep_view(),
            read_only: self.read_only,
        }
    }
}

impl OneOfVariant {
    pub open spec fn shape(&self) -> VariantShape
        decreases self,
    {
        VariantShape { label: self.label@, node: self.node.shape() }
    }
}

impl View for SchemaNode {
    type V = Schema;

    open spec fn view(&self) -> Schema {
        self.shape()
    }
}

impl DeepView for SchemaNode {
    type V = Schema;

    open spec fn deep_view(&self) -> Schema {
        self.shape()
    }
}

impl View for Field {
    type V = FieldShape;

    open spec fn view(&self) -> FieldShape {
        self.shape()
    }
}

impl DeepView for Field {
    type V = FieldShape;

    open spec fn deep_view(&self) -> FieldShape {
        self.shape()
    }
}

impl View for OneOfVariant {
    type V = VariantShape;

    open spec fn view(&self) -> VariantShape {
        self.shape()
    }
}

impl DeepView for OneOfVariant {
    type V = VariantShape;

    open spec fn deep_view(&self) -> VariantShape {
        self.shape()
    }
}

impl Schema {
    /// The short label of a shape.
    pub open spec fn label(self) -> Seq<char> {
        match self {
            Schema::Object { .. } => "object"@,
            Schema::Array { .. } => "array"@,
            Schema::String { enum_values: Some(_), .. } => "enum"@,
            Schema::String { enum_values: None, format: Some(f) } => "string("@ + f + ")"@,
            Schema::String { enum_values: None, format: None } => "string"@,
            Schema::Integer { enum_values: Some(_), .. } => "enum(int)"@,
            Schema::Integer { .. } => "integer"@,
            Schema::Number { .. } => "number"@,
            Schema::Boolean => "boolean"@,
            Schema::OneOf { .. } => "oneOf"@,
            Schema::Const { .. } => "const"@,
            Schema::Any => "any"@,
        }
    }
}

// ---------------------------------------------------------------- operations

/// A copy of an optional text.
pub fn copied(text: &Option<String>) -> (r: Option<String>)
    ensures
        r.deep_view() == text.deep_view(),
{
    match text {
        Some(s) => Some(s.clone()),
        None => None,
    }
}

/// A copy of a list of texts.
pub fn copied_list(texts: &Vec<String>) -> (r: Vec<String>)
    ensures
        r.deep_view() == texts.deep_view(),
{
    let mut out: Vec<String> = Vec::new();
    for i in 0..texts.len()
        invariant
            out@.len() == i,
            forall|k: int| 0 <= k < i ==> (#[trigger] out@[k])@ == texts@[k]@,
    {
        out.push(texts[i].clone());
    }
    assert(out.deep_view() =~= texts.deep_view());
    out
}

/// A copy of an optional document.
pub fn copied_value(value: &Option<JsonValue>) -> (r: Option<JsonValue>)
    ensures
        r.deep_view() == value.deep_view(),
{
    match value {
        Some(v) => Some(v.clone()),
        None => None,
    }
}

fn copied_ints(values: &Vec<i64>) -> (r: Vec<i64>)
    ensures
        r@ == values@,
{
    let mut out: Vec<i64> = Vec::new();
    for i in 0..values.len()
        invariant
            out@ == values@.take(i as int),
    {
        out.push(values[i]);
        assert(out@ =~= values@.take(i + 1));
    }
    assert(values@.take(values@.len() as int) =~= values@);
    out
}

impl SchemaNode {
    /// Short human label for display ("object", "string(uuid)", "enum", ...).
    pub fn kind_label(&self) -> (r: String)
        ensures
            r@ == self@.label(),
    {
        match self {
            SchemaNode::Object { .. } => owned("object"),
            SchemaNode::Array { .. } => owned("array"),
            SchemaNode::String { enum_values: Some(_), .. } => owned("enum"),
            SchemaNode::String { enum_values: None, format: Some(f) } => cat3(
                "string(",
                f.as_str(),
                ")",
            ),
            SchemaNode::String { enum_values: None, format: None } => owned("string"),
            SchemaNode::Integer { enum_values: Some(_), .. } => owned("enum(int)"),
            SchemaNode::Integer { .. } => owned("integer"),
            SchemaNode::Number { .. } => owned("number"),
            SchemaNode::Boolean => owned("boolean"),
            SchemaNode::OneOf { .. } => owned("oneOf"),
            SchemaNode::Const { .. } => owned("const"),
            SchemaNode::Any => owned("any"),
        }
    }
}

impl Clone for SchemaNode {
    fn clone(&self) -> (r: SchemaNode)
        ensures
            r@ == self@,
        decreases self,
    {
        match self {
            SchemaNode::Object { fields, additional } => {
                let mut out: Vec<Field> = Vec::new();
                for i in 0..fields.len()
                    invariant
                        decreases_to!(self => fields),
                        out@.len() == i,
                        forall|k: int| 0 <= k < i ==> (#[trigger] out@[k])@ == fields@[k]@,
                {
                    out.push(fields[i].clone());
                }
                assert(field_shapes(&out) =~= field_shapes(fields));
                let rest = match additional {
                    Some(node) => Some(Box::new((&**node).clone())),
                    None => None,
                };
                SchemaNode::Object { fields: out, additional: rest }
            },
            SchemaNode::Array { item, item_nullable, min_items, max_items } => SchemaNode::Array {
                item: Box::new((&**item).clone()),
                item_nullable: *item_nullable,
                min_items: *min_items,
                max_items: *max_items,
            },
            SchemaNode::String { enum_values, format } => SchemaNode::String {
                enum_values: match enum_values {
                    Some(values) => Some(copied_list(values)),
                    None => None,
                },
                format: copied(format),
            },
            SchemaNode::Integer { minimum, maximum, enum_values } => SchemaNode::Integer {
                minimum: *minimum,
                maximum: *maximum,
                enum_values: match enum_values {
                    Some(values) => Some(copied_ints(values)),
                    None => None,
                },
            },
            SchemaNode::Number { minimum, maximum } => SchemaNode::Number {
                minimum: copied(minimum),
                maximum: copied(maximum),
            },
            SchemaNode::Boolean => SchemaNode::Boolean,
            SchemaNode::OneOf { variants } => {
                let mut out: Vec<OneOfVariant> = Vec::new();
                for i in 0..variants.len()
                    invariant
                        decreases_to!(self => variants),
                        out@.len() == i,
                        forall|k: int| 0 <= k < i ==> (#[trigger] out@[k])@ == variants@[k]@,
                {
                    out.push(variants[i].clone());
                }
                assert(variant_shapes(&out) =~= variant_shapes(variants));
                SchemaNode::OneOf { variants: out }
            },
            SchemaNode::Const { value } => SchemaNode::Const { value: value.clone() },
            SchemaNode::Any => SchemaNode::Any,
        }
    }
}

impl Clone for Field {
    fn clone(&self) -> (r: Field)
        ensures
            r@ == self@,
        decreases self,
    {
        Field {
            name: self.name.clone(),
            schema: self.schema.clone(),
            required: self.required,
            nullable: self.nullable,
            default: copied_value(&self.default),
            description: copied(&self.description),
            read_only: self.read_only,
        }
    }
}

impl Clone for OneOfVariant {
    fn clone(&self) -> (r: OneOfVariant)
        ensures
            r@ == self@,
        decreases self,
    {
        OneOfVariant { label: self.label.clone(), node: self.node.clone() }
    }
}

// ---------------------------------------------------------------- JSON form

/// The JSON form of an optional text member: nothing where it is absent.
pub open spec fn optional_text(
    key: Seq<char>,
    text: Option<Seq<char>>,
) -> Seq<(Seq<char>, Json)> {
    match text {
        Some(s) => seq![(key, Json::Text(s))],
        None => Seq::empty(),
    }
}

/// An optional member: nothing where it is absent.
pub open spec fn optional_member(key: Seq<char>, value: Option<Json>) -> Seq<(Seq<char>, Json)> {
    match value {
        Some(j) => seq![(key, j)],
        None => Seq::empty(),
    }
}

pub open spec fn json_texts(texts: Seq<Seq<char>>) -> Json {
    Json::Array(Seq::new(texts.len(), |i: int| Json::Text(texts[i])))
}

pub open spec fn int_member(key: Seq<char>, n: Option<int>) -> Seq<(Seq<char>, Json)> {
    match n {
        Some(n) => seq![(key, Json::Int(n))],
        None => Seq::empty(),
    }
}

pub open spec fn float_member(key: Seq<char>, n: Option<Seq<char>>) -> Seq<(Seq<char>, Json)> {
    match n {
        Some(notation) => seq![(key, Json::Float(notation))],
        None => Seq::empty(),
    }
}

pub open spec fn unsigned(n: Option<u64>) -> Option<int> {
    match n {
        Some(n) => Some(n as int),
        None => None,
    }
}

pub open spec fn signed(n: Option<i64>) -> Option<int> {
    match n {
        Some(n) => Some(n as int),
        None => None,
    }
}

/// The JSON form of a schema: an object whose first member names its kind.
pub open spec fn schema_json(node: Schema) -> Json
    decreases node,
{
    match node {
        Schema::Object { fields, additional } => Json::Object(
            seq![
                ("kind"@, Json::Text("object"@)),
                ("fields"@, Json::Array(fields_json(fields))),
            ] + (match additional {
                Some(extra) => seq![("additional"@, schema_json(*extra))],
                None => Seq::empty(),
            }),
        ),
        Schema::Array { item, min_items, max_items, .. } => Json::Object(
            seq![("kind"@, Json::Text("array"@)), ("item"@, schema_json(*item))] + int_member(
                "min_items"@,
                unsigned(min_items),
            ) + int_member("max_items"@, unsigned(max_items)),
        ),
        Schema::String { enum_values, format } => Json::Object(
            seq![("kind"@, Json::Text("string"@))] + (match enum_values {
                Some(values) => seq![("enum_values"@, json_texts(values))],
                None => Seq::empty(),
            }) + optional_text("format"@, format),
        ),
        Schema::Integer { minimum, maximum, enum_values } => Json::Object(
            seq![("kind"@, Json::Text("integer"@))] + int_member("minimum"@, signed(minimum))
                + int_member("maximum"@, signed(maximum)) + (match enum_values {
                Some(values) => seq![
                    (
                        "enum_values"@,
                        Json::Array(Seq::new(values.len(), |i: int| Json::Int(values[i] as int))),
                    ),
                ],
                None => Seq::empty(),
            }),
        ),
        Schema::Number { minimum, maximum } => Json::Object(
            seq![("kind"@, Json::Text("number"@))] + float_member("minimum"@, minimum)
                + float_member("maximum"@, maximum),
        ),
        Schema::Boolean => Json::Object(seq![("kind"@, Json::Text("boolean"@))]),
        Schema::OneOf { variants } => Json::Object(
            seq![
                ("kind"@, Json::Text("one_of"@)),
                (
                    "variants"@,
                    Json::Array(variants_json(variants)),
                ),
            ],
        ),
        Schema::Const { value } => Json::Object(
            seq![("kind"@, Json::Text("const"@)), ("value"@, value)],
        ),
        Schema::Any => Json::Object(seq![("kind"@, Json::Text("any"@))]),
    }
}

pub open spec fn fields_json(fields: Seq<FieldShape>) -> Seq<Json>
    decreases fields,
{
    Seq::new(
        fields.len(),
        |i: int|
            if 0 <= i < fields.len() {
                field_json(fields[i])
            } else {
                Json::Null
            },
    )
}

pub open spec fn variants_json(variants: Seq<VariantShape>) -> Seq<Json>
    decreases variants,
{
    Seq::new(
        variants.len(),
        |i: int|
            if 0 <= i < variants.len() {
                Json::Object(
                    seq![
                        ("label"@, Json::Text(variants[i].label)),
                        ("node"@, schema_json(variants[i].node)),
                    ],
                )
            } else {
                Json::Null
            },
    )
}

/// The JSON form of a field.
pub open spec fn field_json(field: FieldShape) -> Json
    decreases field,
{
    Json::Object(
        seq![
            ("name"@, Json::Text(field.name)),
            ("schema"@, schema_json(field.schema)),
            ("required"@, Json::Bool(field.required)),
            ("nullable"@, Json::Bool(field.nullable)),
        ] + optional_member("default"@, field.default) + optional_text(
            "description"@,
            field.description,
        ) + (if field.read_only {
            seq![("read_only"@, Json::Bool(true))]
        } else {
            Seq::empty()
        }),
    )
}

impl SchemaNode {
    /// The JSON form of the schema.
    pub fn to_json(&self) -> (r: JsonValue)
        ensures
            r@ == schema_json(self@),
        decreases self,
    {
        let mut map = JsonMap::new();
        match self {
            SchemaNode::Object { fields, additional } => {
                map.append_text("kind", "object");
                let mut items: Vec<JsonValue> = Vec::new();
                for i in 0..fields.len()
                    invariant
                        decreases_to!(self => fields),
                        items@.len() == i,
                        forall|k: int|
                            0 <= k < i ==> (#[trigger] items@[k])@ == field_json(fields@[k]@),
                {
                    items.push(fields[i].to_json());
                }
                assert(list_json(&items) =~= fields_json(field_shapes(fields)));
                map.append("fields", JsonValue::Array(items));
                match additional {
                    Some(extra) => map.append("additional", extra.to_json()),
                    None => {},
                }
            },
            SchemaNode::Array { item, min_items, max_items, .. } => {
                map.append_text("kind", "array");
                map.append("item", item.to_json());
                append_unsigned(&mut map, "min_items", *min_items);
                append_unsigned(&mut map, "max_items", *max_items);
            },
            SchemaNode::String { enum_values, format } => {
                map.append_text("kind", "string");
                match enum_values {
                    Some(values) => map.append("enum_values", JsonValue::texts(values)),
                    None => {},
                }
                append_optional_text(&mut map, "format", format);
            },
            SchemaNode::Integer { minimum, maximum, enum_values } => {
                map.append_text("kind", "integer");
                append_signed(&mut map, "minimum", *minimum);
                append_signed(&mut map, "maximum", *maximum);
                match enum_values {
                    Some(values) => {
                        let mut items: Vec<JsonValue> = Vec::new();
                        for i in 0..values.len()
                            invariant
                                items@.len() == i,
                                forall|k: int|
                                    0 <= k < i ==> (#[trigger] items@[k])@ == Json::Int(
                                        values@[k] as int,
                                    ),
                        {
                            items.push(JsonValue::signed(values[i]));
                        }
                        let ghost expected = Seq::new(
                            values@.len(),
                            |i: int| Json::Int(values@[i] as int),
                        );
                        assert(list_json(&items) =~= expected);
                        map.append("enum_values", JsonValue::Array(items));
                    },
                    None => {},
                }
            },
            SchemaNode::Number { minimum, maximum } => {
                map.append_text("kind", "number");
                append_float(&mut map, "minimum", minimum);
                append_float(&mut map, "maximum", maximum);
            },
            SchemaNode::Boolean => map.append_text("kind", "boolean"),
            SchemaNode::OneOf { variants } => {
                map.append_text("kind", "one_of");
                let mut items: Vec<JsonValue> = Vec::new();
                let ghost expected = variants_json(variant_shapes(variants));
                for i in 0..variants.len()
                    invariant
                        decreases_to!(self => variants),
                        expected == variants_json(variant_shapes(variants)),
                        items@.len() == i,
                        forall|k: int| 0 <= k < i ==> (#[trigger] items@[k])@ == expected[k],
                {
                    let mut entry = JsonMap::new();
                    entry.append_text("label", variants[i].label.as_str());
                    entry.append("node", variants[i].node.to_json());
                    assert(entry@ =~= seq![
                        ("label"@, Json::Text(variants@[i as int]@.label)),
                        ("node"@, schema_json(variants@[i as int]@.node)),
                    ]);
                    items.push(JsonValue::Object(entry));
                }
                assert(list_json(&items) =~= expected);
                map.append("variants", JsonValue::Array(items));
            },
            SchemaNode::Const { value } => {
                map.append_text("kind", "const");
                map.append("value", value.clone());
            },
            SchemaNode::Any => map.append_text("kind", "any"),
        }
        assert(map@ =~= schema_json(self@)->Object_0);
        JsonValue::Object(map)
    }
}

impl Field {
    /// The JSON form of the field.
    pub fn to_json(&self) -> (r: JsonValue)
        ensures
            r@ == field_json(self@),
        decreases self,
    {
        let mut map = JsonMap::new();
        map.append_text("name", self.name.as_str());
        map.append("schema", self.schema.to_json());
        map.append("required", JsonValue::Bool(self.required));
        map.append("nullable", JsonValue::Bool(self.nullable));
        append_optional_value(&mut map, "default", &self.default);
        append_optional_text(&mut map, "description", &self.description);
        if self.read_only {
            map.append("read_only", JsonValue::Bool(true));
        }
        assert(map@ =~= field_json(self@)->Object_0);
        JsonValue::Object(map)
    }
}

/// Appends a text member where there is one.
pub fn append_optional_text(map: &mut JsonMap, key: &str, text: &Option<String>)
    ensures
        final(map)@ == old(map)@ + optional_text(key@, text.deep_view()),
{
    let ghost before = map@;
    match text {
        Some(s) => map.append_text(key, s.as_str()),
        None => {},
    }
    assert(map@ =~= before + optional_text(key@, text.deep_view()));
}

/// Appends a member where there is one.
pub fn append_optional_value(map: &mut JsonMap, key: &str, value: &Option<JsonValue>)
    ensures
        final(map)@ == old(map)@ + optional_member(key@, value.deep_view()),
{
    let ghost before = map@;
    match value {
        Some(v) => map.append(key, v.clone()),
        None => {},
    }
    assert(map@ =~= before + optional_member(key@, value.deep_view()));
}

fn append_unsigned(map: &mut JsonMap, key: &str, n: Option<u64>)
    ensures
        final(map)@ == old(map)@ + int_member(key@, unsigned(n)),
{
    let ghost before = map@;
    match n {
        Some(n) => map.append(key, JsonValue::unsigned(n)),
        None => {},
    }
    assert(map@ =~= before + int_member(key@, unsigned(n)));
}

fn append_signed(map: &mut JsonMap, key: &str, n: Option<i64>)
    ensures
        final(map)@ == old(map)@ + int_member(key@, signed(n)),
{
    let ghost before = map@;
    match n {
        Some(n) => map.append(key, JsonValue::signed(n)),
        None => {},
    }
    assert(map@ =~= before + int_member(key@, signed(n)));
}

fn append_float(map: &mut JsonMap, key: &str, n: &Option<String>)
    ensures
        final(map)@ == old(map)@ + float_member(key@, n.deep_view()),
{
    let ghost before = map@;
    match n {
        Some(notation) => map.append(key, JsonValue::Number(Number::Float(notation.clone()))),
        None => {},
    }
    assert(map@ =~= before + float_member(key@, n.deep_view()));
}

} // verus!
