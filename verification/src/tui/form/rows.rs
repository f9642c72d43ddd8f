//! From an endpoint to the rows of its form.

use super::{
    fields_height, height, row_fits, FormRow, KindShape, RowKind, RowShape, RowState, Section,
    StateShape,
};
use crate::json::{list_json, Json, JsonValue};
use crate::model::schema_node::{
    copied, copied_list, copied_value, field_shapes, Field, FieldShape, Schema, SchemaNode,
};
use crate::model::{params_at, BodyShape, EndpointShape, Param, ParamLocation, ParamShape};
use crate::text::{cat3, decimal, owned, show, show_signed, signed_decimal};
use vstd::prelude::*;

verus! {

// ---------------------------------------------------------------- model

/// The kind of the row that edits a schema.
pub open spec fn kind_of(schema: Schema) -> KindShape {
    match schema {
        Schema::Boolean => KindShape::Bool,
        Schema::String { enum_values: Some(values), .. } => KindShape::Enum(values),
        Schema::Integer { enum_values: Some(values), .. } => KindShape::Enum(
            Seq::new(values.len(), |i: int| signed_decimal(values[i] as int)),
        ),
        Schema::Const { .. } => KindShape::Const,
        Schema::String { .. } => KindShape::Scalar,
        Schema::Integer { .. } => KindShape::Scalar,
        Schema::Number { .. } => KindShape::Scalar,
        Schema::Object { fields, .. } => if fields.len() > 0 {
            KindShape::ObjectHeader
        } else {
            KindShape::RawJson
        },
        Schema::Array { .. } => KindShape::ArrayHeader,
        _ => KindShape::RawJson,
    }
}

/// The marker held by a header that is included.
pub open spec fn included() -> StateShape {
    StateShape::Filled(Json::Bool(true))
}

/// The state of a row without a value: empty where one is asked for.
pub open spec fn without_value(required: bool) -> StateShape {
    if required {
        StateShape::Empty
    } else {
        StateShape::Excluded
    }
}

/// The state of a fresh row. `hydrated` is the value to start from: absent
/// where defaults apply, `Some(None)` where the key is missing. A null makes a
/// row null only where that is allowed. Elsewhere it is a value like any other
/// to a row that holds any JSON, and no value to one of a known type.
pub open spec fn fresh_state(
    kind: KindShape,
    required: bool,
    nullable: bool,
    default: Option<Json>,
    hydrated: Option<Option<Json>>,
) -> StateShape {
    let header = kind is ObjectHeader || kind is ArrayHeader;
    match hydrated {
        Some(None) => without_value(required),
        Some(Some(Json::Null)) => if nullable {
            StateShape::Null
        } else if kind is RawJson {
            StateShape::Filled(Json::Null)
        } else {
            without_value(required)
        },
        Some(Some(value)) => if header {
            included()
        } else {
            StateShape::Filled(value)
        },
        None => match default {
            Some(Json::Null) => if header {
                if required {
                    included()
                } else {
                    StateShape::Excluded
                }
            } else if required && nullable {
                StateShape::Null
            } else if required && kind is RawJson {
                StateShape::Filled(Json::Null)
            } else {
                without_value(required)
            },
            Some(value) => if header {
                included()
            } else {
                StateShape::Filled(value)
            },
            None => if header {
                if required {
                    included()
                } else {
                    StateShape::Excluded
                }
            } else {
                StateShape::Empty
            },
        },
    }
}

/// The heading of a section.
pub open spec fn heading(section: Section) -> RowShape {
    RowShape {
        section,
        label: section.text(),
        depth: 0,
        kind: KindShape::SectionHeader,
        state: StateShape::Empty,
        required: false,
        nullable: false,
        kind_label: Seq::empty(),
        description: None,
        schema: Schema::Any,
        collapsed: false,
        saved: None,
    }
}

/// The row of a parameter.
pub open spec fn row_of_param(section: Section, param: ParamShape) -> RowShape {
    RowShape {
        section,
        label: param.name,
        depth: 0,
        kind: kind_of(param.schema),
        state: match param.default {
            Some(Json::Null) => StateShape::Empty,
            Some(value) => StateShape::Filled(value),
            None => StateShape::Empty,
        },
        required: param.required,
        nullable: param.nullable,
        kind_label: param.schema.label(),
        description: param.description,
        schema: param.schema,
        collapsed: false,
        saved: None,
    }
}

/// What a node of the body tree is made from.
pub struct NodeSeed {
    pub label: Seq<char>,
    pub required: bool,
    pub nullable: bool,
    pub description: Option<Seq<char>>,
    pub default: Option<Json>,
    pub hydrated: Option<Option<Json>>,
}

/// The value given to a node, where there is one.
pub open spec fn given(hydrated: Option<Option<Json>>) -> Option<Json> {
    match hydrated {
        Some(Some(value)) => Some(value),
        _ => None,
    }
}

/// The row of a body node itself. A constant always holds its value.
pub open spec fn node_row(seed: NodeSeed, depth: nat, schema: Schema) -> RowShape {
    RowShape {
        section: Section::Body,
        label: seed.label,
        depth,
        kind: kind_of(schema),
        state: match schema {
            Schema::Const { value } => StateShape::Filled(value),
            _ => fresh_state(
                kind_of(schema),
                seed.required,
                seed.nullable,
                seed.default,
                seed.hydrated,
            ),
        },
        required: seed.required,
        nullable: seed.nullable,
        kind_label: schema.label(),
        description: seed.description,
        schema,
        collapsed: false,
        saved: None,
    }
}

/// The items that an array starts with: those given, else those of the default.
pub open spec fn starting_items(given: Option<Json>, default: Option<Json>) -> Seq<Json> {
    match given {
        Some(Json::Array(items)) => items,
        _ => match default {
            Some(Json::Array(items)) => items,
            _ => Seq::empty(),
        },
    }
}

/// What a field of an object is made from, inside the given object.
pub open spec fn field_seed(field: FieldShape, parent: Option<Json>) -> NodeSeed {
    NodeSeed {
        label: field.name,
        required: field.required,
        nullable: field.nullable,
        description: field.description,
        default: field.default,
        hydrated: match parent {
            Some(value) => Some(value.member(field.name)),
            None => None,
        },
    }
}

pub open spec fn item_label(index: nat) -> Seq<char> {
    "["@ + decimal(index) + "]"@
}

/// What an array item is made from.
pub open spec fn item_seed(index: nat, nullable: bool, value: Option<Json>) -> NodeSeed {
    NodeSeed {
        label: item_label(index),
        required: true,
        nullable,
        description: None,
        default: None,
        hydrated: match value {
            Some(v) => Some(Some(v)),
            None => None,
        },
    }
}

/// The rows of a body node and everything below it.
pub open spec fn node_rows(seed: NodeSeed, depth: nat, schema: Schema) -> Seq<RowShape>
    decreases schema, 0int,
{
    seq![node_row(seed, depth, schema)] + (match schema {
        Schema::Object { fields, .. } => field_rows(fields, 0, depth + 1, given(seed.hydrated)),
        Schema::Array { item, item_nullable, .. } => item_rows(
            *item,
            item_nullable,
            starting_items(given(seed.hydrated), seed.default),
            0,
            depth + 1,
        ),
        _ => Seq::empty(),
    })
}

/// The rows of the fields from position `i` on; fields that are read only have none.
pub open spec fn field_rows(
    fields: Seq<FieldShape>,
    i: int,
    depth: nat,
    parent: Option<Json>,
) -> Seq<RowShape>
    decreases fields, fields.len() - i,
{
    if i < 0 || i >= fields.len() {
        Seq::empty()
    } else if fields[i].read_only {
        field_rows(fields, i + 1, depth, parent)
    } else {
        node_rows(field_seed(fields[i], parent), depth, fields[i].schema) + field_rows(
            fields,
            i + 1,
            depth,
            parent,
        )
    }
}

/// The rows of the array items from position `k` on.
pub open spec fn item_rows(
    item: Schema,
    nullable: bool,
    items: Seq<Json>,
    k: int,
    depth: nat,
) -> Seq<RowShape>
    decreases item, items.len() - k + 1,
{
    if k < 0 || k >= items.len() {
        Seq::empty()
    } else {
        node_rows(item_seed(k as nat, nullable, Some(items[k])), depth, item) + item_rows(
            item,
            nullable,
            items,
            k + 1,
            depth,
        )
    }
}

/// Whether the fields of a body are listed at the top level.
pub open spec fn object_body(schema: Schema) -> bool {
    schema is Object && schema->Object_fields.len() > 0
}

/// What a body without fields is made from.
pub open spec fn root_seed(
    required: bool,
    nullable: bool,
    hydrated: Option<Option<Json>>,
) -> NodeSeed {
    NodeSeed {
        label: "body"@,
        required,
        nullable,
        description: None,
        default: None,
        hydrated,
    }
}

/// The rows of a body, optionally filled from a value.
pub open spec fn body_rows(body: BodyShape, value: Option<Json>) -> Seq<RowShape> {
    if object_body(body.schema) {
        field_rows(body.schema->Object_fields, 0, 0, value)
    } else {
        node_rows(
            root_seed(
                body.required,
                body.nullable,
                match value {
                    Some(v) => Some(Some(v)),
                    None => None,
                },
            ),
            0,
            body.schema,
        )
    }
}

/// The section of the parameters sent in one place: nothing where there are none.
pub open spec fn param_section(section: Section, params: Seq<ParamShape>) -> Seq<RowShape> {
    if params.len() == 0 {
        Seq::empty()
    } else {
        seq![heading(section)] + Seq::new(
            params.len(),
            |i: int| row_of_param(section, params[i]),
        )
    }
}

pub open spec fn param_rows(endpoint: EndpointShape) -> Seq<RowShape> {
    param_section(Section::Path, params_at(endpoint.params, ParamLocation::Path, 0))
        + param_section(Section::Query, params_at(endpoint.params, ParamLocation::Query, 0))
        + param_section(Section::Header, params_at(endpoint.params, ParamLocation::Header, 0))
}

/// All rows of a fresh form.
pub open spec fn form_rows(endpoint: EndpointShape) -> Seq<RowShape> {
    match endpoint.body {
        Some(body) => param_rows(endpoint) + seq![heading(Section::Body)] + body_rows(
            body,
            None,
        ),
        None => param_rows(endpoint),
    }
}

/// The indentation that an endpoint's form needs stays within its machine
/// representation.
pub open spec fn endpoint_fits(endpoint: EndpointShape) -> bool {
    &&& endpoint.body matches Some(body) ==> height(body.schema) <= u16::MAX
    &&& forall|i: int|
        0 <= i < endpoint.params.len() ==> height((#[trigger] endpoint.params[i]).schema)
            <= u16::MAX
}

// ---------------------------------------------------------------- rows

pub(crate) fn section_header(section: Section) -> (r: FormRow)
    ensures
        r@ == heading(section),
{
    let r = FormRow {
        section,
        label: owned(section.label()),
        depth: 0,
        kind: RowKind::SectionHeader,
        state: RowState::Empty,
        required: false,
        nullable: false,
        kind_label: String::new(),
        description: None,
        schema: SchemaNode::Any,
        collapsed: false,
        saved: None,
    };
    assert(r.kind_label@ =~= Seq::<char>::empty());
    r
}

pub(crate) fn param_row(section: Section, param: &Param) -> (r: FormRow)
    ensures
        r@ == row_of_param(section, param@),
{
    let state = match &param.default {
        Some(default) => {
            if default.is_null() {
                RowState::Empty
            } else {
                RowState::Filled(default.clone())
            }
        },
        None => RowState::Empty,
    };
    FormRow {
        section,
        label: param.name.clone(),
        depth: 0,
        kind: scalar_kind(&param.schema),
        state,
        required: param.required,
        nullable: param.nullable,
        kind_label: param.schema.kind_label(),
        description: copied(&param.description),
        schema: param.schema.clone(),
        collapsed: false,
        saved: None,
    }
}

/// The kind of the row that edits a schema.
pub fn scalar_kind(schema: &SchemaNode) -> (r: RowKind)
    ensures
        r@ == kind_of(schema@),
{
    match schema {
        SchemaNode::Boolean => RowKind::Bool,
        SchemaNode::String { enum_values: Some(values), .. } => RowKind::Enum(
            copied_list(values),
        ),
        SchemaNode::Integer { enum_values: Some(values), .. } => {
            let mut texts: Vec<String> = Vec::new();
            for i in 0..values.len()
                invariant
                    texts@.len() == i,
                    forall|k: int|
                        0 <= k < i ==> (#[trigger] texts@[k])@ == signed_decimal(values@[k] as int),
            {
                texts.push(show_signed(values[i]));
            }
            assert(schema@->Integer_enum_values == Some(values@));
            assert(texts.deep_view() =~= kind_of(schema@)->Enum_0);
            RowKind::Enum(texts)
        },
        SchemaNode::Const { .. } => RowKind::Const,
        SchemaNode::String { .. } => RowKind::Scalar,
        SchemaNode::Integer { .. } => RowKind::Scalar,
        SchemaNode::Number { .. } => RowKind::Scalar,
        SchemaNode::Object { fields, .. } => {
            assert(schema@->Object_fields == field_shapes(fields));
            if fields.len() > 0 {
                RowKind::ObjectHeader
            } else {
                RowKind::RawJson
            }
        },
        SchemaNode::Array { .. } => RowKind::ArrayHeader,
        // Open maps, Any, OneOf: raw JSON editing.
        _ => RowKind::RawJson,
    }
}

/// The state of a fresh row. `hydrated`: `None` = no hydration (use defaults);
/// `Some(None)` = hydration says the key is absent; `Some(Some(v))` = hydration
/// provides a value. Null is only reached where it is allowed; a row that holds
/// any JSON keeps a null as its value.
pub(crate) fn initial_state(
    kind: &RowKind,
    required: bool,
    nullable: bool,
    default: &Option<JsonValue>,
    hydrated: &Option<Option<JsonValue>>,
) -> (r: RowState)
    ensures
        r@ == fresh_state(
            kind@,
            required,
            nullable,
            default.deep_view(),
            hydrated.deep_view(),
        ),
{
    let header = match kind {
        RowKind::ObjectHeader => true,
        RowKind::ArrayHeader => true,
        _ => false,
    };
    let raw = match kind {
        RowKind::RawJson => true,
        _ => false,
    };
    let unset = if required {
        RowState::Empty
    } else {
        RowState::Excluded
    };
    match hydrated {
        Some(None) => {
            return unset;
        },
        Some(Some(value)) => {
            return if value.is_null() {
                if nullable {
                    RowState::Null
                } else if raw {
                    RowState::Filled(JsonValue::Null)
                } else {
                    unset
                }
            } else if header {
                RowState::Filled(JsonValue::Bool(true))
            } else {
                RowState::Filled(value.clone())
            };
        },
        None => {},
    }
    let default = match default {
        Some(value) => value,
        None => {
            return if !header {
                RowState::Empty
            } else if required {
                RowState::Filled(JsonValue::Bool(true))
            } else {
                RowState::Excluded
            };
        },
    };
    if header {
        // A non-null default on a container materializes it; the rows below
        // are made from the default.
        if !default.is_null() || required {
            RowState::Filled(JsonValue::Bool(true))
        } else {
            RowState::Excluded
        }
    } else if default.is_null() {
        // `Optional[X] = None`: omit by default so server defaults (and PATCH
        // exclude_unset semantics) apply; Shift+X reaches explicit null.
        if required && nullable {
            RowState::Null
        } else if required && raw {
            RowState::Filled(JsonValue::Null)
        } else {
            unset
        }
    } else {
        RowState::Filled(default.clone())
    }
}

pub proof fn lemma_field_height(fields: Seq<FieldShape>, i: int, k: int)
    requires
        0 <= i <= k < fields.len(),
    ensures
        1 + height(fields[k].schema) <= fields_height(fields, i),
    decreases fields.len() - i,
{
    if i < k {
        lemma_field_height(fields, i + 1, k);
    }
}

/// Pushes the rows of one object field and its children, optionally filled
/// from `parent` (the JSON value containing this field).
pub(crate) fn push_field(rows: &mut Vec<FormRow>, field: &Field, depth: u16, parent: Option<&JsonValue>)
    requires
        depth + height(field@.schema) <= u16::MAX,
    ensures
        final(rows).deep_view() == old(rows).deep_view() + node_rows(
            field_seed(field@, parent.deep_view()),
            depth as nat,
            field@.schema,
        ),
    decreases field, 1int,
{
    let hydrated = match parent {
        Some(value) => match value.get(field.name.as_str()) {
            Some(v) => Some(Some(v.clone())),
            None => Some(None),
        },
        None => None,
    };
    push_node(
        rows,
        field.name.clone(),
        depth,
        &field.schema,
        field.required,
        field.nullable,
        copied(&field.description),
        copied_value(&field.default),
        hydrated,
    );
}

/// Pushes the rows of a body node and everything below it.
pub(crate) fn push_node(
    rows: &mut Vec<FormRow>,
    label: String,
    depth: u16,
    schema: &SchemaNode,
    required: bool,
    nullable: bool,
    description: Option<String>,
    default: Option<JsonValue>,
    hydrated: Option<Option<JsonValue>>,
)
    requires
        depth + height(schema@) <= u16::MAX,
    ensures
        final(rows).deep_view() == old(rows).deep_view() + node_rows(
            (NodeSeed {
                label: label@,
                required,
                nullable,
                description: description.deep_view(),
                default: default.deep_view(),
                hydrated: hydrated.deep_view(),
            }),
            depth as nat,
            schema@,
        ),
    decreases schema, 0int,
{
    let ghost seed = NodeSeed {
        label: label@,
        required,
        nullable,
        description: description.deep_view(),
        default: default.deep_view(),
        hydrated: hydrated.deep_view(),
    };
    let ghost start = rows.deep_view();
    let ghost all = node_rows(seed, depth as nat, schema@);
    let kind = scalar_kind(schema);
    let state = match schema {
        SchemaNode::Const { value } => RowState::Filled(value.clone()),
        _ => initial_state(&kind, required, nullable, &default, &hydrated),
    };
    let row = FormRow {
        section: Section::Body,
        label,
        depth,
        kind,
        state,
        required,
        nullable,
        kind_label: schema.kind_label(),
        description,
        schema: schema.clone(),
        collapsed: false,
        saved: None,
    };
    let ghost first = row@;
    rows.push(row);
    assert(rows.deep_view() =~= start.push(first));
    assert(first == node_row(seed, depth as nat, schema@));
    let given_value = match hydrated {
        Some(Some(v)) => Some(v),
        _ => None,
    };
    match schema {
        SchemaNode::Object { fields, .. } => {
            let ghost shapes = field_shapes(fields);
            let ghost parent = given_value.deep_view();
            let ghost below = field_rows(shapes, 0, (depth + 1) as nat, parent);
            assert(schema@->Object_fields == shapes);
            assert(rows.deep_view() + below =~= start + all);
            for i in 0..fields.len()
                invariant
                    decreases_to!(schema => fields),
                    shapes == field_shapes(fields),
                    parent == given_value.deep_view(),
                    depth + fields_height(shapes, 0) <= u16::MAX,
                    rows.deep_view() + field_rows(shapes, i as int, (depth + 1) as nat, parent)
                        == start + all,
            {
                let ghost before = rows.deep_view();
                let field = &fields[i];
                assert(shapes[i as int] == field@);
                proof {
                    lemma_field_height(shapes, 0, i as int);
                }
                if !field.read_only {
                    push_field(rows, field, depth + 1, given_value.as_ref());
                    let ghost mine = node_rows(
                        field_seed(field@, parent),
                        (depth + 1) as nat,
                        field@.schema,
                    );
                    assert(rows.deep_view() == before + mine);
                    assert(rows.deep_view() + field_rows(
                        shapes,
                        i + 1,
                        (depth + 1) as nat,
                        parent,
                    ) =~= before + (mine + field_rows(
                        shapes,
                        i + 1,
                        (depth + 1) as nat,
                        parent,
                    )));
                }
            }
            assert(rows.deep_view() =~= start + all);
        },
        SchemaNode::Array { item, item_nullable, .. } => {
            let ghost items = starting_items(given_value.deep_view(), seed.default);
            let empty: Vec<JsonValue> = Vec::new();
            assert(list_json(&empty) =~= Seq::<Json>::empty());
            let from_default: &Vec<JsonValue> = match &default {
                Some(JsonValue::Array(values)) => values,
                _ => &empty,
            };
            let values: &Vec<JsonValue> = match &given_value {
                Some(JsonValue::Array(values)) => values,
                _ => from_default,
            };
            assert(list_json(values) == items);
            assert(*schema@->Array_item == item@);
            let ghost below = item_rows(item@, *item_nullable, items, 0, (depth + 1) as nat);
            assert(rows.deep_view() + below =~= start + all);
            for k in 0..values.len()
                invariant
                    decreases_to!(schema => item),
                    depth + 1 + height(item@) <= u16::MAX,
                    items == list_json(values),
                    rows.deep_view() + item_rows(item@, *item_nullable, items, k as int, (depth + 1) as nat)
                        == start + all,
            {
                let ghost before = rows.deep_view();
                assert(items[k as int] == values@[k as int]@);
                push_array_item(
                    rows,
                    item,
                    *item_nullable,
                    k,
                    depth + 1,
                    Some(values[k].clone()),
                );
                let ghost mine = node_rows(
                    item_seed(k as nat, *item_nullable, Some(items[k as int])),
                    (depth + 1) as nat,
                    item@,
                );
                assert(rows.deep_view() == before + mine);
                assert(rows.deep_view() + item_rows(item@, *item_nullable, items, k + 1, (depth + 1) as nat)
                    =~= before + (mine + item_rows(item@, *item_nullable, items, k + 1, (depth + 1) as nat)));
            }
            assert(rows.deep_view() =~= start + all);
        },
        _ => {
            assert(rows.deep_view() =~= start + all);
        },
    }
}

/// Pushes the rows of one array item.
pub(crate) fn push_array_item(
    rows: &mut Vec<FormRow>,
    item_schema: &SchemaNode,
    nullable: bool,
    index: usize,
    depth: u16,
    value: Option<JsonValue>,
)
    requires
        depth + height(item_schema@) <= u16::MAX,
    ensures
        final(rows).deep_view() == old(rows).deep_view() + node_rows(
            item_seed(index as nat, nullable, value.deep_view()),
            depth as nat,
            item_schema@,
        ),
    decreases item_schema, 1int,
{
    let digits = show(index as u64);
    let label = cat3("[", digits.as_str(), "]");
    let hydrated = match value {
        Some(v) => Some(Some(v)),
        None => None,
    };
    push_node(
        rows,
        label,
        depth,
        item_schema,
        // Array items are "required" within the array.
        true,
        nullable,
        None,
        None,
        hydrated,
    );
}

// ---------------------------------------------------------------- range

/// The rows of a node whose indentation fits all fit.
pub proof fn lemma_rows_fit(seed: NodeSeed, depth: nat, schema: Schema)
    requires
        depth + height(schema) <= u16::MAX,
    ensures
        forall|k: int|
            0 <= k < node_rows(seed, depth, schema).len() ==> row_fits(
                #[trigger] node_rows(seed, depth, schema)[k],
            ),
    decreases schema, 0int,
{
    let rows = node_rows(seed, depth, schema);
    match schema {
        Schema::Object { fields, .. } => {
            let parent = given(seed.hydrated);
            lemma_field_rows_fit(fields, 0, depth + 1, parent);
            assert forall|k: int| 0 <= k < rows.len() implies row_fits(#[trigger] rows[k]) by {
                if k > 0 {
                    assert(rows[k] == field_rows(fields, 0, depth + 1, parent)[k - 1]);
                }
            }
        },
        Schema::Array { item, item_nullable, .. } => {
            let items = starting_items(given(seed.hydrated), seed.default);
            lemma_item_rows_fit(*item, item_nullable, items, 0, depth + 1);
            assert forall|k: int| 0 <= k < rows.len() implies row_fits(#[trigger] rows[k]) by {
                if k > 0 {
                    assert(rows[k] == item_rows(*item, item_nullable, items, 0, depth + 1)[k - 1]);
                }
            }
        },
        _ => {},
    }
}

pub proof fn lemma_field_rows_fit(
    fields: Seq<FieldShape>,
    i: int,
    depth: nat,
    parent: Option<Json>,
)
    requires
        0 <= i,
        depth + fields_height(fields, i) <= u16::MAX + 1,
    ensures
        forall|k: int|
            0 <= k < field_rows(fields, i, depth, parent).len() ==> row_fits(
                #[trigger] field_rows(fields, i, depth, parent)[k],
            ),
    decreases fields, fields.len() - i,
{
    if i < fields.len() {
        lemma_field_rows_fit(fields, i + 1, depth, parent);
        if !fields[i].read_only {
            let seed = field_seed(fields[i], parent);
            lemma_rows_fit(seed, depth, fields[i].schema);
            let mine = node_rows(seed, depth, fields[i].schema);
            let rest = field_rows(fields, i + 1, depth, parent);
            let rows = field_rows(fields, i, depth, parent);
            assert forall|k: int| 0 <= k < rows.len() implies row_fits(#[trigger] rows[k]) by {
                if k < mine.len() {
                    assert(rows[k] == mine[k]);
                } else {
                    assert(rows[k] == rest[k - mine.len()]);
                }
            }
        } else {
            assert(field_rows(fields, i, depth, parent) == field_rows(
                fields,
                i + 1,
                depth,
                parent,
            ));
        }
    }
}

proof fn lemma_item_rows_fit(
    item: Schema,
    nullable: bool,
    items: Seq<Json>,
    n: int,
    depth: nat,
)
    requires
        0 <= n,
        depth + height(item) <= u16::MAX,
    ensures
        forall|k: int|
            0 <= k < item_rows(item, nullable, items, n, depth).len() ==> row_fits(
                #[trigger] item_rows(item, nullable, items, n, depth)[k],
            ),
    decreases item, items.len() - n + 1,
{
    if n < items.len() {
        lemma_item_rows_fit(item, nullable, items, n + 1, depth);
        let seed = item_seed(n as nat, nullable, Some(items[n]));
        lemma_rows_fit(seed, depth, item);
        let mine = node_rows(seed, depth, item);
        let rest = item_rows(item, nullable, items, n + 1, depth);
        let rows = item_rows(item, nullable, items, n, depth);
        assert forall|k: int| 0 <= k < rows.len() implies row_fits(#[trigger] rows[k]) by {
            if k < mine.len() {
                assert(rows[k] == mine[k]);
            } else {
                assert(rows[k] == rest[k - mine.len()]);
            }
        }
    }
}

} // verus!
