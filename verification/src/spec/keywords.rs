//! What each keyword of a schema leaves in the model, said of the schema as it
//! is written.

use super::normalize::{
    all_normalized, concrete_variants, discriminated, first_type, ints_from, mapping_at,
    normalized_at, null_schema, object_fields, property_names, property_schemas, some_null_schema,
    texts_from, type_of, value_naming, NormalizedShape, MAX_DEPTH,
};
use super::resolve::{dereferenced, ref_of, MAX_HOPS};
use crate::json::pointer::pointed;
use crate::json::{lookup, position_from, Json};
use crate::lists::lemma_filter_from;
use crate::model::schema_node::{FieldShape, Schema};
use crate::text::decimal;
use vstd::prelude::*;
use vstd::string::*;

verus! {

/// The schema is neither a reference nor composed of others nor a constant.
pub open spec fn simple(obj: Seq<(Seq<char>, Json)>) -> bool {
    &&& lookup(obj, "$ref"@) is None
    &&& lookup(obj, "allOf"@) is None
    &&& lookup(obj, "anyOf"@) is None
    &&& lookup(obj, "oneOf"@) is None
    &&& lookup(obj, "const"@) is None
}

/// The schema has a type, by its one name or as the first of a list that is not
/// `null`.
pub open spec fn typed_as(obj: Seq<(Seq<char>, Json)>, name: Seq<char>) -> bool {
    ||| lookup(obj, "type"@) == Some(Json::Text(name))
    ||| exists|k: int| listed_type(obj, name, k)
}

/// The type is the item at position `k` of the list.
pub open spec fn listed_type(obj: Seq<(Seq<char>, Json)>, name: Seq<char>, k: int) -> bool {
    &&& name != "null"@
    &&& lookup(obj, "type"@) matches Some(Json::Array(items)) && 0 <= k < items.len() && items[k]
        == Json::Text(name) && forall|j: int|
        0 <= j < k ==> !((#[trigger] items[j]) is Text) || items[j] == Json::Text("null"@)
}

/// The list of types has `null` in it.
pub open spec fn lists_null(obj: Seq<(Seq<char>, Json)>) -> bool {
    lookup(obj, "type"@) matches Some(Json::Array(items)) && exists|k: int|
        0 <= k < items.len() && #[trigger] items[k] == Json::Text("null"@)
}

proof fn lemma_first_type(items: Seq<Json>, from: int, k: int, name: Seq<char>)
    requires
        0 <= from <= k < items.len(),
        name != "null"@,
        items[k] == Json::Text(name),
        forall|j: int|
            from <= j < k ==> !((#[trigger] items[j]) is Text) || items[j] == Json::Text("null"@),
    ensures
        first_type(items, from) == Some(name),
    decreases k - from,
{
    if from < k {
        assert(!(items[from] is Text) || items[from] == Json::Text("null"@));
        lemma_first_type(items, from + 1, k, name);
    }
}

proof fn lemma_typed(obj: Seq<(Seq<char>, Json)>, name: Seq<char>)
    requires
        typed_as(obj, name),
    ensures
        type_of(lookup(obj, "type"@)).0 == Some(name),
        type_of(lookup(obj, "type"@)).1 == lists_null(obj),
{
    if exists|k: int| listed_type(obj, name, k) {
        let k = choose|k: int| listed_type(obj, name, k);
        match lookup(obj, "type"@) {
            Some(Json::Array(items)) => {
                lemma_first_type(items, 0, k, name);
            },
            _ => {},
        }
    }
}

proof fn lemma_type_names()
    ensures
        "object"@ != "array"@,
        "string"@ != "object"@ && "string"@ != "array"@,
        "integer"@ != "object"@ && "integer"@ != "array"@ && "integer"@ != "string"@,
        "number"@ != "object"@ && "number"@ != "array"@ && "number"@ != "string"@ && "number"@
            != "integer"@,
        "boolean"@ != "object"@ && "boolean"@ != "array"@ && "boolean"@ != "string"@ && "boolean"@
            != "integer"@ && "boolean"@ != "number"@,
        "null"@ != "object"@ && "null"@ != "array"@ && "null"@ != "string"@ && "null"@
            != "integer"@ && "null"@ != "number"@ && "null"@ != "boolean"@,
{
    reveal_strlit("object");
    reveal_strlit("array");
    reveal_strlit("string");
    reveal_strlit("integer");
    reveal_strlit("number");
    reveal_strlit("boolean");
    reveal_strlit("null");
    assert("object"@[0] == 'o' && "array"@[0] == 'a' && "string"@[0] == 's' && "integer"@[0] == 'i'
        && "number"@[0] == 'n' && "boolean"@[0] == 'b' && "null"@[0] == 'n');
    assert("null"@.len() == 4 && "number"@.len() == 6);
}

// ---------------------------------------------------------------- attributes

/// Attributes that stand in a schema are its own: a default, a description and a
/// title as written, read-only and nullable where they are flagged.
pub proof fn law_own_attributes_count(
    doc: Json,
    obj: Seq<(Seq<char>, Json)>,
    visited: Seq<Seq<char>>,
    depth: nat,
)
    requires
        depth <= MAX_DEPTH,
    ensures
        ({
            let whole = normalized_at(doc, Json::Object(obj), visited, depth);
            &&& lookup(obj, "default"@) is Some ==> whole.default == lookup(obj, "default"@)
            &&& lookup(obj, "description"@) matches Some(Json::Text(text)) ==> whole.description
                == Some(text)
            &&& lookup(obj, "title"@) matches Some(Json::Text(text)) ==> whole.title == Some(text)
            &&& lookup(obj, "readOnly"@) == Some(Json::Bool(true)) ==> whole.read_only
            &&& lookup(obj, "nullable"@) == Some(Json::Bool(true)) ==> whole.nullable
        }),
{
}

/// A simple schema has the attributes that are written in it, and no others.
pub proof fn law_simple_schemas_have_their_own_attributes(
    doc: Json,
    obj: Seq<(Seq<char>, Json)>,
    visited: Seq<Seq<char>>,
    depth: nat,
    name: Seq<char>,
)
    requires
        depth <= MAX_DEPTH,
        simple(obj),
        typed_as(obj, name),
    ensures
        ({
            let whole = normalized_at(doc, Json::Object(obj), visited, depth);
            &&& whole.default == lookup(obj, "default"@)
            &&& whole.description == (match lookup(obj, "description"@) {
                Some(Json::Text(text)) => Some(text),
                _ => None,
            })
            &&& whole.title == (match lookup(obj, "title"@) {
                Some(Json::Text(text)) => Some(text),
                _ => None,
            })
            &&& whole.read_only <==> lookup(obj, "readOnly"@) == Some(Json::Bool(true))
            &&& whole.nullable <==> lookup(obj, "nullable"@) == Some(Json::Bool(true))
                || lists_null(obj) || name == "null"@
        }),
{
    lemma_typed(obj, name);
    lemma_type_names();
}

// ---------------------------------------------------------------- objects

/// The `required` list has the name.
pub open spec fn requires_name(obj: Seq<(Seq<char>, Json)>, name: Seq<char>) -> bool {
    lookup(obj, "required"@) matches Some(Json::Array(names)) && exists|k: int|
        0 <= k < names.len() && #[trigger] names[k] == Json::Text(name)
}

/// The field says of a property what its own schema says, and is required where
/// the object requires its name.
pub open spec fn field_says(
    field: FieldShape,
    obj: Seq<(Seq<char>, Json)>,
    name: Seq<char>,
    own: NormalizedShape,
) -> bool {
    &&& field.name == name
    &&& field.schema == own.node
    &&& field.required == requires_name(obj, name)
    &&& field.nullable == own.nullable
    &&& field.default == own.default
    &&& field.description == own.description
    &&& field.read_only == own.read_only
}

/// An object has one field for each of its properties, in order; it is open where
/// it says so. Properties or additional properties alone make an object, too.
pub proof fn law_object_has_its_properties(
    doc: Json,
    obj: Seq<(Seq<char>, Json)>,
    visited: Seq<Seq<char>>,
    depth: nat,
)
    requires
        depth <= MAX_DEPTH,
        simple(obj),
        typed_as(obj, "object"@) || (lookup(obj, "type"@) is None && (lookup(obj, "properties"@)
            is Some || lookup(obj, "additionalProperties"@) is Some)),
    ensures
        ({
            let whole = normalized_at(doc, Json::Object(obj), visited, depth);
            let fields = whole.node->Object_fields;
            let open = whole.node->Object_additional;
            &&& whole.node is Object
            &&& lookup(obj, "properties"@) matches Some(Json::Object(props)) ==> fields.len()
                == props.len() && forall|i: int|
                0 <= i < props.len() ==> field_says(
                    #[trigger] fields[i],
                    obj,
                    props[i].0,
                    normalized_at(doc, props[i].1, visited, depth + 1),
                )
            &&& lookup(obj, "properties"@) is None ==> fields.len() == 0
            &&& match lookup(obj, "additionalProperties"@) {
                Some(Json::Bool(true)) => open == Some(Box::new(Schema::Any)),
                Some(Json::Object(extra)) => open == Some(
                    Box::new(
                        normalized_at(doc, Json::Object(extra), visited, depth + 1).node,
                    ),
                ),
                _ => open is None,
            }
        }),
{
    if typed_as(obj, "object"@) {
        lemma_typed(obj, "object"@);
    }
    let whole = normalized_at(doc, Json::Object(obj), visited, depth);
    assert(whole.node is Object);
    let parts = all_normalized(doc, property_schemas(obj), visited, depth + 1);
    assert(whole.node->Object_fields == object_fields(obj, parts));
    match lookup(obj, "properties"@) {
        Some(Json::Object(props)) => {
            let fields = whole.node->Object_fields;
            assert forall|i: int| 0 <= i < props.len() implies field_says(
                #[trigger] fields[i],
                obj,
                props[i].0,
                normalized_at(doc, props[i].1, visited, depth + 1),
            ) by {
                assert(property_names(obj)[i] == props[i].0);
                assert(property_schemas(obj)[i] == props[i].1);
                match lookup(obj, "required"@) {
                    Some(Json::Array(names)) => {
                        if names.contains(Json::Text(props[i].0)) {
                            let k = choose|k: int|
                                0 <= k < names.len() && names[k] == Json::Text(props[i].0);
                            assert(names[k] == Json::Text(props[i].0));
                        }
                    },
                    _ => {},
                }
            }
        },
        _ => {},
    }
}

// ---------------------------------------------------------------- arrays

/// An array has the items that it says, nullable where their schema is, and as
/// many as its bounds allow.
pub proof fn law_array_has_its_items(
    doc: Json,
    obj: Seq<(Seq<char>, Json)>,
    visited: Seq<Seq<char>>,
    depth: nat,
)
    requires
        depth <= MAX_DEPTH,
        simple(obj),
        typed_as(obj, "array"@) || (lookup(obj, "type"@) is None && lookup(obj, "properties"@)
            is None && lookup(obj, "additionalProperties"@) is None && lookup(obj, "items"@)
            is Some),
    ensures
        ({
            let whole = normalized_at(doc, Json::Object(obj), visited, depth);
            &&& whole.node is Array
            &&& lookup(obj, "items"@) matches Some(items) ==> {
                &&& *whole.node->Array_item == normalized_at(doc, items, visited, depth + 1).node
                &&& whole.node->Array_item_nullable == normalized_at(
                    doc,
                    items,
                    visited,
                    depth + 1,
                ).nullable
            }
            &&& lookup(obj, "items"@) is None ==> *whole.node->Array_item == Schema::Any
            &&& whole.node->Array_min_items == (match lookup(obj, "minItems"@) {
                Some(Json::Int(n)) if 0 <= n <= u64::MAX => Some(n as u64),
                _ => None,
            })
            &&& whole.node->Array_max_items == (match lookup(obj, "maxItems"@) {
                Some(Json::Int(n)) if 0 <= n <= u64::MAX => Some(n as u64),
                _ => None,
            })
        }),
{
    if typed_as(obj, "array"@) {
        lemma_typed(obj, "array"@);
    }
    lemma_type_names();
}

// ---------------------------------------------------------------- scalars

/// The value is a text.
pub open spec fn is_text() -> spec_fn(Json) -> bool {
    |value: Json| value is Text
}

/// The value is an integer of 64 bits.
pub open spec fn is_small() -> spec_fn(Json) -> bool {
    |value: Json| value matches Json::Int(n) && i64::MIN <= n <= i64::MAX
}

/// The texts among the listed values.
pub open spec fn texts_among(items: Seq<Json>) -> Seq<Seq<char>> {
    items.filter(is_text()).map_values(|value: Json| value->Text_0)
}

/// The small integers among the listed values.
pub open spec fn integers_among(items: Seq<Json>) -> Seq<i64> {
    items.filter(is_small()).map_values(|value: Json| value->Int_0 as i64)
}

proof fn lemma_texts(items: Seq<Json>, i: int)
    requires
        0 <= i <= items.len(),
    ensures
        texts_from(items, i) == texts_among(items.skip(i)),
    decreases items.len() - i,
{
    lemma_filter_from(items, i, is_text());
    if i < items.len() {
        lemma_texts(items, i + 1);
        if items[i] is Text {
            assert(texts_among(items.skip(i)) =~= seq![items[i]->Text_0] + texts_among(
                items.skip(i + 1),
            ));
        } else {
            assert(texts_among(items.skip(i)) =~= texts_among(items.skip(i + 1)));
        }
    } else {
        assert(texts_among(items.skip(i)) =~= Seq::empty());
    }
}

proof fn lemma_integers(items: Seq<Json>, i: int)
    requires
        0 <= i <= items.len(),
    ensures
        ints_from(items, i) == integers_among(items.skip(i)),
    decreases items.len() - i,
{
    lemma_filter_from(items, i, is_small());
    if i < items.len() {
        lemma_integers(items, i + 1);
        if is_small()(items[i]) {
            assert(integers_among(items.skip(i)) =~= seq![items[i]->Int_0 as i64] + integers_among(
                items.skip(i + 1),
            ));
        } else {
            assert(integers_among(items.skip(i)) =~= integers_among(items.skip(i + 1)));
        }
    } else {
        assert(integers_among(items.skip(i)) =~= Seq::empty());
    }
}

/// A text has the listed values and the format that it says; a single listed
/// value makes it a constant.
pub proof fn law_text_has_its_values(
    doc: Json,
    obj: Seq<(Seq<char>, Json)>,
    visited: Seq<Seq<char>>,
    depth: nat,
)
    requires
        depth <= MAX_DEPTH,
        simple(obj),
        typed_as(obj, "string"@),
    ensures
        ({
            let node = normalized_at(doc, Json::Object(obj), visited, depth).node;
            let format = match lookup(obj, "format"@) {
                Some(Json::Text(text)) => Some(text),
                _ => None,
            };
            let values = match lookup(obj, "enum"@) {
                Some(Json::Array(items)) => texts_among(items),
                _ => Seq::empty(),
            };
            &&& values.len() == 0 ==> node == (Schema::String { enum_values: None, format })
            &&& values.len() == 1 ==> node == (Schema::Const { value: Json::Text(values[0]) })
            &&& values.len() > 1 ==> node == (Schema::String { enum_values: Some(values), format })
        }),
{
    lemma_typed(obj, "string"@);
    lemma_type_names();
    match lookup(obj, "enum"@) {
        Some(Json::Array(items)) => {
            lemma_texts(items, 0);
            assert(items.skip(0) =~= items);
        },
        _ => {},
    }
}

/// Listed texts alone make a text, too.
pub proof fn law_listed_texts_make_a_text(
    doc: Json,
    obj: Seq<(Seq<char>, Json)>,
    visited: Seq<Seq<char>>,
    depth: nat,
)
    requires
        depth <= MAX_DEPTH,
        simple(obj),
        lookup(obj, "type"@) is None,
        lookup(obj, "properties"@) is None,
        lookup(obj, "additionalProperties"@) is None,
        lookup(obj, "items"@) is None,
    ensures
        ({
            let node = normalized_at(doc, Json::Object(obj), visited, depth).node;
            let values = match lookup(obj, "enum"@) {
                Some(Json::Array(items)) => texts_among(items),
                _ => Seq::empty(),
            };
            &&& values.len() == 0 ==> node == Schema::Any
            &&& values.len() == 1 ==> node == (Schema::Const { value: Json::Text(values[0]) })
            &&& values.len() > 1 ==> node == (Schema::String {
                enum_values: Some(values),
                format: None,
            })
        }),
{
    match lookup(obj, "enum"@) {
        Some(Json::Array(items)) => {
            lemma_texts(items, 0);
            assert(items.skip(0) =~= items);
        },
        _ => {},
    }
}

/// An integer has its bounds and listed values, a number its bounds, and the
/// remaining types have nothing of their own.
pub proof fn law_numbers_have_their_bounds(
    doc: Json,
    obj: Seq<(Seq<char>, Json)>,
    visited: Seq<Seq<char>>,
    depth: nat,
)
    requires
        depth <= MAX_DEPTH,
        simple(obj),
    ensures
        ({
            let node = normalized_at(doc, Json::Object(obj), visited, depth).node;
            &&& typed_as(obj, "integer"@) ==> {
                &&& node is Integer
                &&& node->Integer_minimum == (match lookup(obj, "minimum"@) {
                    Some(Json::Int(n)) if i64::MIN <= n <= i64::MAX => Some(n as i64),
                    _ => None,
                })
                &&& node->Integer_maximum == (match lookup(obj, "maximum"@) {
                    Some(Json::Int(n)) if i64::MIN <= n <= i64::MAX => Some(n as i64),
                    _ => None,
                })
                &&& match lookup(obj, "enum"@) {
                    Some(Json::Array(items)) => if integers_among(items).len() == 0 {
                        node->Integer_enum_values is None
                    } else {
                        node->Integer_enum_values == Some(integers_among(items))
                    },
                    _ => node->Integer_enum_values is None,
                }
            }
            &&& typed_as(obj, "number"@) ==> {
                &&& node is Number
                &&& lookup(obj, "minimum"@) matches Some(Json::Float(n)) ==> node->Number_minimum
                    == Some(n)
                &&& lookup(obj, "maximum"@) matches Some(Json::Float(n)) ==> node->Number_maximum
                    == Some(n)
                &&& lookup(obj, "minimum"@) is None ==> node->Number_minimum is None
                &&& lookup(obj, "maximum"@) is None ==> node->Number_maximum is None
            }
            &&& typed_as(obj, "boolean"@) ==> node == Schema::Boolean
            &&& typed_as(obj, "null"@) ==> node == Schema::Any
        }),
{
    lemma_type_names();
    if typed_as(obj, "integer"@) {
        lemma_typed(obj, "integer"@);
        match lookup(obj, "enum"@) {
            Some(Json::Array(items)) => {
                lemma_integers(items, 0);
                assert(items.skip(0) =~= items);
            },
            _ => {},
        }
    }
    if typed_as(obj, "number"@) {
        lemma_typed(obj, "number"@);
    }
    if typed_as(obj, "boolean"@) {
        lemma_typed(obj, "boolean"@);
    }
    if typed_as(obj, "null"@) {
        lemma_typed(obj, "null"@);
    }
}

/// A constant is the value that is written.
pub proof fn law_constant_is_its_value(
    doc: Json,
    obj: Seq<(Seq<char>, Json)>,
    visited: Seq<Seq<char>>,
    depth: nat,
)
    requires
        depth <= MAX_DEPTH,
        lookup(obj, "$ref"@) is None,
        lookup(obj, "allOf"@) is None,
        lookup(obj, "anyOf"@) is None,
        lookup(obj, "oneOf"@) is None,
    ensures
        lookup(obj, "const"@) matches Some(value) ==> normalized_at(
            doc,
            Json::Object(obj),
            visited,
            depth,
        ).node == (Schema::Const { value }),
{
}

// ---------------------------------------------------------------- alternatives

/// The schema is not the null schema.
pub open spec fn is_concrete() -> spec_fn(Json) -> bool {
    |schema: Json|
        !(schema matches Json::Object(members) && lookup(members, "type"@) == Some(
            Json::Text("null"@),
        ))
}

proof fn lemma_concrete(variants: Seq<Json>, i: int)
    requires
        0 <= i <= variants.len(),
    ensures
        concrete_variants(variants, i) == variants.skip(i).filter(is_concrete()),
    decreases variants.len() - i,
{
    lemma_filter_from(variants, i, is_concrete());
    if i < variants.len() {
        lemma_concrete(variants, i + 1);
        let rest = variants.skip(i + 1).filter(is_concrete());
        assert(null_schema(variants[i]) == !is_concrete()(variants[i]));
        assert(Seq::<Json>::empty() + rest =~= rest);
    }
}

/// The alternatives of a schema: those of `anyOf`, or of `oneOf`.
pub open spec fn offers(obj: Seq<(Seq<char>, Json)>, variants: Seq<Json>) -> bool {
    &&& lookup(obj, "$ref"@) is None
    &&& lookup(obj, "allOf"@) is None
    &&& lookup(obj, "anyOf"@) == Some(Json::Array(variants)) || (lookup(obj, "anyOf"@) is None
        && lookup(obj, "oneOf"@) == Some(Json::Array(variants)))
}

/// The alternatives that are not null are what a value may be: one of several is a
/// choice in the order in which they are written, a single one stands for itself.
/// A null schema among them makes the whole nullable.
pub proof fn law_alternatives_are_offered(
    doc: Json,
    obj: Seq<(Seq<char>, Json)>,
    variants: Seq<Json>,
    visited: Seq<Seq<char>>,
    depth: nat,
)
    requires
        depth <= MAX_DEPTH,
        offers(obj, variants),
    ensures
        ({
            let whole = normalized_at(doc, Json::Object(obj), visited, depth);
            let concrete = variants.filter(is_concrete());
            let inner = Seq::new(
                concrete.len(),
                |i: int| normalized_at(doc, concrete[i], visited, depth + 1),
            );
            let has_null = exists|k: int|
                0 <= k < variants.len() && !is_concrete()(#[trigger] variants[k]);
            &&& concrete.len() == 0 ==> whole.node == Schema::Any && whole.nullable
            &&& concrete.len() == 1 ==> {
                &&& whole.node == inner[0].node
                &&& whole.nullable == (inner[0].nullable || has_null || lookup(obj, "nullable"@)
                    == Some(Json::Bool(true)))
            }
            &&& concrete.len() > 1 ==> {
                &&& whole.node is OneOf
                &&& whole.node->OneOf_variants.len() == concrete.len()
                &&& forall|i: int|
                    0 <= i < concrete.len() ==> (
                    #[trigger] whole.node->OneOf_variants[i]).node == inner[i].node
                &&& forall|i: int|
                    0 <= i < concrete.len() ==> labels(
                        (#[trigger] whole.node->OneOf_variants[i]).label,
                        obj,
                        concrete[i],
                        inner[i],
                        i,
                    )
                &&& whole.nullable == (has_null || lookup(obj, "nullable"@) == Some(
                    Json::Bool(true),
                ))
            }
        }),
{
    lemma_concrete(variants, 0);
    assert(variants.skip(0) =~= variants);
    let concrete = variants.filter(is_concrete());
    let inner = Seq::new(
        concrete.len(),
        |i: int| normalized_at(doc, concrete[i], visited, depth + 1),
    );
    assert(all_normalized(doc, concrete, visited, depth + 1) =~= inner);
    if some_null_schema(variants) {
        let k = choose|k: int| 0 <= k < variants.len() && null_schema(#[trigger] variants[k]);
        assert(!is_concrete()(variants[k]));
    }
    if exists|k: int| 0 <= k < variants.len() && !is_concrete()(#[trigger] variants[k]) {
        let k = choose|k: int| 0 <= k < variants.len() && !is_concrete()(#[trigger] variants[k]);
        assert(null_schema(variants[k]));
    }
    let whole = normalized_at(doc, Json::Object(obj), visited, depth);
    if concrete.len() > 1 {
        assert forall|i: int| 0 <= i < concrete.len() implies labels(
            (#[trigger] whole.node->OneOf_variants[i]).label,
            obj,
            concrete[i],
            inner[i],
            i,
        ) by {
            lemma_named(mapping_at(obj), concrete[i]);
        }
    }
}

/// The discriminator value that stands for a schema is the first that maps to its
/// reference.
pub open spec fn named_by(
    mapping: Seq<(Seq<char>, Json)>,
    schema: Json,
    value: Seq<char>,
) -> bool {
    schema matches Json::Object(members) && lookup(members, "$ref"@) matches Some(
        Json::Text(reference),
    ) && exists|k: int|
        0 <= k < mapping.len() && #[trigger] mapping[k] == (value, Json::Text(reference))
            && forall|j: int| 0 <= j < k ==> (#[trigger] mapping[j]).1 != Json::Text(reference)
}

/// The mapping of the discriminator.
pub open spec fn mapping_of(obj: Seq<(Seq<char>, Json)>) -> Seq<(Seq<char>, Json)> {
    match lookup(obj, "discriminator"@) {
        Some(Json::Object(discriminator)) => match lookup(discriminator, "mapping"@) {
            Some(Json::Object(mapping)) => mapping,
            _ => Seq::empty(),
        },
        _ => Seq::empty(),
    }
}

/// An alternative is labelled by its title, else by the discriminator value that
/// names it, else by its kind and its number, counted from one.
pub open spec fn labels(
    label: Seq<char>,
    obj: Seq<(Seq<char>, Json)>,
    schema: Json,
    own: NormalizedShape,
    i: int,
) -> bool {
    match own.title {
        Some(title) => label == title,
        None => {
            ||| named_by(mapping_of(obj), schema, label)
            ||| (forall|value: Seq<char>| !#[trigger] named_by(mapping_of(obj), schema, value))
                && label == own.node.label() + " #"@ + decimal((i + 1) as nat)
        },
    }
}

proof fn lemma_naming(mapping: Seq<(Seq<char>, Json)>, reference: Seq<char>, i: int)
    requires
        0 <= i,
    ensures
        match value_naming(mapping, reference, i) {
            Some(value) => exists|k: int|
                i <= k < mapping.len() && #[trigger] mapping[k] == (value, Json::Text(reference))
                    && forall|j: int|
                    i <= j < k ==> (#[trigger] mapping[j]).1 != Json::Text(reference),
            None => forall|j: int|
                i <= j < mapping.len() ==> (#[trigger] mapping[j]).1 != Json::Text(reference),
        },
    decreases mapping.len() - i,
{
    if i < mapping.len() {
        if mapping[i].1 == Json::Text(reference) {
            assert(mapping[i] == (mapping[i].0, Json::Text(reference)));
        } else {
            lemma_naming(mapping, reference, i + 1);
            match value_naming(mapping, reference, i + 1) {
                Some(value) => {
                    let k = choose|k: int|
                        i + 1 <= k < mapping.len() && #[trigger] mapping[k] == (
                            value,
                            Json::Text(reference),
                        ) && forall|j: int|
                            i + 1 <= j < k ==> (#[trigger] mapping[j]).1 != Json::Text(reference);
                    assert(mapping[k] == (value, Json::Text(reference)));
                },
                None => {},
            }
        }
    }
}

proof fn lemma_named(mapping: Seq<(Seq<char>, Json)>, schema: Json)
    ensures
        match discriminated(mapping, schema) {
            Some(value) => named_by(mapping, schema, value),
            None => forall|value: Seq<char>| !#[trigger] named_by(mapping, schema, value),
        },
{
    match schema.member("$ref"@) {
        Some(Json::Text(reference)) => {
            lemma_naming(mapping, reference, 0);
        },
        _ => {},
    }
}

// ---------------------------------------------------------------- references

/// A reference stands for its target: what the target amounts to, with the
/// attributes beside the reference laid over it.
pub proof fn law_reference_stands_for_its_target(
    doc: Json,
    obj: Seq<(Seq<char>, Json)>,
    pointer: Seq<char>,
    target: Json,
    visited: Seq<Seq<char>>,
    depth: nat,
)
    requires
        depth <= MAX_DEPTH,
        lookup(obj, "$ref"@) == Some(Json::Text(seq!['#'] + pointer)),
        pointed(doc, pointer) == Some(target),
        ref_of(target) is None,
        !visited.contains(seq!['#'] + pointer),
    ensures
        ({
            let whole = normalized_at(doc, Json::Object(obj), visited, depth);
            let own = normalized_at(doc, target, visited.push(seq!['#'] + pointer), depth + 1);
            &&& whole.node == own.node
            &&& whole.nullable == (own.nullable || lookup(obj, "nullable"@) == Some(
                Json::Bool(true),
            ))
            &&& whole.read_only == (own.read_only || lookup(obj, "readOnly"@) == Some(
                Json::Bool(true),
            ))
            &&& lookup(obj, "default"@) is None ==> whole.default == own.default
            &&& lookup(obj, "description"@) is None ==> whole.description == own.description
            &&& lookup(obj, "title"@) is None ==> whole.title == own.title
        }),
{
    let reference = seq!['#'] + pointer;
    assert(reference.skip(1) =~= pointer);
    reveal_with_fuel(dereferenced, 3);
    assert(dereferenced(doc, Json::Object(obj), MAX_HOPS as nat, None).0 == target);
}

/// A reference that leads nowhere, or out of the document, is left open.
pub proof fn law_dangling_reference_is_any(
    doc: Json,
    obj: Seq<(Seq<char>, Json)>,
    reference: Seq<char>,
    visited: Seq<Seq<char>>,
    depth: nat,
)
    requires
        depth <= MAX_DEPTH,
        lookup(obj, "$ref"@) == Some(Json::Text(reference)),
        reference.len() == 0 || reference[0] != '#' || pointed(doc, reference.skip(1)) is None,
    ensures
        normalized_at(doc, Json::Object(obj), visited, depth).node == Schema::Any,
{
    reveal_with_fuel(dereferenced, 2);
    assert(dereferenced(doc, Json::Object(obj), MAX_HOPS as nat, None).0 == Json::Null);
    assert(normalized_at(doc, Json::Null, visited.push(reference), depth + 1).node == Schema::Any);
}

// ---------------------------------------------------------------- nesting

/// The schema inside `n` arrays.
pub open spec fn arrays_of(schema: Json, n: nat) -> Json
    decreases n,
{
    if n == 0 {
        schema
    } else {
        Json::Object(
            seq![
                ("type"@, Json::Text("array"@)),
                ("items"@, arrays_of(schema, (n - 1) as nat)),
            ],
        )
    }
}

/// What is inside `n` arrays.
pub open spec fn inside_arrays(node: Schema, n: nat) -> Option<Schema>
    decreases n,
{
    if n == 0 {
        Some(node)
    } else {
        match node {
            Schema::Array { item, .. } => inside_arrays(*item, (n - 1) as nat),
            _ => None,
        }
    }
}

/// Nesting is followed at least 48 levels deep: what is inside the arrays is what
/// the innermost schema amounts to.
pub proof fn law_nesting_is_followed(
    doc: Json,
    schema: Json,
    visited: Seq<Seq<char>>,
    depth: nat,
    n: nat,
)
    requires
        depth + n <= 48,
    ensures
        inside_arrays(normalized_at(doc, arrays_of(schema, n), visited, depth).node, n) == Some(
            normalized_at(doc, schema, visited, depth + n).node,
        ),
    decreases n,
{
    if n > 0 {
        let inner = arrays_of(schema, (n - 1) as nat);
        law_nesting_is_followed(doc, schema, visited, depth + 1, (n - 1) as nat);
        let obj = seq![("type"@, Json::Text("array"@)), ("items"@, inner)];
        lemma_only_array_keys(inner);
        law_array_has_its_items(doc, obj, visited, depth);
    }
}

proof fn lemma_only_array_keys(inner: Json)
    ensures
        ({
            let obj = seq![("type"@, Json::Text("array"@)), ("items"@, inner)];
            &&& simple(obj)
            &&& lookup(obj, "type"@) == Some(Json::Text("array"@))
            &&& lookup(obj, "items"@) == Some(inner)
        }),
{
    reveal_strlit("type");
    reveal_strlit("items");
    reveal_strlit("$ref");
    reveal_strlit("allOf");
    reveal_strlit("anyOf");
    reveal_strlit("oneOf");
    reveal_strlit("const");
    assert("type"@[0] == 't' && "items"@[0] == 'i' && "$ref"@[0] == '$' && "allOf"@[0] == 'a'
        && "anyOf"@[0] == 'a' && "oneOf"@[0] == 'o' && "const"@[0] == 'c');
    reveal_with_fuel(position_from, 3);
}

} // verus!
