//! Specs that were built from a document always fit a form: normalization
//! stops long before the indentation of a form runs out.

use super::rows::endpoint_fits;
use super::{fields_height, height};
use crate::json::Json;
use crate::model::schema_node::FieldShape;
use crate::model::ApiShape;
use crate::spec::normalize::{
    all_normalized, concrete_variants, field_position, first_concrete, items_at, kind_of, merged,
    merged_fields, normalized, normalized_at, property_schemas, text_at, type_of, with_field,
    with_fields, Kind, NormalizedShape, MAX_DEPTH,
};
use crate::json::{has_key, lookup};
use crate::spec::normalize::{at_or_null, object_fields};
use crate::spec::resolve::{dereferenced, MAX_HOPS};
use crate::spec::{built, endpoint_of, endpoints_of, item_endpoints, param_of, params_of};
use crate::spec::raw::{RawOperationShape, RawPathShape};
use vstd::prelude::*;

verus! {

/// Every endpoint of a spec fits a form.
pub open spec fn spec_fits(spec: ApiShape) -> bool {
    forall|i: int| 0 <= i < spec.endpoints.len() ==> endpoint_fits(#[trigger] spec.endpoints[i])
}

/// Every field nests at most `bound` levels.
spec fn fields_within(fields: Seq<FieldShape>, bound: nat) -> bool {
    forall|k: int| 0 <= k < fields.len() ==> height((#[trigger] fields[k]).schema) < bound
}

proof fn lemma_fields_height(fields: Seq<FieldShape>, i: int, bound: nat)
    requires
        0 <= i,
        fields_within(fields, bound),
    ensures
        fields_height(fields, i) <= bound,
    decreases fields.len() - i,
{
    if i < fields.len() {
        lemma_fields_height(fields, i + 1, bound);
        assert(height(fields[i].schema) < bound);
    }
}

proof fn lemma_field_below(fields: Seq<FieldShape>, i: int, k: int)
    requires
        0 <= i <= k < fields.len(),
    ensures
        height(fields[k].schema) < fields_height(fields, i),
    decreases k - i,
{
    if i < k {
        lemma_field_below(fields, i + 1, k);
    }
}

proof fn lemma_field_position(fields: Seq<FieldShape>, name: Seq<char>, i: int)
    requires
        0 <= i,
    ensures
        field_position(fields, name, i) matches Some(p) ==> i <= p < fields.len(),
    decreases fields.len() - i,
{
    if i < fields.len() {
        lemma_field_position(fields, name, i + 1);
    }
}

proof fn lemma_with_fields(
    fields: Seq<FieldShape>,
    more: Seq<FieldShape>,
    i: int,
    bound: nat,
)
    requires
        0 <= i,
        fields_within(fields, bound),
        fields_within(more, bound),
    ensures
        fields_within(with_fields(fields, more, i), bound),
    decreases more.len() - i,
{
    if i < more.len() {
        lemma_field_position(fields, more[i].name, 0);
        let next = with_field(fields, more[i]);
        assert forall|k: int| 0 <= k < next.len() implies height((#[trigger] next[k]).schema)
            < bound by {
            if k < fields.len() {
                assert(height(fields[k].schema) < bound);
            }
        }
        lemma_with_fields(next, more, i + 1, bound);
    }
}

proof fn lemma_merged_fields(
    fields: Seq<FieldShape>,
    parts: Seq<NormalizedShape>,
    i: int,
    bound: nat,
)
    requires
        0 <= i,
        fields_within(fields, bound),
        forall|k: int|
            0 <= k < parts.len() ==> (#[trigger] parts[k]).node is Object && height(parts[k].node)
                <= bound,
    ensures
        fields_within(merged_fields(fields, parts, i), bound),
    decreases parts.len() - i,
{
    if i < parts.len() {
        let more = parts[i].node->Object_fields;
        assert forall|k: int| 0 <= k < more.len() implies height((#[trigger] more[k]).schema)
            < bound by {
            lemma_field_below(more, 0, k);
        }
        lemma_with_fields(fields, more, 0, bound);
        lemma_merged_fields(with_fields(fields, more, 0), parts, i + 1, bound);
    }
}

proof fn lemma_first_concrete(parts: Seq<NormalizedShape>, i: int, bound: nat)
    requires
        0 <= i,
        forall|k: int| 0 <= k < parts.len() ==> height((#[trigger] parts[k]).node) <= bound,
    ensures
        height(first_concrete(parts, i).node) <= bound,
    decreases parts.len() - i,
{
    if i < parts.len() && parts[i].node is Any {
        lemma_first_concrete(parts, i + 1, bound);
    }
}

proof fn lemma_merged(parts: Seq<NormalizedShape>, bound: nat)
    requires
        forall|k: int| 0 <= k < parts.len() ==> height((#[trigger] parts[k]).node) <= bound,
    ensures
        height(merged(parts).node) <= bound,
{
    lemma_first_concrete(parts, 0, bound);
    if parts.len() > 1 && crate::spec::normalize::all_object_parts(parts) {
        lemma_merged_fields(Seq::empty(), parts, 0, bound);
        lemma_fields_height(merged_fields(Seq::empty(), parts, 0), 0, bound);
    }
}

/// A normalized schema nests no deeper than what is left of the allowed depth.
pub proof fn law_normalized_is_shallow(
    doc: Json,
    schema: Json,
    visited: Seq<Seq<char>>,
    depth: nat,
)
    requires
        depth <= MAX_DEPTH + 1,
    ensures
        height(normalized_at(doc, schema, visited, depth).node) <= MAX_DEPTH + 1 - depth,
    decreases MAX_DEPTH + 1 - depth,
{
    let bound = (MAX_DEPTH + 1 - depth) as nat;
    let node = normalized_at(doc, schema, visited, depth).node;
    match schema {
        Json::Object(obj) => {
            if depth <= MAX_DEPTH {
                assert forall|schemas: Seq<Json>, k: int|
                    0 <= k < schemas.len() implies height(
                    (#[trigger] all_normalized(doc, schemas, visited, depth + 1)[k]).node,
                ) < bound by {
                    law_normalized_is_shallow(doc, schemas[k], visited, depth + 1);
                }
                if text_at(obj, "$ref"@) is Some {
                    law_normalized_is_shallow(
                        doc,
                        dereferenced(doc, schema, MAX_HOPS as nat, None).0,
                        visited.push(text_at(obj, "$ref"@)->0),
                        depth + 1,
                    );
                    assert(height(node) <= bound);
                } else if items_at(obj, "allOf"@) is Some {
                    let parts = all_normalized(doc, items_at(obj, "allOf"@)->0, visited, depth + 1);
                    lemma_merged(parts, bound);
                    assert(height(node) <= bound);
                } else if items_at(obj, "anyOf"@) is Some {
                    let parts = all_normalized(
                        doc,
                        concrete_variants(items_at(obj, "anyOf"@)->0, 0),
                        visited,
                        depth + 1,
                    );
                    if parts.len() > 0 {
                        assert(height(parts[0].node) < bound);
                    }
                    assert(height(node) <= bound);
                } else if items_at(obj, "oneOf"@) is Some {
                    let parts = all_normalized(
                        doc,
                        concrete_variants(items_at(obj, "oneOf"@)->0, 0),
                        visited,
                        depth + 1,
                    );
                    if parts.len() > 0 {
                        assert(height(parts[0].node) < bound);
                    }
                    assert(height(node) <= bound);
                } else if has_key(obj, "const"@) {
                    assert(height(node) <= bound);
                } else {
                    match kind_of(obj, type_of(lookup(obj, "type"@)).0) {
                        Kind::Object => {
                            let props = all_normalized(
                                doc,
                                property_schemas(obj),
                                visited,
                                depth + 1,
                            );
                            let fields = object_fields(obj, props);
                            assert forall|k: int| 0 <= k < fields.len() implies height(
                                (#[trigger] fields[k]).schema,
                            ) < bound by {
                                assert(fields[k].schema == props[k].node);
                            }
                            lemma_fields_height(fields, 0, bound);
                            assert(height(node) <= bound);
                        },
                        Kind::Array => {
                            law_normalized_is_shallow(
                                doc,
                                at_or_null(obj, "items"@),
                                visited,
                                depth + 1,
                            );
                            assert(height(node) <= bound);
                        },
                        Kind::Leaf(_) => {
                            assert(height(node) <= bound);
                        },
                    }
                }
            }
        },
        _ => {},
    }
}

proof fn lemma_params(doc: Json, values: Seq<Json>, i: int)
    requires
        0 <= i,
    ensures
        forall|k: int|
            0 <= k < params_of(doc, values, i).len() ==> height(
                (#[trigger] params_of(doc, values, i)[k]).schema,
            ) <= u16::MAX,
    decreases values.len() - i,
{
    if i < values.len() {
        lemma_params(doc, values, i + 1);
        let rest = params_of(doc, values, i + 1);
        let here = params_of(doc, values, i);
        assert forall|k: int| 0 <= k < here.len() implies height((#[trigger] here[k]).schema)
            <= u16::MAX by {
            match param_of(doc, values[i]) {
                Some(param) => {
                    assert(here == seq![param] + rest);
                    if k > 0 {
                        assert(here[k] == rest[k - 1]);
                    } else {
                        let raw = crate::spec::raw::parameter_of(
                            crate::spec::resolved(doc, values[i]),
                        );
                        if raw.schema is Some {
                            law_normalized_is_shallow(doc, raw.schema->0, Seq::empty(), 0);
                        }
                    }
                },
                None => {},
            }
        }
    }
}

proof fn lemma_endpoint(
    doc: Json,
    secured: bool,
    path: Seq<char>,
    shared: Seq<Json>,
    method: Seq<char>,
    op: RawOperationShape,
)
    ensures
        endpoint_fits(endpoint_of(doc, secured, path, shared, method, op)),
{
    let e = endpoint_of(doc, secured, path, shared, method, op);
    lemma_params(doc, shared, 0);
    lemma_params(doc, op.parameters, 0);
    assert forall|k: int| 0 <= k < e.params.len() implies height((#[trigger] e.params[k]).schema)
        <= u16::MAX by {
        let first = params_of(doc, shared, 0);
        if k < first.len() {
            assert(e.params[k] == first[k]);
        } else {
            assert(e.params[k] == params_of(doc, op.parameters, 0)[k - first.len()]);
        }
    }
    assert forall|s: Json| height((#[trigger] normalized(doc, s)).node) <= u16::MAX by {
        law_normalized_is_shallow(doc, s, Seq::empty(), 0);
    }
}

proof fn lemma_endpoints(
    doc: Json,
    secured: bool,
    paths: Seq<(Seq<char>, RawPathShape)>,
    i: int,
)
    requires
        0 <= i,
    ensures
        forall|k: int|
            0 <= k < endpoints_of(doc, secured, paths, i).len() ==> endpoint_fits(
                #[trigger] endpoints_of(doc, secured, paths, i)[k],
            ),
    decreases paths.len() - i,
{
    if i < paths.len() {
        lemma_endpoints(doc, secured, paths, i + 1);
        let first = item_endpoints(doc, secured, paths[i].0, paths[i].1);
        let rest = endpoints_of(doc, secured, paths, i + 1);
        let here = endpoints_of(doc, secured, paths, i);
        assert forall|k: int| 0 <= k < here.len() implies endpoint_fits(#[trigger] here[k]) by {
            if k < first.len() {
                let ops = crate::spec::raw::declared(paths[i].1.operations, 0);
                assert(here[k] == first[k]);
                lemma_endpoint(
                    doc,
                    secured,
                    paths[i].0,
                    paths[i].1.parameters,
                    ops[k].0,
                    ops[k].1,
                );
            } else {
                assert(here[k] == rest[k - first.len()]);
            }
        }
    }
}

/// Every endpoint of a spec that was built from a document fits a form.
pub proof fn law_built_spec_fits(doc: Json)
    ensures
        built(doc) matches Ok(spec) ==> spec_fits(spec),
{
    match built(doc) {
        Ok(spec) => {
            let raw = crate::spec::raw::spec_of(doc);
            let secured = match raw.security {
                Some(requirements) => requirements.len() > 0,
                None => false,
            };
            lemma_endpoints(doc, secured, raw.paths, 0);
        },
        Err(_) => {},
    }
}

} // verus!
