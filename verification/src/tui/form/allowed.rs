//! Which states a row can reach: null only where it is nullable, left out only
//! where it is optional.

use super::arrays::{
    appended_rows, children, deleted, enclosing, lemma_at_depth, renumbered, shrunk_rows,
};
use super::cursor::{lemma_span, span};
use super::edit::{cycled, reincluded, takes_null, toggled, typed, with_row};
use super::init::{hydrated, opened, rows_before_body};
use super::items::{alike, lemma_renumbered_rows};
use super::nested::{lemma_enclosing, lemma_heading_place};
use super::rows::{
    body_rows, field_rows, field_seed, form_rows, given, heading, included, item_rows, item_seed,
    node_row, node_rows, object_body, param_rows, param_section, root_seed, row_of_param,
    starting_items, NodeSeed,
};
use super::{FormShape, RowShape, Section};
use crate::json::Json;
use crate::model::schema_node::{FieldShape, Schema};
use crate::model::{params_at, BodyShape, EndpointShape, ParamLocation};
use vstd::prelude::*;

verus! {

/// The state is one that the row may have.
pub open spec fn allowed(row: RowShape) -> bool {
    &&& row.state is Null ==> takes_null(row)
    &&& row.state is Excluded ==> !row.required
}

pub open spec fn all_allowed(rows: Seq<RowShape>) -> bool {
    forall|k: int| 0 <= k < rows.len() ==> allowed(#[trigger] rows[k])
}

proof fn lemma_allowed_add(a: Seq<RowShape>, b: Seq<RowShape>)
    requires
        all_allowed(a),
        all_allowed(b),
    ensures
        all_allowed(a + b),
{
    let rows = a + b;
    assert forall|k: int| 0 <= k < rows.len() implies allowed(#[trigger] rows[k]) by {
        if k < a.len() {
            assert(rows[k] == a[k]);
        } else {
            assert(rows[k] == b[k - a.len()]);
        }
    }
}

proof fn lemma_allowed_part(rows: Seq<RowShape>, from: int, to: int)
    requires
        all_allowed(rows),
        0 <= from <= to <= rows.len(),
    ensures
        all_allowed(rows.subrange(from, to)),
{
    let part = rows.subrange(from, to);
    assert forall|k: int| 0 <= k < part.len() implies allowed(#[trigger] part[k]) by {
        assert(part[k] == rows[from + k]);
    }
}

proof fn lemma_node_allowed(seed: NodeSeed, depth: nat, schema: Schema)
    ensures
        all_allowed(node_rows(seed, depth, schema)),
    decreases schema, 0int,
{
    let first = seq![node_row(seed, depth, schema)];
    assert(allowed(first[0]));
    match schema {
        Schema::Object { fields, .. } => {
            lemma_fields_allowed(fields, 0, depth + 1, given(seed.hydrated));
            lemma_allowed_add(first, field_rows(fields, 0, depth + 1, given(seed.hydrated)));
        },
        Schema::Array { item, item_nullable, .. } => {
            let items = starting_items(given(seed.hydrated), seed.default);
            lemma_items_allowed(*item, item_nullable, items, 0, depth + 1);
            lemma_allowed_add(first, item_rows(*item, item_nullable, items, 0, depth + 1));
        },
        _ => {},
    }
}

proof fn lemma_fields_allowed(fields: Seq<FieldShape>, i: int, depth: nat, parent: Option<Json>)
    requires
        0 <= i,
    ensures
        all_allowed(field_rows(fields, i, depth, parent)),
    decreases fields, fields.len() - i,
{
    if i < fields.len() {
        lemma_fields_allowed(fields, i + 1, depth, parent);
        if !fields[i].read_only {
            let seed = field_seed(fields[i], parent);
            lemma_node_allowed(seed, depth, fields[i].schema);
            lemma_allowed_add(
                node_rows(seed, depth, fields[i].schema),
                field_rows(fields, i + 1, depth, parent),
            );
        }
    }
}

proof fn lemma_items_allowed(
    item: Schema,
    nullable: bool,
    items: Seq<Json>,
    k: int,
    depth: nat,
)
    requires
        0 <= k,
    ensures
        all_allowed(item_rows(item, nullable, items, k, depth)),
    decreases item, items.len() - k + 1,
{
    if k < items.len() {
        let seed = item_seed(k as nat, nullable, Some(items[k]));
        lemma_node_allowed(seed, depth, item);
        lemma_items_allowed(item, nullable, items, k + 1, depth);
        lemma_allowed_add(
            node_rows(seed, depth, item),
            item_rows(item, nullable, items, k + 1, depth),
        );
    }
}

proof fn lemma_body_allowed(body: BodyShape, value: Option<Json>)
    ensures
        all_allowed(seq![heading(Section::Body)] + body_rows(body, value)),
{
    if object_body(body.schema) {
        lemma_fields_allowed(body.schema->Object_fields, 0, 0, value);
    } else {
        let hydrated = match value {
            Some(v) => Some(Some(v)),
            None => None,
        };
        lemma_node_allowed(root_seed(body.required, body.nullable, hydrated), 0, body.schema);
    }
    assert(all_allowed(seq![heading(Section::Body)]));
    lemma_allowed_add(seq![heading(Section::Body)], body_rows(body, value));
}

proof fn lemma_section_allowed(endpoint: EndpointShape, section: Section, location: ParamLocation)
    ensures
        all_allowed(param_section(section, params_at(endpoint.params, location, 0))),
{
    let params = params_at(endpoint.params, location, 0);
    let rows = param_section(section, params);
    assert forall|k: int| 0 <= k < rows.len() implies allowed(#[trigger] rows[k]) by {
        if k > 0 {
            assert(rows[k] == row_of_param(section, params[k - 1]));
        }
    }
}

/// A new form holds null and left-out rows only where they are allowed.
pub proof fn law_opened_rows_are_allowed(endpoint: EndpointShape)
    ensures
        all_allowed(opened(endpoint).rows),
{
    lemma_section_allowed(endpoint, Section::Path, ParamLocation::Path);
    lemma_section_allowed(endpoint, Section::Query, ParamLocation::Query);
    lemma_section_allowed(endpoint, Section::Header, ParamLocation::Header);
    let path = param_section(Section::Path, params_at(endpoint.params, ParamLocation::Path, 0));
    let query = param_section(
        Section::Query,
        params_at(endpoint.params, ParamLocation::Query, 0),
    );
    let header = param_section(
        Section::Header,
        params_at(endpoint.params, ParamLocation::Header, 0),
    );
    lemma_allowed_add(path, query);
    lemma_allowed_add(path + query, header);
    assert(param_rows(endpoint) =~= path + query + header);
    match endpoint.body {
        Some(body) => {
            lemma_body_allowed(body, None);
            let rest = seq![heading(Section::Body)] + body_rows(body, None);
            lemma_allowed_add(param_rows(endpoint), rest);
            assert(form_rows(endpoint) =~= param_rows(endpoint) + rest);
        },
        None => {},
    }
}

/// Whatever value a body is refilled from, a null in it reaches only rows that
/// are nullable, and only optional rows are left out.
pub proof fn law_hydrated_rows_are_allowed(form: FormShape, endpoint: EndpointShape, value: Json)
    requires
        all_allowed(form.rows),
    ensures
        all_allowed(hydrated(form, endpoint, value).rows),
{
    match endpoint.body {
        Some(body) => {
            let front = rows_before_body(form.rows);
            assert(all_allowed(front)) by {
                assert forall|k: int| 0 <= k < front.len() implies allowed(
                    #[trigger] front[k],
                ) by {
                    lemma_heading_place(form.rows, 0);
                    assert(front[k] == form.rows[k]);
                }
            }
            lemma_body_allowed(body, Some(value));
            let rest = seq![heading(Section::Body)] + body_rows(body, Some(value));
            lemma_allowed_add(front, rest);
            assert(hydrated(form, endpoint, value).rows =~= front + rest);
        },
        None => {},
    }
}

/// A new array item starts in states that are allowed.
pub proof fn law_appended_rows_are_allowed(rows: Seq<RowShape>, i: int)
    requires
        all_allowed(rows),
        0 <= i < rows.len(),
    ensures
        all_allowed(appended_rows(rows, i)),
{
    match rows[i].schema {
        Schema::Array { item, item_nullable, .. } if rows[i].kind is ArrayHeader => {
            lemma_span(rows, i);
            let end = span(rows, i);
            let seed = item_seed(children(rows, i).len(), item_nullable, None);
            let fresh = node_rows(seed, rows[i].depth + 1, *item);
            lemma_node_allowed(seed, rows[i].depth + 1, *item);
            lemma_allowed_part(rows, 0, end);
            lemma_allowed_part(rows, end, rows.len() as int);
            assert(rows.take(end) =~= rows.subrange(0, end));
            assert(rows.skip(end) =~= rows.subrange(end, rows.len() as int));
            lemma_allowed_add(rows.take(end), fresh);
            lemma_allowed_add(rows.take(end) + fresh, rows.skip(end));
            let grown = rows.take(end) + fresh + rows.skip(end);
            let row = RowShape { state: included(), ..rows[i] };
            assert(all_allowed(grown.update(i, row)));
        },
        _ => {},
    }
}

/// Deleting an array item leaves the states of the other rows allowed.
pub proof fn law_deleted_rows_are_allowed(form: FormShape, i: int)
    requires
        all_allowed(form.rows),
        0 <= i < form.rows.len(),
    ensures
        all_allowed(deleted(form, i).rows),
{
    let rows = form.rows;
    lemma_enclosing(rows, i, i);
    match enclosing(rows, i, i) {
        Some((header, root)) => {
            lemma_span(rows, header);
            lemma_span(rows, root);
            let next = span(rows, root);
            let kept = rows.take(root) + rows.skip(next);
            assert forall|k: int| 0 <= k < kept.len() implies allowed(#[trigger] kept[k]) by {
                if k < root {
                    assert(kept[k] == rows[k]);
                } else {
                    assert(kept[k] == rows[k - root + next]);
                }
            }
            let list = children(kept, header);
            lemma_span(kept, header);
            lemma_at_depth(kept, kept[header].depth + 1, header + 1, span(kept, header));
            lemma_renumbered_rows(kept, list, 0);
            let after = shrunk_rows(rows, header, root);
            assert(after == renumbered(kept, list, 0));
            assert forall|k: int| 0 <= k < after.len() implies allowed(#[trigger] after[k]) by {
                assert(alike(kept[k], after[k]));
                assert(allowed(kept[k]));
            }
        },
        None => {},
    }
}

/// No key on a row takes it to a state that it may not have.
pub proof fn law_edited_row_is_allowed(row: RowShape, text: Seq<char>)
    requires
        allowed(row),
    ensures
        allowed(cycled(row)),
        allowed(reincluded(row)),
        allowed(toggled(row)),
        typed(row, text) matches Ok(state) ==> state is Filled || state is Empty,
{
}

/// A row in an allowed state keeps the form allowed.
pub proof fn law_editing_keeps_rows_allowed(form: FormShape, i: int, row: RowShape)
    requires
        all_allowed(form.rows),
        0 <= i < form.rows.len(),
        allowed(row),
    ensures
        all_allowed(with_row(form, i, row).rows),
{
}

} // verus!
