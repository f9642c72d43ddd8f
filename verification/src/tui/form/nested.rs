//! The indentation of body rows tells the tree: only a header has rows further
//! in behind it.

use super::arrays::{
    appended_rows, children, deleted, encloses, enclosing, lemma_at_depth, lemma_last_up_to,
    shrunk_rows,
};
use super::cursor::{below, lemma_span, span};
use super::edit::with_row;
use super::init::{hydrated, opened, rows_before_body};
use super::items::{alike, lemma_at_depth_is, lemma_renumbered_rows};
use super::laws::{lemma_first_field_depth, lemma_node_block};
use super::rows::{
    body_rows, field_rows, field_seed, given, heading, included, item_rows, item_seed, node_row,
    node_rows, object_body, param_rows, root_seed, starting_items, NodeSeed,
};
use super::serialize::body_heading;
use super::{FormShape, RowShape, Section};
use crate::json::Json;
use crate::model::schema_node::{FieldShape, Schema};
use crate::model::{BodyShape, EndpointShape};
use vstd::prelude::*;

verus! {

/// A row of the body that is no heading.
pub open spec fn in_body(row: RowShape) -> bool {
    row.section == Section::Body && !(row.kind is SectionHeader)
}

/// A body row behind another one lies further in only where that one heads it.
pub open spec fn follows(before: RowShape, row: RowShape) -> bool {
    in_body(before) && in_body(row) ==> row.depth <= before.depth || before.heads()
}

pub open spec fn nested(rows: Seq<RowShape>) -> bool {
    forall|j: int| 0 < j < rows.len() ==> follows(rows[j - 1], #[trigger] rows[j])
}

proof fn lemma_nested_add(a: Seq<RowShape>, b: Seq<RowShape>)
    requires
        nested(a),
        nested(b),
        a.len() > 0 && b.len() > 0 ==> follows(a.last(), b[0]),
    ensures
        nested(a + b),
{
    let all = a + b;
    assert forall|j: int| 0 < j < all.len() implies follows(all[j - 1], #[trigger] all[j]) by {
        if j < a.len() {
            assert(follows(a[j - 1], a[j]));
        } else if j > a.len() {
            assert(follows(b[j - a.len() - 1], b[j - a.len()]));
        }
    }
}

proof fn lemma_node_nested(seed: NodeSeed, depth: nat, schema: Schema)
    ensures
        nested(node_rows(seed, depth, schema)),
    decreases schema, 0int,
{
    let root = seq![node_row(seed, depth, schema)];
    match schema {
        Schema::Object { fields, .. } => {
            lemma_fields_nested(fields, 0, depth + 1, given(seed.hydrated));
            lemma_node_block(seed, depth, schema);
            let rest = field_rows(fields, 0, depth + 1, given(seed.hydrated));
            lemma_nested_add(root, rest);
        },
        Schema::Array { item, item_nullable, .. } => {
            let items = starting_items(given(seed.hydrated), seed.default);
            lemma_items_nested(*item, item_nullable, items, 0, depth + 1);
            lemma_nested_add(root, item_rows(*item, item_nullable, items, 0, depth + 1));
        },
        _ => {},
    }
}

proof fn lemma_fields_nested(fields: Seq<FieldShape>, i: int, depth: nat, parent: Option<Json>)
    requires
        0 <= i,
    ensures
        nested(field_rows(fields, i, depth, parent)),
    decreases fields, fields.len() - i,
{
    if i < fields.len() {
        lemma_fields_nested(fields, i + 1, depth, parent);
        if !fields[i].read_only {
            let seed = field_seed(fields[i], parent);
            lemma_node_nested(seed, depth, fields[i].schema);
            lemma_node_block(seed, depth, fields[i].schema);
            let here = node_rows(seed, depth, fields[i].schema);
            let rest = field_rows(fields, i + 1, depth, parent);
            if rest.len() > 0 {
                lemma_first_field_depth(fields, i + 1, depth, parent);
                assert(here[here.len() - 1].depth >= depth);
            }
            lemma_nested_add(here, rest);
        }
    }
}

proof fn lemma_items_nested(
    item: Schema,
    nullable: bool,
    items: Seq<Json>,
    k: int,
    depth: nat,
)
    requires
        0 <= k,
    ensures
        nested(item_rows(item, nullable, items, k, depth)),
        item_rows(item, nullable, items, k, depth).len() > 0 ==> item_rows(item, nullable, items, k, depth)[0].depth
            == depth,
    decreases item, items.len() - k + 1,
{
    if k < items.len() {
        let seed = item_seed(k as nat, nullable, Some(items[k]));
        lemma_node_nested(seed, depth, item);
        lemma_node_block(seed, depth, item);
        lemma_items_nested(item, nullable, items, k + 1, depth);
        let here = node_rows(seed, depth, item);
        assert(here[here.len() - 1].depth >= depth);
        lemma_nested_add(here, item_rows(item, nullable, items, k + 1, depth));
    }
}

proof fn lemma_body_nested(body: BodyShape, value: Option<Json>)
    ensures
        nested(body_rows(body, value)),
{
    if object_body(body.schema) {
        lemma_fields_nested(body.schema->Object_fields, 0, 0, value);
    } else {
        let hydrated = match value {
            Some(v) => Some(Some(v)),
            None => None,
        };
        lemma_node_nested(root_seed(body.required, body.nullable, hydrated), 0, body.schema);
    }
}

/// The body of a new form is nested.
pub proof fn law_opened_form_is_nested(endpoint: EndpointShape)
    ensures
        nested(opened(endpoint).rows),
{
    let front = param_rows(endpoint);
    assert forall|k: int| 0 <= k < front.len() implies !in_body(#[trigger] front[k]) by {}
    assert(nested(front));
    match endpoint.body {
        Some(body) => {
            lemma_body_nested(body, None);
            lemma_nested_add(front, seq![heading(Section::Body)]);
            lemma_nested_add(
                front + seq![heading(Section::Body)],
                body_rows(body, None),
            );
        },
        None => {},
    }
}

/// A refilled body is nested.
pub proof fn law_hydrating_keeps_nesting(form: FormShape, endpoint: EndpointShape, value: Json)
    requires
        nested(form.rows),
    ensures
        nested(hydrated(form, endpoint, value).rows),
{
    match endpoint.body {
        Some(body) => {
            let front = rows_before_body(form.rows);
            lemma_heading_place(form.rows, 0);
            lemma_nested_parts(form.rows, front.len() as int);
            assert(front =~= form.rows.take(front.len() as int));
            lemma_body_nested(body, Some(value));
            lemma_nested_add(front, seq![heading(Section::Body)]);
            lemma_nested_add(
                front + seq![heading(Section::Body)],
                body_rows(body, Some(value)),
            );
        },
        None => {},
    }
}

pub proof fn lemma_heading_place(rows: Seq<RowShape>, i: int)
    requires
        0 <= i,
    ensures
        body_heading(rows, i) matches Some(h) ==> i <= h < rows.len(),
    decreases rows.len() - i,
{
    if i < rows.len() {
        lemma_heading_place(rows, i + 1);
    }
}

/// Rows put between nested rows where they follow and are followed.
proof fn lemma_nested_inserted(rows: Seq<RowShape>, end: int, fresh: Seq<RowShape>)
    requires
        nested(rows),
        nested(fresh),
        0 < end <= rows.len(),
        fresh.len() > 0,
        follows(rows[end - 1], fresh[0]),
        end < rows.len() ==> follows(fresh.last(), rows[end]),
    ensures
        nested(rows.take(end) + fresh + rows.skip(end)),
{
    lemma_nested_parts(rows, end);
    lemma_nested_add(rows.take(end), fresh);
    assert((rows.take(end) + fresh).last() == fresh.last());
    lemma_nested_add(rows.take(end) + fresh, rows.skip(end));
}

proof fn lemma_nested_parts(rows: Seq<RowShape>, k: int)
    requires
        nested(rows),
        0 <= k <= rows.len(),
    ensures
        nested(rows.take(k)),
        nested(rows.skip(k)),
{
    let front = rows.take(k);
    let rest = rows.skip(k);
    assert forall|j: int| 0 < j < front.len() implies follows(front[j - 1], #[trigger] front[j]) by {
        assert(follows(rows[j - 1], rows[j]));
    }
    assert forall|j: int| 0 < j < rest.len() implies follows(rest[j - 1], #[trigger] rest[j]) by {
        assert(follows(rows[k + j - 1], rows[k + j]));
    }
}

/// A row whose state alone changes stays in place.
proof fn lemma_nested_update(rows: Seq<RowShape>, i: int, row: RowShape)
    requires
        nested(rows),
        0 <= i < rows.len(),
        row.section == rows[i].section,
        row.depth == rows[i].depth,
        row.kind == rows[i].kind,
    ensures
        nested(rows.update(i, row)),
{
    let after = rows.update(i, row);
    assert forall|j: int| 0 < j < after.len() implies follows(after[j - 1], #[trigger] after[j]) by {
        assert(follows(rows[j - 1], rows[j]));
    }
}

/// Appending an item to an array of the body keeps the body nested.
pub proof fn law_appending_keeps_nesting(rows: Seq<RowShape>, i: int)
    requires
        nested(rows),
        0 <= i < rows.len(),
        rows[i].section == Section::Body,
    ensures
        nested(appended_rows(rows, i)),
{
    match rows[i].schema {
        Schema::Array { item, item_nullable, .. } if rows[i].kind is ArrayHeader => {
            let fresh = node_rows(
                item_seed(children(rows, i).len(), item_nullable, None),
                rows[i].depth + 1,
                *item,
            );
            let end = span(rows, i);
            lemma_grown_nested(rows, i, item_seed(children(rows, i).len(), item_nullable, None), *item);
            lemma_span(rows, i);
            let grown = rows.take(end) + fresh + rows.skip(end);
            assert(grown[i] == rows[i]);
            lemma_nested_update(grown, i, RowShape { state: included(), ..rows[i] });
        },
        _ => {},
    }
}

/// A node behind the last row of a header's subtree, one step further in.
proof fn lemma_grown_nested(rows: Seq<RowShape>, i: int, seed: NodeSeed, item: Schema)
    requires
        nested(rows),
        0 <= i < rows.len(),
        in_body(rows[i]),
        rows[i].heads(),
    ensures
        nested(
            rows.take(span(rows, i)) + node_rows(seed, rows[i].depth + 1, item) + rows.skip(
                span(rows, i),
            ),
        ),
{
    lemma_span(rows, i);
    let end = span(rows, i);
    let depth = rows[i].depth + 1;
    let fresh = node_rows(seed, depth, item);
    lemma_node_nested(seed, depth, item);
    lemma_node_block(seed, depth, item);
    if end > i + 1 {
        assert(below(rows, i, end - 1));
    }
    assert(fresh[fresh.len() - 1].depth >= depth);
    lemma_nested_inserted(rows, end, fresh);
}

pub proof fn lemma_enclosing(rows: Seq<RowShape>, i: int, h: int)
    requires
        0 <= i < rows.len(),
        h <= i,
    ensures
        enclosing(rows, i, h) matches Some((header, root)) ==> {
            &&& 0 <= header < rows.len()
            &&& rows[header].kind is ArrayHeader
            &&& header < root < span(rows, header)
            &&& rows[root].depth == rows[header].depth + 1
        },
    decreases h + 1,
{
    if h >= 0 {
        if encloses(rows, h, i) {
            lemma_span(rows, h);
            lemma_at_depth(rows, rows[h].depth + 1, h + 1, span(rows, h));
            lemma_at_depth_is(rows, rows[h].depth + 1, h + 1, span(rows, h));
            lemma_last_up_to(children(rows, h), i, 0);
        } else {
            lemma_enclosing(rows, i, h - 1);
        }
    }
}

/// Deleting an item keeps the body nested.
pub proof fn law_deleting_keeps_nesting(form: FormShape, i: int)
    requires
        nested(form.rows),
        0 <= i < form.rows.len(),
    ensures
        nested(deleted(form, i).rows),
{
    let rows = form.rows;
    lemma_enclosing(rows, i, i);
    match enclosing(rows, i, i) {
        Some((header, root)) => {
            lemma_span(rows, header);
            lemma_span(rows, root);
            let next = span(rows, root);
            let front = rows.take(root);
            let rest = rows.skip(next);
            let kept = front + rest;
            lemma_nested_parts(rows, root);
            lemma_nested_parts(rows, next);
            assert(below(rows, header, root));
            if root - 1 > header {
                assert(below(rows, header, root - 1));
            }
            if next < rows.len() && !rows[root].heads() {
                assert(follows(rows[next - 1], rows[next]));
            }
            lemma_nested_add(front, rest);
            let list = children(kept, header);
            assert(kept[header] == rows[header]);
            lemma_span(kept, header);
            lemma_at_depth(kept, kept[header].depth + 1, header + 1, span(kept, header));
            lemma_renumbered_rows(kept, list, 0);
            let after = shrunk_rows(rows, header, root);
            assert forall|j: int| 0 < j < after.len() implies follows(
                after[j - 1],
                #[trigger] after[j],
            ) by {
                assert(follows(kept[j - 1], kept[j]));
                assert(alike(kept[j - 1], after[j - 1]));
                assert(alike(kept[j], after[j]));
            }
        },
        None => {},
    }
}

/// Changing a row without moving it keeps the body nested.
pub proof fn law_editing_keeps_nesting(form: FormShape, i: int, row: RowShape)
    requires
        nested(form.rows),
        0 <= i < form.rows.len(),
        row.section == form.rows[i].section,
        row.depth == form.rows[i].depth,
        row.kind == form.rows[i].kind,
    ensures
        nested(with_row(form, i, row).rows),
{
    lemma_nested_update(form.rows, i, row);
}

} // verus!
