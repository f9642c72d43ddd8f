//! What a form promises as a whole: a body that is filled from a JSON value
//! that fits the schema sends exactly that document.

use super::cursor::{below, lemma_span_is, span};
use super::init::{hydrated, rows_before_body};
use super::rows::{
    body_rows, field_rows, field_seed, given, heading, included, item_rows, item_seed, node_row,
    node_rows, object_body, root_seed, starting_items, NodeSeed,
};
use super::serialize::{
    body_value, items_value, members_value, node_value, nothing_sent, param_text, sent_from,
    top_members, with_param, Blocked, SerializedShape,
};
use super::{FormShape, RowShape, Section};
use crate::json::{
    distinct_keys, has_key, lemma_position_bounds, lemma_position_is, lookup, position_from, put,
    Json,
};
use crate::model::schema_node::{FieldShape, Schema};
use crate::model::{BodyShape, EndpointShape};
use vstd::prelude::*;

verus! {

// ---------------------------------------------------------------- documents

/// No object in the document names a member twice.
pub open spec fn unambiguous(j: Json) -> bool
    decreases j,
{
    match j {
        Json::Object(members) => distinct_keys(members) && forall|i: int|
            0 <= i < members.len() ==> unambiguous((#[trigger] members[i]).1),
        Json::Array(items) => forall|i: int|
            0 <= i < items.len() ==> unambiguous(#[trigger] items[i]),
        _ => true,
    }
}

/// Two documents that differ at most in the order of members.
pub open spec fn same_document(a: Json, b: Json) -> bool
    decreases a,
{
    match a {
        Json::Object(m) => match b {
            Json::Object(n) => m.len() == n.len() && forall|i: int|
                0 <= i < m.len() ==> (lookup(n, (#[trigger] m[i]).0) matches Some(y)
                    && same_document(m[i].1, y)),
            _ => false,
        },
        Json::Array(xs) => match b {
            Json::Array(ys) => xs.len() == ys.len() && forall|i: int|
                0 <= i < xs.len() ==> same_document(#[trigger] xs[i], ys[i]),
            _ => false,
        },
        _ => a == b,
    }
}

/// No two fields that can be edited share a name.
pub open spec fn editable_names_distinct(fields: Seq<FieldShape>) -> bool {
    forall|i: int, j: int|
        0 <= i < j < fields.len() && !(#[trigger] fields[i]).read_only && !(
        #[trigger] fields[j]).read_only ==> fields[i].name != fields[j].name
}

/// Some field that can be edited has the name.
pub open spec fn names_editable_field(fields: Seq<FieldShape>, name: Seq<char>) -> bool {
    exists|i: int|
        0 <= i < fields.len() && !(#[trigger] fields[i]).read_only && fields[i].name == name
}

/// An object of editable fields, every required one among them, in any order.
pub open spec fn fits_fields(fields: Seq<FieldShape>, v: Json) -> bool
    decreases fields,
{
    &&& v is Object
    &&& editable_names_distinct(fields)
    &&& forall|k: int|
        0 <= k < v->Object_0.len() ==> names_editable_field(fields, (#[trigger] v->Object_0[k]).0)
    &&& forall|i: int|
        0 <= i < fields.len() && !(#[trigger] fields[i]).read_only ==> match v.member(
            fields[i].name,
        ) {
            Some(x) => fits(fields[i].schema, fields[i].nullable, x),
            None => !fields[i].required && !(fields[i].schema is Const),
        }
}

/// A value that fits a schema: the constant, an object of its fields, a list of
/// its items, null where it is allowed, any other value of a scalar, and
/// anything at all where the schema asks for no structure.
pub open spec fn fits(schema: Schema, nullable: bool, v: Json) -> bool
    decreases schema,
{
    match schema {
        Schema::Const { value } => same_document(value, v),
        Schema::Object { fields, .. } => if fields.len() == 0 {
            true
        } else if v is Null {
            nullable
        } else {
            fits_fields(fields, v)
        },
        Schema::Array { item, item_nullable, .. } => if v is Null {
            nullable
        } else {
            v is Array && forall|k: int|
                0 <= k < v->Array_0.len() ==> fits(*item, item_nullable, #[trigger] v->Array_0[k])
        },
        Schema::OneOf { .. } => true,
        Schema::Any => true,
        _ => v is Null ==> nullable,
    }
}

/// A value that fits a request body.
pub open spec fn fits_body(body: BodyShape, v: Json) -> bool {
    if object_body(body.schema) {
        fits_fields(body.schema->Object_fields, v)
    } else {
        fits(body.schema, body.nullable, v)
    }
}

/// The members of `v` that belong to the first `n` fields, in field order.
pub open spec fn arranged_members(
    fields: Seq<FieldShape>,
    n: int,
    v: Json,
) -> Seq<(Seq<char>, Json)>
    decreases fields, n,
{
    if n <= 0 || n > fields.len() {
        Seq::empty()
    } else {
        let before = arranged_members(fields, n - 1, v);
        let field = fields[n - 1];
        if field.read_only {
            before
        } else {
            match v.member(field.name) {
                Some(x) => before.push((field.name, arranged(fields[n - 1].schema, x))),
                None => before,
            }
        }
    }
}

/// A value with its members in the order of the schema's fields.
pub open spec fn arranged(schema: Schema, v: Json) -> Json
    decreases schema, 0int,
{
    match schema {
        Schema::Const { value } => value,
        Schema::Object { fields, .. } => if v is Object && fields.len() > 0 {
            Json::Object(arranged_members(fields, fields.len() as int, v))
        } else {
            v
        },
        Schema::Array { item, .. } => match v {
            Json::Array(items) => Json::Array(arranged_items(*item, items)),
            _ => v,
        },
        _ => v,
    }
}

pub open spec fn arranged_items(item: Schema, items: Seq<Json>) -> Seq<Json>
    decreases item, 1int,
{
    Seq::new(items.len(), |k: int| arranged(item, items[k]))
}

/// The body with its members in the order of the schema's fields.
pub open spec fn arranged_body(schema: Schema, v: Json) -> Json {
    if object_body(schema) {
        Json::Object(
            arranged_members(
                schema->Object_fields,
                schema->Object_fields.len() as int,
                v,
            ),
        )
    } else {
        arranged(schema, v)
    }
}

// ---------------------------------------------------------------- blocks of rows

/// The block stands in the rows from position `p` on.
pub open spec fn stands(rows: Seq<RowShape>, p: int, block: Seq<RowShape>) -> bool {
    &&& 0 <= p
    &&& p + block.len() <= rows.len()
    &&& forall|k: int| 0 <= k < block.len() ==> rows[p + k] == #[trigger] block[k]
}

/// Nothing at `e` lies below a body row of the given indentation.
pub open spec fn closed_at(rows: Seq<RowShape>, e: int, depth: nat) -> bool {
    e < rows.len() ==> !(rows[e].section == Section::Body && !(rows[e].kind is SectionHeader)
        && rows[e].depth > depth)
}

/// Body rows, all with at least the given indentation.
pub open spec fn body_block(block: Seq<RowShape>, depth: nat) -> bool {
    forall|k: int|
        0 <= k < block.len() ==> (#[trigger] block[k]).section == Section::Body && !(block[k].kind
            is SectionHeader) && block[k].depth >= depth
}

proof fn lemma_block_add(a: Seq<RowShape>, b: Seq<RowShape>, depth: nat)
    requires
        body_block(a, depth),
        body_block(b, depth),
    ensures
        body_block(a + b, depth),
{
    let rows = a + b;
    assert forall|k: int| 0 <= k < rows.len() implies (#[trigger] rows[k]).section == Section::Body
        && !(rows[k].kind is SectionHeader) && rows[k].depth >= depth by {
        if k < a.len() {
            assert(rows[k] == a[k]);
        } else {
            assert(rows[k] == b[k - a.len()]);
        }
    }
}

/// A node's rows: its own row first, everything else further in.
pub proof fn lemma_node_block(seed: NodeSeed, depth: nat, schema: Schema)
    ensures
        node_rows(seed, depth, schema).len() >= 1,
        node_rows(seed, depth, schema)[0] == node_row(seed, depth, schema),
        body_block(node_rows(seed, depth, schema), depth),
        body_block(node_rows(seed, depth, schema).skip(1), depth + 1),
        !node_row(seed, depth, schema).heads() ==> node_rows(seed, depth, schema).len() == 1,
    decreases schema, 0int,
{
    let rows = node_rows(seed, depth, schema);
    match schema {
        Schema::Object { fields, .. } => {
            lemma_fields_block(fields, 0, depth + 1, given(seed.hydrated));
            assert(rows.skip(1) =~= field_rows(fields, 0, depth + 1, given(seed.hydrated)));
        },
        Schema::Array { item, item_nullable, .. } => {
            let items = starting_items(given(seed.hydrated), seed.default);
            lemma_items_block(*item, item_nullable, items, 0, depth + 1);
            assert(rows.skip(1) =~= item_rows(*item, item_nullable, items, 0, depth + 1));
        },
        _ => {
            assert(rows.skip(1) =~= Seq::empty());
        },
    }
    assert forall|k: int| 0 <= k < rows.len() implies (#[trigger] rows[k]).section == Section::Body
        && !(rows[k].kind is SectionHeader) && rows[k].depth >= depth by {
        if k > 0 {
            assert(rows[k] == rows.skip(1)[k - 1]);
        }
    }
}

pub proof fn lemma_fields_block(
    fields: Seq<FieldShape>,
    i: int,
    depth: nat,
    parent: Option<Json>,
)
    requires
        0 <= i,
    ensures
        body_block(field_rows(fields, i, depth, parent), depth),
    decreases fields, fields.len() - i,
{
    if i < fields.len() {
        lemma_fields_block(fields, i + 1, depth, parent);
        if !fields[i].read_only {
            lemma_node_block(field_seed(fields[i], parent), depth, fields[i].schema);
            lemma_block_add(
                node_rows(field_seed(fields[i], parent), depth, fields[i].schema),
                field_rows(fields, i + 1, depth, parent),
                depth,
            );
        }
    }
}

proof fn lemma_items_block(
    item: Schema,
    nullable: bool,
    items: Seq<Json>,
    k: int,
    depth: nat,
)
    requires
        0 <= k,
    ensures
        body_block(item_rows(item, nullable, items, k, depth), depth),
    decreases item, items.len() - k + 1,
{
    if k < items.len() {
        lemma_items_block(item, nullable, items, k + 1, depth);
        lemma_node_block(item_seed(k as nat, nullable, Some(items[k])), depth, item);
        lemma_block_add(
            node_rows(item_seed(k as nat, nullable, Some(items[k])), depth, item),
            item_rows(item, nullable, items, k + 1, depth),
            depth,
        );
    }
}

/// The subtree of a node spans exactly its rows.
pub proof fn lemma_node_span(rows: Seq<RowShape>, p: int, seed: NodeSeed, depth: nat, schema: Schema)
    requires
        stands(rows, p, node_rows(seed, depth, schema)),
        closed_at(rows, p + node_rows(seed, depth, schema).len(), depth),
    ensures
        span(rows, p) == p + node_rows(seed, depth, schema).len(),
{
    let block = node_rows(seed, depth, schema);
    lemma_node_block(seed, depth, schema);
    assert(rows[p + 0] == block[0]);
    if rows[p].heads() {
        let end = p + block.len();
        assert forall|k: int| p < k < end implies #[trigger] below(rows, p, k) by {
            assert(rows[p + (k - p)] == block[k - p]);
            assert(block[k - p] == block.skip(1)[k - p - 1]);
        }
        lemma_span_is(rows, p, end);
    }
}

/// Rows that lie further in add no members.
proof fn lemma_members_skip(
    rows: Seq<RowShape>,
    depth: nat,
    j: int,
    k: int,
    end: int,
    members: Seq<(Seq<char>, Json)>,
)
    requires
        0 <= j <= k <= end <= rows.len(),
        forall|n: int| j <= n < k ==> (#[trigger] rows[n]).depth != depth,
    ensures
        members_value(rows, depth, j, end, members) == members_value(
            rows,
            depth,
            k,
            end,
            members,
        ),
    decreases k - j,
{
    if j < k {
        assert(rows[j].depth != depth);
        lemma_members_skip(rows, depth, j + 1, k, end, members);
    }
}

/// Rows that lie further in add no items.
pub proof fn lemma_items_skip(
    rows: Seq<RowShape>,
    depth: nat,
    j: int,
    k: int,
    end: int,
    items: Seq<Json>,
)
    requires
        0 <= j <= k <= end <= rows.len(),
        forall|n: int| j <= n < k ==> (#[trigger] rows[n]).depth != depth,
    ensures
        items_value(rows, depth, j, end, items) == items_value(rows, depth, k, end, items),
    decreases k - j,
{
    if j < k {
        assert(rows[j].depth != depth);
        lemma_items_skip(rows, depth, j + 1, k, end, items);
    }
}

// ---------------------------------------------------------------- names

/// The members arranged from the first fields are named after those fields.
proof fn lemma_arranged_names(fields: Seq<FieldShape>, n: int, v: Json, name: Seq<char>)
    requires
        0 <= n <= fields.len(),
        forall|k: int| 0 <= k < n && !(#[trigger] fields[k]).read_only ==> fields[k].name != name,
    ensures
        !has_key(arranged_members(fields, n, v), name),
    decreases n,
{
    let here = arranged_members(fields, n, v);
    lemma_position_bounds(here, name, 0);
    if n > 0 {
        let before = arranged_members(fields, n - 1, v);
        lemma_arranged_names(fields, n - 1, v, name);
        lemma_position_bounds(before, name, 0);
        if has_key(here, name) {
            let p = position_from(here, name, 0)->0;
            if p < before.len() {
                assert(here[p] == before[p]);
            } else {
                assert(!fields[n - 1].read_only);
            }
        }
    }
}

/// The next arranged member goes to the end.
proof fn lemma_put_is_push(fields: Seq<FieldShape>, i: int, v: Json, x: Json)
    requires
        0 <= i < fields.len(),
        !fields[i].read_only,
        editable_names_distinct(fields),
    ensures
        put(arranged_members(fields, i, v), fields[i].name, x) == arranged_members(
            fields,
            i,
            v,
        ).push((fields[i].name, x)),
{
    assert forall|k: int| 0 <= k < i && !(#[trigger] fields[k]).read_only implies fields[k].name
        != fields[i].name by {
        assert(!fields[i].read_only);
    }
    lemma_arranged_names(fields, i, v, fields[i].name);
}

// ---------------------------------------------------------------- values

/// A node filled from a fitting value sends that value, arranged.
proof fn lemma_node_value(
    rows: Seq<RowShape>,
    p: int,
    seed: NodeSeed,
    depth: nat,
    schema: Schema,
    v: Json,
)
    requires
        stands(rows, p, node_rows(seed, depth, schema)),
        closed_at(rows, p + node_rows(seed, depth, schema).len(), depth),
        seed.hydrated == Some(Some(v)),
        fits(schema, seed.nullable, v),
    ensures
        node_value(rows, p) == Ok::<Option<Json>, Blocked>(Some(arranged(schema, v))),
    decreases schema, 0int,
{
    let block = node_rows(seed, depth, schema);
    lemma_node_block(seed, depth, schema);
    lemma_node_span(rows, p, seed, depth, schema);
    assert(rows[p + 0] == block[0]);
    assert(rows[p] == node_row(seed, depth, schema));
    let end = p + block.len();
    match schema {
        Schema::Object { fields, .. } => {
            if !(v is Null) && fields.len() > 0 {
                let inner = field_rows(fields, 0, depth + 1, Some(v));
                assert forall|k: int| 0 <= k < inner.len() implies rows[p + 1 + k]
                    == #[trigger] inner[k] by {
                    assert(rows[p + (k + 1)] == block[k + 1]);
                    assert(block[k + 1] == inner[k]);
                }
                assert(block.len() == 1 + inner.len());
                assert(fits_fields(fields, v));
                lemma_fields_value(rows, p + 1, end, fields, 0, depth + 1, v);
                assert(arranged_members(fields, 0, v) =~= Seq::empty());
                assert(members_value(
                    rows,
                    rows[p].depth + 1,
                    p + 1,
                    span(rows, p),
                    Seq::empty(),
                ) == Ok::<Seq<(Seq<char>, Json)>, Blocked>(arranged_members(fields, fields.len() as int, v)));
                assert(rows[p].kind is ObjectHeader);
                assert(rows[p].state == included());
            }
        },
        Schema::Array { item, item_nullable, .. } => {
            if !(v is Null) {
                let items = v->Array_0;
                let inner = item_rows(*item, item_nullable, items, 0, depth + 1);
                assert(starting_items(given(seed.hydrated), seed.default) == items);
                assert forall|k: int| 0 <= k < inner.len() implies rows[p + 1 + k]
                    == #[trigger] inner[k] by {
                    assert(rows[p + (k + 1)] == block[k + 1]);
                    assert(block[k + 1] == inner[k]);
                }
                assert(block.len() == 1 + inner.len());
                lemma_items_value(rows, p + 1, end, *item, item_nullable, items, 0, depth + 1);
                assert(arranged_items(*item, items).take(0) =~= Seq::empty());
                assert(rows[p].state == included());
            }
        },
        _ => {},
    }
}

/// The fields from `i` on, filled from a fitting object, add its members.
proof fn lemma_fields_value(
    rows: Seq<RowShape>,
    q: int,
    end: int,
    fields: Seq<FieldShape>,
    i: int,
    depth: nat,
    v: Json,
)
    requires
        0 <= i <= fields.len(),
        stands(rows, q, field_rows(fields, i, depth, Some(v))),
        end == q + field_rows(fields, i, depth, Some(v)).len(),
        depth > 0,
        closed_at(rows, end, (depth - 1) as nat),
        fits_fields(fields, v),
    ensures
        members_value(rows, depth, q, end, arranged_members(fields, i, v)) == Ok::<
            Seq<(Seq<char>, Json)>,
            Blocked,
        >(arranged_members(fields, fields.len() as int, v)),
    decreases fields, fields.len() - i,
{
    if i < fields.len() {
        let all = field_rows(fields, i, depth, Some(v));
        let rest = field_rows(fields, i + 1, depth, Some(v));
        let members = arranged_members(fields, i, v);
        if fields[i].read_only {
            assert(arranged_members(fields, i + 1, v) == members);
            lemma_fields_value(rows, q, end, fields, i + 1, depth, v);
        } else {
            let seed = field_seed(fields[i], Some(v));
            let mine = node_rows(seed, depth, fields[i].schema);
            let next = q + mine.len();
            assert(all == mine + rest);
            assert forall|k: int| 0 <= k < mine.len() implies rows[q + k] == #[trigger] mine[k] by {
                assert(rows[q + k] == all[k]);
            }
            assert forall|k: int| 0 <= k < rest.len() implies rows[next + k]
                == #[trigger] rest[k] by {
                assert(rows[q + (mine.len() + k)] == all[mine.len() + k]);
            }
            lemma_node_block(seed, depth, fields[i].schema);
            lemma_fields_block(fields, i + 1, depth, Some(v));
            // What follows this field is the next field, or the end of the object.
            assert(closed_at(rows, next, depth)) by {
                if next < end {
                    lemma_first_field_depth(fields, i + 1, depth, Some(v));
                    assert(rows[next + 0] == rest[0]);
                }
            }
            assert(rows[q + 0] == mine[0]);
            assert forall|n: int| q < n < next implies (#[trigger] rows[n]).depth != depth by {
                assert(rows[q + (n - q)] == mine[n - q]);
                assert(mine[n - q] == mine.skip(1)[n - q - 1]);
            }
            match v.member(fields[i].name) {
                Some(x) => {
                    lemma_node_value(rows, q, seed, depth, fields[i].schema, x);
                    let sent = arranged(fields[i].schema, x);
                    lemma_put_is_push(fields, i, v, sent);
                    let more = arranged_members(fields, i + 1, v);
                    assert(more == put(members, fields[i].name, sent));
                    lemma_members_skip(rows, depth, q + 1, next, end, more);
                },
                None => {
                    assert(rows[q].state is Excluded);
                    assert(arranged_members(fields, i + 1, v) == members);
                    lemma_members_skip(rows, depth, q + 1, next, end, members);
                },
            }
            lemma_fields_value(rows, next, end, fields, i + 1, depth, v);
        }
    }
}

/// The first row of the remaining fields has their indentation.
pub proof fn lemma_first_field_depth(
    fields: Seq<FieldShape>,
    i: int,
    depth: nat,
    parent: Option<Json>,
)
    requires
        0 <= i,
        field_rows(fields, i, depth, parent).len() > 0,
    ensures
        field_rows(fields, i, depth, parent)[0].depth == depth,
    decreases fields.len() - i,
{
    if i < fields.len() {
        if fields[i].read_only {
            lemma_first_field_depth(fields, i + 1, depth, parent);
        } else {
            lemma_node_block(field_seed(fields[i], parent), depth, fields[i].schema);
        }
    }
}

/// The items from `k` on, filled from fitting values, add those values.
proof fn lemma_items_value(
    rows: Seq<RowShape>,
    q: int,
    end: int,
    item: Schema,
    nullable: bool,
    items: Seq<Json>,
    k: int,
    depth: nat,
)
    requires
        0 <= k <= items.len(),
        stands(rows, q, item_rows(item, nullable, items, k, depth)),
        end == q + item_rows(item, nullable, items, k, depth).len(),
        depth > 0,
        closed_at(rows, end, (depth - 1) as nat),
        forall|n: int| 0 <= n < items.len() ==> fits(item, nullable, #[trigger] items[n]),
    ensures
        items_value(rows, depth, q, end, arranged_items(item, items).take(k)) == Ok::<
            Seq<Json>,
            Blocked,
        >(arranged_items(item, items)),
    decreases item, items.len() - k + 1,
{
    if k < items.len() {
        let all = item_rows(item, nullable, items, k, depth);
        let rest = item_rows(item, nullable, items, k + 1, depth);
        let seed = item_seed(k as nat, nullable, Some(items[k]));
        let mine = node_rows(seed, depth, item);
        let next = q + mine.len();
        assert(all == mine + rest);
        assert forall|n: int| 0 <= n < mine.len() implies rows[q + n] == #[trigger] mine[n] by {
            assert(rows[q + n] == all[n]);
        }
        assert forall|n: int| 0 <= n < rest.len() implies rows[next + n] == #[trigger] rest[n] by {
            assert(rows[q + (mine.len() + n)] == all[mine.len() + n]);
        }
        lemma_node_block(seed, depth, item);
        assert(closed_at(rows, next, depth)) by {
            if next < end {
                let after = item_seed((k + 1) as nat, nullable, Some(items[k + 1]));
                lemma_node_block(after, depth, item);
                assert(rows[next + 0] == rest[0]);
                assert(rest[0] == node_rows(after, depth, item)[0]);
            }
        }
        assert(rows[q + 0] == mine[0]);
        assert forall|n: int| q < n < next implies (#[trigger] rows[n]).depth != depth by {
            assert(rows[q + (n - q)] == mine[n - q]);
            assert(mine[n - q] == mine.skip(1)[n - q - 1]);
        }
        lemma_node_value(rows, q, seed, depth, item, items[k]);
        let sent = arranged_items(item, items);
        let more = sent.take(k).push(sent[k]);
        assert(more =~= sent.take(k + 1));
        lemma_items_skip(rows, depth, q + 1, next, end, more);
        lemma_items_value(rows, next, end, item, nullable, items, k + 1, depth);
    } else {
        assert(arranged_items(item, items).take(k) =~= arranged_items(item, items));
    }
}

/// The top-level fields from `i` on, filled from a fitting object, add its members.
proof fn lemma_top_value(
    rows: Seq<RowShape>,
    q: int,
    fields: Seq<FieldShape>,
    i: int,
    v: Json,
)
    requires
        0 <= i <= fields.len(),
        stands(rows, q, field_rows(fields, i, 0, Some(v))),
        rows.len() == q + field_rows(fields, i, 0, Some(v)).len(),
        fits_fields(fields, v),
    ensures
        top_members(rows, q, arranged_members(fields, i, v)) == Ok::<
            Seq<(Seq<char>, Json)>,
            Blocked,
        >(arranged_members(fields, fields.len() as int, v)),
    decreases fields.len() - i,
{
    if i < fields.len() {
        let all = field_rows(fields, i, 0, Some(v));
        let rest = field_rows(fields, i + 1, 0, Some(v));
        let members = arranged_members(fields, i, v);
        if fields[i].read_only {
            assert(arranged_members(fields, i + 1, v) == members);
            lemma_top_value(rows, q, fields, i + 1, v);
        } else {
            let seed = field_seed(fields[i], Some(v));
            let mine = node_rows(seed, 0, fields[i].schema);
            let next = q + mine.len();
            assert(all == mine + rest);
            assert forall|k: int| 0 <= k < mine.len() implies rows[q + k] == #[trigger] mine[k] by {
                assert(rows[q + k] == all[k]);
            }
            assert forall|k: int| 0 <= k < rest.len() implies rows[next + k]
                == #[trigger] rest[k] by {
                assert(rows[q + (mine.len() + k)] == all[mine.len() + k]);
            }
            lemma_node_block(seed, 0, fields[i].schema);
            assert(closed_at(rows, next, 0)) by {
                if next < rows.len() {
                    lemma_first_field_depth(fields, i + 1, 0, Some(v));
                    assert(rows[next + 0] == rest[0]);
                }
            }
            lemma_node_span(rows, q, seed, 0, fields[i].schema);
            assert(rows[q + 0] == mine[0]);
            match v.member(fields[i].name) {
                Some(x) => {
                    lemma_node_value(rows, q, seed, 0, fields[i].schema, x);
                    let sent = arranged(fields[i].schema, x);
                    lemma_put_is_push(fields, i, v, sent);
                    assert(arranged_members(fields, i + 1, v) == put(
                        members,
                        fields[i].name,
                        sent,
                    ));
                },
                None => {
                    assert(rows[q].state is Excluded);
                    assert(arranged_members(fields, i + 1, v) == members);
                },
            }
            lemma_top_value(rows, next, fields, i + 1, v);
        }
    }
}

// ---------------------------------------------------------------- same documents

/// A document without ambiguous members is the same as itself.
proof fn lemma_same_reflexive(v: Json)
    requires
        unambiguous(v),
    ensures
        same_document(v, v),
    decreases v,
{
    match v {
        Json::Object(members) => {
            assert forall|i: int| 0 <= i < members.len() implies (lookup(
                members,
                (#[trigger] members[i]).0,
            ) matches Some(y) && same_document(members[i].1, y)) by {
                lemma_lookup_is(members, i);
                lemma_same_reflexive(members[i].1);
            }
        },
        Json::Array(items) => {
            assert forall|i: int| 0 <= i < items.len() implies same_document(
                #[trigger] items[i],
                items[i],
            ) by {
                lemma_same_reflexive(items[i]);
            }
        },
        _ => {},
    }
}

/// Where names are distinct, a member is found under its name.
proof fn lemma_lookup_is(members: Seq<(Seq<char>, Json)>, i: int)
    requires
        distinct_keys(members),
        0 <= i < members.len(),
    ensures
        lookup(members, members[i].0) == Some(members[i].1),
{
    assert forall|k: int| 0 <= k < i implies (#[trigger] members[k]).0 != members[i].0 by {}
    lemma_position_is(members, members[i].0, 0, i);
}

/// The names of members.
spec fn keys(members: Seq<(Seq<char>, Json)>) -> Seq<Seq<char>> {
    Seq::new(members.len(), |i: int| members[i].0)
}

/// Each arranged member belongs to one of the first fields and to a member of
/// the value; each such field that the value has is there.
proof fn lemma_arranged_members(fields: Seq<FieldShape>, n: int, v: Json)
    requires
        0 <= n <= fields.len(),
        fits_fields(fields, v),
        unambiguous(v),
    ensures
        distinct_keys(arranged_members(fields, n, v)),
        forall|k: int|
            0 <= k < arranged_members(fields, n, v).len() ==> (v.member(
                (#[trigger] arranged_members(fields, n, v)[k]).0,
            ) matches Some(y) && same_document(arranged_members(fields, n, v)[k].1, y)),
        forall|i: int|
            0 <= i < n && !(#[trigger] fields[i]).read_only && v.member(fields[i].name) is Some
                ==> keys(arranged_members(fields, n, v)).contains(fields[i].name),
    decreases fields, n,
{
    if n > 0 {
        let before = arranged_members(fields, n - 1, v);
        let here = arranged_members(fields, n, v);
        lemma_arranged_members(fields, n - 1, v);
        let field = fields[n - 1];
        if !field.read_only && v.member(field.name) is Some {
            let x = v.member(field.name)->0;
            lemma_member_unambiguous(v, field.name);
            lemma_arranged_same(fields[n - 1].schema, field.nullable, x);
            lemma_put_is_push(fields, n - 1, v, x);
            assert forall|k: int| 0 <= k < n - 1 && !(
            #[trigger] fields[k]).read_only implies fields[k].name != field.name by {
                assert(!fields[n - 1].read_only);
            }
            lemma_arranged_names(fields, n - 1, v, field.name);
            lemma_position_bounds(before, field.name, 0);
            assert forall|i: int, j: int| 0 <= i < j < here.len() implies (#[trigger] here[i]).0 != (
            #[trigger] here[j]).0 by {
                assert(here[i] == before[i]);
                if j < before.len() {
                    assert(here[j] == before[j]);
                }
            }
            assert forall|k: int| 0 <= k < here.len() implies (v.member(
                (#[trigger] here[k]).0,
            ) matches Some(y) && same_document(here[k].1, y)) by {
                if k < before.len() {
                    assert(here[k] == before[k]);
                }
            }
            assert forall|i: int|
                0 <= i < n && !(#[trigger] fields[i]).read_only && v.member(
                    fields[i].name,
                ) is Some implies keys(here).contains(fields[i].name) by {
                if i < n - 1 {
                    let at = choose|at: int|
                        0 <= at < keys(before).len() && keys(before)[at] == fields[i].name;
                    assert(keys(here)[at] == fields[i].name);
                } else {
                    assert(keys(here)[here.len() - 1] == fields[i].name);
                }
            }
        }
    }
}

proof fn lemma_member_unambiguous(v: Json, name: Seq<char>)
    requires
        unambiguous(v),
        v.member(name) is Some,
    ensures
        unambiguous(v.member(name)->0),
{
    let members = v->Object_0;
    lemma_position_bounds(members, name, 0);
    let p = position_from(members, name, 0)->0;
    assert(unambiguous(members[p].1));
}

/// Arranging a fitting object changes at most the order of its members.
proof fn lemma_arranged_object_same(fields: Seq<FieldShape>, v: Json)
    requires
        fits_fields(fields, v),
        unambiguous(v),
    ensures
        same_document(
            Json::Object(arranged_members(fields, fields.len() as int, v)),
            v,
        ),
    decreases fields, fields.len() + 1,
{
    let n = fields.len() as int;
    let sent = arranged_members(fields, n, v);
    let members = v->Object_0;
    lemma_arranged_members(fields, n, v);
    let a = keys(sent);
    let b = keys(members);
    assert(a.no_duplicates()) by {
        assert forall|i: int, j: int| 0 <= i < a.len() && 0 <= j < a.len() && i != j implies a[i]
            != a[j] by {
            if i < j {
                assert(sent[i].0 != sent[j].0);
            } else {
                assert(sent[j].0 != sent[i].0);
            }
        }
    }
    assert(b.no_duplicates()) by {
        assert forall|i: int, j: int| 0 <= i < b.len() && 0 <= j < b.len() && i != j implies b[i]
            != b[j] by {
            if i < j {
                assert(members[i].0 != members[j].0);
            } else {
                assert(members[j].0 != members[i].0);
            }
        }
    }
    assert forall|key: Seq<char>| a.contains(key) implies b.contains(key) by {
        let k = choose|k: int| 0 <= k < a.len() && a[k] == key;
        assert(v.member(sent[k].0) is Some);
        lemma_position_bounds(members, key, 0);
        let p = position_from(members, key, 0)->0;
        assert(b[p] == key);
    }
    assert forall|key: Seq<char>| b.contains(key) implies a.contains(key) by {
        let k = choose|k: int| 0 <= k < b.len() && b[k] == key;
        assert(names_editable_field(fields, members[k].0));
        let i = choose|i: int|
            0 <= i < fields.len() && !(#[trigger] fields[i]).read_only && fields[i].name == key;
        lemma_lookup_is(members, k);
        assert(!fields[i].read_only && v.member(fields[i].name) is Some);
    }
    assert(a.to_set() =~= b.to_set());
    a.unique_seq_to_set();
    b.unique_seq_to_set();
}

/// Arranging a fitting value changes at most the order of members.
proof fn lemma_arranged_same(schema: Schema, nullable: bool, v: Json)
    requires
        fits(schema, nullable, v),
        unambiguous(v),
    ensures
        same_document(arranged(schema, v), v),
    decreases schema, 0int,
{
    lemma_same_reflexive(v);
    match schema {
        Schema::Object { fields, .. } => {
            if !(v is Null) && fields.len() > 0 {
                assert(fits_fields(fields, v));
                lemma_arranged_object_same(fields, v);
            }
        },
        Schema::Array { item, item_nullable, .. } => {
            if !(v is Null) {
                let items = v->Array_0;
                let sent = arranged_items(*item, items);
                assert forall|i: int| 0 <= i < sent.len() implies same_document(
                    #[trigger] sent[i],
                    items[i],
                ) by {
                    assert(fits(*item, item_nullable, items[i]));
                    assert(unambiguous(items[i]));
                    lemma_arranged_same(*item, item_nullable, items[i]);
                }
            }
        },
        _ => {},
    }
}

// ---------------------------------------------------------------- the law

/// A body filled from a fitting value sends that value: the same document,
/// with its members in the order of the fields.
pub proof fn law_hydrated_body_round_trips(
    form: FormShape,
    endpoint: EndpointShape,
    value: Json,
)
    requires
        endpoint.body is Some,
        object_body(endpoint.body->0.schema) ==> form.body_is_object,
        fits_body(endpoint.body->0, value),
        unambiguous(value),
    ensures
        ({
            let after = hydrated(form, endpoint, value);
            let sent = arranged_body(endpoint.body->0.schema, value);
            &&& body_value(
                after.rows,
                after.body_is_object,
                rows_before_body(form.rows).len() as int + 1,
            ) == Ok::<Option<Json>, Blocked>(Some(sent))
            &&& same_document(sent, value)
        }),
{
    let body = endpoint.body->0;
    let after = hydrated(form, endpoint, value);
    let front = rows_before_body(form.rows) + seq![heading(Section::Body)];
    let block = body_rows(body, Some(value));
    let first = front.len() as int;
    assert(after.rows == front + block);
    assert forall|k: int| 0 <= k < block.len() implies after.rows[first + k]
        == #[trigger] block[k] by {}
    if object_body(body.schema) {
        let fields = body.schema->Object_fields;
        assert(arranged_members(fields, 0, value) =~= Seq::empty());
        lemma_top_value(after.rows, first, fields, 0, value);
        lemma_arranged_object_same(fields, value);
    } else {
        lemma_node_value(
            after.rows,
            first,
            root_seed(body.required, body.nullable, Some(Some(value))),
            0,
            body.schema,
            value,
        );
        lemma_arranged_same(body.schema, body.nullable, value);
    }
}

/// What a whole form sends after its body was filled from a fitting value:
/// that document, unless a parameter in front of the body blocks.
pub proof fn law_hydrated_form_sends_the_value(
    form: FormShape,
    endpoint: EndpointShape,
    value: Json,
)
    requires
        endpoint.body is Some,
        object_body(endpoint.body->0.schema) ==> form.body_is_object,
        fits_body(endpoint.body->0, value),
        unambiguous(value),
        body_rows(endpoint.body->0, Some(value)).len() > 0,
        forall|k: int|
            0 <= k < rows_before_body(form.rows).len() ==> (#[trigger] rows_before_body(
                form.rows,
            )[k]).section != Section::Body,
    ensures
        match hydrated(form, endpoint, value).sent() {
            Ok(sent) => sent.body matches Some(body) && same_document(body, value),
            Err(blocked) => blocked.row < rows_before_body(form.rows).len(),
        },
{
    law_hydrated_body_round_trips(form, endpoint, value);
    let body = endpoint.body->0;
    let after = hydrated(form, endpoint, value);
    let front = rows_before_body(form.rows);
    let block = body_rows(body, Some(value));
    if object_body(body.schema) {
        lemma_fields_block(body.schema->Object_fields, 0, 0, Some(value));
    } else {
        lemma_node_block(root_seed(body.required, body.nullable, Some(Some(value))), 0, body.schema);
    }
    assert(after.rows[front.len() as int] == heading(Section::Body));
    assert(after.rows[front.len() as int + 1] == block[0]);
    assert forall|k: int| 0 <= k < front.len() implies (#[trigger] after.rows[k]).section
        != Section::Body by {
        assert(after.rows[k] == front[k]);
    }
    lemma_sent_reaches_body(
        after.rows,
        after.body_is_object,
        0,
        front.len() as int,
        nothing_sent(),
        arranged_body(body.schema, value),
    );
}

proof fn lemma_sent_reaches_body(
    rows: Seq<RowShape>,
    body_is_object: bool,
    i: int,
    h: int,
    sent: SerializedShape,
    value: Json,
)
    requires
        0 <= i <= h,
        h + 1 < rows.len(),
        forall|k: int| 0 <= k < h ==> (#[trigger] rows[k]).section != Section::Body,
        rows[h].kind is SectionHeader,
        rows[h + 1].section == Section::Body,
        !(rows[h + 1].kind is SectionHeader),
        body_value(rows, body_is_object, h + 1) == Ok::<Option<Json>, Blocked>(Some(value)),
    ensures
        match sent_from(rows, body_is_object, i, sent) {
            Ok(out) => out.body == Some(value),
            Err(blocked) => blocked.row < h,
        },
    decreases h - i,
{
    reveal_with_fuel(sent_from, 3);
    if i < h {
        assert(rows[i].section != Section::Body);
        if rows[i].kind is SectionHeader {
            lemma_sent_reaches_body(rows, body_is_object, i + 1, h, sent, value);
        } else {
            match param_text(rows, i) {
                Ok(Some(text)) => lemma_sent_reaches_body(
                    rows,
                    body_is_object,
                    i + 1,
                    h,
                    with_param(sent, rows[i].section, rows[i].label, text),
                    value,
                ),
                Ok(None) => lemma_sent_reaches_body(rows, body_is_object, i + 1, h, sent, value),
                Err(_) => {},
            }
        }
    }
}

} // verus!
