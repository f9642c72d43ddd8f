//! The cursor never leaves the form, and neither does the row that a refused
//! submit points at.

use super::arrays::{appended_rows, deleted, enclosing};
use super::cursor::{clamped, lemma_landing, lemma_span, moved, span};
use super::edit::with_row;
use super::init::{hydrated, opened};
use super::serialize::{
    items_value, members_value, node_value, sent_from, top_members, SerializedShape,
};
use super::{row_fits, FormShape, RowShape};
use crate::json::Json;
use crate::model::EndpointShape;
use vstd::prelude::*;

verus! {

/// The cursor stands on a row wherever there is one.
pub open spec fn steady(form: FormShape) -> bool {
    form.rows.len() > 0 ==> form.cursor < form.rows.len()
}

proof fn lemma_clamped(rows: Seq<RowShape>, cursor: int, direction: int)
    ensures
        0 <= clamped(rows, cursor, direction),
        rows.len() > 0 ==> clamped(rows, cursor, direction) < rows.len(),
{
    lemma_landing(rows, 0, direction);
}

/// A new form has its cursor on a row.
pub proof fn law_opened_form_is_steady(endpoint: EndpointShape)
    ensures
        steady(opened(endpoint)),
{
    lemma_clamped(opened(endpoint).rows, 0, 1);
}

/// Moving the cursor keeps it on the form.
pub proof fn law_moving_is_steady(form: FormShape, delta: int)
    requires
        steady(form),
    ensures
        steady(
            FormShape { cursor: moved(form.rows, form.cursor as int, delta) as nat, ..form },
        ),
{
    lemma_landing(form.rows, form.cursor as int, delta);
}

/// Refilling the body keeps the cursor on the form.
pub proof fn law_hydrating_is_steady(form: FormShape, endpoint: EndpointShape, value: Json)
    requires
        steady(form),
    ensures
        steady(hydrated(form, endpoint, value)),
{
    lemma_clamped(hydrated(form, endpoint, value).rows, form.cursor as int, 1);
}

/// Deleting an array item keeps the cursor on the form.
pub proof fn law_deleting_is_steady(form: FormShape, i: int)
    requires
        steady(form),
    ensures
        steady(deleted(form, i)),
{
    match enclosing(form.rows, i, i) {
        Some((header, root)) => {
            let rows = deleted(form, i).rows;
            let cursor = if rows.len() == 0 {
                0
            } else if form.cursor >= rows.len() {
                rows.len() - 1
            } else {
                form.cursor as int
            };
            lemma_clamped(rows, cursor, -1);
        },
        None => {},
    }
}

/// Appending an array item keeps the cursor on the form.
pub proof fn law_appending_is_steady(form: FormShape, i: int)
    requires
        steady(form),
        0 <= i < form.rows.len(),
    ensures
        steady(FormShape { rows: appended_rows(form.rows, i), ..form }),
{
    lemma_span(form.rows, i);
}

/// Changing one row keeps the cursor on the form.
pub proof fn law_editing_is_steady(form: FormShape, i: int, row: RowShape)
    requires
        steady(form),
        0 <= i < form.rows.len(),
    ensures
        steady(with_row(form, i, row)),
        form.wf() && row.depth == form.rows[i].depth && row.schema == form.rows[i].schema
            ==> with_row(form, i, row).wf(),
{
    let after = with_row(form, i, row);
    if form.wf() && row.depth == form.rows[i].depth && row.schema == form.rows[i].schema {
        assert forall|k: int| 0 <= k < after.rows.len() implies row_fits(
            #[trigger] after.rows[k],
        ) by {
            assert(row_fits(form.rows[k]));
        }
    }
}

proof fn lemma_node(rows: Seq<RowShape>, i: int)
    requires
        0 <= i,
    ensures
        node_value(rows, i) matches Err(b) ==> 0 <= b.row < rows.len(),
    decreases rows.len() - i, 0int,
{
    if i < rows.len() {
        lemma_members(rows, rows[i].depth + 1, i + 1, span(rows, i), Seq::empty());
        lemma_items(rows, rows[i].depth + 1, i + 1, span(rows, i), Seq::empty());
    }
}

proof fn lemma_members(
    rows: Seq<RowShape>,
    depth: nat,
    j: int,
    end: int,
    members: Seq<(Seq<char>, Json)>,
)
    requires
        0 <= j,
    ensures
        members_value(rows, depth, j, end, members) matches Err(b) ==> 0 <= b.row < rows.len(),
    decreases rows.len() - j, 1int,
{
    if j < end && j < rows.len() {
        lemma_node(rows, j);
        lemma_members(rows, depth, j + 1, end, members);
        match node_value(rows, j) {
            Ok(Some(value)) => {
                lemma_members(
                    rows,
                    depth,
                    j + 1,
                    end,
                    crate::json::put(members, rows[j].label, value),
                );
            },
            _ => {},
        }
    }
}

proof fn lemma_items(rows: Seq<RowShape>, depth: nat, j: int, end: int, items: Seq<Json>)
    requires
        0 <= j,
    ensures
        items_value(rows, depth, j, end, items) matches Err(b) ==> 0 <= b.row < rows.len(),
    decreases rows.len() - j, 1int,
{
    if j < end && j < rows.len() {
        lemma_node(rows, j);
        lemma_items(rows, depth, j + 1, end, items);
        match node_value(rows, j) {
            Ok(Some(value)) => {
                lemma_items(rows, depth, j + 1, end, items.push(value));
            },
            _ => {},
        }
    }
}

proof fn lemma_top(rows: Seq<RowShape>, i: int, members: Seq<(Seq<char>, Json)>)
    requires
        0 <= i,
    ensures
        top_members(rows, i, members) matches Err(b) ==> 0 <= b.row < rows.len(),
    decreases rows.len() - i,
{
    if i < rows.len() {
        lemma_span(rows, i);
        lemma_node(rows, i);
        if rows[i].depth == 0 {
            lemma_top(rows, span(rows, i), members);
            match node_value(rows, i) {
                Ok(Some(value)) => {
                    lemma_top(
                        rows,
                        span(rows, i),
                        crate::json::put(members, rows[i].label, value),
                    );
                },
                _ => {},
            }
        } else {
            lemma_top(rows, i + 1, members);
        }
    }
}

proof fn lemma_sent(rows: Seq<RowShape>, body_is_object: bool, i: int, sent: SerializedShape)
    requires
        0 <= i,
    ensures
        sent_from(rows, body_is_object, i, sent) matches Err(b) ==> 0 <= b.row < rows.len(),
    decreases rows.len() - i,
{
    if i < rows.len() {
        lemma_top(rows, i, Seq::empty());
        lemma_node(rows, i);
        lemma_sent(rows, body_is_object, i + 1, sent);
        match super::serialize::param_text(rows, i) {
            Ok(Some(text)) => {
                lemma_sent(
                    rows,
                    body_is_object,
                    i + 1,
                    super::serialize::with_param(sent, rows[i].section, rows[i].label, text),
                );
            },
            _ => {},
        }
    }
}

/// A refused submit points at a row of the form.
pub proof fn law_blocked_row_is_on_the_form(form: FormShape)
    ensures
        form.sent() matches Err(b) ==> 0 <= b.row < form.rows.len(),
{
    lemma_sent(form.rows, form.body_is_object, 0, super::serialize::nothing_sent());
}

} // verus!
