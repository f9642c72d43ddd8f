//! What editing promises: typed text means what it says, toggling and moving do
//! one thing, and nothing else changes.

use super::arrays::{appended_rows, children};
use super::cursor::{landing, lemma_span, moved, restable, span};
use super::edit::{
    next_value, reincluded, seed_text, toggled, typed, value_position, with_row,
};
use super::laws::lemma_node_block;
use super::rows::{item_seed, node_row, node_rows, NodeSeed};
use super::serialize::{blank_of, body_heading, body_value, editable_body, lenient_rows};
use super::{FormShape, KindShape, RowShape, StateShape};
use crate::json::parse::parsed;
use crate::json::Json;
use crate::model::schema_node::Schema;
use crate::text::laws::{law_decimal_is_read_back, law_signed_decimal_is_read_back};
use crate::text::{
    decimal, integer_of, is_digit, lemma_unpadded, signed_decimal, trimmed, unpadded,
};
use vstd::prelude::*;
use vstd::string::*;

verus! {

// ---------------------------------------------------------------- typing

proof fn lemma_number_is_solid(n: int)
    ensures
        signed_decimal(n).len() > 0,
        trimmed(signed_decimal(n)) == signed_decimal(n),
{
    let s = signed_decimal(n);
    let digits = if n < 0 {
        decimal((-n) as nat)
    } else {
        decimal(n as nat)
    };
    law_decimal_is_read_back(if n < 0 {
        (-n) as nat
    } else {
        n as nat
    });
    assert(is_digit(digits[0]));
    assert(is_digit(digits[digits.len() - 1]));
    assert(s.last() == digits.last());
    assert(s[0] == '-' || s[0] == digits[0]);
    assert(unpadded(s));
    lemma_unpadded(s);
}

/// What is typed is taken for what it says: nothing leaves the row empty, any JSON
/// row takes the document, a number row the number, a flag its word, and any other
/// row the text itself.
pub proof fn law_typed_text_is_taken(row: RowShape, text: Seq<char>, n: int)
    ensures
        typed(row, Seq::empty()) == Ok::<StateShape, Seq<char>>(StateShape::Empty),
        row.kind is RawJson && text.len() > 0 ==> match parsed(text) {
            Ok(value) => typed(row, text) == Ok::<StateShape, Seq<char>>(
                StateShape::Filled(value),
            ),
            Err(_) => typed(row, text) is Err,
        },
        !(row.kind is RawJson) && row.schema is Integer && i64::MIN <= n <= i64::MAX ==> typed(
            row,
            signed_decimal(n),
        ) == Ok::<StateShape, Seq<char>>(StateShape::Filled(Json::Int(n))),
        !(row.kind is RawJson) && row.schema is Integer && text.len() > 0 && integer_of(
            trimmed(text),
        ) is None ==> typed(row, text) is Err,
        !(row.kind is RawJson) && row.schema is Boolean ==> {
            &&& typed(row, "true"@) == Ok::<StateShape, Seq<char>>(
                StateShape::Filled(Json::Bool(true)),
            )
            &&& typed(row, "false"@) == Ok::<StateShape, Seq<char>>(
                StateShape::Filled(Json::Bool(false)),
            )
        },
        !(row.kind is RawJson) && row.schema is String && text.len() > 0 ==> typed(row, text)
            == Ok::<StateShape, Seq<char>>(StateShape::Filled(Json::Text(text))),
{
    lemma_number_is_solid(n);
    law_signed_decimal_is_read_back(n);
    reveal_strlit("true");
    reveal_strlit("false");
    assert("true"@[0] == 't' && "true"@[3] == 'e' && "true"@.len() == 4);
    assert("false"@[0] == 'f' && "false"@[4] == 'e' && "false"@.len() == 5);
    assert("true"@ != "false"@);
    assert(unpadded("true"@) && unpadded("false"@));
    lemma_unpadded("true"@);
    lemma_unpadded("false"@);
}

/// Opening the editor of a row and accepting what it shows changes nothing.
pub proof fn law_accepting_the_shown_text_keeps_the_value(row: RowShape)
    requires
        !(row.kind is RawJson),
    ensures
        row.schema is String && (row.state matches StateShape::Filled(Json::Text(s)) && s.len() > 0)
            ==> typed(row, seed_text(row)) == Ok::<StateShape, Seq<char>>(row.state),
        row.schema is Integer && (row.state matches StateShape::Filled(Json::Int(n)) && i64::MIN
            <= n <= i64::MAX) ==> typed(row, seed_text(row)) == Ok::<StateShape, Seq<char>>(
            row.state,
        ),
        row.schema is Boolean && (row.state matches StateShape::Filled(Json::Bool(_))) ==> typed(
            row,
            seed_text(row),
        ) == Ok::<StateShape, Seq<char>>(row.state),
        row.state is Empty ==> typed(row, seed_text(row)) == Ok::<StateShape, Seq<char>>(
            StateShape::Empty,
        ),
{
    match row.state {
        StateShape::Filled(Json::Int(n)) => {
            law_typed_text_is_taken(row, Seq::empty(), n);
        },
        StateShape::Filled(Json::Text(s)) => {
            law_typed_text_is_taken(row, s, 0);
        },
        _ => {
            law_typed_text_is_taken(row, Seq::empty(), 0);
        },
    }
}

// ---------------------------------------------------------------- toggling

/// A flag changes to the other value, a header folds and unfolds, and one that was
/// left out is included; nothing else of the row changes.
pub proof fn law_toggling(row: RowShape)
    ensures
        row.kind is Bool ==> {
            &&& row.state == StateShape::Filled(Json::Bool(true)) ==> toggled(row).state
                == StateShape::Filled(Json::Bool(false))
            &&& row.state != StateShape::Filled(Json::Bool(true)) ==> toggled(row).state
                == StateShape::Filled(Json::Bool(true))
            &&& toggled(row).collapsed == row.collapsed
        },
        (row.kind is ObjectHeader || row.kind is ArrayHeader) && row.state is Filled ==> {
            &&& toggled(row).collapsed == !row.collapsed
            &&& toggled(row).state == row.state
            &&& toggled(toggled(row)) == row
        },
        (row.kind is ObjectHeader || row.kind is ArrayHeader) && !(row.state is Filled) ==> {
            &&& toggled(row).state == StateShape::Filled(Json::Bool(true))
            &&& toggled(row).collapsed == row.collapsed
        },
        row.kind is Scalar || row.kind is Const || row.kind is RawJson || row.kind is SectionHeader
            ==> toggled(row) == row,
        toggled(row) == (RowShape {
            state: toggled(row).state,
            collapsed: toggled(row).collapsed,
            ..row
        }),
        row.kind matches KindShape::Enum(values) ==> values.len() > 0 ==> (toggled(
            row,
        ).state matches StateShape::Filled(Json::Text(s)) && values.contains(s)),
{
    match row.kind {
        KindShape::Enum(values) => {
            if values.len() > 0 {
                lemma_next_in_bounds(values, row.state);
                let k = next_value(values, row.state);
                assert(values.contains(values[k]));
            }
        },
        _ => {},
    }
}

proof fn lemma_next_in_bounds(values: Seq<Seq<char>>, state: StateShape)
    requires
        values.len() > 0,
    ensures
        0 <= next_value(values, state) < values.len(),
{
    match state {
        StateShape::Filled(Json::Text(s)) => {
            lemma_place(values, s, 0);
        },
        _ => {},
    }
}

proof fn lemma_place(values: Seq<Seq<char>>, text: Seq<char>, i: int)
    requires
        0 <= i,
    ensures
        value_position(values, text, i) matches Some(p) ==> i <= p < values.len(),
    decreases values.len() - i,
{
    if i < values.len() && values[i] != text {
        lemma_place(values, text, i + 1);
    }
}

/// A row that is included again has the value that it had before, or none; one
/// that was never left out stays as it is.
pub proof fn law_reincluding(row: RowShape)
    ensures
        row.state is Filled || row.state is Empty ==> reincluded(row) == row,
        !(row.state is Filled || row.state is Empty) ==> {
            &&& row.saved matches Some(value) ==> reincluded(row).state == StateShape::Filled(value)
            &&& row.saved is None && !(row.kind is ObjectHeader) && !(row.kind is ArrayHeader)
                ==> reincluded(row).state is Empty
            &&& row.saved is None && (row.kind is ObjectHeader || row.kind is ArrayHeader)
                ==> reincluded(row).state == StateShape::Filled(Json::Bool(true))
        },
        reincluded(row) == (RowShape { state: reincluded(row).state, ..row }),
{
}

/// Editing a row changes that row alone.
pub proof fn law_only_the_row_changes(form: FormShape, i: int, row: RowShape)
    requires
        0 <= i < form.rows.len(),
    ensures
        with_row(form, i, row).rows.len() == form.rows.len(),
        with_row(form, i, row).rows[i] == row,
        forall|k: int|
            0 <= k < form.rows.len() && k != i ==> #[trigger] with_row(form, i, row).rows[k]
                == form.rows[k],
        with_row(form, i, row).cursor == form.cursor,
        with_row(form, i, row).body_is_object == form.body_is_object,
{
}

// ---------------------------------------------------------------- appending

/// Appending puts one new item behind the last one: labelled by its number, with
/// the schema of the items, without a value. The array is included, and all other
/// rows stay as they are.
pub proof fn law_appending_adds_one_item(rows: Seq<RowShape>, i: int, item: Schema)
    requires
        0 <= i < rows.len(),
        rows[i].kind is ArrayHeader,
        rows[i].schema is Array,
        *rows[i].schema->Array_item == item,
    ensures
        ({
            let after = appended_rows(rows, i);
            let end = span(rows, i);
            let more = after.len() - rows.len();
            let new = after[end];
            &&& more >= 1
            &&& forall|k: int| 0 <= k < end && k != i ==> #[trigger] after[k] == rows[k]
            &&& forall|k: int| end <= k < rows.len() ==> after[k + more] == #[trigger] rows[k]
            &&& after[i].state is Filled
            &&& rows[i].state is Filled ==> after[i] == rows[i]
            &&& after[i] == (RowShape { state: after[i].state, ..rows[i] })
            &&& new.label == "["@ + decimal(children(rows, i).len()) + "]"@
            &&& new.depth == rows[i].depth + 1
            &&& new.schema == item
            &&& new.required
            &&& new.nullable == rows[i].schema->Array_item_nullable
            &&& !(new.kind is ObjectHeader) && !(new.kind is ArrayHeader) && !(item is Const)
                ==> new.state is Empty
        }),
{
    lemma_span(rows, i);
    let end = span(rows, i);
    let seed = item_seed(children(rows, i).len(), rows[i].schema->Array_item_nullable, None);
    let added = node_rows(seed, rows[i].depth + 1, item);
    lemma_node_block(seed, rows[i].depth + 1, item);
    let grown = rows.take(end) + added + rows.skip(end);
    let after = appended_rows(rows, i);
    assert(after.len() == rows.len() + added.len());
    assert(grown[end] == added[0]);
    assert(after[end] == node_row(seed, rows[i].depth + 1, item));
    assert forall|k: int| end <= k < rows.len() implies after[k + added.len()]
        == #[trigger] rows[k] by {
        assert(grown[k + added.len()] == rows.skip(end)[k - end]);
    }
}

// ---------------------------------------------------------------- moving

proof fn lemma_lands_nearest(rows: Seq<RowShape>, at: int, delta: int)
    requires
        delta == 1 || delta == -1,
        0 <= at < rows.len() || rows.len() == 0,
    ensures
        match landing(rows, at, delta) {
            Some(k) => {
                &&& restable(rows, k)
                &&& delta == 1 ==> at < k && forall|j: int|
                    at < j < k ==> !#[trigger] restable(rows, j)
                &&& delta == -1 ==> k < at && forall|j: int|
                    k < j < at ==> !#[trigger] restable(rows, j)
            },
            None => {
                &&& delta == 1 ==> forall|j: int| at < j ==> !#[trigger] restable(rows, j)
                &&& delta == -1 ==> forall|j: int| j < at ==> !#[trigger] restable(rows, j)
            },
        },
    decreases
            (if delta > 0 {
                rows.len() - at
            } else {
                at
            }),
{
    let next = at + delta;
    if 0 <= next < rows.len() && !restable(rows, next) {
        lemma_lands_nearest(rows, next, delta);
    }
}

/// The cursor moves to the nearest row where it may rest, and stays where there is
/// none in that direction.
pub proof fn law_cursor_moves_to_the_nearest_row(rows: Seq<RowShape>, at: int)
    requires
        0 <= at < rows.len(),
    ensures
        ({
            let down = moved(rows, at, 1);
            &&& down >= at
            &&& down > at ==> restable(rows, down)
            &&& forall|j: int| at < j < down ==> !#[trigger] restable(rows, j)
            &&& down == at ==> forall|j: int| at < j ==> !#[trigger] restable(rows, j)
        }),
        ({
            let up = moved(rows, at, -1);
            &&& up <= at
            &&& up < at ==> restable(rows, up)
            &&& forall|j: int| up < j < at ==> !#[trigger] restable(rows, j)
            &&& up == at ==> forall|j: int| j < at ==> !#[trigger] restable(rows, j)
        }),
{
    lemma_lands_nearest(rows, at, 1);
    lemma_lands_nearest(rows, at, -1);
}

// ---------------------------------------------------------------- kinds

/// How a body node is edited follows from its schema: single values are typed, listed
/// values are stepped through in their order, constants stand fixed, objects with
/// fields and arrays head their parts, and everything else is typed as JSON.
pub proof fn law_schemas_decide_how_rows_are_edited(seed: NodeSeed, depth: nat, schema: Schema)
    ensures
        ({
            let row = node_row(seed, depth, schema);
            let listed = match schema {
                Schema::String { enum_values, .. } => enum_values is Some,
                Schema::Integer { enum_values, .. } => enum_values is Some,
                _ => false,
            };
            let single = schema is String || schema is Integer || schema is Number;
            let parted = schema is Array || (schema is Object && schema->Object_fields.len() > 0);
            &&& row.kind is Scalar <==> single && !listed
            &&& row.kind is Enum <==> listed
            &&& row.kind is Bool <==> schema is Boolean
            &&& row.kind is Const <==> schema is Const
            &&& row.heads() <==> parted
            &&& row.kind is RawJson <==> !single && !parted && !(schema is Boolean) && !(
            schema is Const)
            &&& schema matches Schema::Integer { enum_values: Some(values), .. } ==> (row.kind
                matches KindShape::Enum(texts) && texts.len() == values.len() && forall|k: int|
                0 <= k < texts.len() ==> integer_of(#[trigger] texts[k]) == Some(values[k] as int))
        }),
{
    match schema {
        Schema::Integer { enum_values: Some(values), .. } => {
            let texts = node_row(seed, depth, schema).kind->Enum_0;
            assert forall|k: int| 0 <= k < texts.len() implies integer_of(#[trigger] texts[k])
                == Some(values[k] as int) by {
                law_signed_decimal_is_read_back(values[k] as int);
            }
        },
        _ => {},
    }
}

// ---------------------------------------------------------------- external editing

/// A form without gaps is edited as it stands: what the editor gets is the body
/// that would be sent. Gaps are filled with a blank of their type.
pub proof fn law_complete_bodies_are_edited_as_they_stand(form: FormShape, h: int)
    requires
        body_heading(form.rows, 0) == Some(h),
        0 <= h,
        h + 1 < form.rows.len(),
        forall|k: int|
            0 <= k < form.rows.len() ==> !((#[trigger] form.rows[k]).state is Empty
                && form.rows[k].required),
    ensures
        body_value(form.rows, form.body_is_object, h + 1) matches Ok(Some(value)) ==> editable_body(
            form,
        ) == value,
{
    assert(lenient_rows(form.rows) =~= form.rows);
}

/// The blank of a type: the empty text, zero, false, or nothing inside.
pub proof fn law_blanks(schema: Schema)
    ensures
        schema is String ==> blank_of(schema) == Json::Text(Seq::empty()),
        schema is Integer ==> blank_of(schema) == Json::Int(0),
        schema is Number ==> blank_of(schema) == Json::Float("0.0"@),
        schema is Boolean ==> blank_of(schema) == Json::Bool(false),
        schema is Any || schema is OneOf || schema is Const ==> blank_of(schema) == Json::Object(
            Seq::empty(),
        ),
{
}

} // verus!
