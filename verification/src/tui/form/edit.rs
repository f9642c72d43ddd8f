//! State transitions of single rows: the Shift+X cycle, toggling, typing.

use super::rows::included;
use super::{FormRow, FormShape, FormState, KindShape, RowKind, RowShape, RowState, Section, StateShape};
use crate::json::parse::{decimal_fraction, parsed};
use crate::json::print::{compact, indented};
use crate::json::{Json, JsonValue};
use crate::model::schema_node::{Schema, SchemaNode};
use crate::text::{cat, integer_of, owned, parse_signed, same, trim, trimmed};
use vstd::prelude::*;

verus! {

/// What Shift+X answers on a row that has no other state.
pub const REQUIRED_HINT: &'static str = "field is required and not nullable";

// ---------------------------------------------------------------- model

/// The state of a row that is included again: what it held before.
pub open spec fn restored_state(row: RowShape) -> StateShape {
    match row.saved {
        Some(value) => StateShape::Filled(value),
        None => if row.heads() {
            included()
        } else {
            StateShape::Empty
        },
    }
}

/// Whether null can be sent for the row. Params have no null on the wire.
pub open spec fn takes_null(row: RowShape) -> bool {
    row.nullable && row.section == Section::Body
}

/// The next state of the Shift+X cycle; none where the state stays.
pub open spec fn next_state(row: RowShape) -> Option<StateShape> {
    let included = row.state is Filled || row.state is Empty;
    if !row.required && takes_null(row) {
        if included {
            Some(StateShape::Null)
        } else if row.state is Null {
            Some(StateShape::Excluded)
        } else {
            Some(restored_state(row))
        }
    } else if !row.required {
        if included {
            Some(StateShape::Excluded)
        } else if row.state is Excluded {
            Some(restored_state(row))
        } else {
            None
        }
    } else if takes_null(row) {
        if included {
            Some(StateShape::Null)
        } else if row.state is Null {
            Some(restored_state(row))
        } else {
            None
        }
    } else {
        None
    }
}

/// The row after Shift+X; a value that is cycled away from is stashed.
pub open spec fn cycled(row: RowShape) -> RowShape {
    if !row.interactive() {
        row
    } else {
        match next_state(row) {
            Some(state) => RowShape {
                state,
                saved: match row.state {
                    StateShape::Filled(value) => Some(value),
                    _ => row.saved,
                },
                ..row
            },
            None => row,
        }
    }
}

/// Whether Shift+X answers with a hint.
pub open spec fn hinted(row: RowShape) -> bool {
    row.interactive() && row.required && !takes_null(row)
}

/// The row after it is included again.
pub open spec fn reincluded(row: RowShape) -> RowShape {
    if row.state is Excluded || row.state is Null {
        RowShape { state: restored_state(row), ..row }
    } else {
        row
    }
}

/// Position of `text` in `values` at or after `i`.
pub open spec fn value_position(values: Seq<Seq<char>>, text: Seq<char>, i: int) -> Option<int>
    decreases values.len() - i,
{
    if i < 0 || i >= values.len() {
        None
    } else if values[i] == text {
        Some(i)
    } else {
        value_position(values, text, i + 1)
    }
}

/// The index of the enum value behind the current one, with wrap-around; the
/// first where the current one is unknown.
pub open spec fn next_value(values: Seq<Seq<char>>, state: StateShape) -> int {
    match state {
        StateShape::Filled(Json::Text(s)) => match value_position(values, s, 0) {
            Some(p) => if p + 1 < values.len() {
                p + 1
            } else {
                0
            },
            None => 0,
        },
        _ => 0,
    }
}

/// The row after toggling: flips a bool, steps an enum, includes or folds a header.
pub open spec fn toggled(row: RowShape) -> RowShape {
    match row.kind {
        KindShape::Bool => RowShape {
            state: StateShape::Filled(
                Json::Bool(row.state != StateShape::Filled(Json::Bool(true))),
            ),
            ..row
        },
        KindShape::Enum(values) => RowShape {
            state: StateShape::Filled(Json::Text(values[next_value(values, row.state)])),
            ..row
        },
        KindShape::ObjectHeader => toggled_header(row),
        KindShape::ArrayHeader => toggled_header(row),
        _ => row,
    }
}

pub open spec fn toggled_header(row: RowShape) -> RowShape {
    if row.state is Filled {
        RowShape { collapsed: !row.collapsed, ..row }
    } else {
        RowShape { state: included(), ..row }
    }
}

/// What typed text means for a row, or why it means nothing.
pub open spec fn typed(row: RowShape, text: Seq<char>) -> Result<StateShape, Seq<char>> {
    if text.len() == 0 {
        Ok(StateShape::Empty)
    } else if row.kind is RawJson {
        match parsed(text) {
            Ok(value) => Ok(StateShape::Filled(value)),
            Err(message) => Err("invalid JSON: "@ + message),
        }
    } else {
        match row.schema {
            Schema::Integer { .. } => match integer_of(trimmed(text)) {
                Some(n) if i64::MIN <= n <= i64::MAX => Ok(StateShape::Filled(Json::Int(n))),
                _ => Err("not an integer"@),
            },
            Schema::Number { .. } => match decimal_fraction(trimmed(text)) {
                Some(Some(notation)) => Ok(StateShape::Filled(Json::Float(notation))),
                _ => Err("not a number"@),
            },
            Schema::Boolean => if trimmed(text) == "true"@ {
                Ok(StateShape::Filled(Json::Bool(true)))
            } else if trimmed(text) == "false"@ {
                Ok(StateShape::Filled(Json::Bool(false)))
            } else {
                Err("true or false"@)
            },
            _ => Ok(StateShape::Filled(Json::Text(text))),
        }
    }
}

/// The text that seeds the inline editor of a row.
pub open spec fn seed_text(row: RowShape) -> Seq<char> {
    match row.state {
        StateShape::Filled(Json::Text(s)) => s,
        StateShape::Filled(other) => if row.kind is RawJson {
            indented(other, Seq::empty())
        } else {
            compact(other)
        },
        _ => Seq::empty(),
    }
}

/// The form with one row replaced.
pub open spec fn with_row(form: FormShape, i: int, row: RowShape) -> FormShape {
    FormShape { rows: form.rows.update(i, row), ..form }
}

// ---------------------------------------------------------------- operations

/// The state of a row that is included again.
fn restored(row: &FormRow) -> (r: RowState)
    ensures
        r@ == restored_state(row@),
{
    match &row.saved {
        Some(value) => RowState::Filled(value.clone()),
        None => {
            if row.heads() {
                RowState::Filled(JsonValue::Bool(true))
            } else {
                RowState::Empty
            }
        },
    }
}

impl FormState {
    /// Replaces one row.
    pub(crate) fn put_row(&mut self, i: usize, row: FormRow)
        requires
            i < old(self)@.rows.len(),
        ensures
            final(self)@ == with_row(old(self)@, i as int, row@),
    {
        let ghost before = self@.rows;
        let ghost shape = row@;
        self.rows.set(i, row);
        assert(self@.rows =~= before.update(i as int, shape));
    }

    /// Shift+X. Returns a status hint when the cycle is a no-op.
    pub fn cycle_exclusion(&mut self, i: usize) -> (r: Option<&'static str>)
        requires
            i < old(self)@.rows.len(),
        ensures
            final(self)@ == with_row(old(self)@, i as int, cycled(old(self)@.rows[i as int])),
            r.deep_view() == (if hinted(old(self)@.rows[i as int]) {
                Some(REQUIRED_HINT@)
            } else {
                None
            }),
    {
        let ghost before = self@.rows;
        let mut row = self.rows[i].clone();
        assert(before[i as int] == row@);
        assert(before.update(i as int, before[i as int]) =~= before);
        if !row.interactive() {
            return None;
        }
        let nullable = row.nullable && row.section == Section::Body;
        let included = match row.state {
            RowState::Filled(_) => true,
            RowState::Empty => true,
            _ => false,
        };
        let excluded = match row.state {
            RowState::Excluded => true,
            _ => false,
        };
        let next = if row.required && !nullable {
            return Some(REQUIRED_HINT);
        } else if included {
            if nullable {
                RowState::Null
            } else {
                RowState::Excluded
            }
        } else if excluded {
            if row.required {
                return None;
            }
            restored(&row)
        } else if nullable {
            if row.required {
                restored(&row)
            } else {
                RowState::Excluded
            }
        } else {
            return None;
        };
        match &row.state {
            RowState::Filled(value) => {
                row.saved = Some(value.clone());
            },
            _ => {},
        }
        row.state = next;
        self.put_row(i, row);
        None
    }

    /// Plain `x`: re-includes an Excluded/Null row (terminal-quirk fallback).
    pub fn reinclude(&mut self, i: usize)
        requires
            i < old(self)@.rows.len(),
        ensures
            final(self)@ == with_row(old(self)@, i as int, reincluded(old(self)@.rows[i as int])),
    {
        let ghost before = self@.rows;
        let mut row = self.rows[i].clone();
        assert(before[i as int] == row@);
        assert(before.update(i as int, before[i as int]) =~= before);
        let out = match row.state {
            RowState::Excluded => true,
            RowState::Null => true,
            _ => false,
        };
        if out {
            row.state = restored(&row);
            self.put_row(i, row);
        }
    }

    /// Toggles a bool row, steps an enum row forward, includes or folds a header.
    pub fn toggle(&mut self, i: usize)
        requires
            i < old(self)@.rows.len(),
            old(self)@.rows[i as int].kind matches KindShape::Enum(values) ==> values.len() > 0,
        ensures
            final(self)@ == with_row(old(self)@, i as int, toggled(old(self)@.rows[i as int])),
    {
        let ghost before = self@.rows;
        let mut row = self.rows[i].clone();
        assert(before[i as int] == row@);
        assert(before.update(i as int, before[i as int]) =~= before);
        match &row.kind {
            RowKind::Bool => {
                let current = match &row.state {
                    RowState::Filled(JsonValue::Bool(b)) => *b,
                    _ => false,
                };
                row.state = RowState::Filled(JsonValue::Bool(!current));
                self.put_row(i, row);
            },
            RowKind::Enum(values) => {
                let index = step_value(values, &row.state);
                let next = values[index].clone();
                row.state = RowState::Filled(JsonValue::Text(next));
                self.put_row(i, row);
            },
            RowKind::ObjectHeader => {
                fold(&mut row);
                self.put_row(i, row);
            },
            RowKind::ArrayHeader => {
                fold(&mut row);
                self.put_row(i, row);
            },
            _ => {},
        }
    }

    /// Commits text typed into the inline editor for row `i`.
    pub fn commit_text(&mut self, i: usize, text: &str) -> (r: Result<(), String>)
        requires
            i < old(self)@.rows.len(),
        ensures
            match typed(old(self)@.rows[i as int], text@) {
                Ok(state) => r is Ok && final(self)@ == with_row(
                    old(self)@,
                    i as int,
                    (RowShape { state, ..old(self)@.rows[i as int] }),
                ),
                Err(message) => r matches Err(m) && m@ == message && final(self)@ == old(self)@,
            },
    {
        let ghost before = self@.rows;
        let mut row = self.rows[i].clone();
        assert(before[i as int] == row@);
        let state = if text.is_empty() {
            RowState::Empty
        } else {
            match read_typed(&row, text) {
                Ok(value) => RowState::Filled(value),
                Err(message) => {
                    return Err(message);
                },
            }
        };
        row.state = state;
        self.put_row(i, row);
        Ok(())
    }

    /// Current row text for seeding the inline editor.
    pub fn text_of(&self, i: usize) -> (r: String)
        requires
            i < self@.rows.len(),
        ensures
            r@ == seed_text(self@.rows[i as int]),
    {
        let row = &self.rows[i];
        assert(self@.rows[i as int] == row@);
        match &row.state {
            RowState::Filled(JsonValue::Text(s)) => s.clone(),
            RowState::Filled(other) => match row.kind {
                RowKind::RawJson => other.to_text_pretty(),
                _ => other.to_text(),
            },
            _ => String::new(),
        }
    }
}

/// The value that non-empty text denotes for a row.
fn read_typed(row: &FormRow, text: &str) -> (r: Result<JsonValue, String>)
    requires
        text@.len() > 0,
    ensures
        match typed(row@, text@) {
            Ok(state) => r matches Ok(value) && state == StateShape::Filled(value@),
            Err(message) => r matches Err(m) && m@ == message,
        },
{
    match row.kind {
        RowKind::RawJson => {
            return match JsonValue::parse(text) {
                Ok(value) => Ok(value),
                Err(message) => Err(cat("invalid JSON: ", message.as_str())),
            };
        },
        _ => {},
    }
    match &row.schema {
        SchemaNode::Integer { .. } => {
            let body = trim(text);
            match parse_signed(body.as_str()) {
                Some(n) => Ok(JsonValue::signed(n)),
                None => Err(owned("not an integer")),
            }
        },
        SchemaNode::Number { .. } => {
            let body = trim(text);
            match JsonValue::from_fraction(body.as_str()) {
                Some(value) => Ok(value),
                None => Err(owned("not a number")),
            }
        },
        SchemaNode::Boolean => {
            let body = trim(text);
            if same(body.as_str(), "true") {
                Ok(JsonValue::Bool(true))
            } else if same(body.as_str(), "false") {
                Ok(JsonValue::Bool(false))
            } else {
                Err(owned("true or false"))
            }
        },
        _ => Ok(JsonValue::text(text)),
    }
}

/// The index of the enum value behind the current one.
fn step_value(values: &Vec<String>, state: &RowState) -> (r: usize)
    requires
        values@.len() > 0,
    ensures
        r < values@.len(),
        r == next_value(values.deep_view(), state@),
{
    let ghost all = values.deep_view();
    match state {
        RowState::Filled(JsonValue::Text(s)) => {
            let len: usize = values.len();
            for i in 0..len
                invariant
                    all == values.deep_view(),
                    len == all.len(),
                    len > 0,
                    state@ == StateShape::Filled(Json::Text(s@)),
                    value_position(all, s@, 0) == value_position(all, s@, i as int),
            {
                assert(all[i as int] == values@[i as int]@);
                if same(values[i].as_str(), s.as_str()) {
                    return if i + 1 < len {
                        i + 1
                    } else {
                        0
                    };
                }
            }
            0
        },
        _ => 0,
    }
}

/// Includes a header, or folds one that is included.
fn fold(row: &mut FormRow)
    ensures
        final(row)@ == toggled_header(old(row)@),
{
    match row.state {
        RowState::Filled(_) => {
            row.collapsed = !row.collapsed;
        },
        _ => {
            row.state = RowState::Filled(JsonValue::Bool(true));
        },
    }
}

// ---------------------------------------------------------------- laws

/// Shift+X reaches null only on rows that take null, and leaves out only rows
/// that are optional.
pub proof fn law_cycle_respects_required_and_nullable(row: RowShape)
    ensures
        cycled(row).state is Null && !(row.state is Null) ==> takes_null(row),
        cycled(row).state is Excluded && !(row.state is Excluded) ==> !row.required,
{
}

/// Shift+X on an optional row that takes null: value -> null -> left out ->
/// the same value again.
pub proof fn law_full_cycle_restores(row: RowShape)
    requires
        row.interactive(),
        !row.required,
        takes_null(row),
        row.state is Filled,
    ensures
        cycled(row).state is Null,
        cycled(cycled(row)).state is Excluded,
        cycled(cycled(cycled(row))).state == row.state,
{
}

/// Shift+X twice on a row with two reachable states gives the value back.
pub proof fn law_two_state_cycle_restores(row: RowShape)
    requires
        row.interactive(),
        row.required == takes_null(row),
        row.state is Filled,
    ensures
        row.required ==> cycled(row).state is Null,
        !row.required ==> cycled(row).state is Excluded,
        cycled(cycled(row)).state == row.state,
{
}

/// Shift+X never touches anything but the state and the stash of a row.
pub proof fn law_cycle_keeps_the_rest(row: RowShape)
    ensures
        cycled(row) == (RowShape { state: cycled(row).state, saved: cycled(row).saved, ..row }),
        hinted(row) ==> cycled(row) == row,
{
}

/// Stepping an enum from its last value wraps around to its first.
pub proof fn law_enum_steps_wrap(values: Seq<Seq<char>>, k: int)
    requires
        0 <= k < values.len(),
        forall|i: int, j: int| 0 <= i < j < values.len() ==> values[i] != values[j],
    ensures
        next_value(values, StateShape::Filled(Json::Text(values[k]))) == (k + 1)
            % (values.len() as int),
{
    lemma_value_position(values, 0, k);
    if k + 1 < values.len() {
        vstd::arithmetic::div_mod::lemma_small_mod((k + 1) as nat, values.len());
    } else {
        vstd::arithmetic::div_mod::lemma_mod_self_0(values.len() as int);
    }
}

proof fn lemma_value_position(values: Seq<Seq<char>>, i: int, k: int)
    requires
        0 <= i <= k < values.len(),
        forall|i: int, j: int| 0 <= i < j < values.len() ==> values[i] != values[j],
    ensures
        value_position(values, values[k], i) == Some(k),
    decreases k - i,
{
    if i < k {
        assert(values[i] != values[k]);
        lemma_value_position(values, i + 1, k);
    }
}

} // verus!
