//! From the rows of a form back to the values that are sent.

use super::cursor::{lemma_span, span};
use super::{FormRow, FormShape, FormState, RowKind, RowShape, RowState, Section, StateShape, SubmitError};
use crate::json::print::compact;
use crate::json::{list_json, put, Json, JsonMap, JsonValue, Number};
use crate::model::schema_node::{Schema, SchemaNode};
use crate::pairs::{put_pair, with_pair};
use crate::text::{cat3, owned};
use vstd::prelude::*;
use vstd::string::*;

verus! {

/// What a form sends.
#[derive(Debug)]
pub struct SerializedForm {
    /// Path parameters, each name once.
    pub path_params: Vec<(String, String)>,
    pub query_params: Vec<(String, String)>,
    pub headers: Vec<(String, String)>,
    pub body: Option<JsonValue>,
}

// ---------------------------------------------------------------- model

pub struct SerializedShape {
    pub path_params: Seq<(Seq<char>, Seq<char>)>,
    pub query_params: Seq<(Seq<char>, Seq<char>)>,
    pub headers: Seq<(Seq<char>, Seq<char>)>,
    pub body: Option<Json>,
}

/// A `SubmitError` as a mathematical value: the row and the message.
pub struct Blocked {
    pub row: int,
    pub message: Seq<char>,
}

impl View for SerializedForm {
    type V = SerializedShape;

    open spec fn view(&self) -> SerializedShape {
        SerializedShape {
            path_params: self.path_params.deep_view(),
            query_params: self.query_params.deep_view(),
            headers: self.headers.deep_view(),
            body: self.body.deep_view(),
        }
    }
}

impl View for SubmitError {
    type V = Blocked;

    open spec fn view(&self) -> Blocked {
        Blocked { row: self.row as int, message: self.message@ }
    }
}

/// What the subtree at `i` sends: a value, nothing, or why it blocks.
pub open spec fn node_value(rows: Seq<RowShape>, i: int) -> Result<Option<Json>, Blocked>
    decreases rows.len() - i, 0int,
{
    if i < 0 || i >= rows.len() {
        Ok(None)
    } else {
        match rows[i].state {
            StateShape::Excluded => Ok(None),
            StateShape::Null => Ok(Some(Json::Null)),
            StateShape::Empty => if rows[i].required {
                Err(
                    Blocked {
                        row: i,
                        message: "required field '"@ + rows[i].label + "' is empty"@,
                    },
                )
            } else {
                Ok(None)
            },
            StateShape::Filled(value) => if rows[i].kind is ObjectHeader {
                match members_value(
                    rows,
                    rows[i].depth + 1,
                    i + 1,
                    span(rows, i),
                    Seq::empty(),
                ) {
                    Ok(members) => Ok(Some(Json::Object(members))),
                    Err(e) => Err(e),
                }
            } else if rows[i].kind is ArrayHeader {
                match items_value(rows, rows[i].depth + 1, i + 1, span(rows, i), Seq::empty()) {
                    Ok(items) => Ok(Some(Json::Array(items))),
                    Err(e) => Err(e),
                }
            } else {
                Ok(Some(value))
            },
        }
    }
}

/// The members so far with those of the rows from `j` up to `end` that have
/// the given indentation.
pub open spec fn members_value(
    rows: Seq<RowShape>,
    depth: nat,
    j: int,
    end: int,
    members: Seq<(Seq<char>, Json)>,
) -> Result<Seq<(Seq<char>, Json)>, Blocked>
    decreases rows.len() - j, 1int,
{
    if j >= end || j >= rows.len() {
        Ok(members)
    } else if rows[j].depth == depth {
        match node_value(rows, j) {
            Ok(Some(value)) => members_value(
                rows,
                depth,
                j + 1,
                end,
                put(members, rows[j].label, value),
            ),
            Ok(None) => members_value(rows, depth, j + 1, end, members),
            Err(e) => Err(e),
        }
    } else {
        members_value(rows, depth, j + 1, end, members)
    }
}

/// The items so far with those of the rows from `j` up to `end` that have the
/// given indentation.
pub open spec fn items_value(
    rows: Seq<RowShape>,
    depth: nat,
    j: int,
    end: int,
    items: Seq<Json>,
) -> Result<Seq<Json>, Blocked>
    decreases rows.len() - j, 1int,
{
    if j >= end || j >= rows.len() {
        Ok(items)
    } else if rows[j].depth == depth {
        match node_value(rows, j) {
            Ok(Some(value)) => items_value(rows, depth, j + 1, end, items.push(value)),
            Ok(None) => items_value(rows, depth, j + 1, end, items),
            Err(e) => Err(e),
        }
    } else {
        items_value(rows, depth, j + 1, end, items)
    }
}

/// The members so far with those of the top-level rows from `i` on, up to the
/// next section.
pub open spec fn top_members(
    rows: Seq<RowShape>,
    i: int,
    members: Seq<(Seq<char>, Json)>,
) -> Result<Seq<(Seq<char>, Json)>, Blocked>
    decreases rows.len() - i,
{
    if i < 0 || i >= rows.len() || rows[i].kind is SectionHeader {
        Ok(members)
    } else if rows[i].depth == 0 {
        proof {
            lemma_span(rows, i);
        }
        match node_value(rows, i) {
            Ok(Some(value)) => top_members(
                rows,
                span(rows, i),
                put(members, rows[i].label, value),
            ),
            Ok(None) => top_members(rows, span(rows, i), members),
            Err(e) => Err(e),
        }
    } else {
        top_members(rows, i + 1, members)
    }
}

/// What the body that starts at row `first` sends.
pub open spec fn body_value(
    rows: Seq<RowShape>,
    body_is_object: bool,
    first: int,
) -> Result<Option<Json>, Blocked> {
    if body_is_object {
        match top_members(rows, first, Seq::empty()) {
            Ok(members) => Ok(Some(Json::Object(members))),
            Err(e) => Err(e),
        }
    } else {
        node_value(rows, first)
    }
}

/// What a parameter row sends.
pub open spec fn param_text(rows: Seq<RowShape>, i: int) -> Result<Option<Seq<char>>, Blocked> {
    match rows[i].state {
        StateShape::Filled(Json::Text(s)) => Ok(Some(s)),
        StateShape::Filled(other) => Ok(Some(compact(other))),
        StateShape::Empty => if rows[i].required {
            Err(
                Blocked {
                    row: i,
                    message: "required "@ + rows[i].section.text() + " '"@ + rows[i].label
                        + "' is empty"@,
                },
            )
        } else {
            Ok(None)
        },
        _ => Ok(None),
    }
}

/// What is sent so far, with one parameter more.
pub open spec fn with_param(
    sent: SerializedShape,
    section: Section,
    name: Seq<char>,
    value: Seq<char>,
) -> SerializedShape {
    match section {
        Section::Path => SerializedShape {
            path_params: with_pair(sent.path_params, name, value),
            ..sent
        },
        Section::Query => SerializedShape {
            query_params: sent.query_params.push((name, value)),
            ..sent
        },
        _ => SerializedShape { headers: sent.headers.push((name, value)), ..sent },
    }
}

/// What is sent so far, with what the rows from `i` on send.
pub open spec fn sent_from(
    rows: Seq<RowShape>,
    body_is_object: bool,
    i: int,
    sent: SerializedShape,
) -> Result<SerializedShape, Blocked>
    decreases rows.len() - i,
{
    if i < 0 || i >= rows.len() {
        Ok(sent)
    } else if rows[i].kind is SectionHeader {
        sent_from(rows, body_is_object, i + 1, sent)
    } else if rows[i].section == Section::Body {
        match body_value(rows, body_is_object, i) {
            Ok(body) => Ok(SerializedShape { body, ..sent }),
            Err(e) => Err(e),
        }
    } else {
        match param_text(rows, i) {
            Ok(Some(text)) => sent_from(
                rows,
                body_is_object,
                i + 1,
                with_param(sent, rows[i].section, rows[i].label, text),
            ),
            Ok(None) => sent_from(rows, body_is_object, i + 1, sent),
            Err(e) => Err(e),
        }
    }
}

pub open spec fn nothing_sent() -> SerializedShape {
    SerializedShape {
        path_params: Seq::empty(),
        query_params: Seq::empty(),
        headers: Seq::empty(),
        body: None,
    }
}

impl FormShape {
    /// What the form sends, or why it is blocked.
    pub open spec fn sent(self) -> Result<SerializedShape, Blocked> {
        sent_from(self.rows, self.body_is_object, 0, nothing_sent())
    }
}

/// A type-appropriate blank.
pub open spec fn blank_of(schema: Schema) -> Json {
    match schema {
        Schema::String { .. } => Json::Text(Seq::empty()),
        Schema::Integer { .. } => Json::Int(0),
        Schema::Number { .. } => Json::Float("0.0"@),
        Schema::Boolean => Json::Bool(false),
        Schema::Array { .. } => Json::Bool(true),
        Schema::Object { .. } => Json::Bool(true),
        _ => Json::Object(Seq::empty()),
    }
}

/// A row that cannot block: an empty required one is filled with a blank.
pub open spec fn lenient(row: RowShape) -> RowShape {
    if row.state is Empty && row.required {
        RowShape { state: StateShape::Filled(blank_of(row.schema)), ..row }
    } else {
        row
    }
}

pub open spec fn lenient_rows(rows: Seq<RowShape>) -> Seq<RowShape> {
    Seq::new(rows.len(), |i: int| lenient(rows[i]))
}

/// Position of the heading of the body section at or after `i`.
pub open spec fn body_heading(rows: Seq<RowShape>, i: int) -> Option<int>
    decreases rows.len() - i,
{
    if i < 0 || i >= rows.len() {
        None
    } else if rows[i].section == Section::Body && rows[i].kind is SectionHeader {
        Some(i)
    } else {
        body_heading(rows, i + 1)
    }
}

/// The body for external editing: blanks stand for what is empty and required.
pub open spec fn editable_body(form: FormShape) -> Json {
    match body_heading(form.rows, 0) {
        Some(h) if h + 1 < form.rows.len() => match body_value(
            lenient_rows(form.rows),
            form.body_is_object,
            h + 1,
        ) {
            Ok(Some(value)) => value,
            _ => Json::Object(Seq::empty()),
        },
        _ => Json::Object(Seq::empty()),
    }
}

// ---------------------------------------------------------------- operations

/// A type-appropriate blank.
fn blank_value(schema: &SchemaNode) -> (r: JsonValue)
    ensures
        r@ == blank_of(schema@),
{
    match schema {
        SchemaNode::String { .. } => {
            let empty = String::new();
            assert(empty@ =~= Seq::<char>::empty());
            JsonValue::Text(empty)
        },
        SchemaNode::Integer { .. } => JsonValue::unsigned(0),
        SchemaNode::Number { .. } => JsonValue::Number(Number::Float(owned("0.0"))),
        SchemaNode::Boolean => JsonValue::Bool(false),
        // The marker of a header.
        SchemaNode::Array { .. } => JsonValue::Bool(true),
        SchemaNode::Object { .. } => JsonValue::Bool(true),
        _ => JsonValue::Object(JsonMap::new()),
    }
}

impl FormState {
    /// Validates and serializes all sections.
    pub fn serialize(&self) -> (r: Result<SerializedForm, SubmitError>)
        ensures
            match r {
                Ok(form) => self@.sent() == Ok::<SerializedShape, Blocked>(form@),
                Err(e) => self@.sent() == Err::<SerializedShape, Blocked>(e@),
            },
    {
        let ghost all = self@.rows;
        let mut out = SerializedForm {
            path_params: Vec::new(),
            query_params: Vec::new(),
            headers: Vec::new(),
            body: None,
        };
        assert(out@.path_params =~= Seq::empty());
        assert(out@.query_params =~= Seq::empty());
        assert(out@.headers =~= Seq::empty());
        let mut i: usize = 0;
        while i < self.rows.len()
            invariant
                all == self@.rows,
                i <= all.len(),
                self@.sent() == sent_from(all, self.body_is_object, i as int, out@),
            decreases all.len() - i,
        {
            let row = &self.rows[i];
            assert(all[i as int] == row@);
            if !row.kind.is_section_header() {
                if row.section == Section::Body {
                    // Body rows: one tree walk from here.
                    return match self.serialize_body_root(i) {
                        Ok(body) => {
                            out.body = body;
                            Ok(out)
                        },
                        Err(e) => Err(e),
                    };
                }
                let value = match self.param_value(i) {
                    Ok(value) => value,
                    Err(e) => {
                        return Err(e);
                    },
                };
                if let Some(value) = value {
                    let name = row.label.clone();
                    let ghost sent = out@;
                    let ghost added = (name@, value@);
                    match row.section {
                        Section::Path => {
                            put_pair(&mut out.path_params, name, value);
                        },
                        Section::Query => {
                            out.query_params.push((name, value));
                            assert(out@.query_params =~= sent.query_params.push(added));
                        },
                        _ => {
                            out.headers.push((name, value));
                            assert(out@.headers =~= sent.headers.push(added));
                        },
                    }
                    assert(out@ == with_param(sent, row.section, added.0, added.1));
                }
            }
            i += 1;
        }
        Ok(out)
    }

    fn param_value(&self, i: usize) -> (r: Result<Option<String>, SubmitError>)
        requires
            i < self@.rows.len(),
        ensures
            match r {
                Ok(text) => param_text(self@.rows, i as int) == Ok::<
                    Option<Seq<char>>,
                    Blocked,
                >(text.deep_view()),
                Err(e) => param_text(self@.rows, i as int) == Err::<Option<Seq<char>>, Blocked>(
                    e@,
                ),
            },
    {
        let row = &self.rows[i];
        assert(self@.rows[i as int] == row@);
        match &row.state {
            RowState::Filled(JsonValue::Text(s)) => Ok(Some(s.clone())),
            RowState::Filled(other) => Ok(Some(other.to_text())),
            RowState::Empty => {
                if row.required {
                    let mut message = cat3("required ", row.section.label(), " '");
                    message.append(row.label.as_str());
                    message.append("' is empty");
                    Err(SubmitError { row: i, message })
                } else {
                    Ok(None)
                }
            },
            _ => Ok(None),
        }
    }

    /// Serializes the whole body section starting at its first field row.
    fn serialize_body_root(&self, first: usize) -> (r: Result<Option<JsonValue>, SubmitError>)
        requires
            first < self@.rows.len(),
        ensures
            match r {
                Ok(body) => body_value(self@.rows, self.body_is_object, first as int) == Ok::<
                    Option<Json>,
                    Blocked,
                >(body.deep_view()),
                Err(e) => body_value(self@.rows, self.body_is_object, first as int) == Err::<
                    Option<Json>,
                    Blocked,
                >(e@),
            },
    {
        if !self.body_is_object {
            return match self.serialize_node(first) {
                Ok((value, _)) => Ok(value),
                Err(e) => Err(e),
            };
        }
        let ghost all = self@.rows;
        let mut map = JsonMap::new();
        let mut i: usize = first;
        while i < self.rows.len() && !self.rows[i].kind.is_section_header()
            invariant
                all == self@.rows,
                i <= all.len(),
                self.body_is_object,
                top_members(all, first as int, Seq::empty()) == top_members(all, i as int, map@),
            decreases all.len() - i,
        {
            let row = &self.rows[i];
            assert(all[i as int] == row@);
            if row.depth == 0 {
                match self.serialize_node(i) {
                    Ok((value, next)) => {
                        if let Some(value) = value {
                            map.insert(row.label.clone(), value);
                        }
                        i = next;
                    },
                    Err(e) => {
                        return Err(e);
                    },
                }
            } else {
                i += 1;
            }
        }
        if i < self.rows.len() {
            assert(all[i as int] == self.rows@[i as int]@);
        }
        Ok(Some(JsonValue::Object(map)))
    }

    /// Serializes one row and its span: the value (`None` = omit) and where
    /// the span ends.
    fn serialize_node(&self, i: usize) -> (r: Result<(Option<JsonValue>, usize), SubmitError>)
        requires
            i < self@.rows.len(),
        ensures
            match r {
                Ok((value, next)) => node_value(self@.rows, i as int) == Ok::<
                    Option<Json>,
                    Blocked,
                >(value.deep_view()) && next == span(self@.rows, i as int) && i < next
                    <= self@.rows.len(),
                Err(e) => node_value(self@.rows, i as int) == Err::<Option<Json>, Blocked>(e@),
            },
        decreases self@.rows.len() - i,
    {
        let ghost all = self@.rows;
        let len: usize = self.rows.len();
        let row = &self.rows[i];
        assert(all[i as int] == row@);
        let end: usize = self.span_end(i);
        let depth: u32 = row.depth as u32 + 1;
        match &row.state {
            RowState::Excluded => Ok((None, end)),
            RowState::Null => Ok((Some(JsonValue::Null), end)),
            RowState::Empty => {
                if row.required {
                    Err(
                        SubmitError {
                            row: i,
                            message: cat3("required field '", row.label.as_str(), "' is empty"),
                        },
                    )
                } else {
                    Ok((None, end))
                }
            },
            RowState::Filled(value) => match row.kind {
                RowKind::ObjectHeader => {
                    let mut map = JsonMap::new();
                    let ghost wanted = members_value(
                        all,
                        depth as nat,
                        i + 1,
                        end as int,
                        Seq::empty(),
                    );
                    let mut j: usize = i + 1;
                    while j < end
                        invariant
                            all == self@.rows,
                            i < all.len(),
                            i < j <= end <= all.len(),
                            wanted == members_value(
                                all,
                                depth as nat,
                                j as int,
                                end as int,
                                map@,
                            ),
                            node_value(all, i as int) == (match wanted {
                                Ok(members) => Ok::<Option<Json>, Blocked>(
                                    Some(Json::Object(members)),
                                ),
                                Err(e) => Err(e),
                            }),
                        decreases end - j,
                    {
                        assert(all[j as int] == self.rows@[j as int]@);
                        if self.rows[j].depth as u32 == depth {
                            match self.serialize_node(j) {
                                Ok((Some(child), _)) => {
                                    map.insert(self.rows[j].label.clone(), child);
                                },
                                Ok((None, _)) => {},
                                Err(e) => {
                                    return Err(e);
                                },
                            }
                        }
                        j += 1;
                    }
                    Ok((Some(JsonValue::Object(map)), end))
                },
                RowKind::ArrayHeader => {
                    let mut items: Vec<JsonValue> = Vec::new();
                    assert(list_json(&items) =~= Seq::empty());
                    let ghost wanted = items_value(
                        all,
                        depth as nat,
                        i + 1,
                        end as int,
                        Seq::empty(),
                    );
                    let mut j: usize = i + 1;
                    while j < end
                        invariant
                            all == self@.rows,
                            i < all.len(),
                            i < j <= end <= all.len(),
                            wanted == items_value(
                                all,
                                depth as nat,
                                j as int,
                                end as int,
                                list_json(&items),
                            ),
                            node_value(all, i as int) == (match wanted {
                                Ok(items) => Ok::<Option<Json>, Blocked>(
                                    Some(Json::Array(items)),
                                ),
                                Err(e) => Err(e),
                            }),
                        decreases end - j,
                    {
                        assert(all[j as int] == self.rows@[j as int]@);
                        let ghost before = list_json(&items);
                        if self.rows[j].depth as u32 == depth {
                            match self.serialize_node(j) {
                                Ok((Some(child), _)) => {
                                    let ghost added = child@;
                                    items.push(child);
                                    assert(list_json(&items) =~= before.push(added));
                                },
                                Ok((None, _)) => {},
                                Err(e) => {
                                    return Err(e);
                                },
                            }
                        }
                        j += 1;
                    }
                    Ok((Some(JsonValue::Array(items)), end))
                },
                _ => Ok((Some(value.clone()), end)),
            },
        }
    }

    fn first_body_row(&self) -> (r: Option<usize>)
        ensures
            match r {
                Some(i) => 0 < i < self@.rows.len() && body_heading(self@.rows, 0) == Some(i - 1),
                None => match body_heading(self@.rows, 0) {
                    Some(h) => h + 1 >= self@.rows.len(),
                    None => true,
                },
            },
    {
        let ghost all = self@.rows;
        let len: usize = self.rows.len();
        for i in 0..len
            invariant
                all == self@.rows,
                len == all.len(),
                body_heading(all, 0) == body_heading(all, i as int),
        {
            assert(all[i as int] == self.rows@[i as int]@);
            if self.rows[i].section == Section::Body && self.rows[i].kind.is_section_header() {
                return if i + 1 < len {
                    Some(i + 1)
                } else {
                    None
                };
            }
        }
        None
    }

    /// Copy of the rows with empty required ones filled with type-appropriate
    /// blanks so lenient serialization can't fail.
    fn clone_rows_lenient(&self) -> (r: Vec<FormRow>)
        ensures
            r.deep_view() == lenient_rows(self@.rows),
    {
        let ghost all = self@.rows;
        let mut out: Vec<FormRow> = Vec::new();
        for i in 0..self.rows.len()
            invariant
                all == self@.rows,
                out@.len() == i,
                forall|k: int| 0 <= k < i ==> (#[trigger] out@[k])@ == lenient(all[k]),
        {
            assert(all[i as int] == self.rows@[i as int]@);
            let mut row = self.rows[i].clone();
            match row.state {
                RowState::Empty => {
                    if row.required {
                        row.state = RowState::Filled(blank_value(&row.schema));
                    }
                },
                _ => {},
            }
            out.push(row);
        }
        assert(out.deep_view() =~= lenient_rows(all));
        out
    }

    /// Body JSON for external editing: like serialize, but empty required fields
    /// become placeholders instead of blocking.
    pub fn body_for_editing(&self) -> (r: JsonValue)
        ensures
            r@ == editable_body(self@),
    {
        let first = match self.first_body_row() {
            Some(first) => first,
            None => {
                return JsonValue::Object(JsonMap::new());
            },
        };
        let form = FormState {
            rows: self.clone_rows_lenient(),
            cursor: 0,
            body_is_object: self.body_is_object,
        };
        match form.serialize_body_root(first) {
            Ok(Some(value)) => value,
            _ => JsonValue::Object(JsonMap::new()),
        }
    }
}

// ---------------------------------------------------------------- laws

/// What is excluded is not sent, what is null is sent as null, and what is
/// empty is left out where it is optional and blocks where it is required.
pub proof fn law_states_decide_what_is_sent(rows: Seq<RowShape>, i: int)
    requires
        0 <= i < rows.len(),
    ensures
        rows[i].state is Excluded ==> node_value(rows, i) == Ok::<Option<Json>, Blocked>(None),
        rows[i].state is Null ==> node_value(rows, i) == Ok::<Option<Json>, Blocked>(
            Some(Json::Null),
        ),
        rows[i].state is Empty && !rows[i].required ==> node_value(rows, i) == Ok::<
            Option<Json>,
            Blocked,
        >(None),
        rows[i].state is Empty && rows[i].required ==> (node_value(rows, i) matches Err(e) && e.row
            == i),
{
}

proof fn lemma_lenient_node(rows: Seq<RowShape>, i: int)
    requires
        forall|k: int|
            0 <= k < rows.len() ==> !((#[trigger] rows[k]).state is Empty && rows[k].required),
    ensures
        node_value(rows, i) is Ok,
    decreases rows.len() - i, 0int,
{
    if 0 <= i < rows.len() && rows[i].state is Filled {
        if rows[i].kind is ObjectHeader {
            lemma_lenient_members(rows, rows[i].depth + 1, i + 1, span(rows, i), Seq::empty());
        } else if rows[i].kind is ArrayHeader {
            lemma_lenient_items(rows, rows[i].depth + 1, i + 1, span(rows, i), Seq::empty());
        }
    }
}

proof fn lemma_lenient_members(
    rows: Seq<RowShape>,
    depth: nat,
    j: int,
    end: int,
    members: Seq<(Seq<char>, Json)>,
)
    requires
        0 <= j,
        forall|k: int|
            0 <= k < rows.len() ==> !((#[trigger] rows[k]).state is Empty && rows[k].required),
    ensures
        members_value(rows, depth, j, end, members) is Ok,
    decreases rows.len() - j, 1int,
{
    if j < end && j < rows.len() {
        if rows[j].depth == depth {
            lemma_lenient_node(rows, j);
            match node_value(rows, j) {
                Ok(Some(value)) => {
                    lemma_lenient_members(
                        rows,
                        depth,
                        j + 1,
                        end,
                        put(members, rows[j].label, value),
                    );
                },
                _ => {
                    lemma_lenient_members(rows, depth, j + 1, end, members);
                },
            }
        } else {
            lemma_lenient_members(rows, depth, j + 1, end, members);
        }
    }
}

proof fn lemma_lenient_items(
    rows: Seq<RowShape>,
    depth: nat,
    j: int,
    end: int,
    items: Seq<Json>,
)
    requires
        0 <= j,
        forall|k: int|
            0 <= k < rows.len() ==> !((#[trigger] rows[k]).state is Empty && rows[k].required),
    ensures
        items_value(rows, depth, j, end, items) is Ok,
    decreases rows.len() - j, 1int,
{
    if j < end && j < rows.len() {
        if rows[j].depth == depth {
            lemma_lenient_node(rows, j);
            match node_value(rows, j) {
                Ok(Some(value)) => {
                    lemma_lenient_items(rows, depth, j + 1, end, items.push(value));
                },
                _ => {
                    lemma_lenient_items(rows, depth, j + 1, end, items);
                },
            }
        } else {
            lemma_lenient_items(rows, depth, j + 1, end, items);
        }
    }
}

/// Seeding the external editor never blocks: with the blanks filled in, every
/// row can be serialized.
pub proof fn law_lenient_rows_never_block(rows: Seq<RowShape>, i: int)
    ensures
        node_value(lenient_rows(rows), i) is Ok,
{
    lemma_lenient_node(lenient_rows(rows), i);
}

} // verus!
