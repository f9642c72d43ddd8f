//! The request form model: the endpoint's params and body schema flattened
//! into a list of editable rows. The rows ARE the model: serialization walks
//! them back into JSON, and the Shift+X tri-state lives on each row.
//!
//! State semantics (orthogonal `required`/`nullable`, see `model::Field`):
//! - `Filled(v)`  -> sent as `v`
//! - `Empty`      -> blocks submit when required, omitted otherwise
//! - `Null`       -> sent as JSON null (only reachable when nullable)
//! - `Excluded`   -> key omitted entirely (only reachable when optional)

pub mod allowed;
pub mod arrays;
pub mod cursor;
pub mod edit;
pub mod init;
pub mod items;
pub mod laws;
pub mod nested;
pub mod rows;
pub mod sent;
pub mod serialize;
pub mod shallow;
pub mod steady;
pub mod typing;

use crate::json::{Json, JsonValue};
use crate::model::schema_node::{copied, copied_list, copied_value, FieldShape, Schema, SchemaNode};
use vstd::prelude::*;

verus! {

#[derive(Debug, Clone, Copy, PartialEq, Eq, Structural)]
pub enum Section {
    Path,
    Query,
    Header,
    Body,
}

#[derive(Debug, PartialEq)]
pub enum RowKind {
    SectionHeader,
    Scalar,
    Bool,
    Enum(Vec<String>),
    Const,
    /// Any / OneOf / open maps: edited as raw JSON text.
    RawJson,
    ObjectHeader,
    ArrayHeader,
}

#[derive(Debug, PartialEq)]
pub enum RowState {
    Filled(JsonValue),
    Empty,
    Null,
    Excluded,
}

#[derive(Debug)]
pub struct FormRow {
    pub section: Section,
    /// Last path segment: field name, or `[i]` for array items.
    pub label: String,
    /// Indentation inside the body tree (0 for top-level fields and params).
    pub depth: u16,
    pub kind: RowKind,
    pub state: RowState,
    pub required: bool,
    pub nullable: bool,
    pub kind_label: String,
    pub description: Option<String>,
    pub schema: SchemaNode,
    pub collapsed: bool,
    /// Value stashed when cycling away from Filled, restored on re-include.
    pub saved: Option<JsonValue>,
}

/// Submit-time validation failure.
#[derive(Debug, PartialEq)]
pub struct SubmitError {
    pub row: usize,
    pub message: String,
}

#[derive(Debug)]
pub struct FormState {
    pub rows: Vec<FormRow>,
    pub cursor: usize,
    /// False when the body is a single non-object root (array/raw JSON).
    pub body_is_object: bool,
}

// ---------------------------------------------------------------- model

/// A `RowKind` as a mathematical value.
pub enum KindShape {
    SectionHeader,
    Scalar,
    Bool,
    Enum(Seq<Seq<char>>),
    Const,
    RawJson,
    ObjectHeader,
    ArrayHeader,
}

/// A `RowState` as a mathematical value.
pub enum StateShape {
    Filled(Json),
    Empty,
    Null,
    Excluded,
}

/// A `FormRow` as a mathematical value.
pub struct RowShape {
    pub section: Section,
    pub label: Seq<char>,
    pub depth: nat,
    pub kind: KindShape,
    pub state: StateShape,
    pub required: bool,
    pub nullable: bool,
    pub kind_label: Seq<char>,
    pub description: Option<Seq<char>>,
    pub schema: Schema,
    pub collapsed: bool,
    pub saved: Option<Json>,
}

/// A `FormState` as a mathematical value.
pub struct FormShape {
    pub rows: Seq<RowShape>,
    pub cursor: nat,
    pub body_is_object: bool,
}

impl View for RowKind {
    type V = KindShape;

    open spec fn view(&self) -> KindShape {
        match self {
            RowKind::SectionHeader => KindShape::SectionHeader,
            RowKind::Scalar => KindShape::Scalar,
            RowKind::Bool => KindShape::Bool,
            RowKind::Enum(values) => KindShape::Enum(values.deep_view()),
            RowKind::Const => KindShape::Const,
            RowKind::RawJson => KindShape::RawJson,
            RowKind::ObjectHeader => KindShape::ObjectHeader,
            RowKind::ArrayHeader => KindShape::ArrayHeader,
        }
    }
}

impl View for RowState {
    type V = StateShape;

    open spec fn view(&self) -> StateShape {
        match self {
            RowState::Filled(value) => StateShape::Filled(value@),
            RowState::Empty => StateShape::Empty,
            RowState::Null => StateShape::Null,
            RowState::Excluded => StateShape::Excluded,
        }
    }
}

impl View for FormRow {
    type V = RowShape;

    open spec fn view(&self) -> RowShape {
        RowShape {
            section: self.section,
            label: self.label@,
            depth: self.depth as nat,
            kind: self.kind@,
            state: self.state@,
            required: self.required,
            nullable: self.nullable,
            kind_label: self.kind_label@,
            description: self.description.deep_view(),
            schema: self.schema@,
            collapsed: self.collapsed,
            saved: self.saved.deep_view(),
        }
    }
}

impl DeepView for FormRow {
    type V = RowShape;

    open spec fn deep_view(&self) -> RowShape {
        self.view()
    }
}

impl View for FormState {
    type V = FormShape;

    open spec fn view(&self) -> FormShape {
        FormShape {
            rows: self.rows.deep_view(),
            cursor: self.cursor as nat,
            body_is_object: self.body_is_object,
        }
    }
}

impl Section {
    pub open spec fn text(self) -> Seq<char> {
        match self {
            Section::Path => "path params"@,
            Section::Query => "query params"@,
            Section::Header => "headers"@,
            Section::Body => "body"@,
        }
    }
}

impl RowShape {
    /// Whether the cursor may rest on the row.
    pub open spec fn interactive(self) -> bool {
        !(self.kind is SectionHeader) && !(self.kind is Const)
    }

    /// Whether the row heads a subtree.
    pub open spec fn heads(self) -> bool {
        self.kind is ObjectHeader || self.kind is ArrayHeader
    }
}

/// How many levels a schema nests below its root.
pub open spec fn height(node: Schema) -> nat
    decreases node,
{
    match node {
        Schema::Object { fields, .. } => fields_height(fields, 0),
        Schema::Array { item, .. } => 1 + height(*item),
        _ => 0,
    }
}

/// The greatest height of the fields from position `i` on, counted from above them.
pub open spec fn fields_height(fields: Seq<FieldShape>, i: int) -> nat
    decreases fields, fields.len() - i,
{
    if i < 0 || i >= fields.len() {
        0
    } else {
        let here = 1 + height(fields[i].schema);
        let rest = fields_height(fields, i + 1);
        if here >= rest {
            here
        } else {
            rest
        }
    }
}

/// The indentation below a row stays within its machine representation.
pub open spec fn row_fits(row: RowShape) -> bool {
    row.depth + height(row.schema) <= u16::MAX
}

impl FormShape {
    /// What every operation relies on and keeps: indentation stays in range.
    pub open spec fn wf(self) -> bool {
        forall|i: int| 0 <= i < self.rows.len() ==> row_fits(#[trigger] self.rows[i])
    }
}

// ---------------------------------------------------------------- rows

impl Section {
    pub fn label(self) -> (r: &'static str)
        ensures
            r@ == self.text(),
    {
        match self {
            Section::Path => "path params",
            Section::Query => "query params",
            Section::Header => "headers",
            Section::Body => "body",
        }
    }
}

impl Clone for RowKind {
    fn clone(&self) -> (r: RowKind)
        ensures
            r@ == self@,
    {
        match self {
            RowKind::SectionHeader => RowKind::SectionHeader,
            RowKind::Scalar => RowKind::Scalar,
            RowKind::Bool => RowKind::Bool,
            RowKind::Enum(values) => RowKind::Enum(copied_list(values)),
            RowKind::Const => RowKind::Const,
            RowKind::RawJson => RowKind::RawJson,
            RowKind::ObjectHeader => RowKind::ObjectHeader,
            RowKind::ArrayHeader => RowKind::ArrayHeader,
        }
    }
}

impl Clone for RowState {
    fn clone(&self) -> (r: RowState)
        ensures
            r@ == self@,
    {
        match self {
            RowState::Filled(value) => RowState::Filled(value.clone()),
            RowState::Empty => RowState::Empty,
            RowState::Null => RowState::Null,
            RowState::Excluded => RowState::Excluded,
        }
    }
}

impl Clone for FormRow {
    fn clone(&self) -> (r: FormRow)
        ensures
            r@ == self@,
    {
        FormRow {
            section: self.section,
            label: self.label.clone(),
            depth: self.depth,
            kind: self.kind.clone(),
            state: self.state.clone(),
            required: self.required,
            nullable: self.nullable,
            kind_label: self.kind_label.clone(),
            description: copied(&self.description),
            schema: self.schema.clone(),
            collapsed: self.collapsed,
            saved: copied_value(&self.saved),
        }
    }
}

impl RowKind {
    pub fn is_section_header(&self) -> (r: bool)
        ensures
            r == (self@ is SectionHeader),
    {
        match self {
            RowKind::SectionHeader => true,
            _ => false,
        }
    }

    pub fn is_array_header(&self) -> (r: bool)
        ensures
            r == (self@ is ArrayHeader),
    {
        match self {
            RowKind::ArrayHeader => true,
            _ => false,
        }
    }
}

impl FormRow {
    /// Whether the cursor may rest on the row.
    pub fn interactive(&self) -> (r: bool)
        ensures
            r == self@.interactive(),
    {
        match self.kind {
            RowKind::SectionHeader => false,
            RowKind::Const => false,
            _ => true,
        }
    }

    /// Whether the row heads a subtree.
    pub fn heads(&self) -> (r: bool)
        ensures
            r == self@.heads(),
    {
        match self.kind {
            RowKind::ObjectHeader => true,
            RowKind::ArrayHeader => true,
            _ => false,
        }
    }
}

} // verus!
