//! The permissive reading of openapi.json. Nearly everything defaults, unknown
//! members are ignored, and schemas stay raw until the normalization pass.
//! This is deliberately a fraction of OpenAPI: enough for browsing endpoints
//! and building request bodies.
//!
//! An object of the document is read by its members; an array in its place is
//! read by position.

use crate::json::{list_json, lookup, Json, JsonMap, JsonValue, Number};
use crate::text::{cat, cat3, decimal, owned, same, show};
use vstd::prelude::*;

verus! {

#[derive(Debug)]
pub struct RawSpec {
    pub openapi: String,
    pub info: RawInfo,
    /// The path items, in the order of the document.
    pub paths: Vec<(String, RawPathItem)>,
    /// Spec-level tag declarations (order defines display order).
    pub tags: Vec<RawTagDecl>,
    /// Spec-level default security requirement.
    pub security: Option<Vec<JsonValue>>,
}

#[derive(Debug)]
pub struct RawInfo {
    pub title: String,
    pub version: String,
}

#[derive(Debug)]
pub struct RawTagDecl {
    pub name: String,
    pub description: Option<String>,
}

#[derive(Debug)]
pub struct RawPathItem {
    pub get: Option<RawOperation>,
    pub put: Option<RawOperation>,
    pub post: Option<RawOperation>,
    pub delete: Option<RawOperation>,
    pub options: Option<RawOperation>,
    pub head: Option<RawOperation>,
    pub patch: Option<RawOperation>,
    pub trace: Option<RawOperation>,
    /// Parameters shared by all operations on this path.
    pub parameters: Vec<JsonValue>,
}

#[derive(Debug)]
pub struct RawOperation {
    pub tags: Vec<String>,
    pub summary: Option<String>,
    pub description: Option<String>,
    pub operation_id: Option<String>,
    /// Kept raw: a parameter may itself be a `$ref`.
    pub parameters: Vec<JsonValue>,
    /// Kept raw: may be a `$ref`; content negotiated during build.
    pub request_body: Option<JsonValue>,
    /// `None` = inherit spec-level security; an empty list = explicitly public.
    pub security: Option<Vec<JsonValue>>,
    pub deprecated: bool,
    /// Status code -> response object (kept raw; may contain `$ref`s).
    pub responses: JsonMap,
}

/// A parameter object after any `$ref` indirection has been resolved.
#[derive(Debug)]
pub struct RawParameter {
    pub name: String,
    pub location: String,
    pub required: bool,
    pub description: Option<String>,
    pub schema: Option<JsonValue>,
}

// ---------------------------------------------------------------- model

pub struct RawSpecShape {
    pub openapi: Seq<char>,
    pub title: Seq<char>,
    pub version: Seq<char>,
    pub paths: Seq<(Seq<char>, RawPathShape)>,
    pub tags: Seq<RawTagShape>,
    pub security: Option<Seq<Json>>,
}

pub struct RawTagShape {
    pub name: Seq<char>,
    pub description: Option<Seq<char>>,
}

/// The operations of a path item in the order in which methods are listed:
/// get, put, post, delete, options, head, patch, trace.
pub struct RawPathShape {
    pub operations: Seq<Option<RawOperationShape>>,
    pub parameters: Seq<Json>,
}

pub struct RawOperationShape {
    pub tags: Seq<Seq<char>>,
    pub summary: Option<Seq<char>>,
    pub description: Option<Seq<char>>,
    pub operation_id: Option<Seq<char>>,
    pub parameters: Seq<Json>,
    pub request_body: Option<Json>,
    pub security: Option<Seq<Json>>,
    pub deprecated: bool,
    pub responses: Seq<(Seq<char>, Json)>,
}

pub struct RawParameterShape {
    pub name: Seq<char>,
    pub location: Seq<char>,
    pub required: bool,
    pub description: Option<Seq<char>>,
    pub schema: Option<Json>,
}

impl View for RawTagDecl {
    type V = RawTagShape;

    open spec fn view(&self) -> RawTagShape {
        RawTagShape { name: self.name@, description: self.description.deep_view() }
    }
}

impl DeepView for RawTagDecl {
    type V = RawTagShape;

    open spec fn deep_view(&self) -> RawTagShape {
        self.view()
    }
}

impl View for RawOperation {
    type V = RawOperationShape;

    open spec fn view(&self) -> RawOperationShape {
        RawOperationShape {
            tags: self.tags.deep_view(),
            summary: self.summary.deep_view(),
            description: self.description.deep_view(),
            operation_id: self.operation_id.deep_view(),
            parameters: self.parameters.deep_view(),
            request_body: self.request_body.deep_view(),
            security: self.security.deep_view(),
            deprecated: self.deprecated,
            responses: self.responses@,
        }
    }
}

impl DeepView for RawOperation {
    type V = RawOperationShape;

    open spec fn deep_view(&self) -> RawOperationShape {
        self.view()
    }
}

impl View for RawPathItem {
    type V = RawPathShape;

    open spec fn view(&self) -> RawPathShape {
        RawPathShape {
            operations: seq![
                self.get.deep_view(),
                self.put.deep_view(),
                self.post.deep_view(),
                self.delete.deep_view(),
                self.options.deep_view(),
                self.head.deep_view(),
                self.patch.deep_view(),
                self.trace.deep_view(),
            ],
            parameters: self.parameters.deep_view(),
        }
    }
}

impl DeepView for RawPathItem {
    type V = RawPathShape;

    open spec fn deep_view(&self) -> RawPathShape {
        self.view()
    }
}

impl View for RawSpec {
    type V = RawSpecShape;

    open spec fn view(&self) -> RawSpecShape {
        RawSpecShape {
            openapi: self.openapi@,
            title: self.info.title@,
            version: self.info.version@,
            paths: self.paths.deep_view(),
            tags: self.tags.deep_view(),
            security: self.security.deep_view(),
        }
    }
}

impl View for RawParameter {
    type V = RawParameterShape;

    open spec fn view(&self) -> RawParameterShape {
        RawParameterShape {
            name: self.name@,
            location: self.location@,
            required: self.required,
            description: self.description.deep_view(),
            schema: self.schema.deep_view(),
        }
    }
}

/// The objects of a document that are read.
#[derive(Clone, Copy)]
pub enum Shape {
    Spec,
    Info,
    Tag,
    PathItem,
    Operation,
    Parameter,
}

/// What a member may hold.
#[derive(Clone, Copy)]
pub enum Holds {
    Text,
    OptionalText,
    Flag,
    /// A list of anything.
    Values,
    OptionalValues,
    Texts,
    Anything,
    /// An object with arbitrary members.
    ValueMap,
    One(Shape),
    OptionalOne(Shape),
    List(Shape),
    ByName(Shape),
}

impl Shape {
    /// The member names, in the order of positions.
    pub open spec fn names(self) -> Seq<Seq<char>> {
        match self {
            Shape::Spec => seq!["openapi"@, "info"@, "paths"@, "tags"@, "security"@],
            Shape::Info => seq!["title"@, "version"@],
            Shape::Tag => seq!["name"@, "description"@],
            Shape::PathItem => seq![
                "get"@,
                "put"@,
                "post"@,
                "delete"@,
                "options"@,
                "head"@,
                "patch"@,
                "trace"@,
                "parameters"@,
            ],
            Shape::Operation => seq![
                "tags"@,
                "summary"@,
                "description"@,
                "operationId"@,
                "parameters"@,
                "requestBody"@,
                "security"@,
                "deprecated"@,
                "responses"@,
            ],
            Shape::Parameter => seq!["name"@, "in"@, "required"@, "description"@, "schema"@],
        }
    }

    /// What the member at a position may hold.
    pub open spec fn holds(self, i: int) -> Holds {
        match self {
            Shape::Spec => if i == 0 {
                Holds::Text
            } else if i == 1 {
                Holds::One(Shape::Info)
            } else if i == 2 {
                Holds::ByName(Shape::PathItem)
            } else if i == 3 {
                Holds::List(Shape::Tag)
            } else {
                Holds::OptionalValues
            },
            Shape::Info => Holds::Text,
            Shape::Tag => if i == 0 {
                Holds::Text
            } else {
                Holds::OptionalText
            },
            Shape::PathItem => if i < 8 {
                Holds::OptionalOne(Shape::Operation)
            } else {
                Holds::Values
            },
            Shape::Operation => if i == 0 {
                Holds::Texts
            } else if i <= 3 {
                Holds::OptionalText
            } else if i == 4 {
                Holds::Values
            } else if i == 5 {
                Holds::Anything
            } else if i == 6 {
                Holds::OptionalValues
            } else if i == 7 {
                Holds::Flag
            } else {
                Holds::ValueMap
            },
            Shape::Parameter => if i <= 1 {
                Holds::Text
            } else if i == 2 {
                Holds::Flag
            } else if i == 3 {
                Holds::OptionalText
            } else {
                Holds::Anything
            },
        }
    }

    /// How many positions an array in the object's place has to fill.
    pub open spec fn needed(self) -> nat {
        match self {
            Shape::PathItem => 8,
            Shape::Parameter => 2,
            _ => 0,
        }
    }

    pub open spec fn title(self) -> Seq<char> {
        match self {
            Shape::Spec => "struct RawSpec"@,
            Shape::Info => "struct RawInfo"@,
            Shape::Tag => "struct RawTagDecl"@,
            Shape::PathItem => "struct RawPathItem"@,
            Shape::Operation => "struct RawOperation"@,
            Shape::Parameter => "struct RawParameter"@,
        }
    }
}

/// Position of `name` in `names` at or after `i`.
pub open spec fn name_position(names: Seq<Seq<char>>, name: Seq<char>, i: int) -> Option<int>
    decreases names.len() - i,
{
    if i < 0 || i >= names.len() {
        None
    } else if names[i] == name {
        Some(i)
    } else {
        name_position(names, name, i + 1)
    }
}

/// The message for a value of the wrong type.
pub uninterp spec fn type_mismatch(found: Json, expected: Seq<char>) -> Seq<char>;

/// `serde::de::Error::invalid_type` of a `serde_json::Error`: the message
/// depends on the value found and on what was expected.
#[verifier::external_body]
fn wrong_type(found: &JsonValue, expected: &str) -> (r: String)
    ensures
        r@ == type_mismatch(found@, expected@),
{
    let unexpected = match found {
        JsonValue::Null => serde::de::Unexpected::Unit,
        JsonValue::Bool(b) => serde::de::Unexpected::Bool(*b),
        JsonValue::Number(Number::PosInt(n)) => serde::de::Unexpected::Unsigned(*n),
        JsonValue::Number(Number::NegInt(n)) => serde::de::Unexpected::Signed(*n),
        JsonValue::Number(Number::Float(t)) => serde::de::Unexpected::Float(
            t.parse().unwrap_or_default(),
        ),
        JsonValue::Text(s) => serde::de::Unexpected::Str(s),
        JsonValue::Array(_) => serde::de::Unexpected::Seq,
        JsonValue::Object(_) => serde::de::Unexpected::Map,
    };
    <serde_json::Error as serde::de::Error>::invalid_type(unexpected, &expected).to_string()
}

/// The message for a list of the wrong length.
pub open spec fn length_mismatch(len: nat, expected: Seq<char>) -> Seq<char> {
    "invalid length "@ + decimal(len) + ", expected "@ + expected
}

fn wrong_length(len: usize, expected: &str) -> (r: String)
    ensures
        r@ == length_mismatch(len as nat, expected@),
{
    let digits = show(len as u64);
    let head = cat3("invalid length ", digits.as_str(), ", expected ");
    cat(head.as_str(), expected)
}

/// The fault of an object in the document, if it has one.
pub open spec fn fault(shape: Shape, j: Json) -> Option<Seq<char>>
    decreases j, 0int,
{
    match j {
        Json::Object(members) => match members_fault(shape, members, 0) {
            Some(message) => Some(message),
            None => absence_fault(shape, members),
        },
        Json::Array(items) => positions_fault(shape, items, 0),
        _ => Some(type_mismatch(j, shape.title())),
    }
}

/// The first fault among the members from position `i` on.
pub open spec fn members_fault(
    shape: Shape,
    members: Seq<(Seq<char>, Json)>,
    i: int,
) -> Option<Seq<char>>
    decreases members, members.len() - i,
{
    if i < 0 || i >= members.len() {
        None
    } else {
        match name_position(shape.names(), members[i].0, 0) {
            Some(k) => match held_fault(shape.holds(k), members[i].1) {
                Some(message) => Some(message),
                None => members_fault(shape, members, i + 1),
            },
            None => members_fault(shape, members, i + 1),
        }
    }
}

/// The fault of lacking a member that has no default.
pub open spec fn absence_fault(
    shape: Shape,
    members: Seq<(Seq<char>, Json)>,
) -> Option<Seq<char>> {
    match shape {
        Shape::Parameter => if lookup(members, "name"@) is None {
            Some("missing field `name`"@)
        } else if lookup(members, "in"@) is None {
            Some("missing field `in`"@)
        } else {
            None
        },
        _ => None,
    }
}

/// The first fault among the positions from `i` on of an array that stands
/// for an object.
pub open spec fn positions_fault(shape: Shape, items: Seq<Json>, i: int) -> Option<Seq<char>>
    decreases items, shape.names().len() - i,
{
    if i < 0 || i >= shape.names().len() {
        if items.len() > shape.names().len() {
            Some(length_mismatch(items.len(), "fewer elements in array"@))
        } else {
            None
        }
    } else if i < items.len() {
        match held_fault(shape.holds(i), items[i]) {
            Some(message) => Some(message),
            None => positions_fault(shape, items, i + 1),
        }
    } else if i < shape.needed() {
        Some(
            length_mismatch(
                i as nat,
                shape.title() + " with "@ + decimal(shape.names().len()) + " elements"@,
            ),
        )
    } else {
        positions_fault(shape, items, i + 1)
    }
}

/// The fault of what a member holds, if it has one.
pub open spec fn held_fault(holds: Holds, j: Json) -> Option<Seq<char>>
    decreases j, 1int,
{
    match holds {
        Holds::Text => if j is Text {
            None
        } else {
            Some(type_mismatch(j, "a string"@))
        },
        Holds::OptionalText => if j is Text || j is Null {
            None
        } else {
            Some(type_mismatch(j, "a string"@))
        },
        Holds::Flag => if j is Bool {
            None
        } else {
            Some(type_mismatch(j, "a boolean"@))
        },
        Holds::Values => if j is Array {
            None
        } else {
            Some(type_mismatch(j, "a sequence"@))
        },
        Holds::OptionalValues => if j is Array || j is Null {
            None
        } else {
            Some(type_mismatch(j, "a sequence"@))
        },
        Holds::Texts => match j {
            Json::Array(items) => texts_fault(items, 0),
            _ => Some(type_mismatch(j, "a sequence"@)),
        },
        Holds::Anything => None,
        Holds::ValueMap => if j is Object {
            None
        } else {
            Some(type_mismatch(j, "a map"@))
        },
        Holds::One(shape) => fault(shape, j),
        Holds::OptionalOne(shape) => if j is Null {
            None
        } else {
            fault(shape, j)
        },
        Holds::List(shape) => match j {
            Json::Array(items) => list_fault(shape, items, 0),
            _ => Some(type_mismatch(j, "a sequence"@)),
        },
        Holds::ByName(shape) => match j {
            Json::Object(members) => named_fault(shape, members, 0),
            _ => Some(type_mismatch(j, "a map"@)),
        },
    }
}

/// The fault of the first item from `i` on that is no text.
pub open spec fn texts_fault(items: Seq<Json>, i: int) -> Option<Seq<char>>
    decreases items, items.len() - i,
{
    if i < 0 || i >= items.len() {
        None
    } else if items[i] is Text {
        texts_fault(items, i + 1)
    } else {
        Some(type_mismatch(items[i], "a string"@))
    }
}

/// The first fault among the objects of a list from position `i` on.
pub open spec fn list_fault(shape: Shape, items: Seq<Json>, i: int) -> Option<Seq<char>>
    decreases items, items.len() - i,
{
    if i < 0 || i >= items.len() {
        None
    } else {
        match fault(shape, items[i]) {
            Some(message) => Some(message),
            None => list_fault(shape, items, i + 1),
        }
    }
}

/// The first fault among named objects from position `i` on.
pub open spec fn named_fault(
    shape: Shape,
    members: Seq<(Seq<char>, Json)>,
    i: int,
) -> Option<Seq<char>>
    decreases members, members.len() - i,
{
    if i < 0 || i >= members.len() {
        None
    } else {
        match fault(shape, members[i].1) {
            Some(message) => Some(message),
            None => named_fault(shape, members, i + 1),
        }
    }
}

/// What an object of the document holds at a position.
pub open spec fn member_at(shape: Shape, j: Json, i: int) -> Option<Json> {
    match j {
        Json::Object(members) => lookup(members, shape.names()[i]),
        Json::Array(items) => if 0 <= i < items.len() {
            Some(items[i])
        } else {
            None
        },
        _ => None,
    }
}

/// A text, or the empty text where there is none.
pub open spec fn text_or_empty(j: Option<Json>) -> Seq<char> {
    match j {
        Some(Json::Text(s)) => s,
        _ => Seq::empty(),
    }
}

pub open spec fn optional_text_of(j: Option<Json>) -> Option<Seq<char>> {
    match j {
        Some(Json::Text(s)) => Some(s),
        _ => None,
    }
}

pub open spec fn flag_or_false(j: Option<Json>) -> bool {
    j == Some(Json::Bool(true))
}

pub open spec fn values_or_empty(j: Option<Json>) -> Seq<Json> {
    match j {
        Some(Json::Array(items)) => items,
        _ => Seq::empty(),
    }
}

pub open spec fn optional_values(j: Option<Json>) -> Option<Seq<Json>> {
    match j {
        Some(Json::Array(items)) => Some(items),
        _ => None,
    }
}

/// A present value other than null.
pub open spec fn optional_value(j: Option<Json>) -> Option<Json> {
    match j {
        Some(Json::Null) => None,
        _ => j,
    }
}

pub open spec fn members_or_empty(j: Option<Json>) -> Seq<(Seq<char>, Json)> {
    match j {
        Some(Json::Object(members)) => members,
        _ => Seq::empty(),
    }
}

pub open spec fn texts_of(items: Seq<Json>) -> Seq<Seq<char>> {
    Seq::new(items.len(), |i: int| text_or_empty(Some(items[i])))
}

pub open spec fn tag_of(j: Json) -> RawTagShape {
    RawTagShape {
        name: text_or_empty(member_at(Shape::Tag, j, 0)),
        description: optional_text_of(member_at(Shape::Tag, j, 1)),
    }
}

pub open spec fn operation_of(j: Json) -> RawOperationShape {
    RawOperationShape {
        tags: texts_of(values_or_empty(member_at(Shape::Operation, j, 0))),
        summary: optional_text_of(member_at(Shape::Operation, j, 1)),
        description: optional_text_of(member_at(Shape::Operation, j, 2)),
        operation_id: optional_text_of(member_at(Shape::Operation, j, 3)),
        parameters: values_or_empty(member_at(Shape::Operation, j, 4)),
        request_body: optional_value(member_at(Shape::Operation, j, 5)),
        security: optional_values(member_at(Shape::Operation, j, 6)),
        deprecated: flag_or_false(member_at(Shape::Operation, j, 7)),
        responses: members_or_empty(member_at(Shape::Operation, j, 8)),
    }
}

pub open spec fn optional_operation(j: Option<Json>) -> Option<RawOperationShape> {
    match optional_value(j) {
        Some(value) => Some(operation_of(value)),
        None => None,
    }
}

pub open spec fn path_item_of(j: Json) -> RawPathShape {
    RawPathShape {
        operations: Seq::new(8, |i: int| optional_operation(member_at(Shape::PathItem, j, i))),
        parameters: values_or_empty(member_at(Shape::PathItem, j, 8)),
    }
}

pub open spec fn parameter_of(j: Json) -> RawParameterShape {
    RawParameterShape {
        name: text_or_empty(member_at(Shape::Parameter, j, 0)),
        location: text_or_empty(member_at(Shape::Parameter, j, 1)),
        required: flag_or_false(member_at(Shape::Parameter, j, 2)),
        description: optional_text_of(member_at(Shape::Parameter, j, 3)),
        schema: optional_value(member_at(Shape::Parameter, j, 4)),
    }
}

/// The value, or null where there is none.
pub open spec fn value_or_null(j: Option<Json>) -> Json {
    match j {
        Some(value) => value,
        None => Json::Null,
    }
}

pub open spec fn spec_of(j: Json) -> RawSpecShape {
    let info = value_or_null(member_at(Shape::Spec, j, 1));
    let paths = members_or_empty(member_at(Shape::Spec, j, 2));
    let tags = values_or_empty(member_at(Shape::Spec, j, 3));
    RawSpecShape {
        openapi: text_or_empty(member_at(Shape::Spec, j, 0)),
        title: text_or_empty(member_at(Shape::Info, info, 0)),
        version: text_or_empty(member_at(Shape::Info, info, 1)),
        paths: Seq::new(paths.len(), |i: int| (paths[i].0, path_item_of(paths[i].1))),
        tags: Seq::new(tags.len(), |i: int| tag_of(tags[i])),
        security: optional_values(member_at(Shape::Spec, j, 4)),
    }
}

// ---------------------------------------------------------------- reading

impl Shape {
    fn count(self) -> (r: usize)
        ensures
            r == self.names().len(),
    {
        match self {
            Shape::Spec => 5,
            Shape::Info => 2,
            Shape::Tag => 2,
            Shape::PathItem => 9,
            Shape::Operation => 9,
            Shape::Parameter => 5,
        }
    }

    fn name(self, i: usize) -> (r: &'static str)
        requires
            i < self.names().len(),
        ensures
            r@ == self.names()[i as int],
    {
        match self {
            Shape::Spec => if i == 0 {
                "openapi"
            } else if i == 1 {
                "info"
            } else if i == 2 {
                "paths"
            } else if i == 3 {
                "tags"
            } else {
                "security"
            },
            Shape::Info => if i == 0 {
                "title"
            } else {
                "version"
            },
            Shape::Tag => if i == 0 {
                "name"
            } else {
                "description"
            },
            Shape::PathItem => if i == 0 {
                "get"
            } else if i == 1 {
                "put"
            } else if i == 2 {
                "post"
            } else if i == 3 {
                "delete"
            } else if i == 4 {
                "options"
            } else if i == 5 {
                "head"
            } else if i == 6 {
                "patch"
            } else if i == 7 {
                "trace"
            } else {
                "parameters"
            },
            Shape::Operation => if i == 0 {
                "tags"
            } else if i == 1 {
                "summary"
            } else if i == 2 {
                "description"
            } else if i == 3 {
                "operationId"
            } else if i == 4 {
                "parameters"
            } else if i == 5 {
                "requestBody"
            } else if i == 6 {
                "security"
            } else if i == 7 {
                "deprecated"
            } else {
                "responses"
            },
            Shape::Parameter => if i == 0 {
                "name"
            } else if i == 1 {
                "in"
            } else if i == 2 {
                "required"
            } else if i == 3 {
                "description"
            } else {
                "schema"
            },
        }
    }

    fn position(self, name: &str) -> (r: Option<usize>)
        ensures
            match r {
                Some(i) => i < self.names().len() && name_position(self.names(), name@, 0) == Some(
                    i as int,
                ),
                None => name_position(self.names(), name@, 0) is None,
            },
    {
        let n: usize = self.count();
        let mut i: usize = 0;
        while i < n
            invariant
                i <= n,
                n == self.names().len(),
                name_position(self.names(), name@, 0) == name_position(
                    self.names(),
                    name@,
                    i as int,
                ),
            decreases n - i,
        {
            if same(self.name(i), name) {
                return Some(i);
            }
            i += 1;
        }
        None
    }

    fn member_holds(self, i: usize) -> (r: Holds)
        ensures
            r == self.holds(i as int),
    {
        match self {
            Shape::Spec => if i == 0 {
                Holds::Text
            } else if i == 1 {
                Holds::One(Shape::Info)
            } else if i == 2 {
                Holds::ByName(Shape::PathItem)
            } else if i == 3 {
                Holds::List(Shape::Tag)
            } else {
                Holds::OptionalValues
            },
            Shape::Info => Holds::Text,
            Shape::Tag => if i == 0 {
                Holds::Text
            } else {
                Holds::OptionalText
            },
            Shape::PathItem => if i < 8 {
                Holds::OptionalOne(Shape::Operation)
            } else {
                Holds::Values
            },
            Shape::Operation => if i == 0 {
                Holds::Texts
            } else if i <= 3 {
                Holds::OptionalText
            } else if i == 4 {
                Holds::Values
            } else if i == 5 {
                Holds::Anything
            } else if i == 6 {
                Holds::OptionalValues
            } else if i == 7 {
                Holds::Flag
            } else {
                Holds::ValueMap
            },
            Shape::Parameter => if i <= 1 {
                Holds::Text
            } else if i == 2 {
                Holds::Flag
            } else if i == 3 {
                Holds::OptionalText
            } else {
                Holds::Anything
            },
        }
    }

    fn least(self) -> (r: usize)
        ensures
            r == self.needed(),
    {
        match self {
            Shape::PathItem => 8,
            Shape::Parameter => 2,
            _ => 0,
        }
    }

    fn heading(self) -> (r: &'static str)
        ensures
            r@ == self.title(),
    {
        match self {
            Shape::Spec => "struct RawSpec",
            Shape::Info => "struct RawInfo",
            Shape::Tag => "struct RawTagDecl",
            Shape::PathItem => "struct RawPathItem",
            Shape::Operation => "struct RawOperation",
            Shape::Parameter => "struct RawParameter",
        }
    }
}

/// The fault of an object in the document, if it has one.
fn find_fault(shape: Shape, value: &JsonValue) -> (r: Option<String>)
    ensures
        r.deep_view() == fault(shape, value@),
    decreases value, 0int,
{
    match value {
        JsonValue::Object(map) => {
            let ghost all = map.members();
            for i in 0..map.entries.len()
                invariant
                    decreases_to!(value => map.entries),
                    all == map.members(),
                    fault(shape, value@) == (match members_fault(shape, all, i as int) {
                        Some(message) => Some(message),
                        None => absence_fault(shape, all),
                    }),
            {
                assert(all[i as int] == (map.entries@[i as int].0@, map.entries@[i as int].1@));
                match shape.position(map.entries[i].0.as_str()) {
                    Some(k) => {
                        let found = find_held_fault(shape.member_holds(k), &map.entries[i].1);
                        if found.is_some() {
                            return found;
                        }
                    },
                    None => {},
                }
            }
            match shape {
                Shape::Parameter => {
                    if !map.contains_key("name") {
                        Some(owned("missing field `name`"))
                    } else if !map.contains_key("in") {
                        Some(owned("missing field `in`"))
                    } else {
                        None
                    }
                },
                _ => None,
            }
        },
        JsonValue::Array(items) => {
            let ghost all = list_json(items);
            let n: usize = shape.count();
            let mut i: usize = 0;
            while i < n
                invariant
                    decreases_to!(value => items),
                    all == list_json(items),
                    n == shape.names().len(),
                    i <= n,
                    fault(shape, value@) == positions_fault(shape, all, i as int),
                decreases n - i,
            {
                if i < items.len() {
                    assert(all[i as int] == items@[i as int]@);
                    let found = find_held_fault(shape.member_holds(i), &items[i]);
                    if found.is_some() {
                        return found;
                    }
                } else if i < shape.least() {
                    let digits = show(n as u64);
                    let title = cat3(shape.heading(), " with ", digits.as_str());
                    let expected = cat(title.as_str(), " elements");
                    return Some(wrong_length(i, expected.as_str()));
                }
                i += 1;
            }
            if items.len() > n {
                Some(wrong_length(items.len(), "fewer elements in array"))
            } else {
                None
            }
        },
        _ => Some(wrong_type(value, shape.heading())),
    }
}

/// The fault of what a member holds, if it has one.
fn find_held_fault(holds: Holds, value: &JsonValue) -> (r: Option<String>)
    ensures
        r.deep_view() == held_fault(holds, value@),
    decreases value, 1int,
{
    match holds {
        Holds::Text => match value {
            JsonValue::Text(_) => None,
            _ => Some(wrong_type(value, "a string")),
        },
        Holds::OptionalText => match value {
            JsonValue::Text(_) => None,
            JsonValue::Null => None,
            _ => Some(wrong_type(value, "a string")),
        },
        Holds::Flag => match value {
            JsonValue::Bool(_) => None,
            _ => Some(wrong_type(value, "a boolean")),
        },
        Holds::Values => match value {
            JsonValue::Array(_) => None,
            _ => Some(wrong_type(value, "a sequence")),
        },
        Holds::OptionalValues => match value {
            JsonValue::Array(_) => None,
            JsonValue::Null => None,
            _ => Some(wrong_type(value, "a sequence")),
        },
        Holds::Texts => match value {
            JsonValue::Array(items) => {
                let ghost all = list_json(items);
                for i in 0..items.len()
                    invariant
                        all == list_json(items),
                        held_fault(holds, value@) == texts_fault(all, i as int),
                {
                    assert(all[i as int] == items@[i as int]@);
                    match &items[i] {
                        JsonValue::Text(_) => {},
                        other => {
                            return Some(wrong_type(other, "a string"));
                        },
                    }
                }
                None
            },
            _ => Some(wrong_type(value, "a sequence")),
        },
        Holds::Anything => None,
        Holds::ValueMap => match value {
            JsonValue::Object(_) => None,
            _ => Some(wrong_type(value, "a map")),
        },
        Holds::One(shape) => find_fault(shape, value),
        Holds::OptionalOne(shape) => match value {
            JsonValue::Null => None,
            _ => find_fault(shape, value),
        },
        Holds::List(shape) => match value {
            JsonValue::Array(items) => {
                let ghost all = list_json(items);
                for i in 0..items.len()
                    invariant
                        decreases_to!(value => items),
                        all == list_json(items),
                        held_fault(holds, value@) == list_fault(shape, all, i as int),
                {
                    assert(all[i as int] == items@[i as int]@);
                    let found = find_fault(shape, &items[i]);
                    if found.is_some() {
                        return found;
                    }
                }
                None
            },
            _ => Some(wrong_type(value, "a sequence")),
        },
        Holds::ByName(shape) => match value {
            JsonValue::Object(map) => {
                let ghost all = map.members();
                for i in 0..map.entries.len()
                    invariant
                        decreases_to!(value => map.entries),
                        all == map.members(),
                        held_fault(holds, value@) == named_fault(shape, all, i as int),
                {
                    assert(all[i as int] == (
                        map.entries@[i as int].0@,
                        map.entries@[i as int].1@,
                    ));
                    let found = find_fault(shape, &map.entries[i].1);
                    if found.is_some() {
                        return found;
                    }
                }
                None
            },
            _ => Some(wrong_type(value, "a map")),
        },
    }
}

fn member<'a>(shape: Shape, value: &'a JsonValue, i: usize) -> (r: Option<&'a JsonValue>)
    requires
        i < shape.names().len(),
    ensures
        r.deep_view() == member_at(shape, value@, i as int),
{
    match value {
        JsonValue::Object(map) => map.get(shape.name(i)),
        JsonValue::Array(items) => if i < items.len() {
            Some(&items[i])
        } else {
            None
        },
        _ => None,
    }
}

fn read_text(value: Option<&JsonValue>) -> (r: String)
    ensures
        r@ == text_or_empty(value.deep_view()),
{
    match value {
        Some(JsonValue::Text(s)) => s.clone(),
        _ => String::new(),
    }
}

fn read_optional_text(value: Option<&JsonValue>) -> (r: Option<String>)
    ensures
        r.deep_view() == optional_text_of(value.deep_view()),
{
    match value {
        Some(JsonValue::Text(s)) => Some(s.clone()),
        _ => None,
    }
}

fn read_flag(value: Option<&JsonValue>) -> (r: bool)
    ensures
        r == flag_or_false(value.deep_view()),
{
    match value {
        Some(JsonValue::Bool(b)) => *b,
        _ => false,
    }
}

fn cloned_values(items: &Vec<JsonValue>) -> (r: Vec<JsonValue>)
    ensures
        r.deep_view() == list_json(items),
{
    let mut out: Vec<JsonValue> = Vec::new();
    for i in 0..items.len()
        invariant
            out@.len() == i,
            forall|k: int| 0 <= k < i ==> (#[trigger] out@[k])@ == items@[k]@,
    {
        out.push(items[i].clone());
    }
    assert(out.deep_view() =~= list_json(items));
    out
}

fn read_values(value: Option<&JsonValue>) -> (r: Vec<JsonValue>)
    ensures
        r.deep_view() == values_or_empty(value.deep_view()),
{
    match value {
        Some(JsonValue::Array(items)) => cloned_values(items),
        _ => {
            let out: Vec<JsonValue> = Vec::new();
            assert(out.deep_view() =~= Seq::<Json>::empty());
            out
        },
    }
}

fn read_optional_values(value: Option<&JsonValue>) -> (r: Option<Vec<JsonValue>>)
    ensures
        r.deep_view() == optional_values(value.deep_view()),
{
    match value {
        Some(JsonValue::Array(items)) => Some(cloned_values(items)),
        _ => None,
    }
}

fn read_optional_value(value: Option<&JsonValue>) -> (r: Option<JsonValue>)
    ensures
        r.deep_view() == optional_value(value.deep_view()),
{
    match value {
        Some(JsonValue::Null) => None,
        Some(v) => Some(v.clone()),
        None => None,
    }
}

fn read_members(value: Option<&JsonValue>) -> (r: JsonMap)
    ensures
        r@ == members_or_empty(value.deep_view()),
{
    match value {
        Some(JsonValue::Object(map)) => map.clone(),
        _ => JsonMap::new(),
    }
}

fn read_texts(value: Option<&JsonValue>) -> (r: Vec<String>)
    ensures
        r.deep_view() == texts_of(values_or_empty(value.deep_view())),
{
    let mut out: Vec<String> = Vec::new();
    let ghost all = values_or_empty(value.deep_view());
    match value {
        Some(JsonValue::Array(items)) => {
            for i in 0..items.len()
                invariant
                    all == list_json(items),
                    out@.len() == i,
                    forall|k: int|
                        0 <= k < i ==> (#[trigger] out@[k])@ == text_or_empty(Some(all[k])),
            {
                assert(all[i as int] == items@[i as int]@);
                out.push(read_text(Some(&items[i])));
            }
        },
        _ => {},
    }
    assert(out.deep_view() =~= texts_of(all));
    out
}

fn read_operation(value: &JsonValue) -> (r: RawOperation)
    ensures
        r@ == operation_of(value@),
{
    RawOperation {
        tags: read_texts(member(Shape::Operation, value, 0)),
        summary: read_optional_text(member(Shape::Operation, value, 1)),
        description: read_optional_text(member(Shape::Operation, value, 2)),
        operation_id: read_optional_text(member(Shape::Operation, value, 3)),
        parameters: read_values(member(Shape::Operation, value, 4)),
        request_body: read_optional_value(member(Shape::Operation, value, 5)),
        security: read_optional_values(member(Shape::Operation, value, 6)),
        deprecated: read_flag(member(Shape::Operation, value, 7)),
        responses: read_members(member(Shape::Operation, value, 8)),
    }
}

fn read_optional_operation(value: Option<&JsonValue>) -> (r: Option<RawOperation>)
    ensures
        r.deep_view() == optional_operation(value.deep_view()),
{
    match value {
        Some(JsonValue::Null) => None,
        Some(v) => Some(read_operation(v)),
        None => None,
    }
}

fn read_path_item(value: &JsonValue) -> (r: RawPathItem)
    ensures
        r@ == path_item_of(value@),
{
    let r = RawPathItem {
        get: read_optional_operation(member(Shape::PathItem, value, 0)),
        put: read_optional_operation(member(Shape::PathItem, value, 1)),
        post: read_optional_operation(member(Shape::PathItem, value, 2)),
        delete: read_optional_operation(member(Shape::PathItem, value, 3)),
        options: read_optional_operation(member(Shape::PathItem, value, 4)),
        head: read_optional_operation(member(Shape::PathItem, value, 5)),
        patch: read_optional_operation(member(Shape::PathItem, value, 6)),
        trace: read_optional_operation(member(Shape::PathItem, value, 7)),
        parameters: read_values(member(Shape::PathItem, value, 8)),
    };
    assert(r@.operations =~= path_item_of(value@).operations);
    r
}

impl RawParameter {
    /// Reads a parameter object, or says what is wrong with it.
    pub fn read(value: &JsonValue) -> (r: Result<RawParameter, String>)
        ensures
            match r {
                Ok(parameter) => fault(Shape::Parameter, value@) is None && parameter@
                    == parameter_of(value@),
                Err(message) => fault(Shape::Parameter, value@) == Some(message@),
            },
    {
        match find_fault(Shape::Parameter, value) {
            Some(message) => Err(message),
            None => Ok(
                RawParameter {
                    name: read_text(member(Shape::Parameter, value, 0)),
                    location: read_text(member(Shape::Parameter, value, 1)),
                    required: read_flag(member(Shape::Parameter, value, 2)),
                    description: read_optional_text(member(Shape::Parameter, value, 3)),
                    schema: read_optional_value(member(Shape::Parameter, value, 4)),
                },
            ),
        }
    }
}

impl RawSpec {
    /// Reads an OpenAPI document, or says what is wrong with it.
    pub fn read(document: &JsonValue) -> (r: Result<RawSpec, String>)
        ensures
            match r {
                Ok(raw) => fault(Shape::Spec, document@) is None && raw@ == spec_of(document@),
                Err(message) => fault(Shape::Spec, document@) == Some(message@),
            },
    {
        match find_fault(Shape::Spec, document) {
            Some(message) => {
                return Err(message);
            },
            None => {},
        }
        let (title, version) = match member(Shape::Spec, document, 1) {
            Some(info) => (
                read_text(member(Shape::Info, info, 0)),
                read_text(member(Shape::Info, info, 1)),
            ),
            None => (String::new(), String::new()),
        };
        let ghost expected = spec_of(document@);
        let ghost path_members = members_or_empty(member_at(Shape::Spec, document@, 2));
        let mut paths: Vec<(String, RawPathItem)> = Vec::new();
        match member(Shape::Spec, document, 2) {
            Some(JsonValue::Object(map)) => {
                for i in 0..map.entries.len()
                    invariant
                        path_members == map.members(),
                        paths@.len() == i,
                        forall|k: int|
                            0 <= k < i ==> (#[trigger] paths@[k]).0@ == path_members[k].0
                                && paths@[k].1@ == path_item_of(path_members[k].1),
                {
                    assert(path_members[i as int] == (
                        map.entries@[i as int].0@,
                        map.entries@[i as int].1@,
                    ));
                    paths.push((map.entries[i].0.clone(), read_path_item(&map.entries[i].1)));
                }
            },
            _ => {},
        }
        assert(paths.deep_view() =~= expected.paths);
        let ghost tag_items = values_or_empty(member_at(Shape::Spec, document@, 3));
        let mut tags: Vec<RawTagDecl> = Vec::new();
        match member(Shape::Spec, document, 3) {
            Some(JsonValue::Array(items)) => {
                for i in 0..items.len()
                    invariant
                        tag_items == list_json(items),
                        tags@.len() == i,
                        forall|k: int| 0 <= k < i ==> (#[trigger] tags@[k])@ == tag_of(tag_items[k]),
                {
                    assert(tag_items[i as int] == items@[i as int]@);
                    tags.push(
                        RawTagDecl {
                            name: read_text(member(Shape::Tag, &items[i], 0)),
                            description: read_optional_text(member(Shape::Tag, &items[i], 1)),
                        },
                    );
                }
            },
            _ => {},
        }
        assert(tags.deep_view() =~= expected.tags);
        Ok(
            RawSpec {
                openapi: read_text(member(Shape::Spec, document, 0)),
                info: RawInfo { title, version },
                paths,
                tags,
                security: read_optional_values(member(Shape::Spec, document, 4)),
            },
        )
    }
}

impl RawPathItem {
    /// The declared operations with their methods, in the fixed order of methods.
    pub fn operations(&self) -> (r: Vec<(&'static str, &RawOperation)>)
        ensures
            r.deep_view() == declared(self@.operations, 0),
    {
        let ghost all = self@.operations;
        let mut out: Vec<(&'static str, &RawOperation)> = Vec::new();
        assert(out.deep_view() + declared(all, 0) =~= declared(all, 0));
        let mut i: usize = 0;
        while i < 8
            invariant
                i <= 8,
                all == self@.operations,
                out.deep_view() + declared(all, i as int) == declared(all, 0),
            decreases 8 - i,
        {
            let ghost before = out.deep_view();
            let (method, operation) = self.slot(i);
            match operation {
                Some(op) => {
                    out.push((method, op));
                    assert(out.deep_view() =~= before.push((method@, op@)));
                    assert(before.push((method@, op@)) + declared(all, i + 1) =~= before + (seq![
                        (method@, op@),
                    ] + declared(all, i + 1)));
                },
                None => {},
            }
            i += 1;
        }
        assert(out.deep_view() =~= declared(all, 0));
        out
    }

    fn slot(&self, i: usize) -> (r: (&'static str, &Option<RawOperation>))
        requires
            i < 8,
        ensures
            r.0@ == methods()[i as int],
            r.1.deep_view() == self@.operations[i as int],
    {
        if i == 0 {
            ("GET", &self.get)
        } else if i == 1 {
            ("PUT", &self.put)
        } else if i == 2 {
            ("POST", &self.post)
        } else if i == 3 {
            ("DELETE", &self.delete)
        } else if i == 4 {
            ("OPTIONS", &self.options)
        } else if i == 5 {
            ("HEAD", &self.head)
        } else if i == 6 {
            ("PATCH", &self.patch)
        } else {
            ("TRACE", &self.trace)
        }
    }
}

/// The methods in the order in which operations are listed.
pub open spec fn methods() -> Seq<Seq<char>> {
    seq!["GET"@, "PUT"@, "POST"@, "DELETE"@, "OPTIONS"@, "HEAD"@, "PATCH"@, "TRACE"@]
}

/// The operations that are there from position `i` on, with their methods.
pub open spec fn declared(
    operations: Seq<Option<RawOperationShape>>,
    i: int,
) -> Seq<(Seq<char>, RawOperationShape)>
    decreases operations.len() - i,
{
    if i < 0 || i >= operations.len() {
        Seq::empty()
    } else {
        match operations[i] {
            Some(operation) => seq![(methods()[i], operation)] + declared(operations, i + 1),
            None => declared(operations, i + 1),
        }
    }
}

} // verus!
