//! Reading JSON text.

use super::{Json, JsonMap, Number, JsonValue};
use vstd::prelude::*;

verus! {

/// A document as `serde_json` holds it.
#[verifier::external_type_specification]
#[verifier::external_body]
pub struct ExDocument(serde_json::Value);

/// What a document of `serde_json` holds.
pub uninterp spec fn json_of(document: serde_json::Value) -> Json;

/// What JSON text denotes, or why it denotes nothing.
pub uninterp spec fn parsed(text: Seq<char>) -> Result<Json, Seq<char>>;

/// What a decimal notation denotes: nothing, a number outside the finite
/// range, or the shortest notation of a finite number.
pub uninterp spec fn decimal_fraction(text: Seq<char>) -> Option<Option<Seq<char>>>;

/// One level of a document of `serde_json`.
enum Opened<'a> {
    Null,
    Bool(bool),
    Number { unsigned: Option<u64>, signed: Option<i64>, notation: String },
    Text(&'a String),
    Array(&'a Vec<serde_json::Value>),
    Object(Vec<(&'a String, &'a serde_json::Value)>),
}

/// The model of one opened level.
spec fn opened_json(opened: Opened) -> Json {
    match opened {
        Opened::Null => Json::Null,
        Opened::Bool(b) => Json::Bool(b),
        Opened::Number { unsigned: Some(n), .. } => Json::Int(n as int),
        Opened::Number { unsigned: None, signed: Some(n), .. } => Json::Int(n as int),
        Opened::Number { unsigned: None, signed: None, notation } => Json::Float(notation@),
        Opened::Text(s) => Json::Text(s@),
        Opened::Array(items) => Json::Array(items@.map_values(|v: serde_json::Value| json_of(v))),
        Opened::Object(entries) => Json::Object(
            entries@.map_values(|e: (&String, &serde_json::Value)| (e.0@, json_of(*e.1))),
        ),
    }
}

/// Tells the variants of a `serde_json::Value` apart and hands out their
/// fields: a number by `as_u64`, `as_i64` and its notation, an object by its
/// members in the order of the map.
#[verifier::external_body]
fn open<'a>(document: &'a serde_json::Value) -> (r: Opened<'a>)
    ensures
        opened_json(r) == json_of(*document),
{
    match document {
        serde_json::Value::Null => Opened::Null,
        serde_json::Value::Bool(b) => Opened::Bool(*b),
        serde_json::Value::Number(n) => Opened::Number {
            unsigned: n.as_u64(),
            signed: n.as_i64(),
            notation: n.to_string(),
        },
        serde_json::Value::String(s) => Opened::Text(s),
        serde_json::Value::Array(items) => Opened::Array(items),
        serde_json::Value::Object(map) => Opened::Object(map.iter().collect()),
    }
}

/// `serde_json::from_str` reads a document; the outcome and the message of a
/// failure depend on the text alone.
#[verifier::external_body]
fn read(text: &str) -> (r: Result<serde_json::Value, String>)
    ensures
        match r {
            Ok(document) => parsed(text@) == Ok::<Json, Seq<char>>(json_of(document)),
            Err(message) => parsed(text@) == Err::<Json, Seq<char>>(message@),
        },
{
    serde_json::from_str(text).map_err(|e| e.to_string())
}

/// `str::parse` to a binary fraction and `serde_json::Number::from_f64`: the
/// notation that `serde_json` gives the number, which depends on the text alone.
#[verifier::external_body]
pub(crate) fn read_fraction(text: &str) -> (r: Option<Option<String>>)
    ensures
        r.deep_view() == decimal_fraction(text@),
{
    match text.parse() {
        Ok(n) => Some(serde_json::Number::from_f64(n).map(|number| number.to_string())),
        Err(_) => None,
    }
}

/// Takes over a document of `serde_json`.
fn import(document: &serde_json::Value) -> (r: JsonValue)
    ensures
        r@ == json_of(*document),
    decreases json_of(*document),
{
    match open(document) {
        Opened::Null => JsonValue::Null,
        Opened::Bool(b) => JsonValue::Bool(b),
        Opened::Number { unsigned, signed, notation } => match (unsigned, signed) {
            (Some(n), _) => JsonValue::Number(Number::PosInt(n)),
            (None, Some(n)) => JsonValue::Number(Number::NegInt(n)),
            (None, None) => JsonValue::Number(Number::Float(notation)),
        },
        Opened::Text(s) => JsonValue::Text(s.clone()),
        Opened::Array(items) => {
            let mut out: Vec<JsonValue> = Vec::new();
            let ghost all = items@.map_values(|v: serde_json::Value| json_of(v));
            for i in 0..items.len()
                invariant
                    all == items@.map_values(|v: serde_json::Value| json_of(v)),
                    json_of(*document) == Json::Array(all),
                    out@.len() == i,
                    forall|k: int| 0 <= k < i ==> (#[trigger] out@[k])@ == all[k],
            {
                let ghost whole = json_of(*document);
                assert(whole->Array_0[i as int] == json_of(items@[i as int]));
                assert(decreases_to!(whole => whole->Array_0[i as int]));
                out.push(import(&items[i]));
            }
            assert(super::list_json(&out) =~= all);
            JsonValue::Array(out)
        },
        Opened::Object(entries) => {
            let mut out: Vec<(String, JsonValue)> = Vec::new();
            let ghost all = entries@.map_values(
                |e: (&String, &serde_json::Value)| (e.0@, json_of(*e.1)),
            );
            for i in 0..entries.len()
                invariant
                    all == entries@.map_values(
                        |e: (&String, &serde_json::Value)| (e.0@, json_of(*e.1)),
                    ),
                    json_of(*document) == Json::Object(all),
                    out@.len() == i,
                    forall|k: int|
                        0 <= k < i ==> (#[trigger] out@[k]).0@ == all[k].0 && out@[k].1@
                            == all[k].1,
            {
                let ghost whole = json_of(*document);
                assert(whole->Object_0[i as int] == (
                    entries@[i as int].0@,
                    json_of(*entries@[i as int].1),
                ));
                assert(decreases_to!(whole => whole->Object_0[i as int].1));
                out.push((entries[i].0.clone(), import(entries[i].1)));
            }
            let map = JsonMap { entries: out };
            assert(map.members() =~= all);
            JsonValue::Object(map)
        },
    }
}

impl JsonValue {
    /// Reads a document, or says why the text is none.
    pub fn parse(text: &str) -> (r: Result<JsonValue, String>)
        ensures
            match r {
                Ok(value) => parsed(text@) == Ok::<Json, Seq<char>>(value@),
                Err(message) => parsed(text@) == Err::<Json, Seq<char>>(message@),
            },
    {
        match read(text) {
            Ok(document) => Ok(import(&document)),
            Err(message) => Err(message),
        }
    }

    /// The number that a decimal notation denotes, where it is finite.
    pub fn from_fraction(text: &str) -> (r: Option<JsonValue>)
        ensures
            r.deep_view() == (match decimal_fraction(text@) {
                Some(Some(notation)) => Some(Json::Float(notation)),
                _ => None,
            }),
    {
        match read_fraction(text) {
            Some(Some(notation)) => Some(JsonValue::Number(Number::Float(notation))),
            _ => None,
        }
    }
}

} // verus!
