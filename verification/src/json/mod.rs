//! JSON documents: the value type, member access, and the mathematical model
//! that every contract about documents speaks of.

pub mod laws;
pub mod notation;
pub mod parse;
pub mod pointer;
pub mod print;

use crate::json::parse::{decimal_fraction, read_fraction};
use crate::text::{same, show, show_signed, signed_decimal};
use vstd::prelude::*;

verus! {

/// A JSON document as a mathematical value. Objects keep the order in which
/// their members were first written.
pub enum Json {
    Null,
    Bool(bool),
    Int(int),
    /// A number with a fraction or exponent, in its shortest notation.
    Float(Seq<char>),
    Text(Seq<char>),
    Array(Seq<Json>),
    Object(Seq<(Seq<char>, Json)>),
}

/// A JSON number.
#[derive(Debug, PartialEq)]
pub enum Number {
    PosInt(u64),
    NegInt(i64),
    /// Shortest notation of a number that is no integer.
    Float(String),
}

/// A JSON document.
#[derive(Debug, PartialEq)]
pub enum JsonValue {
    Null,
    Bool(bool),
    Number(Number),
    Text(String),
    Array(Vec<JsonValue>),
    Object(JsonMap),
}

/// The members of an object, in the order of their first insertion.
#[derive(Debug, PartialEq)]
pub struct JsonMap {
    pub entries: Vec<(String, JsonValue)>,
}

// ---------------------------------------------------------------- views

impl Number {
    pub open spec fn json(&self) -> Json {
        match self {
            Number::PosInt(n) => Json::Int(*n as int),
            Number::NegInt(n) => Json::Int(*n as int),
            Number::Float(notation) => Json::Float(notation@),
        }
    }
}

impl View for Number {
    type V = Json;

    open spec fn view(&self) -> Json {
        self.json()
    }
}

impl DeepView for Number {
    type V = Json;

    open spec fn deep_view(&self) -> Json {
        self.json()
    }
}

impl JsonValue {
    pub open spec fn json(&self) -> Json
        decreases self,
    {
        match self {
            JsonValue::Null => Json::Null,
            JsonValue::Bool(b) => Json::Bool(*b),
            JsonValue::Number(n) => n.json(),
            JsonValue::Text(s) => Json::Text(s@),
            JsonValue::Array(items) => Json::Array(list_json(items)),
            JsonValue::Object(map) => Json::Object(map.members()),
        }
    }
}

/// The models of a list of documents.
pub open spec fn list_json(items: &Vec<JsonValue>) -> Seq<Json>
    decreases items,
{
    Seq::new(
        items@.len(),
        |i: int|
            if 0 <= i < items@.len() {
                items@[i].json()
            } else {
                Json::Null
            },
    )
}

impl JsonMap {
    pub open spec fn members(&self) -> Seq<(Seq<char>, Json)>
        decreases self,
    {
        Seq::new(
            self.entries@.len(),
            |i: int|
                if 0 <= i < self.entries@.len() {
                    (self.entries@[i].0@, self.entries@[i].1.json())
                } else {
                    (Seq::empty(), Json::Null)
                },
        )
    }
}

impl View for JsonValue {
    type V = Json;

    open spec fn view(&self) -> Json {
        self.json()
    }
}

impl DeepView for JsonValue {
    type V = Json;

    open spec fn deep_view(&self) -> Json {
        self.json()
    }
}

impl View for JsonMap {
    type V = Seq<(Seq<char>, Json)>;

    open spec fn view(&self) -> Seq<(Seq<char>, Json)> {
        self.members()
    }
}

impl DeepView for JsonMap {
    type V = Seq<(Seq<char>, Json)>;

    open spec fn deep_view(&self) -> Seq<(Seq<char>, Json)> {
        self.members()
    }
}

// ---------------------------------------------------------------- model

/// Position of the first member named `key` at or after `i`.
pub open spec fn position_from(
    members: Seq<(Seq<char>, Json)>,
    key: Seq<char>,
    i: int,
) -> Option<int>
    decreases members.len() - i,
{
    if i < 0 || i >= members.len() {
        None
    } else if members[i].0 == key {
        Some(i)
    } else {
        position_from(members, key, i + 1)
    }
}

/// The value of the member named `key`.
pub open spec fn lookup(members: Seq<(Seq<char>, Json)>, key: Seq<char>) -> Option<Json> {
    match position_from(members, key, 0) {
        Some(i) => Some(members[i].1),
        None => None,
    }
}

/// Whether a member is named `key`.
pub open spec fn has_key(members: Seq<(Seq<char>, Json)>, key: Seq<char>) -> bool {
    position_from(members, key, 0) is Some
}

/// The members after writing `value` under `key`: an existing member keeps its
/// place, a new one goes to the end.
pub open spec fn put(
    members: Seq<(Seq<char>, Json)>,
    key: Seq<char>,
    value: Json,
) -> Seq<(Seq<char>, Json)> {
    match position_from(members, key, 0) {
        Some(i) => members.update(i, (key, value)),
        None => members.push((key, value)),
    }
}

/// No two members share a name.
pub open spec fn distinct_keys(members: Seq<(Seq<char>, Json)>) -> bool {
    forall|i: int, j: int|
        0 <= i < j < members.len() ==> (#[trigger] members[i]).0 != (#[trigger] members[j]).0
}

impl Json {
    /// The member named `key`, where the document is an object that has it.
    pub open spec fn member(self, key: Seq<char>) -> Option<Json> {
        match self {
            Json::Object(members) => lookup(members, key),
            _ => None,
        }
    }

    pub open spec fn as_text(self) -> Option<Seq<char>> {
        match self {
            Json::Text(s) => Some(s),
            _ => None,
        }
    }

    pub open spec fn as_bool(self) -> Option<bool> {
        match self {
            Json::Bool(b) => Some(b),
            _ => None,
        }
    }

    pub open spec fn as_items(self) -> Option<Seq<Json>> {
        match self {
            Json::Array(items) => Some(items),
            _ => None,
        }
    }

    pub open spec fn as_members(self) -> Option<Seq<(Seq<char>, Json)>> {
        match self {
            Json::Object(members) => Some(members),
            _ => None,
        }
    }

    /// The integer, where it fits in 64 signed bits.
    pub open spec fn as_i64(self) -> Option<i64> {
        match self {
            Json::Int(n) if i64::MIN <= n <= i64::MAX => Some(n as i64),
            _ => None,
        }
    }

    /// The integer, where it fits in 64 unsigned bits.
    pub open spec fn as_u64(self) -> Option<u64> {
        match self {
            Json::Int(n) if 0 <= n <= u64::MAX => Some(n as u64),
            _ => None,
        }
    }
}

// ---------------------------------------------------------------- laws of members

pub proof fn lemma_position_bounds(members: Seq<(Seq<char>, Json)>, key: Seq<char>, i: int)
    requires
        0 <= i,
    ensures
        match position_from(members, key, i) {
            Some(p) => i <= p < members.len() && members[p].0 == key && forall|k: int|
                i <= k < p ==> (#[trigger] members[k]).0 != key,
            None => forall|k: int| i <= k < members.len() ==> (#[trigger] members[k]).0 != key,
        },
    decreases members.len() - i,
{
    if i < members.len() && members[i].0 != key {
        lemma_position_bounds(members, key, i + 1);
    }
}

/// Where the first member with a name stands decides its position.
pub proof fn lemma_position_is(
    members: Seq<(Seq<char>, Json)>,
    key: Seq<char>,
    i: int,
    p: int,
)
    requires
        0 <= i <= p < members.len(),
        members[p].0 == key,
        forall|k: int| i <= k < p ==> (#[trigger] members[k]).0 != key,
    ensures
        position_from(members, key, i) == Some(p),
    decreases p - i,
{
    if i < p {
        lemma_position_is(members, key, i + 1, p);
    }
}

/// Reading a member gives back what was last written under its name.
pub proof fn law_lookup_after_put(
    members: Seq<(Seq<char>, Json)>,
    key: Seq<char>,
    value: Json,
)
    ensures
        lookup(put(members, key, value), key) == Some(value),
{
    lemma_position_bounds(members, key, 0);
    let after = put(members, key, value);
    match position_from(members, key, 0) {
        Some(p) => {
            lemma_position_is(after, key, 0, p);
        },
        None => {
            assert forall|k: int| 0 <= k < members.len() implies (#[trigger] after[k]).0 != key by {
                assert(after[k] == members[k]);
            }
            lemma_position_is(after, key, 0, members.len() as int);
        },
    }
}

/// Writing one member leaves every other member as it was.
pub proof fn law_put_keeps_others(
    members: Seq<(Seq<char>, Json)>,
    key: Seq<char>,
    value: Json,
    other: Seq<char>,
)
    requires
        other != key,
    ensures
        lookup(put(members, key, value), other) == lookup(members, other),
{
    lemma_position_bounds(members, key, 0);
    lemma_position_bounds(members, other, 0);
    let after = put(members, key, value);
    assert forall|k: int| 0 <= k < members.len() implies ((#[trigger] after[k]).0 == other
        <==> members[k].0 == other) by {
        assert(members[k].0 == members[k].0);
    }
    match position_from(members, other, 0) {
        Some(p) => {
            assert(after[p].0 == members[p].0);
            assert forall|k: int| 0 <= k < p implies (#[trigger] after[k]).0 != other by {
                assert(members[k].0 != other);
            }
            lemma_position_is(after, other, 0, p);
        },
        None => {
            lemma_position_bounds(after, other, 0);
            if position_from(after, other, 0) is Some {
                let q = position_from(after, other, 0)->0;
                if q < members.len() {
                    assert(members[q].0 == other);
                }
            }
        },
    }
}

/// Writing a member keeps names distinct.
pub proof fn law_put_keeps_keys_distinct(
    members: Seq<(Seq<char>, Json)>,
    key: Seq<char>,
    value: Json,
)
    requires
        distinct_keys(members),
    ensures
        distinct_keys(put(members, key, value)),
{
    lemma_position_bounds(members, key, 0);
    let after = put(members, key, value);
    assert forall|i: int, j: int| 0 <= i < j < after.len() implies (#[trigger] after[i]).0 != (
    #[trigger] after[j]).0 by {
        match position_from(members, key, 0) {
            Some(p) => {
                assert(after[i].0 == members[i].0);
                assert(after[j].0 == members[j].0);
            },
            None => {
                assert(after[i] == members[i]);
                if j < members.len() {
                    assert(after[j] == members[j]);
                }
            },
        }
    }
}

// ---------------------------------------------------------------- operations

impl Clone for Number {
    fn clone(&self) -> (r: Number)
        ensures
            r@ == self@,
    {
        match self {
            Number::PosInt(n) => Number::PosInt(*n),
            Number::NegInt(n) => Number::NegInt(*n),
            Number::Float(notation) => Number::Float(notation.clone()),
        }
    }
}

impl Number {
    /// The number in the notation of a binary fraction.
    pub fn fraction(&self) -> (r: Option<String>)
        ensures
            r.deep_view() == (match self@ {
                Json::Float(notation) => Some(notation),
                Json::Int(n) => match decimal_fraction(signed_decimal(n)) {
                    Some(Some(notation)) => Some(notation),
                    _ => None,
                },
                _ => None,
            }),
    {
        let digits = match self {
            Number::PosInt(n) => show(*n),
            Number::NegInt(n) => show_signed(*n),
            Number::Float(notation) => {
                return Some(notation.clone());
            },
        };
        match read_fraction(digits.as_str()) {
            Some(Some(notation)) => Some(notation),
            _ => None,
        }
    }
}

impl Clone for JsonValue {
    fn clone(&self) -> (r: JsonValue)
        ensures
            r@ == self@,
        decreases self,
    {
        match self {
            JsonValue::Null => JsonValue::Null,
            JsonValue::Bool(b) => JsonValue::Bool(*b),
            JsonValue::Number(n) => JsonValue::Number(n.clone()),
            JsonValue::Text(s) => JsonValue::Text(s.clone()),
            JsonValue::Array(items) => {
                let mut out: Vec<JsonValue> = Vec::new();
                for i in 0..items.len()
                    invariant
                        decreases_to!(self => items),
                        out@.len() == i,
                        forall|k: int| 0 <= k < i ==> (#[trigger] out@[k])@ == items@[k]@,
                {
                    out.push(items[i].clone());
                }
                assert(list_json(&out) =~= list_json(items));
                JsonValue::Array(out)
            },
            JsonValue::Object(map) => JsonValue::Object(map.clone()),
        }
    }
}

impl Clone for JsonMap {
    fn clone(&self) -> (r: JsonMap)
        ensures
            r@ == self@,
        decreases self,
    {
        let mut out: Vec<(String, JsonValue)> = Vec::new();
        for i in 0..self.entries.len()
            invariant
                out@.len() == i,
                forall|k: int|
                    0 <= k < i ==> (#[trigger] out@[k]).0@ == self.entries@[k].0@ && out@[k].1@
                        == self.entries@[k].1@,
        {
            out.push((self.entries[i].0.clone(), self.entries[i].1.clone()));
        }
        let r = JsonMap { entries: out };
        assert(r.members() =~= self.members());
        r
    }
}

impl JsonMap {
    /// An object without members.
    pub fn new() -> (r: JsonMap)
        ensures
            r@ == Seq::<(Seq<char>, Json)>::empty(),
    {
        let r = JsonMap { entries: Vec::new() };
        assert(r.members() =~= Seq::empty());
        r
    }

    pub fn len(&self) -> (r: usize)
        ensures
            r == self@.len(),
    {
        self.entries.len()
    }

    pub fn is_empty(&self) -> (r: bool)
        ensures
            r == (self@.len() == 0),
    {
        self.entries.len() == 0
    }

    /// Position of the member named `key`.
    pub fn position(&self, key: &str) -> (r: Option<usize>)
        ensures
            match r {
                Some(i) => position_from(self@, key@, 0) == Some(i as int) && i < self@.len(),
                None => position_from(self@, key@, 0) is None,
            },
    {
        let mut i: usize = 0;
        while i < self.entries.len()
            invariant
                i <= self@.len(),
                position_from(self@, key@, 0) == position_from(self@, key@, i as int),
            decreases self@.len() - i,
        {
            assert(self@[i as int].0 == self.entries@[i as int].0@);
            if same(self.entries[i].0.as_str(), key) {
                return Some(i);
            }
            i += 1;
        }
        None
    }

    /// The value of the member named `key`.
    pub fn get(&self, key: &str) -> (r: Option<&JsonValue>)
        ensures
            r.deep_view() == lookup(self@, key@),
    {
        match self.position(key) {
            Some(i) => Some(&self.entries[i].1),
            None => None,
        }
    }

    pub fn contains_key(&self, key: &str) -> (r: bool)
        ensures
            r == has_key(self@, key@),
    {
        self.position(key).is_some()
    }

    /// Adds a member at the end, whatever names are there already.
    pub fn append(&mut self, key: &str, value: JsonValue)
        ensures
            final(self)@ == old(self)@.push((key@, value@)),
    {
        let ghost before = self@;
        let ghost added = (key@, value@);
        self.entries.push((key.to_owned(), value));
        assert(self@ =~= before.push(added));
    }

    /// Adds a text member at the end.
    pub fn append_text(&mut self, key: &str, text: &str)
        ensures
            final(self)@ == old(self)@.push((key@, Json::Text(text@))),
    {
        self.append(key, JsonValue::text(text));
    }

    /// Writes a member: an existing one keeps its place, a new one goes to the end.
    pub fn insert(&mut self, key: String, value: JsonValue)
        ensures
            final(self)@ == put(old(self)@, key@, value@),
    {
        let ghost before = self@;
        let ghost name = key@;
        let ghost written = value@;
        match self.position(key.as_str()) {
            Some(i) => {
                self.entries.set(i, (key, value));
                assert(self@ =~= before.update(i as int, (name, written)));
            },
            None => {
                self.entries.push((key, value));
                assert(self@ =~= before.push((name, written)));
            },
        }
    }
}

impl JsonValue {
    pub fn text(s: &str) -> (r: JsonValue)
        ensures
            r@ == Json::Text(s@),
    {
        JsonValue::Text(s.to_owned())
    }

    pub fn unsigned(n: u64) -> (r: JsonValue)
        ensures
            r@ == Json::Int(n as int),
    {
        JsonValue::Number(Number::PosInt(n))
    }

    pub fn signed(n: i64) -> (r: JsonValue)
        ensures
            r@ == Json::Int(n as int),
    {
        if n < 0 {
            JsonValue::Number(Number::NegInt(n))
        } else {
            JsonValue::Number(Number::PosInt(n as u64))
        }
    }

    /// An array of texts.
    pub fn texts(items: &Vec<String>) -> (r: JsonValue)
        ensures
            r@ == Json::Array(
                Seq::new(items@.len(), |i: int| Json::Text(items.deep_view()[i])),
            ),
    {
        let mut out: Vec<JsonValue> = Vec::new();
        for i in 0..items.len()
            invariant
                out@.len() == i,
                forall|k: int| 0 <= k < i ==> (#[trigger] out@[k])@ == Json::Text(items@[k]@),
        {
            out.push(JsonValue::Text(items[i].clone()));
        }
        assert(list_json(&out) =~= Seq::new(
            items@.len(),
            |i: int| Json::Text(items.deep_view()[i]),
        ));
        JsonValue::Array(out)
    }

    /// The member named `key`, where the document is an object that has it.
    pub fn get(&self, key: &str) -> (r: Option<&JsonValue>)
        ensures
            r.deep_view() == self@.member(key@),
    {
        match self {
            JsonValue::Object(map) => map.get(key),
            _ => None,
        }
    }

    pub fn as_str(&self) -> (r: Option<&str>)
        ensures
            r.deep_view() == self@.as_text(),
    {
        match self {
            JsonValue::Text(s) => Some(s.as_str()),
            _ => None,
        }
    }

    pub fn as_bool(&self) -> (r: Option<bool>)
        ensures
            r == self@.as_bool(),
    {
        match self {
            JsonValue::Bool(b) => Some(*b),
            _ => None,
        }
    }

    pub fn as_array(&self) -> (r: Option<&Vec<JsonValue>>)
        ensures
            match r {
                Some(items) => self@ == Json::Array(list_json(items)),
                None => self@.as_items() is None,
            },
    {
        match self {
            JsonValue::Array(items) => Some(items),
            _ => None,
        }
    }

    pub fn as_object(&self) -> (r: Option<&JsonMap>)
        ensures
            r.deep_view() == self@.as_members(),
    {
        match self {
            JsonValue::Object(map) => Some(map),
            _ => None,
        }
    }

    /// The integer, where it fits in 64 signed bits.
    pub fn as_i64(&self) -> (r: Option<i64>)
        ensures
            r == self@.as_i64(),
    {
        match self {
            JsonValue::Number(Number::PosInt(n)) => {
                if *n <= 9223372036854775807 {
                    Some(*n as i64)
                } else {
                    None
                }
            },
            JsonValue::Number(Number::NegInt(n)) => Some(*n),
            _ => None,
        }
    }

    /// The integer, where it fits in 64 unsigned bits.
    pub fn as_u64(&self) -> (r: Option<u64>)
        ensures
            r == self@.as_u64(),
    {
        match self {
            JsonValue::Number(Number::PosInt(n)) => Some(*n),
            JsonValue::Number(Number::NegInt(n)) => {
                if *n >= 0 {
                    Some(*n as u64)
                } else {
                    None
                }
            },
            _ => None,
        }
    }

    pub fn is_null(&self) -> (r: bool)
        ensures
            r == (self@ is Null),
    {
        match self {
            JsonValue::Null => true,
            _ => false,
        }
    }

    pub fn is_object(&self) -> (r: bool)
        ensures
            r == (self@ is Object),
    {
        match self {
            JsonValue::Object(_) => true,
            _ => false,
        }
    }
}

} // verus!
