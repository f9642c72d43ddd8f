//! JSON Pointer (RFC 6901).

use super::{list_json, Json, JsonValue};
use crate::text::{
    all_digits, chars_of, digits_from, digits_value, digits_within, find, find_from, text_between,
};
use vstd::prelude::*;

verus! {

/// The parts of `s` between occurrences of `c`.
pub open spec fn segments(s: Seq<char>, c: char) -> Seq<Seq<char>>
    decreases s.len(),
{
    match find_from(s, c, 0) {
        Some(i) if 0 <= i < s.len() => seq![s.take(i)] + segments(s.skip(i + 1), c),
        _ => seq![s],
    }
}

/// Every pair `a``b` replaced by `by`, from left to right.
pub open spec fn pairs_replaced(s: Seq<char>, a: char, b: char, by: char) -> Seq<char>
    decreases s.len(),
{
    if s.len() == 0 {
        s
    } else if s.len() >= 2 && s[0] == a && s[1] == b {
        seq![by] + pairs_replaced(s.skip(2), a, b, by)
    } else {
        seq![s[0]] + pairs_replaced(s.skip(1), a, b, by)
    }
}

/// A reference token with `~1` and `~0` decoded.
pub open spec fn token_text(raw: Seq<char>) -> Seq<char> {
    pairs_replaced(pairs_replaced(raw, '~', '1', '/'), '~', '0', '~')
}

/// The array index that a token denotes: digits without a leading zero.
pub open spec fn token_index(token: Seq<char>) -> Option<nat> {
    if token.len() > 0 && all_digits(token) && (token.len() == 1 || token[0] != '0') {
        Some(digits_value(token))
    } else {
        None
    }
}

/// One step down: the named member of an object or the indexed item of an array.
pub open spec fn step(at: Json, token: Seq<char>) -> Option<Json> {
    match at {
        Json::Object(_) => at.member(token),
        Json::Array(items) => match token_index(token) {
            Some(n) if n < items.len() => Some(items[n as int]),
            _ => None,
        },
        _ => None,
    }
}

/// The document reached by the tokens from position `i` on.
pub open spec fn walk(at: Json, raw: Seq<Seq<char>>, i: int) -> Option<Json>
    decreases raw.len() - i,
{
    if i < 0 || i >= raw.len() {
        Some(at)
    } else {
        match step(at, token_text(raw[i])) {
            Some(next) => walk(next, raw, i + 1),
            None => None,
        }
    }
}

/// The document that a pointer addresses.
pub open spec fn pointed(doc: Json, pointer: Seq<char>) -> Option<Json> {
    if pointer.len() == 0 {
        Some(doc)
    } else if pointer[0] != '/' {
        None
    } else {
        walk(doc, segments(pointer, '/'), 1)
    }
}

proof fn lemma_find_skips(s: Seq<char>, c: char, at: int, i: int)
    requires
        0 <= at <= i <= s.len(),
    ensures
        match find_from(s, c, i) {
            Some(p) => i <= p < s.len() && find_from(s.skip(at), c, i - at) == Some(p - at),
            None => find_from(s.skip(at), c, i - at) is None,
        },
    decreases s.len() - i,
{
    if i < s.len() {
        assert(s.skip(at)[i - at] == s[i]);
        if s[i] != c {
            lemma_find_skips(s, c, at, i + 1);
        }
    }
}

/// The parts of a text between occurrences of `c`.
pub fn split(s: &str, c: char) -> (r: Vec<String>)
    ensures
        r.deep_view() == segments(s@, c),
{
    let chars = chars_of(s);
    let len: usize = chars.len();
    let mut out: Vec<String> = Vec::new();
    let mut from: usize = 0;
    assert(s@.skip(0) =~= s@);
    assert(out.deep_view() + segments(s@.skip(0), c) =~= segments(s@, c));
    loop
        invariant_except_break
            out.deep_view() + segments(s@.skip(from as int), c) == segments(s@, c),
        invariant
            chars@ == s@,
            len == chars@.len(),
            from <= len,
        ensures
            out.deep_view() == segments(s@, c),
        decreases len + 1 - from,
    {
        proof {
            lemma_find_skips(s@, c, from as int, from as int);
        }
        let ghost before = out.deep_view();
        let ghost rest = s@.skip(from as int);
        match find(&chars, c, from) {
            Some(i) => {
                let part = text_between(&chars, from, i);
                assert(part@ =~= rest.take(i - from));
                assert(rest.skip(i - from + 1) =~= s@.skip(i + 1));
                out.push(part);
                assert(out.deep_view() =~= before.push(rest.take(i - from)));
                assert(out.deep_view() + segments(s@.skip(i + 1), c) =~= before + (seq![
                    rest.take(i - from),
                ] + segments(rest.skip(i - from + 1), c)));
                from = i + 1;
            },
            None => {
                let part = text_between(&chars, from, len);
                assert(part@ =~= rest);
                out.push(part);
                assert(out.deep_view() =~= before + seq![rest]);
                break;
            },
        }
    }
    out
}

/// Every pair of characters replaced by one, from left to right.
fn replace_pairs(s: &str, a: char, b: char, by: char) -> (r: String)
    ensures
        r@ == pairs_replaced(s@, a, b, by),
{
    let chars = chars_of(s);
    let mut out = String::new();
    let mut i: usize = 0;
    assert(s@.skip(0) =~= s@);
    assert(out@ + pairs_replaced(s@, a, b, by) =~= pairs_replaced(s@, a, b, by));
    while i < chars.len()
        invariant
            chars@ == s@,
            i <= chars@.len(),
            out@ + pairs_replaced(s@.skip(i as int), a, b, by) == pairs_replaced(s@, a, b, by),
        decreases chars@.len() - i,
    {
        let ghost before = out@;
        let ghost rest = s@.skip(i as int);
        let len: usize = chars.len();
        if len - i >= 2 && chars[i] == a && chars[i + 1] == b {
            out.push(by);
            assert(rest.skip(2) =~= s@.skip(i + 2));
            assert(out@ + pairs_replaced(s@.skip(i + 2), a, b, by) =~= before + (seq![by]
                + pairs_replaced(rest.skip(2), a, b, by)));
            i += 2;
        } else {
            out.push(chars[i]);
            assert(rest.skip(1) =~= s@.skip(i + 1));
            assert(out@ + pairs_replaced(s@.skip(i + 1), a, b, by) =~= before + (seq![rest[0]]
                + pairs_replaced(rest.skip(1), a, b, by)));
            i += 1;
        }
    }
    assert(out@ + pairs_replaced(s@.skip(i as int), a, b, by) =~= out@);
    out
}

/// The item of `items` that a token denotes.
fn indexed<'a>(items: &'a Vec<JsonValue>, token: &str) -> (r: Option<&'a JsonValue>)
    ensures
        r.deep_view() == step(Json::Array(list_json(items)), token@),
{
    let chars = chars_of(token);
    assert(chars@.skip(0) =~= chars@);
    if chars.len() == 0 || !digits_from(&chars, 0) || (chars.len() > 1 && chars[0] == '0') {
        return None;
    }
    let len: usize = items.len();
    match digits_within(&chars, 0, u64::MAX) {
        Some(n) => {
            if n < len as u64 {
                Some(&items[n as usize])
            } else {
                None
            }
        },
        None => None,
    }
}

impl JsonValue {
    /// The document that a JSON Pointer addresses.
    pub fn pointer(&self, pointer: &str) -> (r: Option<&JsonValue>)
        ensures
            r.deep_view() == pointed(self@, pointer@),
    {
        if pointer.is_empty() {
            return Some(self);
        }
        let chars = chars_of(pointer);
        if chars[0] != '/' {
            return None;
        }
        let raw = split(pointer, '/');
        let ghost tokens = segments(pointer@, '/');
        let mut at: &JsonValue = self;
        let mut i: usize = 1;
        while i < raw.len()
            invariant
                raw.deep_view() == tokens,
                pointed(self@, pointer@) == walk(self@, tokens, 1),
                1 <= i,
                walk(self@, tokens, 1) == walk(at@, tokens, i as int),
            decreases raw@.len() - i,
        {
            let slash = replace_pairs(raw[i].as_str(), '~', '1', '/');
            let token = replace_pairs(slash.as_str(), '~', '0', '~');
            assert(tokens[i as int] == raw@[i as int]@);
            let next = match at {
                JsonValue::Object(map) => map.get(token.as_str()),
                JsonValue::Array(items) => indexed(items, token.as_str()),
                _ => None,
            };
            match next {
                Some(value) => {
                    at = value;
                },
                None => {
                    return None;
                },
            }
            i += 1;
        }
        Some(at)
    }
}

} // verus!
