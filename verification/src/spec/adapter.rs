//! Framework-specific behavior. OpenAPI itself is framework-neutral; the
//! adapter isolates the conventions that aren't.

use crate::config::schema::Framework;
use crate::json::print::compact;
use crate::json::{list_json, Json, JsonValue};
use crate::text::{cat3, decimal, join, joined, show};
use vstd::prelude::*;

verus! {

pub trait FrameworkAdapter {
    /// The lines into which an error body is rendered.
    spec fn error_lines(&self, status: nat, body: Json) -> Option<Seq<Seq<char>>>;

    fn name(&self) -> &'static str;

    /// Pretty-renders a framework-specific error body into one line per
    /// problem, or `None` to fall back to generic JSON rendering.
    fn render_error_lines(&self, status: u16, body: &JsonValue) -> (r: Option<Vec<String>>)
        ensures
            r.deep_view() == self.error_lines(status as nat, body@),
    ;

    /// Component schema names that are framework plumbing, not domain models.
    fn validation_schemas(&self) -> Vec<&'static str>;
}

#[derive(Debug, Clone, Copy)]
pub struct FastApiAdapter;

/// The adapter of a framework.
pub fn adapter_for(framework: Framework) -> (r: FastApiAdapter)
    ensures
        r == FastApiAdapter,
{
    match framework {
        Framework::Fastapi => FastApiAdapter,
    }
}

/// One part of an error's location.
pub open spec fn location_part(part: Json) -> Seq<char> {
    match part {
        Json::Text(s) => s,
        other => compact(other),
    }
}

/// The dotted location of an error.
pub open spec fn error_location(item: Json) -> Seq<char> {
    match item.member("loc"@) {
        Some(Json::Array(parts)) => joined(
            Seq::new(parts.len(), |i: int| location_part(parts[i])),
            "."@,
        ),
        _ => Seq::empty(),
    }
}

/// The line of one validation error; none where it has no message.
pub open spec fn error_line(item: Json) -> Option<Seq<char>> {
    match item.member("msg"@) {
        Some(Json::Text(msg)) => if error_location(item).len() == 0 {
            Some(msg)
        } else {
            Some(error_location(item) + ": "@ + msg)
        },
        _ => None,
    }
}

/// The lines of the validation errors from position `i` on.
pub open spec fn lines_from(items: Seq<Json>, i: int) -> Seq<Seq<char>>
    decreases items.len() - i,
{
    if i < 0 || i >= items.len() {
        Seq::empty()
    } else {
        match error_line(items[i]) {
            Some(line) => seq![line] + lines_from(items, i + 1),
            None => lines_from(items, i + 1),
        }
    }
}

/// FastAPI 422: `{"detail": [{"loc": ["body", "email"], "msg": "..."}]}`
/// becomes `body.email: <msg>` lines; a text `detail` is one line.
pub open spec fn fastapi_lines(status: nat, body: Json) -> Option<Seq<Seq<char>>> {
    match body.member("detail"@) {
        Some(Json::Text(message)) => Some(seq![decimal(status) + ": "@ + message]),
        Some(Json::Array(items)) => if lines_from(items, 0).len() > 0 {
            Some(lines_from(items, 0))
        } else {
            None
        },
        _ => None,
    }
}

fn locate(item: &JsonValue) -> (r: String)
    ensures
        r@ == error_location(item@),
{
    match item.get("loc") {
        Some(JsonValue::Array(parts)) => {
            let ghost all = list_json(parts);
            let mut texts: Vec<String> = Vec::new();
            for i in 0..parts.len()
                invariant
                    all == list_json(parts),
                    texts@.len() == i,
                    forall|k: int| 0 <= k < i ==> (#[trigger] texts@[k])@ == location_part(all[k]),
            {
                assert(all[i as int] == parts@[i as int]@);
                let part = match &parts[i] {
                    JsonValue::Text(s) => s.clone(),
                    other => other.to_text(),
                };
                texts.push(part);
            }
            assert(texts.deep_view() =~= Seq::new(all.len(), |i: int| location_part(all[i])));
            join(&texts, ".")
        },
        _ => String::new(),
    }
}

impl FrameworkAdapter for FastApiAdapter {
    open spec fn error_lines(&self, status: nat, body: Json) -> Option<Seq<Seq<char>>> {
        fastapi_lines(status, body)
    }

    fn name(&self) -> (r: &'static str)
        ensures
            r@ == "fastapi"@,
    {
        "fastapi"
    }

    fn render_error_lines(&self, status: u16, body: &JsonValue) -> (r: Option<Vec<String>>) {
        match body.get("detail") {
            Some(JsonValue::Text(message)) => {
                let number = show(status as u64);
                let mut lines: Vec<String> = Vec::new();
                let line = cat3(number.as_str(), ": ", message.as_str());
                let ghost shown = line@;
                lines.push(line);
                assert(lines.deep_view() =~= seq![shown]);
                Some(lines)
            },
            Some(JsonValue::Array(items)) => {
                let ghost all = list_json(items);
                let mut lines: Vec<String> = Vec::new();
                assert(lines.deep_view() + lines_from(all, 0) =~= lines_from(all, 0));
                for i in 0..items.len()
                    invariant
                        all == list_json(items),
                        lines.deep_view() + lines_from(all, i as int) == lines_from(all, 0),
                {
                    let ghost before = lines.deep_view();
                    assert(all[i as int] == items@[i as int]@);
                    match items[i].get("msg") {
                        Some(JsonValue::Text(msg)) => {
                            let place = locate(&items[i]);
                            let line = if place.as_str().is_empty() {
                                msg.clone()
                            } else {
                                cat3(place.as_str(), ": ", msg.as_str())
                            };
                            let ghost shown = line@;
                            lines.push(line);
                            assert(lines.deep_view() =~= before.push(shown));
                            assert(before.push(shown) + lines_from(all, i + 1) =~= before + (seq![
                                shown,
                            ] + lines_from(all, i + 1)));
                        },
                        _ => {},
                    }
                }
                assert(lines.deep_view() =~= lines_from(all, 0));
                if lines.len() > 0 {
                    Some(lines)
                } else {
                    None
                }
            },
            _ => None,
        }
    }

    fn validation_schemas(&self) -> (r: Vec<&'static str>)
        ensures
            r.deep_view() == seq!["HTTPValidationError"@, "ValidationError"@],
    {
        let mut names: Vec<&'static str> = Vec::new();
        names.push("HTTPValidationError");
        names.push("ValidationError");
        assert(names.deep_view() =~= seq!["HTTPValidationError"@, "ValidationError"@]);
        names
    }
}

} // verus!
