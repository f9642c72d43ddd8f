//! JSON text: the compact and the indented notation.

use super::{list_json, Json, Number, JsonValue};
use crate::text::{cat, show, show_signed, signed_decimal};
use vstd::prelude::*;
use vstd::string::*;

verus! {

/// A hexadecimal digit.
pub open spec fn low_hex(n: int) -> char {
    if n < 10 {
        ('0' as int + n) as char
    } else {
        ('a' as int + n - 10) as char
    }
}

/// A character inside quotation marks: quotation marks, backslashes and
/// control characters are escaped.
pub open spec fn escape_of(c: char) -> Seq<char> {
    if c == '"' || c == '\\' {
        seq!['\\', c]
    } else if c == '\n' {
        seq!['\\', 'n']
    } else if c == '\r' {
        seq!['\\', 'r']
    } else if c == '\t' {
        seq!['\\', 't']
    } else if c as int == 8 {
        seq!['\\', 'b']
    } else if c as int == 12 {
        seq!['\\', 'f']
    } else if (c as int) < 32 {
        seq!['\\', 'u', '0', '0', low_hex(c as int / 16), low_hex(c as int % 16)]
    } else {
        seq![c]
    }
}

/// The characters from position `i` on as they stand inside quotation marks.
pub open spec fn escapes_from(s: Seq<char>, i: int) -> Seq<char>
    decreases s.len() - i,
{
    if i < 0 || i >= s.len() {
        Seq::empty()
    } else {
        escape_of(s[i]) + escapes_from(s, i + 1)
    }
}

/// A text between quotation marks, with the escapes that JSON asks for.
pub open spec fn quoted(s: Seq<char>) -> Seq<char> {
    seq!['"'] + escapes_from(s, 0) + seq!['"']
}

/// `serde_json::to_string` on a text: its characters between quotation marks,
/// with quotation marks, backslashes and control characters escaped.
/// Serialising a text cannot fail.
#[verifier::external_body]
fn quote(s: &str) -> (r: String)
    ensures
        r@ == quoted(s@),
{
    serde_json::to_string(s).unwrap_or_default()
}

/// The compact notation of a document.
pub open spec fn compact(j: Json) -> Seq<char>
    decreases j, 0int,
{
    match j {
        Json::Null => "null"@,
        Json::Bool(b) => if b {
            "true"@
        } else {
            "false"@
        },
        Json::Int(n) => signed_decimal(n),
        Json::Float(notation) => notation,
        Json::Text(s) => quoted(s),
        Json::Array(items) => "["@ + compact_items(items, 0) + "]"@,
        Json::Object(members) => "{"@ + compact_members(members, 0) + "}"@,
    }
}

/// The items from position `i` on, separated by commas.
pub open spec fn compact_items(items: Seq<Json>, i: int) -> Seq<char>
    decreases items, items.len() - i,
{
    if i < 0 || i >= items.len() {
        Seq::empty()
    } else {
        (if i > 0 {
            ","@
        } else {
            Seq::empty()
        }) + compact(items[i]) + compact_items(items, i + 1)
    }
}

/// The members from position `i` on, separated by commas.
pub open spec fn compact_members(members: Seq<(Seq<char>, Json)>, i: int) -> Seq<char>
    decreases members, members.len() - i,
{
    if i < 0 || i >= members.len() {
        Seq::empty()
    } else {
        (if i > 0 {
            ","@
        } else {
            Seq::empty()
        }) + quoted(members[i].0) + ":"@ + compact(members[i].1) + compact_members(members, i + 1)
    }
}

/// The indented notation of a document whose lines begin with `indent`.
pub open spec fn indented(j: Json, indent: Seq<char>) -> Seq<char>
    decreases j, 0int,
{
    match j {
        Json::Array(items) => if items.len() == 0 {
            "[]"@
        } else {
            "["@ + indented_items(items, 0, indent + "  "@) + "\n"@ + indent + "]"@
        },
        Json::Object(members) => if members.len() == 0 {
            "{}"@
        } else {
            "{"@ + indented_members(members, 0, indent + "  "@) + "\n"@ + indent + "}"@
        },
        _ => compact(j),
    }
}

/// The items from position `i` on, one per line.
pub open spec fn indented_items(items: Seq<Json>, i: int, indent: Seq<char>) -> Seq<char>
    decreases items, items.len() - i,
{
    if i < 0 || i >= items.len() {
        Seq::empty()
    } else {
        (if i > 0 {
            ","@
        } else {
            Seq::empty()
        }) + "\n"@ + indent + indented(items[i], indent) + indented_items(items, i + 1, indent)
    }
}

/// The members from position `i` on, one per line.
pub open spec fn indented_members(
    members: Seq<(Seq<char>, Json)>,
    i: int,
    indent: Seq<char>,
) -> Seq<char>
    decreases members, members.len() - i,
{
    if i < 0 || i >= members.len() {
        Seq::empty()
    } else {
        (if i > 0 {
            ","@
        } else {
            Seq::empty()
        }) + "\n"@ + indent + quoted(members[i].0) + ": "@ + indented(members[i].1, indent)
            + indented_members(members, i + 1, indent)
    }
}

fn write_number(n: &Number, out: &mut String)
    ensures
        final(out)@ == old(out)@ + compact(n@),
{
    match n {
        Number::PosInt(n) => {
            let digits = show(*n);
            out.append(digits.as_str());
        },
        Number::NegInt(n) => {
            let digits = show_signed(*n);
            out.append(digits.as_str());
        },
        Number::Float(notation) => {
            out.append(notation.as_str());
        },
    }
}

fn write_compact(value: &JsonValue, out: &mut String)
    ensures
        final(out)@ == old(out)@ + compact(value@),
    decreases value,
{
    let ghost start = out@;
    match value {
        JsonValue::Null => out.append("null"),
        JsonValue::Bool(b) => {
            if *b {
                out.append("true");
            } else {
                out.append("false");
            }
        },
        JsonValue::Number(n) => write_number(n, out),
        JsonValue::Text(s) => {
            let notation = quote(s.as_str());
            out.append(notation.as_str());
        },
        JsonValue::Array(items) => {
            out.append("[");
            let ghost all = list_json(items);
            assert(out@ + compact_items(all, 0) =~= start + ("["@ + compact_items(all, 0)));
            for i in 0..items.len()
                invariant
                    decreases_to!(value => items),
                    all == list_json(items),
                    out@ + compact_items(all, i as int) == start + ("["@ + compact_items(all, 0)),
            {
                let ghost before = out@;
                if i > 0 {
                    out.append(",");
                }
                write_compact(&items[i], out);
                assert(out@ + compact_items(all, i + 1) =~= before + compact_items(
                    all,
                    i as int,
                ));
            }
            assert(out@ =~= start + ("["@ + compact_items(all, 0)));
            out.append("]");
            assert(out@ =~= start + ("["@ + compact_items(all, 0) + "]"@));
        },
        JsonValue::Object(map) => {
            out.append("{");
            let ghost all = map.members();
            assert(out@ + compact_members(all, 0) =~= start + ("{"@ + compact_members(all, 0)));
            for i in 0..map.entries.len()
                invariant
                    decreases_to!(value => map.entries),
                    all == map.members(),
                    out@ + compact_members(all, i as int) == start + ("{"@ + compact_members(
                        all,
                        0,
                    )),
            {
                let ghost before = out@;
                if i > 0 {
                    out.append(",");
                }
                let name = quote(map.entries[i].0.as_str());
                out.append(name.as_str());
                out.append(":");
                write_compact(&map.entries[i].1, out);
                assert(out@ + compact_members(all, i + 1) =~= before + compact_members(
                    all,
                    i as int,
                ));
            }
            assert(out@ =~= start + ("{"@ + compact_members(all, 0)));
            out.append("}");
            assert(out@ =~= start + ("{"@ + compact_members(all, 0) + "}"@));
        },
    }
}

fn write_indented(value: &JsonValue, indent: &str, out: &mut String)
    ensures
        final(out)@ == old(out)@ + indented(value@, indent@),
    decreases value,
{
    let ghost start = out@;
    match value {
        JsonValue::Array(items) => {
            if items.len() == 0 {
                out.append("[]");
                return;
            }
            out.append("[");
            let inner = cat(indent, "  ");
            let ghost all = list_json(items);
            let ghost body = indented_items(all, 0, inner@);
            assert(out@ + body =~= start + ("["@ + body));
            for i in 0..items.len()
                invariant
                    decreases_to!(value => items),
                    all == list_json(items),
                    body == indented_items(all, 0, inner@),
                    out@ + indented_items(all, i as int, inner@) == start + ("["@ + body),
            {
                let ghost before = out@;
                if i > 0 {
                    out.append(",");
                }
                out.append("\n");
                out.append(inner.as_str());
                write_indented(&items[i], inner.as_str(), out);
                assert(out@ + indented_items(all, i + 1, inner@) =~= before + indented_items(
                    all,
                    i as int,
                    inner@,
                ));
            }
            assert(out@ =~= start + ("["@ + body));
            out.append("\n");
            out.append(indent);
            out.append("]");
            assert(out@ =~= start + ("["@ + body + "\n"@ + indent@ + "]"@));
        },
        JsonValue::Object(map) => {
            if map.entries.len() == 0 {
                out.append("{}");
                return;
            }
            out.append("{");
            let inner = cat(indent, "  ");
            let ghost all = map.members();
            let ghost body = indented_members(all, 0, inner@);
            assert(out@ + body =~= start + ("{"@ + body));
            for i in 0..map.entries.len()
                invariant
                    decreases_to!(value => map.entries),
                    all == map.members(),
                    body == indented_members(all, 0, inner@),
                    out@ + indented_members(all, i as int, inner@) == start + ("{"@ + body),
            {
                let ghost before = out@;
                if i > 0 {
                    out.append(",");
                }
                out.append("\n");
                out.append(inner.as_str());
                let name = quote(map.entries[i].0.as_str());
                out.append(name.as_str());
                out.append(": ");
                write_indented(&map.entries[i].1, inner.as_str(), out);
                assert(out@ + indented_members(all, i + 1, inner@) =~= before + indented_members(
                    all,
                    i as int,
                    inner@,
                ));
            }
            assert(out@ =~= start + ("{"@ + body));
            out.append("\n");
            out.append(indent);
            out.append("}");
            assert(out@ =~= start + ("{"@ + body + "\n"@ + indent@ + "}"@));
        },
        _ => write_compact(value, out),
    }
}

impl JsonValue {
    /// The compact notation of the document.
    pub fn to_text(&self) -> (r: String)
        ensures
            r@ == compact(self@),
    {
        let mut out = String::new();
        write_compact(self, &mut out);
        assert(out@ =~= compact(self@));
        out
    }

    /// The indented notation of the document, two spaces for each level.
    pub fn to_text_pretty(&self) -> (r: String)
        ensures
            r@ == indented(self@, Seq::empty()),
    {
        let mut out = String::new();
        write_indented(self, "", &mut out);
        proof {
            reveal_strlit("");
        }
        assert(""@ =~= Seq::empty());
        assert(out@ =~= indented(self@, Seq::empty()));
        out
    }
}

} // verus!
