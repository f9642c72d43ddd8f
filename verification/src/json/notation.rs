//! What JSON text promises: it is read as it was meant.

use super::print::{
    compact, compact_items, compact_members, escape_of, escapes_from, indented, indented_items,
    indented_members, low_hex, quoted,
};
use super::Json;
use crate::text::{joined, joined_from};
use vstd::prelude::*;
use vstd::string::*;

verus! {

/// The value of a hexadecimal digit.
pub open spec fn digit(c: char) -> Option<int> {
    if '0' <= c <= '9' {
        Some(c as int - '0' as int)
    } else if 'a' <= c <= 'f' {
        Some(c as int - 'a' as int + 10)
    } else if 'A' <= c <= 'F' {
        Some(c as int - 'A' as int + 10)
    } else {
        None
    }
}

/// The character that a letter behind a backslash stands for.
pub open spec fn short_escape(c: char) -> Option<char> {
    if c == '"' || c == '\\' || c == '/' {
        Some(c)
    } else if c == 'b' {
        Some(8 as char)
    } else if c == 'f' {
        Some(12 as char)
    } else if c == 'n' {
        Some(10 as char)
    } else if c == 'r' {
        Some(13 as char)
    } else if c == 't' {
        Some(9 as char)
    } else {
        None
    }
}

/// The text that stands between quotation marks in a JSON document, read as the
/// notation demands: no bare quotation mark and no bare control character.
pub open spec fn read_text(s: Seq<char>) -> Option<Seq<char>>
    decreases s.len(),
{
    if s.len() == 0 {
        Some(Seq::empty())
    } else if s[0] == '"' || (s[0] as int) < 32 {
        None
    } else if s[0] != '\\' {
        match read_text(s.skip(1)) {
            Some(rest) => Some(seq![s[0]] + rest),
            None => None,
        }
    } else if s.len() >= 2 && short_escape(s[1]) is Some {
        match read_text(s.skip(2)) {
            Some(rest) => Some(seq![short_escape(s[1])->0] + rest),
            None => None,
        }
    } else if s.len() >= 6 && s[1] == 'u' {
        match (digit(s[2]), digit(s[3]), digit(s[4]), digit(s[5]), read_text(s.skip(6))) {
            (Some(a), Some(b), Some(c), Some(d), Some(rest)) => Some(
                seq![(4096 * a + 256 * b + 16 * c + d) as char] + rest,
            ),
            _ => None,
        }
    } else {
        None
    }
}

proof fn lemma_control(c: char)
    requires
        (c as int) < 32,
    ensures
        digit(low_hex(c as int / 16)) == Some(c as int / 16),
        digit(low_hex(c as int % 16)) == Some(c as int % 16),
        (16 * (c as int / 16) + c as int % 16) as char == c,
{
}

proof fn lemma_text_read(s: Seq<char>, i: int)
    requires
        0 <= i <= s.len(),
    ensures
        read_text(escapes_from(s, i)) == Some(s.skip(i)),
    decreases s.len() - i,
{
    if i < s.len() {
        lemma_text_read(s, i + 1);
        let c = s[i];
        let code = escape_of(c);
        let rest = escapes_from(s, i + 1);
        let all = escapes_from(s, i);
        assert(all == code + rest);
        assert(all.skip(code.len() as int) =~= rest);
        assert(seq![c] + s.skip(i + 1) =~= s.skip(i));
        if code.len() == 6 {
            let n = c as int;
            lemma_control(c);
            assert(all[0] == '\\' && all[1] == 'u' && all[2] == '0' && all[3] == '0');
            assert(all[4] == low_hex(n / 16) && all[5] == low_hex(n % 16));
            assert((16 * (n / 16) + n % 16) as char == c);
        } else if code.len() == 2 {
            assert(all[0] == '\\' && all[1] == code[1]);
            assert(short_escape(code[1]) == Some(c));
        } else {
            assert(all[0] == c);
        }
    } else {
        assert(s.skip(i) =~= Seq::empty());
    }
}

/// A quoted text is read back: what stands between the quotation marks denotes it.
pub proof fn law_quoted_text_is_read_back(s: Seq<char>)
    ensures
        quoted(s).len() >= 2,
        quoted(s)[0] == '"',
        quoted(s).last() == '"',
        read_text(quoted(s).subrange(1, quoted(s).len() - 1)) == Some(s),
{
    lemma_text_read(s, 0);
    assert(s.skip(0) =~= s);
    assert(quoted(s).subrange(1, quoted(s).len() - 1) =~= escapes_from(s, 0));
}

// ---------------------------------------------------------------- compact

/// A member in the compact notation.
pub open spec fn compact_member() -> spec_fn((Seq<char>, Json)) -> Seq<char> {
    |member: (Seq<char>, Json)| quoted(member.0) + ":"@ + compact(member.1)
}

/// A document in the compact notation.
pub open spec fn compact_item() -> spec_fn(Json) -> Seq<char> {
    |item: Json| compact(item)
}

proof fn lemma_items(items: Seq<Json>, i: int)
    requires
        0 <= i < items.len(),
    ensures
        compact_items(items, i) == (if i > 0 {
            ","@
        } else {
            Seq::empty()
        }) + joined_from(items.map_values(compact_item()), ","@, i),
    decreases items.len() - i,
{
    let texts = items.map_values(compact_item());
    assert(texts[i] == compact(items[i]));
    let lead = if i > 0 {
        ","@
    } else {
        Seq::empty()
    };
    if i + 1 < items.len() {
        lemma_items(items, i + 1);
        assert(lead + texts[i] + (","@ + joined_from(texts, ","@, i + 1)) =~= lead + (texts[i]
            + ","@ + joined_from(texts, ","@, i + 1)));
    } else {
        assert(compact_items(items, i + 1) =~= Seq::empty());
        assert(lead + texts[i] + Seq::<char>::empty() =~= lead + texts[i]);
    }
}

proof fn lemma_members(members: Seq<(Seq<char>, Json)>, i: int)
    requires
        0 <= i < members.len(),
    ensures
        compact_members(members, i) == (if i > 0 {
            ","@
        } else {
            Seq::empty()
        }) + joined_from(members.map_values(compact_member()), ","@, i),
    decreases members.len() - i,
{
    let texts = members.map_values(compact_member());
    assert(texts[i] == quoted(members[i].0) + ":"@ + compact(members[i].1));
    let lead = if i > 0 {
        ","@
    } else {
        Seq::empty()
    };
    let here = lead + quoted(members[i].0) + ":"@ + compact(members[i].1);
    assert(here =~= lead + texts[i]);
    if i + 1 < members.len() {
        lemma_members(members, i + 1);
        assert(lead + texts[i] + (","@ + joined_from(texts, ","@, i + 1)) =~= lead + (texts[i]
            + ","@ + joined_from(texts, ","@, i + 1)));
    } else {
        assert(compact_members(members, i + 1) =~= Seq::empty());
        assert(lead + texts[i] + Seq::<char>::empty() =~= lead + texts[i]);
    }
}

/// The compact notation has no space: items and members stand between brackets
/// with commas between neighbours, and a colon between name and value.
pub proof fn law_compact_notation(items: Seq<Json>, members: Seq<(Seq<char>, Json)>)
    ensures
        compact(Json::Array(items)) == "["@ + joined(items.map_values(compact_item()), ","@)
            + "]"@,
        compact(Json::Object(members)) == "{"@ + joined(
            members.map_values(compact_member()),
            ","@,
        ) + "}"@,
        compact(Json::Null) == "null"@,
        compact(Json::Bool(true)) == "true"@,
        compact(Json::Bool(false)) == "false"@,
{
    let none = Seq::<char>::empty();
    if items.len() > 0 {
        lemma_items(items, 0);
        assert(none + joined(items.map_values(compact_item()), ","@) =~= joined(
            items.map_values(compact_item()),
            ","@,
        ));
    } else {
        assert(compact_items(items, 0) =~= joined(items.map_values(compact_item()), ","@));
    }
    if members.len() > 0 {
        lemma_members(members, 0);
        assert(none + joined(members.map_values(compact_member()), ","@) =~= joined(
            members.map_values(compact_member()),
            ","@,
        ));
    } else {
        assert(compact_members(members, 0) =~= joined(
            members.map_values(compact_member()),
            ","@,
        ));
    }
}

// ---------------------------------------------------------------- indented

/// A member in the indented notation.
pub open spec fn indented_member(indent: Seq<char>) -> spec_fn((Seq<char>, Json)) -> Seq<char> {
    |member: (Seq<char>, Json)| quoted(member.0) + ": "@ + indented(member.1, indent)
}

/// A document in the indented notation.
pub open spec fn indented_item(indent: Seq<char>) -> spec_fn(Json) -> Seq<char> {
    |item: Json| indented(item, indent)
}

proof fn lemma_indented_items(items: Seq<Json>, i: int, indent: Seq<char>)
    requires
        0 <= i < items.len(),
    ensures
        indented_items(items, i, indent) == (if i > 0 {
            ","@
        } else {
            Seq::empty()
        }) + "\n"@ + indent + joined_from(
            items.map_values(indented_item(indent)),
            ","@ + "\n"@ + indent,
            i,
        ),
    decreases items.len() - i,
{
    let texts = items.map_values(indented_item(indent));
    let sep = ","@ + "\n"@ + indent;
    assert(texts[i] == indented(items[i], indent));
    let lead = (if i > 0 {
        ","@
    } else {
        Seq::empty()
    }) + "\n"@ + indent;
    if i + 1 < items.len() {
        lemma_indented_items(items, i + 1, indent);
        assert(lead + texts[i] + (sep + joined_from(texts, sep, i + 1)) =~= lead + (texts[i] + sep
            + joined_from(texts, sep, i + 1)));
    } else {
        assert(indented_items(items, i + 1, indent) =~= Seq::empty());
        assert(lead + texts[i] + Seq::<char>::empty() =~= lead + texts[i]);
    }
}

proof fn lemma_indented_members(members: Seq<(Seq<char>, Json)>, i: int, indent: Seq<char>)
    requires
        0 <= i < members.len(),
    ensures
        indented_members(members, i, indent) == (if i > 0 {
            ","@
        } else {
            Seq::empty()
        }) + "\n"@ + indent + joined_from(
            members.map_values(indented_member(indent)),
            ","@ + "\n"@ + indent,
            i,
        ),
    decreases members.len() - i,
{
    let texts = members.map_values(indented_member(indent));
    let sep = ","@ + "\n"@ + indent;
    assert(texts[i] == quoted(members[i].0) + ": "@ + indented(members[i].1, indent));
    let lead = (if i > 0 {
        ","@
    } else {
        Seq::empty()
    }) + "\n"@ + indent;
    let here = lead + quoted(members[i].0) + ": "@ + indented(members[i].1, indent);
    assert(here =~= lead + texts[i]);
    if i + 1 < members.len() {
        lemma_indented_members(members, i + 1, indent);
        assert(lead + texts[i] + (sep + joined_from(texts, sep, i + 1)) =~= lead + (texts[i] + sep
            + joined_from(texts, sep, i + 1)));
    } else {
        assert(indented_members(members, i + 1, indent) =~= Seq::empty());
        assert(lead + texts[i] + Seq::<char>::empty() =~= lead + texts[i]);
    }
}

/// The indented notation puts every item and member on a line of its own, two
/// spaces deeper than the brackets around it; what is empty or has no parts stands
/// as in the compact notation.
pub proof fn law_indented_notation(
    items: Seq<Json>,
    members: Seq<(Seq<char>, Json)>,
    indent: Seq<char>,
)
    ensures
        items.len() > 0 ==> indented(Json::Array(items), indent) == "["@ + ("\n"@ + indent + "  "@)
            + joined(
            items.map_values(indented_item(indent + "  "@)),
            ","@ + "\n"@ + (indent + "  "@),
        ) + ("\n"@ + indent) + "]"@,
        members.len() > 0 ==> indented(Json::Object(members), indent) == "{"@ + ("\n"@ + indent
            + "  "@) + joined(
            members.map_values(indented_member(indent + "  "@)),
            ","@ + "\n"@ + (indent + "  "@),
        ) + ("\n"@ + indent) + "}"@,
        forall|j: Json|
            !(j is Array) && !(j is Object) || j == Json::Array(Seq::empty()) || j == Json::Object(
                Seq::empty(),
            ) ==> #[trigger] indented(j, indent) == compact(j),
{
    let inner = indent + "  "@;
    let none = Seq::<char>::empty();
    let sep = ","@ + "\n"@ + inner;
    if items.len() > 0 {
        lemma_indented_items(items, 0, inner);
        let texts = joined(items.map_values(indented_item(inner)), sep);
        assert("["@ + (none + "\n"@ + inner + texts) + "\n"@ + indent + "]"@ =~= "["@ + ("\n"@
            + indent + "  "@) + texts + ("\n"@ + indent) + "]"@);
    }
    if members.len() > 0 {
        lemma_indented_members(members, 0, inner);
        let texts = joined(members.map_values(indented_member(inner)), sep);
        assert("{"@ + (none + "\n"@ + inner + texts) + "\n"@ + indent + "}"@ =~= "{"@ + ("\n"@
            + indent + "  "@) + texts + ("\n"@ + indent) + "}"@);
    }
    assert forall|j: Json|
        !(j is Array) && !(j is Object) || j == Json::Array(Seq::empty()) || j == Json::Object(
            Seq::empty(),
        ) implies #[trigger] indented(j, indent) == compact(j) by {
        reveal_strlit("[");
        reveal_strlit("]");
        reveal_strlit("[]");
        reveal_strlit("{");
        reveal_strlit("}");
        reveal_strlit("{}");
        if j == Json::Array(Seq::empty()) {
            assert(compact_items(Seq::empty(), 0) =~= none);
            assert("["@ + none + "]"@ =~= "[]"@);
        }
        if j == Json::Object(Seq::empty()) {
            assert(compact_members(Seq::empty(), 0) =~= none);
            assert("{"@ + none + "}"@ =~= "{}"@);
        }
    }
}

} // verus!
