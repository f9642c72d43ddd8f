//! What documents promise: how members are found and written, how texts are
//! split, and where pointers lead.

use super::pointer::{pairs_replaced, pointed, segments, step, token_index, token_text, walk};
use super::{lookup, position_from, put, Json};
use crate::text::laws::{lacks, law_decimal_is_read_back, law_first_is_found, law_found_is_first};
use crate::text::{all_digits, decimal, digit_char, digits_value, find_from, is_digit};
use vstd::prelude::*;

verus! {

// ---------------------------------------------------------------- members

/// A member is found by its name: the first one of that name, and none where no
/// member has it.
pub proof fn law_member_is_found(members: Seq<(Seq<char>, Json)>, key: Seq<char>)
    ensures
        match lookup(members, key) {
            Some(value) => exists|k: int|
                0 <= k < members.len() && #[trigger] members[k] == (key, value) && forall|j: int|
                    0 <= j < k ==> (#[trigger] members[j]).0 != key,
            None => forall|j: int| 0 <= j < members.len() ==> (#[trigger] members[j]).0 != key,
        },
{
    lemma_first_position(members, key, 0);
    match position_from(members, key, 0) {
        Some(k) => {
            assert(members[k] == (key, members[k].1));
        },
        None => {},
    }
}

proof fn lemma_first_position(members: Seq<(Seq<char>, Json)>, key: Seq<char>, i: int)
    requires
        0 <= i,
    ensures
        match position_from(members, key, i) {
            Some(k) => i <= k < members.len() && members[k].0 == key && forall|j: int|
                i <= j < k ==> (#[trigger] members[j]).0 != key,
            None => forall|j: int| i <= j < members.len() ==> (#[trigger] members[j]).0 != key,
        },
    decreases members.len() - i,
{
    if i < members.len() && members[i].0 != key {
        lemma_first_position(members, key, i + 1);
    }
}

/// Writing a member keeps the order: a name that is there keeps its place, a new
/// one goes to the end, and nothing else moves.
pub proof fn law_put_keeps_the_order(
    members: Seq<(Seq<char>, Json)>,
    key: Seq<char>,
    value: Json,
)
    ensures
        lookup(members, key) is None ==> put(members, key, value) == members.push((key, value)),
        lookup(members, key) is Some ==> put(members, key, value).len() == members.len(),
        forall|k: int|
            0 <= k < members.len() ==> (#[trigger] put(members, key, value)[k]).0 == members[k].0,
        forall|k: int|
            0 <= k < members.len() && members[k].0 != key ==> #[trigger] put(
                members,
                key,
                value,
            )[k] == members[k],
{
    lemma_first_position(members, key, 0);
}

// ---------------------------------------------------------------- splitting

/// A text with a separator in it is split into the parts of what stands before
/// and behind it; a text without one is its only part.
pub proof fn law_split_at_each(a: Seq<char>, c: char, b: Seq<char>)
    ensures
        segments(a + seq![c] + b, c) == segments(a, c) + segments(b, c),
        lacks(a, c) ==> segments(a, c) == seq![a],
    decreases a.len(),
{
    let all = a + seq![c] + b;
    law_found_is_first(a, c, 0);
    match find_from(a, c, 0) {
        Some(i) => {
            assert forall|k: int| 0 <= k < i implies #[trigger] all[k] != c by {
                assert(all[k] == a[k]);
            }
            assert(all[i] == a[i]);
            law_first_is_found(all, c, 0, i);
            let rest = a.skip(i + 1);
            law_split_at_each(rest, c, b);
            assert(all.skip(i + 1) =~= rest + seq![c] + b);
            assert(all.take(i) =~= a.take(i));
            assert(seq![a.take(i)] + (segments(rest, c) + segments(b, c)) =~= seq![a.take(i)]
                + segments(rest, c) + segments(b, c));
        },
        None => {
            assert forall|k: int| 0 <= k < a.len() implies #[trigger] all[k] != c by {
                assert(all[k] == a[k]);
            }
            law_first_is_found(all, c, 0, a.len() as int);
            assert(all.take(a.len() as int) =~= a);
            assert(all.skip(a.len() as int + 1) =~= b);
        },
    }
}

// ---------------------------------------------------------------- pointers

/// A name as a reference token: `~` becomes `~0` and `/` becomes `~1`.
pub open spec fn as_token(name: Seq<char>) -> Seq<char>
    decreases name.len(),
{
    if name.len() == 0 {
        Seq::empty()
    } else if name[0] == '~' {
        seq!['~', '0'] + as_token(name.skip(1))
    } else if name[0] == '/' {
        seq!['~', '1'] + as_token(name.skip(1))
    } else {
        seq![name[0]] + as_token(name.skip(1))
    }
}

/// The token with its slashes back, but not yet its tildes.
spec fn half_read(name: Seq<char>) -> Seq<char>
    decreases name.len(),
{
    if name.len() == 0 {
        Seq::empty()
    } else if name[0] == '~' {
        seq!['~', '0'] + half_read(name.skip(1))
    } else {
        seq![name[0]] + half_read(name.skip(1))
    }
}

proof fn lemma_slashes_read(name: Seq<char>)
    ensures
        pairs_replaced(as_token(name), '~', '1', '/') == half_read(name),
        lacks(as_token(name), '/'),
    decreases name.len(),
{
    reveal_with_fuel(pairs_replaced, 3);
    if name.len() > 0 {
        lemma_slashes_read(name.skip(1));
        let rest = as_token(name.skip(1));
        let token = as_token(name);
        if name[0] == '~' {
            assert(token.skip(1) =~= seq!['0'] + rest);
            assert(token.skip(1).skip(1) =~= rest);
            assert(token[0] == '~' && token[1] == '0');
            assert(token.skip(1)[0] == '0');
            assert(seq!['~'] + (seq!['0'] + half_read(name.skip(1))) =~= half_read(name));
        } else if name[0] == '/' {
            assert(token.skip(2) =~= rest);
        } else {
            assert(token.skip(1) =~= rest);
        }
        assert forall|k: int| 0 <= k < token.len() implies #[trigger] token[k] != '/' by {
            let own = (token.len() - rest.len()) as int;
            if k >= own {
                assert(token[k] == rest[k - own]);
            }
        }
    }
}

proof fn lemma_tildes_read(name: Seq<char>)
    ensures
        pairs_replaced(half_read(name), '~', '0', '~') == name,
    decreases name.len(),
{
    if name.len() > 0 {
        lemma_tildes_read(name.skip(1));
        let rest = half_read(name.skip(1));
        let half = half_read(name);
        if name[0] == '~' {
            assert(half.skip(2) =~= rest);
        } else {
            assert(half.skip(1) =~= rest);
        }
        assert(seq![name[0]] + name.skip(1) =~= name);
    } else {
        assert(name =~= Seq::empty());
    }
}

/// A name that was written as a token is read back, and its token has no slash.
pub proof fn law_tokens_are_read_back(name: Seq<char>)
    ensures
        token_text(as_token(name)) == name,
        lacks(as_token(name), '/'),
{
    lemma_slashes_read(name);
    lemma_tildes_read(name);
}

/// A token is an index exactly where it is the decimal notation of it.
pub proof fn law_index_is_decimal(token: Seq<char>, n: nat)
    ensures
        token_index(token) == Some(n) <==> token == decimal(n),
{
    if token_index(token) == Some(n) {
        lemma_digits_are_decimal(token);
    }
    if token == decimal(n) {
        law_decimal_is_read_back(n);
        if n == 0 {
            assert(decimal(0).len() == 1);
        }
    }
}

proof fn lemma_digits_are_decimal(s: Seq<char>)
    requires
        s.len() > 0,
        all_digits(s),
        s.len() == 1 || s[0] != '0',
    ensures
        decimal(digits_value(s)) == s,
        s[0] != '0' ==> digits_value(s) > 0,
    decreases s.len(),
{
    let front = s.drop_last();
    let d = (s.last() as u8 - 48) as nat;
    assert(is_digit(s.last()));
    assert(d < 10);
    assert(digit_char(d) == s.last());
    if s.len() == 1 {
        assert(front =~= Seq::empty());
        assert(digits_value(front) == 0);
        assert(decimal(d) =~= s);
    } else {
        assert(front[0] == s[0]);
        assert forall|i: int| 0 <= i < front.len() implies is_digit(#[trigger] front[i]) by {
            assert(front[i] == s[i]);
        }
        lemma_digits_are_decimal(front);
        let n = digits_value(s);
        assert(n == digits_value(front) * 10 + d);
        assert(n / 10 == digits_value(front));
        assert(n % 10 == d);
        assert(front.push(s.last()) =~= s);
    }
}

proof fn lemma_walk_more(at: Json, raw: Seq<Seq<char>>, last: Seq<char>, i: int)
    requires
        0 <= i <= raw.len(),
    ensures
        walk(at, raw.push(last), i) == (match walk(at, raw, i) {
            Some(found) => step(found, token_text(last)),
            None => None,
        }),
    decreases raw.len() - i,
{
    reveal_with_fuel(walk, 2);
    let more = raw.push(last);
    if i < raw.len() {
        assert(more[i] == raw[i]);
        match step(at, token_text(raw[i])) {
            Some(next) => {
                lemma_walk_more(next, raw, last, i + 1);
            },
            None => {},
        }
    } else {
        assert(more[i] == last);
        match step(at, token_text(last)) {
            Some(next) => {
                assert(walk(next, more, i + 1) == Some(next));
            },
            None => {},
        }
    }
}

/// What a document holds under a name: the member of an object, or the item of
/// an array whose index is written so.
pub open spec fn held(doc: Json, name: Seq<char>, value: Json) -> bool {
    match doc {
        Json::Object(members) => lookup(members, name) == Some(value),
        Json::Array(items) => exists|n: int|
            0 <= n < items.len() && name == decimal(n as nat) && #[trigger] items[n] == value,
        _ => false,
    }
}

/// The empty pointer addresses the document, and every further token leads one
/// step down, to what is held there under the name.
pub proof fn law_pointers_lead_down(doc: Json, lead: Seq<char>, name: Seq<char>, value: Json)
    requires
        lead.len() == 0 || lead[0] == '/',
    ensures
        pointed(doc, Seq::empty()) == Some(doc),
        pointed(doc, lead + seq!['/'] + as_token(name)) == Some(value) <==> (pointed(doc, lead)
            matches Some(at) && held(at, name, value)),
{
    let token = as_token(name);
    let all = lead + seq!['/'] + token;
    law_tokens_are_read_back(name);
    law_split_at_each(lead, '/', token);
    law_split_at_each(token, '/', Seq::empty());
    let before = segments(lead, '/');
    assert(segments(all, '/') =~= before.push(token));
    if lead.len() == 0 {
        law_split_at_each(lead, '/', lead);
        assert(before =~= seq![lead]);
        assert(all[0] == '/');
        assert(walk(doc, before, 1) == Some(doc));
    } else {
        assert(all[0] == lead[0]);
        assert(before.len() > 0);
    }
    lemma_walk_more(doc, before, token, 1);
    match pointed(doc, lead) {
        Some(at) => {
            lemma_step_is_held(at, name, value);
        },
        None => {},
    }
}

proof fn lemma_step_is_held(at: Json, name: Seq<char>, value: Json)
    ensures
        step(at, name) == Some(value) <==> held(at, name, value),
{
    match at {
        Json::Array(items) => {
            match token_index(name) {
                Some(n) => {
                    law_index_is_decimal(name, n);
                    assert forall|m: int|
                        0 <= m < items.len() && name == #[trigger] decimal(m as nat) implies m == n by {
                        law_index_is_decimal(name, m as nat);
                    }
                    if n < items.len() && items[n as int] == value {
                        assert(held(at, name, value));
                    }
                },
                None => {
                    assert forall|m: int| 0 <= m < items.len() implies name != #[trigger] decimal(
                        m as nat,
                    ) by {
                        law_index_is_decimal(name, m as nat);
                    }
                },
            }
        },
        _ => {},
    }
}

/// A pointer that does not start with a slash addresses nothing.
pub proof fn law_pointers_start_with_a_slash(doc: Json, pointer: Seq<char>)
    requires
        pointer.len() > 0,
        pointer[0] != '/',
    ensures
        pointed(doc, pointer) is None,
{
}

} // verus!
