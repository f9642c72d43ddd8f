//! What the providers promise: tokens are read for what they say, and used for
//! as long as they hold.

use super::jwt_login::{base64_bytes, expiry_of, sextet, token_of};
use super::oauth_pkce::{answer_of, callback_of, granted, CallbackShape};
use super::token_store::{fresh_at, TokenShape};
use super::{jwt_login, line_text, oauth_pkce, TokenStepShape};
use crate::config::schema::url_parts;
use crate::config::OAuth2PkceConfig;
use crate::error::AuthFault;
use crate::json::laws::law_split_at_each;
use crate::json::parse::parsed;
use crate::json::pointer::{pointed, segments};
use crate::json::{lookup, Json};
use crate::pairs::{pair_position, value_of};
use crate::text::laws::{lacks, law_words, solid};
use crate::text::{contains_text, decimal, occurs_at, words_of};
use vstd::prelude::*;
use vstd::string::*;
use vstd::utf8::encode_utf8;

verus! {

// ---------------------------------------------------------------- base64

/// The URL-safe alphabet: upper case, lower case, digits, minus, underscore.
pub open spec fn alphabet() -> Seq<char> {
    Seq::new(26, |i: int| ('A' as int + i) as char) + Seq::new(
        26,
        |i: int| ('a' as int + i) as char,
    ) + Seq::new(10, |i: int| ('0' as int + i) as char) + seq!['-', '_']
}

/// The character for six bits.
#[verifier::opaque]
pub open spec fn letter(n: int) -> char {
    alphabet()[n]
}

/// Unpadded URL-safe base64: three bytes are four characters of six bits each;
/// one byte left over is two characters, two bytes are three.
pub open spec fn base64url(bytes: Seq<u8>) -> Seq<char>
    decreases bytes.len(),
{
    if bytes.len() == 0 {
        Seq::empty()
    } else if bytes.len() == 1 {
        seq![letter((bytes[0] / 4) as int), letter((bytes[0] % 4) * 16)]
    } else if bytes.len() == 2 {
        seq![
            letter((bytes[0] / 4) as int),
            letter((bytes[0] % 4) * 16 + bytes[1] / 16),
            letter((bytes[1] % 16) * 4),
        ]
    } else {
        seq![
            letter((bytes[0] / 4) as int),
            letter((bytes[0] % 4) * 16 + bytes[1] / 16),
            letter((bytes[1] % 16) * 4 + bytes[2] / 64),
            letter((bytes[2] % 64) as int),
        ] + base64url(bytes.skip(3))
    }
}

proof fn lemma_alphabet(n: int)
    requires
        0 <= n < 64,
    ensures
        sextet(letter(n)) == Some(n as u8),
        letter(n) != '.',
        alphabet().len() == 64,
{
    reveal(letter);
    if n < 26 {
        assert(alphabet()[n] == ('A' as int + n) as char);
    } else if n < 52 {
        assert(alphabet()[n] == ('a' as int + (n - 26)) as char);
    } else if n < 62 {
        assert(alphabet()[n] == ('0' as int + (n - 52)) as char);
    }
}

proof fn lemma_sextet(c: char)
    ensures
        sextet(c) matches Some(v) ==> v < 64 && letter(v as int) == c,
{
    reveal(letter);
    match sextet(c) {
        Some(v) => {
            lemma_alphabet(v as int);
        },
        None => {},
    }
}

proof fn lemma_base64_behind(lead: Seq<char>, s: Seq<char>, i: int)
    requires
        0 <= i <= s.len(),
    ensures
        base64_bytes(lead + s, lead.len() + i) == base64_bytes(s, i),
    decreases s.len() - i,
{
    let all = lead + s;
    let n = lead.len() as int;
    if i < s.len() {
        assert(all[n + i] == s[i]);
        if i + 1 < s.len() {
            assert(all[n + i + 1] == s[i + 1]);
        }
        if i + 2 < s.len() {
            assert(all[n + i + 2] == s[i + 2]);
        }
        if i + 3 < s.len() {
            assert(all[n + i + 3] == s[i + 3]);
            lemma_base64_behind(lead, s, i + 4);
        }
    }
}

/// Three bytes and their four groups of six bits.
proof fn lemma_regrouped(x: u8, y: u8, z: u8)
    ensures
        ({
            let a = (x / 4) as int;
            let b = (x % 4) * 16 + y / 16;
            let c = (y % 16) * 4 + z / 64;
            let d = (z % 64) as int;
            &&& 0 <= a < 64 && 0 <= b < 64 && 0 <= c < 64 && 0 <= d < 64
            &&& a * 4 + b / 16 == x
            &&& (b % 16) * 16 + c / 4 == y
            &&& (c % 4) * 64 + d == z
        }),
{
}

proof fn lemma_split_up(a: u8, b: u8, c: u8, d: u8)
    requires
        a < 64,
        b < 64,
        c < 64,
        d < 64,
    ensures
        ({
            let x = (a * 4 + b / 16) as u8;
            let y = ((b % 16) * 16 + c / 4) as u8;
            let z = ((c % 4) * 64 + d) as u8;
            &&& (x / 4) as int == a
            &&& (x % 4) * 16 + y / 16 == b
            &&& (y % 16) * 4 + z / 64 == c
            &&& (z % 64) as int == d
            &&& b % 16 == 0 ==> (x % 4) * 16 == b
            &&& c % 4 == 0 ==> (y % 16) * 4 == c
        }),
{
}

proof fn lemma_four_read(s: Seq<char>, x: u8, y: u8, z: u8)
    requires
        s.len() >= 4,
        s[0] == letter((x / 4) as int),
        s[1] == letter((x % 4) * 16 + y / 16),
        s[2] == letter((y % 16) * 4 + z / 64),
        s[3] == letter((z % 64) as int),
    ensures
        base64_bytes(s, 0) == (match base64_bytes(s, 4) {
            Some(rest) => Some(seq![x, y, z] + rest),
            None => None,
        }),
        forall|k: int| 0 <= k < 4 ==> #[trigger] s[k] != '.',
{
    lemma_regrouped(x, y, z);
    lemma_alphabet((x / 4) as int);
    lemma_alphabet((x % 4) * 16 + y / 16);
    lemma_alphabet((y % 16) * 4 + z / 64);
    lemma_alphabet((z % 64) as int);
}

proof fn lemma_rest_read(s: Seq<char>, x: u8, y: u8)
    ensures
        s == seq![letter((x / 4) as int), letter((x % 4) * 16)] ==> base64_bytes(s, 0) == Some(
            seq![x],
        ) && lacks(s, '.'),
        s == seq![
            letter((x / 4) as int),
            letter((x % 4) * 16 + y / 16),
            letter((y % 16) * 4),
        ] ==> base64_bytes(s, 0) == Some(seq![x, y]) && lacks(s, '.'),
{
    lemma_regrouped(x, y, 0);
    lemma_regrouped(x, 0, 0);
    lemma_alphabet((x / 4) as int);
    lemma_alphabet((x % 4) * 16);
    lemma_alphabet((x % 4) * 16 + y / 16);
    lemma_alphabet((y % 16) * 4);
}

/// What was encoded is decoded, whatever the number of bytes.
pub proof fn law_base64_is_read_back(bytes: Seq<u8>)
    ensures
        base64_bytes(base64url(bytes), 0) == Some(bytes),
        lacks(base64url(bytes), '.'),
    decreases bytes.len(),
{
    let text = base64url(bytes);
    if bytes.len() == 0 {
        assert(bytes =~= Seq::empty());
    } else if bytes.len() == 1 {
        lemma_rest_read(text, bytes[0], 0);
        assert(bytes =~= seq![bytes[0]]);
    } else if bytes.len() == 2 {
        lemma_rest_read(text, bytes[0], bytes[1]);
        assert(bytes =~= seq![bytes[0], bytes[1]]);
    } else {
        let rest = bytes.skip(3);
        law_base64_is_read_back(rest);
        let group = text.take(4);
        assert(text =~= group + base64url(rest));
        lemma_base64_behind(group, base64url(rest), 0);
        lemma_four_read(text, bytes[0], bytes[1], bytes[2]);
        assert(seq![bytes[0], bytes[1], bytes[2]] + rest =~= bytes);
        assert forall|k: int| 0 <= k < text.len() implies #[trigger] text[k] != '.' by {
            if k >= 4 {
                assert(text[k] == base64url(rest)[k - 4]);
            }
        }
    }
}

/// Only what encodes some bytes is decoded, and to those bytes.
pub proof fn law_only_base64_is_read(s: Seq<char>)
    ensures
        base64_bytes(s, 0) matches Some(bytes) ==> base64url(bytes) == s,
{
    lemma_only_base64(s, 0);
    assert(s.skip(0) =~= s);
}

proof fn lemma_only_base64(s: Seq<char>, i: int)
    requires
        0 <= i <= s.len(),
    ensures
        base64_bytes(s, i) matches Some(bytes) ==> base64url(bytes) == s.skip(i),
    decreases s.len() - i,
{
    let here = s.skip(i);
    if i == s.len() {
        assert(here =~= Seq::empty());
    } else if s.len() - i >= 2 {
        lemma_sextet(s[i]);
        lemma_sextet(s[i + 1]);
        match (sextet(s[i]), sextet(s[i + 1])) {
            (Some(a), Some(b)) => {
                if s.len() - i == 2 {
                    lemma_split_up(a, b, 0, 0);
                    assert(here =~= seq![letter(a as int), letter(b as int)]);
                } else {
                    lemma_sextet(s[i + 2]);
                    match sextet(s[i + 2]) {
                        Some(c) => {
                            if s.len() - i == 3 {
                                lemma_split_up(a, b, c, 0);
                                assert(here =~= seq![
                                    letter(a as int),
                                    letter(b as int),
                                    letter(c as int),
                                ]);
                            } else {
                                lemma_sextet(s[i + 3]);
                                match sextet(s[i + 3]) {
                                    Some(d) => {
                                        lemma_only_base64(s, i + 4);
                                        lemma_split_up(a, b, c, d);
                                        lemma_four_written(s, i, a, b, c, d);
                                    },
                                    None => {},
                                }
                            }
                        },
                        None => {},
                    }
                }
            },
            _ => {},
        }
    }
}

proof fn lemma_four_written(s: Seq<char>, i: int, a: u8, b: u8, c: u8, d: u8)
    requires
        0 <= i,
        i + 4 <= s.len(),
        a < 64,
        b < 64,
        c < 64,
        d < 64,
        s[i] == letter(a as int),
        s[i + 1] == letter(b as int),
        s[i + 2] == letter(c as int),
        s[i + 3] == letter(d as int),
    ensures
        forall|rest: Seq<u8>|
            #[trigger] base64url(rest) == s.skip(i + 4) ==> base64url(
                seq![
                    (a * 4 + b / 16) as u8,
                    ((b % 16) * 16 + c / 4) as u8,
                    ((c % 4) * 64 + d) as u8,
                ] + rest,
            ) == s.skip(i),
{
    lemma_split_up(a, b, c, d);
    let group = seq![
        (a * 4 + b / 16) as u8,
        ((b % 16) * 16 + c / 4) as u8,
        ((c % 4) * 64 + d) as u8,
    ];
    assert forall|rest: Seq<u8>|
        #[trigger] base64url(rest) == s.skip(i + 4) implies base64url(group + rest) == s.skip(i) by {
        let bytes = group + rest;
        assert(bytes.skip(3) =~= rest);
        assert(base64url(bytes) =~= s.skip(i));
    }
}

// ---------------------------------------------------------------- expiries

/// The claims of a token with a header, claims and a signature are read: the
/// expiry is their `exp`, where it is a whole number that fits.
pub proof fn law_expiry_is_the_claimed_one(
    header: Seq<char>,
    claims: Seq<char>,
    signature: Seq<char>,
)
    requires
        lacks(header, '.'),
        lacks(signature, '.'),
    ensures
        expiry_of(
            header + seq!['.'] + base64url(encode_utf8(claims)) + seq!['.'] + signature,
        ) == (match parsed(claims) {
            Ok(Json::Object(members)) => match lookup(members, "exp"@) {
                Some(Json::Int(n)) if 0 <= n <= u64::MAX => Some(n as u64),
                _ => None,
            },
            _ => None,
        }),
{
    let middle = base64url(encode_utf8(claims));
    let token = header + seq!['.'] + middle + seq!['.'] + signature;
    law_base64_is_read_back(encode_utf8(claims));
    let none = Seq::<char>::empty();
    law_split_at_each(header + seq!['.'] + middle, '.', signature);
    law_split_at_each(header, '.', middle);
    law_split_at_each(middle, '.', none);
    law_split_at_each(signature, '.', none);
    assert(segments(token, '.') =~= seq![header, middle, signature]);
    vstd::utf8::encode_utf8_valid_utf8(claims);
    vstd::utf8::encode_utf8_decode_utf8(claims);
}

/// A token without exactly two dots names no expiry.
pub proof fn law_other_tokens_are_opaque(
    first: Seq<char>,
    second: Seq<char>,
    third: Seq<char>,
    rest: Seq<char>,
)
    requires
        lacks(first, '.'),
        lacks(second, '.'),
    ensures
        expiry_of(first) is None,
        expiry_of(first + seq!['.'] + second) is None,
        expiry_of(first + seq!['.'] + second + seq!['.'] + third + seq!['.'] + rest) is None,
{
    let none = Seq::<char>::empty();
    law_split_at_each(first, '.', second);
    law_split_at_each(second, '.', none);
    law_split_at_each(first + seq!['.'] + second, '.', third);
    law_split_at_each(first + seq!['.'] + second + seq!['.'] + third, '.', rest);
    lemma_some_part(third);
    lemma_some_part(rest);
}

proof fn lemma_some_part(s: Seq<char>)
    ensures
        segments(s, '.').len() >= 1,
{
}

/// A login is answered with a token exactly where the status is a success and the
/// response is JSON with a text at the pointer: that text, with the expiry that
/// it names.
pub proof fn law_login_takes_the_text_at_the_pointer(
    url: Seq<char>,
    pointer: Seq<char>,
    status: u16,
    text: Seq<char>,
)
    ensures
        match token_of(url, pointer, status, text) {
            Ok(token) => {
                &&& 200 <= status <= 299
                &&& parsed(text) matches Ok(doc) && pointed(doc, pointer) == Some(
                    Json::Text(token.access_token),
                )
                &&& token.expires_at_unix == expiry_of(token.access_token)
                &&& token.refresh_token is None
                &&& token.token_type == "Bearer"@
            },
            Err(AuthFault::TokenNotFound(at)) => {
                &&& 200 <= status <= 299
                &&& at == pointer
                &&& parsed(text) matches Ok(doc) && !(pointed(doc, pointer) matches Some(
                    Json::Text(_),
                ))
            },
            Err(AuthFault::LoginFailed { url: at, .. }) => {
                &&& at == url
                &&& status < 200 || status > 299 || parsed(text) is Err
            },
            Err(_) => false,
        },
{
}

// ---------------------------------------------------------------- use

/// A token is used for as long as its expiry is more than the margin away, and a
/// login follows from then on.
pub proof fn law_login_when_the_margin_is_reached(margin: u64, token: TokenShape, now: u64)
    ensures
        jwt_login::token_step(margin, None, now) == TokenStepShape::Login,
        token.expires_at_unix is Some && token.expires_at_unix->0 - now <= margin
            ==> jwt_login::token_step(margin, Some(token), now) == TokenStepShape::Login,
        token.expires_at_unix is Some && token.expires_at_unix->0 - now > margin
            ==> jwt_login::token_step(margin, Some(token), now) == TokenStepShape::Use(
            token.access_token,
        ),
        fresh_at(token.expires_at_unix, now, margin) <==> (token.expires_at_unix is Some
            ==> token.expires_at_unix->0 - now > margin),
{
}

/// Browser logins renew a token when a minute is left: with the refresh token
/// where there is one, else in the browser, which headless contexts never reach.
pub proof fn law_refresh_when_a_minute_is_left(
    project: Seq<char>,
    headless: bool,
    token: TokenShape,
    now: u64,
)
    ensures
        ({
            let step = oauth_pkce::token_step(project, headless, Some(token), now);
            let holds = token.expires_at_unix is Some ==> token.expires_at_unix->0 - now > 60;
            &&& holds ==> step == TokenStepShape::Use(token.access_token)
            &&& !holds && token.refresh_token is Some ==> step == TokenStepShape::Refresh(
                token.refresh_token->0,
            )
            &&& !holds && token.refresh_token is None ==> step == oauth_pkce::token_step(
                project,
                headless,
                None,
                now,
            )
        }),
        !headless ==> oauth_pkce::token_step(project, headless, None, now)
            == TokenStepShape::Authorize,
        headless ==> (oauth_pkce::token_step(project, headless, None, now) matches TokenStepShape::Fail(
            AuthFault::InteractionRequired(_),
        )),
{
}

/// A granted token is stored as it was granted: it holds for as many seconds as
/// the server said, counted from now.
pub proof fn law_granted_token_is_stored(
    access: Seq<char>,
    refresh: Option<Seq<char>>,
    expires_in: Option<u64>,
    previous: Option<Seq<char>>,
    now: u64,
)
    ensures
        ({
            let token = granted(access, refresh, expires_in, previous, now);
            &&& token.access_token == access
            &&& token.token_type == "Bearer"@
            &&& refresh is Some ==> token.refresh_token == refresh
            &&& refresh is None ==> token.refresh_token == previous
            &&& expires_in is None ==> token.expires_at_unix is None
            &&& expires_in is Some && now + expires_in->0 <= u64::MAX
                ==> token.expires_at_unix is Some && token.expires_at_unix->0 - now
                == expires_in->0
        }),
{
}

// ---------------------------------------------------------------- callbacks

/// The name has the value in the query.
pub open spec fn says(
    query: Seq<(Seq<char>, Seq<char>)>,
    name: Seq<char>,
    value: Seq<char>,
) -> bool {
    exists|k: int|
        0 <= k < query.len() && #[trigger] query[k] == (name, value) && forall|j: int|
            0 <= j < k ==> (#[trigger] query[j]).0 != name
}

/// The name is not in the query.
pub open spec fn silent(query: Seq<(Seq<char>, Seq<char>)>, name: Seq<char>) -> bool {
    forall|j: int| 0 <= j < query.len() ==> (#[trigger] query[j]).0 != name
}

proof fn lemma_said(query: Seq<(Seq<char>, Seq<char>)>, name: Seq<char>, i: int)
    requires
        0 <= i,
    ensures
        match pair_position(query, name, i) {
            Some(k) => i <= k < query.len() && query[k].0 == name && forall|j: int|
                i <= j < k ==> (#[trigger] query[j]).0 != name,
            None => forall|j: int| i <= j < query.len() ==> (#[trigger] query[j]).0 != name,
        },
    decreases query.len() - i,
{
    if i < query.len() && query[i].0 != name {
        lemma_said(query, name, i + 1);
    }
}

/// What the query says is found, and nothing else.
pub proof fn law_values_are_found(query: Seq<(Seq<char>, Seq<char>)>, name: Seq<char>)
    ensures
        match value_of(query, name) {
            Some(value) => says(query, name, value),
            None => silent(query, name),
        },
{
    lemma_said(query, name, 0);
    match pair_position(query, name, 0) {
        Some(k) => {
            assert(query[k] == (name, query[k].1));
        },
        None => {},
    }
}

/// An error in the callback refuses the login, and says which one it is. Without
/// one, a code and a state carry the flow on; both are needed.
pub proof fn law_callback_answers(query: Seq<(Seq<char>, Seq<char>)>)
    ensures
        match answer_of(query) {
            CallbackShape::Granted { code, state, .. } => {
                &&& silent(query, "error"@)
                &&& says(query, "code"@, code)
                &&& says(query, "state"@, state)
            },
            CallbackShape::Refused { error, .. } => {
                &&& !silent(query, "error"@)
                &&& forall|name: Seq<char>, why: Seq<char>|
                    #![trigger says(query, "error"@, name), says(query, "error_description"@, why)]
                    says(query, "error"@, name) && says(query, "error_description"@, why) ==> error
                        == AuthFault::OAuth(
                        "authorization server returned '"@ + name + "': "@ + why,
                    )
                &&& forall|name: Seq<char>|
                    #[trigger] says(query, "error"@, name) && silent(query, "error_description"@)
                        ==> error == AuthFault::OAuth(
                        "authorization server returned '"@ + name + "': "@,
                    )
            },
            CallbackShape::Incomplete { .. } => {
                &&& silent(query, "error"@)
                &&& silent(query, "code"@) || silent(query, "state"@)
            },
            _ => false,
        },
{
    law_values_are_found(query, "error"@);
    law_values_are_found(query, "code"@);
    law_values_are_found(query, "state"@);
    law_values_are_found(query, "error_description"@);
    match value_of(query, "error"@) {
        Some(name) => {
            let k = choose|k: int| 0 <= k < query.len() && #[trigger] query[k] == ("error"@, name);
            assert(query[k].0 == "error"@);
            assert(!silent(query, "error"@));
            assert forall|other: Seq<char>| #[trigger]
                says(query, "error"@, other) implies other == name by {
                lemma_said_once(query, "error"@, name, other);
            }
            match value_of(query, "error_description"@) {
                Some(why) => {
                    assert forall|other: Seq<char>| #[trigger]
                        says(query, "error_description"@, other) implies other == why by {
                        lemma_said_once(query, "error_description"@, why, other);
                    }
                    assert(!silent(query, "error_description"@)) by {
                        let k = choose|k: int|
                            0 <= k < query.len() && #[trigger] query[k] == (
                                "error_description"@,
                                why,
                            );
                        assert(query[k].0 == "error_description"@);
                    }
                },
                None => {
                    let said = "authorization server returned '"@ + name + "': "@;
                    assert(said + Seq::<char>::empty() =~= said);
                },
            }
        },
        None => {},
    }
}

proof fn lemma_said_once(
    query: Seq<(Seq<char>, Seq<char>)>,
    name: Seq<char>,
    a: Seq<char>,
    b: Seq<char>,
)
    requires
        says(query, name, a),
        says(query, name, b),
    ensures
        a == b,
{
    let i = choose|k: int|
        0 <= k < query.len() && #[trigger] query[k] == (name, a) && forall|j: int|
            0 <= j < k ==> (#[trigger] query[j]).0 != name;
    let j = choose|k: int|
        0 <= k < query.len() && #[trigger] query[k] == (name, b) && forall|j: int|
            0 <= j < k ==> (#[trigger] query[j]).0 != name;
    if i < j {
        assert(query[i].0 != name);
    } else if j < i {
        assert(query[j].0 != name);
    }
}

/// A request names an address behind its method; only those below `/callback`
/// are answered, by what their query says.
pub proof fn law_requests_name_an_address(
    method: Seq<char>,
    path: Seq<char>,
    rest: Seq<char>,
)
    requires
        solid(method),
        solid(path),
    ensures
        !starts_with(path, "/callback"@) ==> callback_of(
            method + seq![' '] + path + seq![' '] + rest,
        ) is NotFound,
        starts_with(path, "/callback"@) ==> match url_parts("http://localhost"@ + path) {
            Ok(parts) => callback_of(method + seq![' '] + path + seq![' '] + rest) == answer_of(
                parts.query,
            ),
            Err(_) => callback_of(method + seq![' '] + path + seq![' '] + rest) is Unreadable,
        },
        callback_of(method) is Malformed,
        callback_of(Seq::empty()) is Malformed,
{
    let request = method + seq![' '] + path + seq![' '] + rest;
    let behind = path + seq![' '] + rest;
    assert(request =~= method + seq![' '] + behind);
    law_words(method, ' ', behind);
    law_words(path, ' ', rest);
    assert(words_of(request)[1] == path);
    if starts_with(path, "/callback"@) {
        assert(path.subrange(0, "/callback"@.len() as int) =~= path.take(
            "/callback"@.len() as int,
        ));
    }
}

/// The text starts with the other one.
pub open spec fn starts_with(s: Seq<char>, lead: Seq<char>) -> bool {
    lead.len() <= s.len() && s.take(lead.len() as int) == lead
}

// ---------------------------------------------------------------- prompts

/// A typed line loses its line end, and nothing else.
pub proof fn law_typed_line(line: Seq<char>) -> (len: int)
    ensures
        0 <= len <= line.len(),
        line_text(line) == line.take(len),
        forall|k: int|
            len <= k < line.len() ==> #[trigger] line[k] == '\r' || line[k] == '\n',
        len > 0 ==> line[len - 1] != '\r' && line[len - 1] != '\n',
    decreases line.len(),
{
    if line.len() > 0 && (line.last() == '\r' || line.last() == '\n') {
        let len = law_typed_line(line.drop_last());
        assert(line.drop_last().take(len) =~= line.take(len));
        assert forall|k: int| len <= k < line.len() implies #[trigger] line[k] == '\r' || line[k]
            == '\n' by {
            if k < line.len() - 1 {
                assert(line[k] == line.drop_last()[k]);
            }
        }
        len
    } else {
        assert(line.take(line.len() as int) =~= line);
        line.len() as int
    }
}

// ---------------------------------------------------------------- the flow

/// A page ends with its body, and its head gives the length in bytes.
pub proof fn law_pages_carry_their_body(body: Seq<char>)
    ensures
        ({
            let page = oauth_pkce::page(body);
            let length = "Content-Length: "@ + decimal(encode_utf8(body).len());
            &&& body.len() <= page.len()
            &&& page.skip(page.len() - body.len()) == body
            &&& contains_text(page, length)
            &&& contains_text(page, "200 OK"@)
        }),
{
    let lead =
        "HTTP/1.1 200 OK\r\nContent-Type: text/html; charset=utf-8\r\nContent-Length: "@;
    let digits = decimal(encode_utf8(body).len());
    let behind = "\r\nConnection: close\r\n\r\n"@;
    let page = oauth_pkce::page(body);
    assert(page == lead + digits + behind + body);
    assert(page.skip(page.len() - body.len()) =~= body);
    reveal_strlit(
        "HTTP/1.1 200 OK\r\nContent-Type: text/html; charset=utf-8\r\nContent-Length: ",
    );
    reveal_strlit("Content-Length: ");
    reveal_strlit("200 OK");
    let name = "Content-Length: "@;
    let at = lead.len() - name.len();
    assert(page.subrange(at, at + (name + digits).len()) =~= name + digits);
    assert(occurs_at(page, name + digits, at));
    assert(page.subrange(9, 15) =~= "200 OK"@);
    assert(occurs_at(page, "200 OK"@, 9));
}

/// Of the addresses of the flow, the first that cannot be read is reported, by its
/// name; where all can be read the flow goes on.
pub proof fn law_unusable_address_is_reported(config: OAuth2PkceConfig, redirect: Seq<char>)
    ensures
        ({
            let fault = oauth_pkce::flow_fault(config, redirect);
            let auth = url_parts(config.auth_url.text@);
            let token = url_parts(config.token_url.text@);
            let back = url_parts(redirect);
            &&& auth is Err ==> fault == Some(AuthFault::OAuth("auth_url: "@ + auth->Err_0))
            &&& auth is Ok && token is Err ==> fault == Some(
                AuthFault::OAuth("token_url: "@ + token->Err_0),
            )
            &&& auth is Ok && token is Ok && back is Err ==> fault == Some(
                AuthFault::OAuth("redirect: "@ + back->Err_0),
            )
            &&& auth is Ok && token is Ok && back is Ok ==> fault is None
        }),
{
}

} // verus!
