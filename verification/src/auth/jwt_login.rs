//! Local auth: POST to a login endpoint, cache the JWT, log in again before
//! it expires.

use super::token_store::{fresh_at, StoredToken, TokenShape};
use super::{TokenStep, TokenStepShape};
use crate::config::{CredentialRef, JwtLoginConfig, LoginContentType};
use crate::error::{AuthError, AuthFault};
use crate::http::{Payload, PayloadShape};
use crate::json::parse::parsed;
use crate::json::pointer::{pointed, segments, split};
use crate::json::{Json, JsonMap, JsonValue};
use crate::text::{cat, chars_of, decimal, owned, show, trim_end_matches, without_trailing};
use vstd::prelude::*;
use vstd::string::*;
use vstd::utf8::{decode_utf8, encode_utf8, valid_utf8};

verus! {

#[derive(Debug)]
pub struct JwtLoginProvider<'a> {
    pub base_url: String,
    pub config: &'a JwtLoginConfig,
}

// ---------------------------------------------------------------- model

/// How to come by a token: the cached one while it is fresh, else a login.
pub open spec fn token_step(
    margin: u64,
    stored: Option<TokenShape>,
    now: u64,
) -> TokenStepShape {
    match stored {
        Some(token) if fresh_at(token.expires_at_unix, now, margin) => TokenStepShape::Use(
            token.access_token,
        ),
        _ => TokenStepShape::Login,
    }
}

/// The six bits of a character of the URL-safe base64 alphabet.
pub open spec fn sextet(c: char) -> Option<u8> {
    if 'A' <= c <= 'Z' {
        Some((c as u8 - 65) as u8)
    } else if 'a' <= c <= 'z' {
        Some((c as u8 - 71) as u8)
    } else if '0' <= c <= '9' {
        Some((c as u8 + 4) as u8)
    } else if c == '-' {
        Some(62)
    } else if c == '_' {
        Some(63)
    } else {
        None
    }
}

pub open spec fn in_front(bytes: Seq<u8>, rest: Option<Seq<u8>>) -> Option<Seq<u8>> {
    match rest {
        Some(tail) => Some(bytes + tail),
        None => None,
    }
}

/// The bytes that unpadded URL-safe base64 denotes, from character `i` on:
/// four characters make three bytes, and what is left over carries no stray bits.
pub open spec fn base64_bytes(s: Seq<char>, i: int) -> Option<Seq<u8>>
    decreases s.len() - i,
{
    if i < 0 || i >= s.len() {
        Some(Seq::empty())
    } else if s.len() - i == 1 {
        None
    } else {
        match (sextet(s[i]), sextet(s[i + 1])) {
            (Some(a), Some(b)) => if s.len() - i == 2 {
                if b % 16 == 0 {
                    Some(seq![(a * 4 + b / 16) as u8])
                } else {
                    None
                }
            } else {
                match sextet(s[i + 2]) {
                    Some(c) => if s.len() - i == 3 {
                        if c % 4 == 0 {
                            Some(
                                seq![(a * 4 + b / 16) as u8, ((b % 16) * 16 + c / 4) as u8],
                            )
                        } else {
                            None
                        }
                    } else {
                        match sextet(s[i + 3]) {
                            Some(d) => in_front(
                                seq![
                                    (a * 4 + b / 16) as u8,
                                    ((b % 16) * 16 + c / 4) as u8,
                                    ((c % 4) * 64 + d) as u8,
                                ],
                                base64_bytes(s, i + 4),
                            ),
                            None => None,
                        }
                    },
                    None => None,
                }
            },
            _ => None,
        }
    }
}

/// The expiry that the claims of a token name.
pub open spec fn claimed_expiry(claims: Seq<char>) -> Option<u64> {
    match parsed(claims) {
        Ok(value) => match value.member("exp"@) {
            Some(exp) => exp.as_u64(),
            None => None,
        },
        Err(_) => None,
    }
}

/// The `exp` claim of a JWT. An opaque token has none.
pub open spec fn expiry_of(token: Seq<char>) -> Option<u64> {
    let parts = segments(token, '.');
    if parts.len() != 3 {
        None
    } else {
        match base64_bytes(parts[1], 0) {
            Some(bytes) => if valid_utf8(bytes) {
                claimed_expiry(decode_utf8(bytes))
            } else {
                None
            },
            None => None,
        }
    }
}

/// The token in a login response.
pub open spec fn token_of(
    url: Seq<char>,
    pointer: Seq<char>,
    status: u16,
    text: Seq<char>,
) -> Result<TokenShape, AuthFault> {
    if status < 200 || status >= 300 {
        Err(AuthFault::LoginFailed { url, message: "HTTP "@ + decimal(status as nat) })
    } else {
        match parsed(text) {
            Err(message) => Err(AuthFault::LoginFailed { url, message }),
            Ok(value) => match pointed(value, pointer) {
                Some(Json::Text(token)) => Ok(
                    TokenShape {
                        access_token: token,
                        refresh_token: None,
                        expires_at_unix: expiry_of(token),
                        token_type: "Bearer"@,
                    },
                ),
                _ => Err(AuthFault::TokenNotFound(pointer)),
            },
        }
    }
}

// ---------------------------------------------------------------- operations

fn bits_of(c: char) -> (r: Option<u8>)
    ensures
        r == sextet(c),
        r matches Some(v) ==> v < 64,
{
    if 'A' <= c && c <= 'Z' {
        Some(c as u8 - 65)
    } else if 'a' <= c && c <= 'z' {
        Some(c as u8 - 71)
    } else if '0' <= c && c <= '9' {
        Some(c as u8 + 4)
    } else if c == '-' {
        Some(62)
    } else if c == '_' {
        Some(63)
    } else {
        None
    }
}

fn decode_base64(s: &str) -> (r: Option<Vec<u8>>)
    ensures
        match r {
            Some(bytes) => base64_bytes(s@, 0) == Some(bytes@),
            None => base64_bytes(s@, 0) is None,
        },
{
    let chars = chars_of(s);
    let len: usize = chars.len();
    let mut out: Vec<u8> = Vec::new();
    let mut i: usize = 0;
    proof {
        match base64_bytes(s@, 0) {
            Some(bytes) => {
                assert(out@ + bytes =~= bytes);
            },
            None => {},
        }
    }
    while i < len
        invariant
            chars@ == s@,
            len == chars@.len(),
            i <= len,
            in_front(out@, base64_bytes(s@, i as int)) == base64_bytes(s@, 0),
        decreases len - i,
    {
        let ghost before = out@;
        if len - i == 1 {
            return None;
        }
        let (a, b): (u8, u8) = match (bits_of(chars[i]), bits_of(chars[i + 1])) {
            (Some(a), Some(b)) => (a, b),
            _ => {
                return None;
            },
        };
        if len - i == 2 {
            if b % 16 != 0 {
                return None;
            }
            out.push(a * 4 + b / 16);
            assert(out@ =~= before + seq![(a * 4 + b / 16) as u8]);
            return Some(out);
        }
        let c: u8 = match bits_of(chars[i + 2]) {
            Some(c) => c,
            None => {
                return None;
            },
        };
        if len - i == 3 {
            if c % 4 != 0 {
                return None;
            }
            out.push(a * 4 + b / 16);
            out.push((b % 16) * 16 + c / 4);
            assert(out@ =~= before + seq![
                (a * 4 + b / 16) as u8,
                ((b % 16) * 16 + c / 4) as u8,
            ]);
            return Some(out);
        }
        let d: u8 = match bits_of(chars[i + 3]) {
            Some(d) => d,
            None => {
                return None;
            },
        };
        out.push(a * 4 + b / 16);
        out.push((b % 16) * 16 + c / 4);
        out.push((c % 4) * 64 + d);
        proof {
            let group = seq![
                (a * 4 + b / 16) as u8,
                ((b % 16) * 16 + c / 4) as u8,
                ((c % 4) * 64 + d) as u8,
            ];
            assert(out@ =~= before + group);
            match base64_bytes(s@, i + 4) {
                Some(tail) => {
                    assert(before + (group + tail) =~= before + group + tail);
                },
                None => {},
            }
        }
        i += 4;
    }
    assert(out@ + Seq::<u8>::empty() =~= out@);
    Some(out)
}

/// `String::from_utf8`: the text whose UTF-8 encoding the bytes are, if any.
#[verifier::external_body]
fn text_from(bytes: Vec<u8>) -> (r: Option<String>)
    ensures
        match r {
            Some(text) => encode_utf8(text@) == bytes@,
            None => !valid_utf8(bytes@),
        },
{
    String::from_utf8(bytes).ok()
}

/// The expiry that the claims of a token name.
pub fn read_claims(claims: &str) -> (r: Option<u64>)
    ensures
        r == claimed_expiry(claims@),
{
    match JsonValue::parse(claims) {
        Ok(value) => match value.get("exp") {
            Some(exp) => exp.as_u64(),
            None => None,
        },
        Err(_) => None,
    }
}

/// The `exp` claim of a JWT. An opaque token has none.
pub fn jwt_expiry(token: &str) -> (r: Option<u64>)
    ensures
        r == expiry_of(token@),
{
    let parts = split(token, '.');
    let ghost shown = parts.deep_view();
    if parts.len() != 3 {
        return None;
    }
    assert(shown[1] == parts@[1]@);
    match decode_base64(parts[1].as_str()) {
        Some(bytes) => {
            let ghost raw = bytes@;
            match text_from(bytes) {
                Some(claims) => {
                    proof {
                        vstd::utf8::encode_utf8_valid_utf8(claims@);
                        vstd::utf8::encode_utf8_decode_utf8(claims@);
                    }
                    read_claims(claims.as_str())
                },
                None => None,
            }
        },
        None => None,
    }
}

fn is_prompt(cred: &CredentialRef) -> (r: bool)
    ensures
        r == (*cred is Prompt),
{
    match cred {
        CredentialRef::Prompt { .. } => true,
        _ => false,
    }
}

impl<'a> JwtLoginProvider<'a> {
    /// How to come by a token.
    pub fn token(&self, stored: &Option<StoredToken>, now: u64) -> (r: TokenStep)
        ensures
            r@ == token_step(self.config.refresh_margin_secs, stored.deep_view(), now),
    {
        match stored {
            Some(token) => if token.is_fresh_at(now, self.config.refresh_margin_secs) {
                TokenStep::Use(token.access_token.clone())
            } else {
                TokenStep::Login
            },
            None => TokenStep::Login,
        }
    }

    /// The address of the login endpoint.
    pub fn login_url(&self) -> (r: String)
        ensures
            r@ == without_trailing(self.base_url@, '/') + self.config.login_path@,
    {
        let root = trim_end_matches(self.base_url.as_str(), '/');
        cat(root.as_str(), self.config.login_path.as_str())
    }

    /// What is posted to the login endpoint.
    pub fn login_payload(&self, username: String, password: String) -> (r: Payload)
        ensures
            r@ == (match self.config.login_content_type {
                LoginContentType::Form => PayloadShape::Form(
                    seq![("username"@, username@), ("password"@, password@)],
                ),
                LoginContentType::Json => PayloadShape::Json(
                    Json::Object(
                        seq![
                            ("username"@, Json::Text(username@)),
                            ("password"@, Json::Text(password@)),
                        ],
                    ),
                ),
            }),
    {
        match self.config.login_content_type {
            LoginContentType::Form => {
                let ghost expected = seq![("username"@, username@), ("password"@, password@)];
                let mut pairs: Vec<(String, String)> = Vec::new();
                pairs.push((owned("username"), username));
                pairs.push((owned("password"), password));
                assert(pairs.deep_view() =~= expected);
                Payload::Form(pairs)
            },
            LoginContentType::Json => {
                let mut map = JsonMap::new();
                map.append_text("username", username.as_str());
                map.append_text("password", password.as_str());
                assert(map@ =~= seq![
                    ("username"@, Json::Text(username@)),
                    ("password"@, Json::Text(password@)),
                ]);
                Payload::Json(JsonValue::Object(map))
            },
        }
    }

    /// The token in a login response.
    pub fn read_login(&self, status: u16, text: &str) -> (r: Result<StoredToken, AuthError>)
        ensures
            match r {
                Ok(token) => token_of(
                    without_trailing(self.base_url@, '/') + self.config.login_path@,
                    self.config.token_json_pointer@,
                    status,
                    text@,
                ) == Ok::<TokenShape, AuthFault>(token@),
                Err(e) => token_of(
                    without_trailing(self.base_url@, '/') + self.config.login_path@,
                    self.config.token_json_pointer@,
                    status,
                    text@,
                ) == Err::<TokenShape, AuthFault>(e@),
            },
    {
        if status < 200 || status >= 300 {
            let number = show(status as u64);
            return Err(
                AuthError::LoginFailed {
                    url: self.login_url(),
                    message: cat("HTTP ", number.as_str()),
                },
            );
        }
        let value = match JsonValue::parse(text) {
            Ok(value) => value,
            Err(message) => {
                return Err(AuthError::LoginFailed { url: self.login_url(), message });
            },
        };
        match value.pointer(self.config.token_json_pointer.as_str()) {
            Some(JsonValue::Text(token)) => Ok(
                StoredToken {
                    access_token: token.clone(),
                    refresh_token: None,
                    expires_at_unix: jwt_expiry(token.as_str()),
                    token_type: owned("Bearer"),
                },
            ),
            _ => Err(AuthError::TokenNotFound(self.config.token_json_pointer.clone())),
        }
    }

    /// False when a credential has to be asked for.
    pub fn supports_headless(&self) -> (r: bool)
        ensures
            r == (!(self.config.username is Prompt) && !(self.config.password is Prompt)),
    {
        !is_prompt(&self.config.username) && !is_prompt(&self.config.password)
    }
}

// ---------------------------------------------------------------- laws

/// A token without a known expiry is used until it is dropped.
pub proof fn law_opaque_token_stays_in_use(margin: u64, token: TokenShape, now: u64)
    requires
        token.expires_at_unix is None,
    ensures
        token_step(margin, Some(token), now) == TokenStepShape::Use(token.access_token),
{
}

} // verus!
