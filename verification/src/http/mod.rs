//! Request execution: build the URL from the endpoint template, choose the
//! payload, attach auth, and (once) retry on 401 after invalidating cached
//! credentials.

pub mod laws;
pub mod response;

pub use response::ApiResponse;

use crate::config::ProjectConfig;
use crate::error::{RequestError, RequestFault};
use crate::json::print::compact;
use crate::json::{Json, JsonMap, JsonValue};
use crate::model::{Endpoint, EndpointShape};
use crate::names::{named_values, text_entries};
use crate::pairs::{copied_pairs, value_in, value_of};
use crate::text::{
    cat, cat3, chars_of, find, find_from, owned, same, starts_with_text, text_between,
    trim_end_matches, without_trailing,
};
use vstd::prelude::*;
use vstd::string::*;
use vstd::utf8::encode_utf8;

verus! {

/// User-supplied request inputs, the same shape for CLI, MCP, and TUI.
#[derive(Debug)]
pub struct RequestArgs {
    pub path_params: Vec<(String, String)>,
    pub query_params: Vec<(String, String)>,
    pub headers: Vec<(String, String)>,
    pub body: Option<JsonValue>,
    pub no_auth: bool,
}

/// What is sent as the body of a request.
#[derive(Debug)]
pub enum Payload {
    Nothing,
    /// URL-encoded form fields.
    Form(Vec<(String, String)>),
    Json(JsonValue),
}

/// A request ready to be sent.
#[derive(Debug)]
pub struct Outgoing {
    pub method: String,
    pub url: String,
    /// Headers in the order in which they are set.
    pub headers: Vec<(String, String)>,
    pub bearer: Option<String>,
    pub query: Vec<(String, String)>,
    pub payload: Payload,
}

// ---------------------------------------------------------------- model

pub enum PayloadShape {
    Nothing,
    Form(Seq<(Seq<char>, Seq<char>)>),
    Json(Json),
}

pub struct OutgoingShape {
    pub method: Seq<char>,
    pub url: Seq<char>,
    pub headers: Seq<(Seq<char>, Seq<char>)>,
    pub bearer: Option<Seq<char>>,
    pub query: Seq<(Seq<char>, Seq<char>)>,
    pub payload: PayloadShape,
}

pub struct ArgsShape {
    pub path_params: Seq<(Seq<char>, Seq<char>)>,
    pub query_params: Seq<(Seq<char>, Seq<char>)>,
    pub headers: Seq<(Seq<char>, Seq<char>)>,
    pub body: Option<Json>,
    pub no_auth: bool,
}

impl View for RequestArgs {
    type V = ArgsShape;

    open spec fn view(&self) -> ArgsShape {
        ArgsShape {
            path_params: self.path_params.deep_view(),
            query_params: self.query_params.deep_view(),
            headers: self.headers.deep_view(),
            body: self.body.deep_view(),
            no_auth: self.no_auth,
        }
    }
}

impl View for Payload {
    type V = PayloadShape;

    open spec fn view(&self) -> PayloadShape {
        match self {
            Payload::Nothing => PayloadShape::Nothing,
            Payload::Form(pairs) => PayloadShape::Form(pairs.deep_view()),
            Payload::Json(value) => PayloadShape::Json(value@),
        }
    }
}

impl View for Outgoing {
    type V = OutgoingShape;

    open spec fn view(&self) -> OutgoingShape {
        OutgoingShape {
            method: self.method@,
            url: self.url@,
            headers: self.headers.deep_view(),
            bearer: self.bearer.deep_view(),
            query: self.query.deep_view(),
            payload: self.payload@,
        }
    }
}

pub open spec fn ascii_alphanumeric(b: u8) -> bool {
    0x30 <= b <= 0x39 || 0x41 <= b <= 0x5a || 0x61 <= b <= 0x7a
}

/// The character of a hexadecimal digit.
pub open spec fn hex_digit(n: u8) -> char {
    if n < 10 {
        (0x30 + n) as u8 as char
    } else {
        (0x41 + n - 10) as u8 as char
    }
}

/// The bytes from position `i` on, all but ASCII letters and digits escaped.
pub open spec fn escaped(bytes: Seq<u8>, i: int) -> Seq<char>
    decreases bytes.len() - i,
{
    if i < 0 || i >= bytes.len() {
        Seq::empty()
    } else if ascii_alphanumeric(bytes[i]) {
        seq![bytes[i] as char] + escaped(bytes, i + 1)
    } else {
        seq!['%', hex_digit((bytes[i] / 16) as u8), hex_digit((bytes[i] % 16) as u8)] + escaped(
            bytes,
            i + 1,
        )
    }
}

/// `percent_encoding::utf8_percent_encode` with the set `NON_ALPHANUMERIC`:
/// each byte of the text that is no ASCII letter or digit becomes `%` and two
/// upper-case hexadecimal digits.
#[verifier::external_body]
fn percent_encode(text: &str) -> (r: String)
    ensures
        r@ == escaped(encode_utf8(text@), 0),
{
    percent_encoding::utf8_percent_encode(text, percent_encoding::NON_ALPHANUMERIC).to_string()
}

/// The marks that RFC 3986 leaves unreserved beside letters and digits.
pub open spec fn unreserved_mark(c: char) -> bool {
    c == '-' || c == '.' || c == '_' || c == '~'
}

/// A value inside a path, from character `i` on: everything is escaped except
/// the unreserved characters of RFC 3986.
pub open spec fn path_segment(value: Seq<char>, i: int) -> Seq<char>
    decreases value.len() - i,
{
    if i < 0 || i >= value.len() {
        Seq::empty()
    } else if unreserved_mark(value[i]) {
        seq![value[i]] + path_segment(value, i + 1)
    } else {
        escaped(encode_utf8(seq![value[i]]), 0) + path_segment(value, i + 1)
    }
}

/// A text put in front of an outcome.
pub open spec fn prefixed(
    prefix: Seq<char>,
    rest: Result<Seq<char>, RequestFault>,
) -> Result<Seq<char>, RequestFault> {
    match rest {
        Ok(text) => Ok(prefix + text),
        Err(e) => Err(e),
    }
}

/// The path template from character `i` on with its placeholders filled.
pub open spec fn filled(
    template: Seq<char>,
    params: Seq<(Seq<char>, Seq<char>)>,
    i: int,
) -> Result<Seq<char>, RequestFault>
    decreases template.len() - i,
{
    match find_from(template, '{', i) {
        Some(start) if i <= start < template.len() => match find_from(template, '}', start + 1) {
            Some(end) if start < end < template.len() => {
                let name = template.subrange(start + 1, end);
                match value_of(params, name) {
                    Some(value) => prefixed(
                        template.subrange(i, start) + path_segment(value, 0),
                        filled(template, params, end + 1),
                    ),
                    None => Err(RequestFault::MissingPathParam(name)),
                }
            },
            _ => Err(RequestFault::InvalidBody("malformed path '"@ + template + "'"@)),
        },
        _ => Ok(template.skip(i)),
    }
}

/// The address of a request.
pub open spec fn address(
    base_url: Seq<char>,
    path: Seq<char>,
    params: Seq<(Seq<char>, Seq<char>)>,
) -> Result<Seq<char>, RequestFault> {
    prefixed(without_trailing(base_url, '/'), filled(path, params, 0))
}

/// A value as the text of a form field.
pub open spec fn field_text(value: Json) -> Seq<char> {
    match value {
        Json::Text(s) => s,
        other => compact(other),
    }
}

/// The form fields of the members from position `i` on; nulls are left out.
pub open spec fn form_fields(members: Seq<(Seq<char>, Json)>, i: int) -> Seq<
    (Seq<char>, Seq<char>),
>
    decreases members.len() - i,
{
    if i < 0 || i >= members.len() {
        Seq::empty()
    } else if members[i].1 is Null {
        form_fields(members, i + 1)
    } else {
        seq![(members[i].0, field_text(members[i].1))] + form_fields(members, i + 1)
    }
}

/// The content type of an endpoint's body.
pub open spec fn content_type_of(endpoint: EndpointShape) -> Seq<char> {
    match endpoint.body {
        Some(body) => body.content_type,
        None => "application/json"@,
    }
}

/// What is sent for a body, by the endpoint's content type.
pub open spec fn payload_of(
    endpoint: EndpointShape,
    body: Option<Json>,
) -> Result<PayloadShape, RequestFault> {
    match body {
        None => Ok(PayloadShape::Nothing),
        Some(value) => if content_type_of(endpoint) == "application/x-www-form-urlencoded"@ {
            match value {
                Json::Object(members) => Ok(PayloadShape::Form(form_fields(members, 0))),
                _ => Err(
                    RequestFault::InvalidBody("form-encoded endpoints need a JSON object body"@),
                ),
            }
        } else if "multipart/"@.is_prefix_of(content_type_of(endpoint)) {
            Err(RequestFault::InvalidBody("multipart/form-data bodies are not supported yet"@))
        } else {
            Ok(PayloadShape::Json(value))
        },
    }
}

/// The characters of a method's name.
pub open spec fn method_char(c: char) -> bool {
    ||| 'a' <= c <= 'z'
    ||| 'A' <= c <= 'Z'
    ||| '0' <= c <= '9'
    ||| c == '!' || c == '#' || c == '$' || c == '%' || c == '&' || c == '\''
    ||| c == '*' || c == '+' || c == '-' || c == '.' || c == '^' || c == '_'
    ||| c == '`' || c == '|' || c == '~'
}

/// Whether a text is an HTTP method.
pub open spec fn http_method(text: Seq<char>) -> bool {
    text.len() > 0 && forall|i: int| 0 <= i < text.len() ==> method_char(#[trigger] text[i])
}

/// `reqwest::Method` read from a text by `str::parse`: any text of method
/// characters is one, except the empty text.
#[verifier::external_body]
fn is_method(text: &str) -> (r: bool)
    ensures
        r == http_method(text@),
{
    text.parse::<reqwest::Method>().is_ok()
}

/// The request that is sent.
pub open spec fn outgoing_of(
    defaults: Seq<(Seq<char>, String)>,
    endpoint: EndpointShape,
    args: ArgsShape,
    url: Seq<char>,
    bearer: Option<Seq<char>>,
) -> Result<OutgoingShape, RequestFault> {
    if !http_method(endpoint.method) {
        Err(RequestFault::InvalidHeader(endpoint.method))
    } else {
        match payload_of(endpoint, args.body) {
            Ok(payload) => Ok(
                OutgoingShape {
                    method: endpoint.method,
                    url,
                    headers: text_entries(defaults) + args.headers,
                    bearer,
                    query: args.query_params,
                    payload,
                },
            ),
            Err(e) => Err(e),
        }
    }
}

// ---------------------------------------------------------------- building

/// A value inside a path, escaped.
fn encode_segment(value: &str) -> (r: String)
    ensures
        r@ == path_segment(value@, 0),
{
    let chars = chars_of(value);
    let mut out = String::new();
    assert(out@ + path_segment(value@, 0) =~= path_segment(value@, 0));
    for i in 0..chars.len()
        invariant
            chars@ == value@,
            out@ + path_segment(value@, i as int) == path_segment(value@, 0),
    {
        let ghost before = out@;
        let c: char = chars[i];
        if c == '-' || c == '.' || c == '_' || c == '~' {
            out.push(c);
            assert(out@ + path_segment(value@, i + 1) =~= before + (seq![c] + path_segment(
                value@,
                i + 1,
            )));
        } else {
            let mut single = String::new();
            single.push(c);
            assert(single@ =~= seq![c]);
            let code = percent_encode(single.as_str());
            out.append(code.as_str());
            assert(out@ + path_segment(value@, i + 1) =~= before + (escaped(
                encode_utf8(seq![c]),
                0,
            ) + path_segment(value@, i + 1)));
        }
    }
    assert(out@ =~= path_segment(value@, 0));
    out
}

/// Substitutes `{param}` placeholders, percent-encoding values.
pub fn fill_path(template: &str, params: &Vec<(String, String)>) -> (r: Result<
    String,
    RequestError,
>)
    ensures
        match r {
            Ok(path) => filled(template@, params.deep_view(), 0) == Ok::<Seq<char>, RequestFault>(
                path@,
            ),
            Err(e) => filled(template@, params.deep_view(), 0) == Err::<Seq<char>, RequestFault>(
                e@,
            ),
        },
{
    let ghost all = params.deep_view();
    let chars = chars_of(template);
    let len: usize = chars.len();
    let mut out = String::new();
    let mut i: usize = 0;
    assert(prefixed(out@, filled(template@, all, 0)) == filled(template@, all, 0)) by {
        match filled(template@, all, 0) {
            Ok(text) => {
                assert(out@ + text =~= text);
            },
            Err(_) => {},
        }
    }
    loop
        invariant
            chars@ == template@,
            len == chars@.len(),
            i <= len,
            all == params.deep_view(),
            prefixed(out@, filled(template@, all, i as int)) == filled(template@, all, 0),
        decreases len - i,
    {
        let start: usize = match find(&chars, '{', i) {
            Some(start) => start,
            None => {
                let rest = text_between(&chars, i, len);
                assert(rest@ =~= template@.skip(i as int));
                out.append(rest.as_str());
                return Ok(out);
            },
        };
        let end: usize = match find(&chars, '}', start + 1) {
            Some(end) => end,
            None => {
                return Err(RequestError::InvalidBody(cat3("malformed path '", template, "'")));
            },
        };
        let name = text_between(&chars, start + 1, end);
        let value = match value_in(params, name.as_str()) {
            Some(value) => value,
            None => {
                return Err(RequestError::MissingPathParam(name));
            },
        };
        let ghost before = out@;
        let literal = text_between(&chars, i, start);
        out.append(literal.as_str());
        let segment = encode_segment(value.as_str());
        out.append(segment.as_str());
        proof {
            let added = template@.subrange(i as int, start as int) + path_segment(value@, 0);
            assert(out@ =~= before + added);
            match filled(template@, all, end + 1) {
                Ok(text) => {
                    assert(before + (added + text) =~= before + added + text);
                },
                Err(_) => {},
            }
        }
        i = end + 1;
    }
}

/// The address of a request to an endpoint of a project.
pub fn build_url(base_url: &str, endpoint: &Endpoint, args: &RequestArgs) -> (r: Result<
    String,
    RequestError,
>)
    ensures
        match r {
            Ok(url) => address(base_url@, endpoint@.path, args@.path_params) == Ok::<
                Seq<char>,
                RequestFault,
            >(url@),
            Err(e) => address(base_url@, endpoint@.path, args@.path_params) == Err::<
                Seq<char>,
                RequestFault,
            >(e@),
        },
{
    match fill_path(endpoint.path.as_str(), &args.path_params) {
        Ok(path) => {
            let root = trim_end_matches(base_url, '/');
            Ok(cat(root.as_str(), path.as_str()))
        },
        Err(e) => Err(e),
    }
}

fn scalar_to_string(value: &JsonValue) -> (r: String)
    ensures
        r@ == field_text(value@),
{
    match value {
        JsonValue::Text(s) => s.clone(),
        other => other.to_text(),
    }
}

fn fields_of(map: &JsonMap) -> (r: Vec<(String, String)>)
    ensures
        r.deep_view() == form_fields(map@, 0),
{
    let ghost all = map@;
    let mut out: Vec<(String, String)> = Vec::new();
    assert(out.deep_view() + form_fields(all, 0) =~= form_fields(all, 0));
    for i in 0..map.entries.len()
        invariant
            all == map@,
            out.deep_view() + form_fields(all, i as int) == form_fields(all, 0),
    {
        let ghost before = out.deep_view();
        let (name, value) = &map.entries[i];
        assert(all[i as int] == (name@, value@));
        if !value.is_null() {
            out.push((name.clone(), scalar_to_string(value)));
            let ghost added = (name@, field_text(value@));
            assert(out.deep_view() =~= before.push(added));
            assert(before.push(added) + form_fields(all, i + 1) =~= before + (seq![added]
                + form_fields(all, i + 1)));
        }
    }
    assert(out.deep_view() =~= form_fields(all, 0));
    out
}

/// What is sent for a body, by the endpoint's declared content type.
pub fn attach_body(endpoint: &Endpoint, body: &Option<JsonValue>) -> (r: Result<
    Payload,
    RequestError,
>)
    ensures
        match r {
            Ok(payload) => payload_of(endpoint@, body.deep_view()) == Ok::<
                PayloadShape,
                RequestFault,
            >(payload@),
            Err(e) => payload_of(endpoint@, body.deep_view()) == Err::<PayloadShape, RequestFault>(
                e@,
            ),
        },
{
    let value = match body {
        Some(value) => value,
        None => {
            return Ok(Payload::Nothing);
        },
    };
    let content_type = match &endpoint.body {
        Some(spec) => spec.content_type.as_str(),
        None => "application/json",
    };
    if same(content_type, "application/x-www-form-urlencoded") {
        return match value {
            JsonValue::Object(map) => Ok(Payload::Form(fields_of(map))),
            _ => Err(
                RequestError::InvalidBody(owned("form-encoded endpoints need a JSON object body")),
            ),
        };
    }
    if starts_with_text(content_type, "multipart/") {
        return Err(
            RequestError::InvalidBody(owned("multipart/form-data bodies are not supported yet")),
        );
    }
    Ok(Payload::Json(value.clone()))
}

/// The request that is sent to an address with a bearer token.
pub fn outgoing(
    project: &ProjectConfig,
    endpoint: &Endpoint,
    args: &RequestArgs,
    url: &str,
    bearer: Option<String>,
) -> (r: Result<Outgoing, RequestError>)
    ensures
        match r {
            Ok(request) => outgoing_of(
                project.default_headers@,
                endpoint@,
                args@,
                url@,
                bearer.deep_view(),
            ) == Ok::<OutgoingShape, RequestFault>(request@),
            Err(e) => outgoing_of(
                project.default_headers@,
                endpoint@,
                args@,
                url@,
                bearer.deep_view(),
            ) == Err::<OutgoingShape, RequestFault>(e@),
        },
{
    if !is_method(endpoint.method.as_str()) {
        return Err(RequestError::InvalidHeader(endpoint.method.clone()));
    }
    let payload = match attach_body(endpoint, &args.body) {
        Ok(payload) => payload,
        Err(e) => {
            return Err(e);
        },
    };
    let ghost defaults = project.default_headers@;
    let ghost own = text_entries(defaults);
    let mut headers: Vec<(String, String)> = Vec::new();
    let entries = project.default_headers.entries();
    for i in 0..entries.len()
        invariant
            defaults == named_values(entries@),
            own == text_entries(defaults),
            headers@.len() == i,
            forall|k: int|
                0 <= k < i ==> (#[trigger] headers@[k]).0@ == own[k].0 && headers@[k].1@
                    == own[k].1,
    {
        assert(defaults[i as int] == (entries@[i as int].0@, entries@[i as int].1));
        headers.push((entries[i].0.clone(), entries[i].1.clone()));
    }
    assert(headers.deep_view() =~= own);
    let mut extra = copied_pairs(&args.headers);
    let ghost first = headers.deep_view();
    let ghost second = extra.deep_view();
    headers.append(&mut extra);
    assert(headers.deep_view() =~= first + second);
    Ok(
        Outgoing {
            method: endpoint.method.clone(),
            url: owned(url),
            headers,
            bearer,
            query: copied_pairs(&args.query_params),
            payload,
        },
    )
}

// ---------------------------------------------------------------- the exchange

/// What has to be done next to execute a request.
#[derive(Debug, Clone, Copy, PartialEq, Eq, Structural)]
pub enum ExchangeStep {
    /// Acquire a bearer token, then continue with `authorized`.
    Authorize,
    /// Send the request, then continue with `answered`.
    Send,
    /// Drop the cached token, then continue with `invalidated`.
    Invalidate,
    /// The last answer is the outcome.
    Done,
}

/// One request and its reactive retry.
#[derive(Debug, Clone, Copy, PartialEq, Eq, Structural)]
pub struct Exchange {
    /// Whether requests carry a bearer token.
    pub use_auth: bool,
    /// Whether the token was already renewed once.
    pub retried: bool,
}

impl Exchange {
    /// Starts: tokens are used where auth is configured and not declined.
    pub fn start(no_auth: bool, auth_configured: bool) -> (r: (Exchange, ExchangeStep))
        ensures
            r.0 == (Exchange { use_auth: !no_auth && auth_configured, retried: false }),
            r.1 == (if !no_auth && auth_configured {
                ExchangeStep::Authorize
            } else {
                ExchangeStep::Send
            }),
    {
        let use_auth = !no_auth && auth_configured;
        let step = if use_auth {
            ExchangeStep::Authorize
        } else {
            ExchangeStep::Send
        };
        (Exchange { use_auth, retried: false }, step)
    }

    /// A token is at hand.
    pub fn authorized(self) -> (r: (Exchange, ExchangeStep))
        ensures
            r == (self, ExchangeStep::Send),
    {
        (self, ExchangeStep::Send)
    }

    /// An answer came. One reactive retry: the cached token may have just expired.
    pub fn answered(self, status: u16) -> (r: (Exchange, ExchangeStep))
        ensures
            r == after_answer(self, status),
    {
        if status == 401 && self.use_auth && !self.retried {
            (Exchange { use_auth: true, retried: true }, ExchangeStep::Invalidate)
        } else {
            (self, ExchangeStep::Done)
        }
    }

    /// The cached token is dropped.
    pub fn invalidated(self) -> (r: (Exchange, ExchangeStep))
        ensures
            r == (self, ExchangeStep::Authorize),
    {
        (self, ExchangeStep::Authorize)
    }
}

pub open spec fn after_answer(exchange: Exchange, status: u16) -> (Exchange, ExchangeStep) {
    if status == 401 && exchange.use_auth && !exchange.retried {
        (Exchange { use_auth: true, retried: true }, ExchangeStep::Invalidate)
    } else {
        (exchange, ExchangeStep::Done)
    }
}

// ---------------------------------------------------------------- laws

/// At most one retry: whatever the second answer is, the exchange is over.
pub proof fn law_at_most_one_retry(exchange: Exchange, first: u16, second: u16)
    ensures
        after_answer(after_answer(exchange, first).0, second).1 == ExchangeStep::Done
            || after_answer(exchange, first).1 == ExchangeStep::Done,
{
}

/// Requests that carry no token are never retried, and answers other than 401 are final.
pub proof fn law_only_rejected_tokens_are_retried(exchange: Exchange, status: u16)
    requires
        !exchange.use_auth || status != 401,
    ensures
        after_answer(exchange, status) == (exchange, ExchangeStep::Done),
{
}

/// A path without placeholders is left as it is.
pub proof fn law_plain_path_is_kept(
    template: Seq<char>,
    params: Seq<(Seq<char>, Seq<char>)>,
)
    requires
        find_from(template, '{', 0) is None,
    ensures
        filled(template, params, 0) == Ok::<Seq<char>, RequestFault>(template),
{
    assert(template.skip(0) =~= template);
}

/// An escaped byte never yields a character with a meaning in a path.
proof fn lemma_escaped_is_plain(bytes: Seq<u8>, i: int)
    requires
        0 <= i,
    ensures
        forall|k: int|
            0 <= k < escaped(bytes, i).len() ==> plain_in_path(#[trigger] escaped(bytes, i)[k]),
    decreases bytes.len() - i,
{
    if i < bytes.len() {
        lemma_escaped_is_plain(bytes, i + 1);
        let rest = escaped(bytes, i + 1);
        let here = escaped(bytes, i);
        assert forall|k: int| 0 <= k < here.len() implies plain_in_path(#[trigger] here[k]) by {
            let own = (here.len() - rest.len()) as int;
            if k >= own {
                assert(here[k] == rest[k - own]);
            }
        }
    }
}

/// Letters, digits, the percent sign and the unreserved marks.
pub open spec fn plain_in_path(c: char) -> bool {
    ('0' <= c <= '9') || ('A' <= c <= 'Z') || ('a' <= c <= 'z') || c == '%' || unreserved_mark(c)
}

/// A value never adds structure to a path: it cannot hold a slash, a question
/// mark or any other character with a meaning of its own.
pub proof fn law_values_add_no_structure(value: Seq<char>, i: int)
    requires
        0 <= i,
    ensures
        forall|k: int|
            0 <= k < path_segment(value, i).len() ==> plain_in_path(
                #[trigger] path_segment(value, i)[k],
            ),
    decreases value.len() - i,
{
    if i < value.len() {
        law_values_add_no_structure(value, i + 1);
        let rest = path_segment(value, i + 1);
        let here = path_segment(value, i);
        let code = escaped(encode_utf8(seq![value[i]]), 0);
        lemma_escaped_is_plain(encode_utf8(seq![value[i]]), 0);
        assert forall|k: int| 0 <= k < here.len() implies plain_in_path(#[trigger] here[k]) by {
            let own = (here.len() - rest.len()) as int;
            if k >= own {
                assert(here[k] == rest[k - own]);
            } else if !unreserved_mark(value[i]) {
                assert(here[k] == code[k]);
            }
        }
    }
}

} // verus!
