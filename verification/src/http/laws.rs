//! What requests promise: values survive their way into the address, and every
//! input of a request arrives where it belongs.

use super::response::{body_of, body_text, response_json, status_exit, ApiResponseShape};
use super::{
    address, after_answer, ascii_alphanumeric, escaped, filled, form_fields, hex_digit,
    http_method, outgoing_of, path_segment, payload_of, unreserved_mark, ArgsShape, Exchange,
    ExchangeStep, OutgoingShape, PayloadShape,
};
use crate::error::RequestFault;
use crate::json::parse::parsed;
use crate::json::print::{compact, indented};
use crate::json::{lookup, position_from, Json};
use crate::lists::lemma_filter_from;
use crate::model::EndpointShape;
use crate::pairs::pair_position;
use crate::text::find_from;
use crate::text::laws::{
    lacks, law_first_is_found, law_found_is_first, law_without_trailing, lemma_found_behind,
};
use vstd::prelude::*;
use vstd::string::*;
use vstd::utf8::{encode_scalar, encode_utf8};

verus! {

// ---------------------------------------------------------------- path segments

/// The value of a hexadecimal digit of either case.
pub open spec fn hex_value(c: char) -> Option<int> {
    if '0' <= c <= '9' {
        Some(c as int - '0' as int)
    } else if 'A' <= c <= 'F' {
        Some(c as int - 'A' as int + 10)
    } else if 'a' <= c <= 'f' {
        Some(c as int - 'a' as int + 10)
    } else {
        None
    }
}

/// What a server reads from an escaped text: a percent sign and two digits are
/// one byte, any other ASCII character stands for itself.
pub open spec fn percent_decoded(s: Seq<char>) -> Option<Seq<u8>>
    decreases s.len(),
{
    if s.len() == 0 {
        Some(Seq::empty())
    } else if s[0] == '%' {
        if s.len() < 3 {
            None
        } else {
            match (hex_value(s[1]), hex_value(s[2]), percent_decoded(s.skip(3))) {
                (Some(high), Some(low), Some(rest)) => Some(
                    seq![(16 * high + low) as u8] + rest,
                ),
                _ => None,
            }
        }
    } else if s[0] as int <= 0x7f {
        match percent_decoded(s.skip(1)) {
            Some(rest) => Some(seq![s[0] as u8] + rest),
            None => None,
        }
    } else {
        None
    }
}

/// A character that needs no escaping: a letter, a digit or one of the four marks.
pub open spec fn unreserved(c: char) -> bool {
    ||| 'A' <= c <= 'Z'
    ||| 'a' <= c <= 'z'
    ||| '0' <= c <= '9'
    ||| c == '-'
    ||| c == '.'
    ||| c == '_'
    ||| c == '~'
}

proof fn lemma_hex(b: u8)
    ensures
        hex_value(hex_digit((b / 16) as u8)) == Some((b / 16) as int),
        hex_value(hex_digit((b % 16) as u8)) == Some((b % 16) as int),
        16 * (b / 16) + b % 16 == b,
{
}

proof fn lemma_escaped_decodes(bytes: Seq<u8>, i: int, tail: Seq<char>)
    requires
        0 <= i <= bytes.len(),
        percent_decoded(tail) is Some,
    ensures
        percent_decoded(escaped(bytes, i) + tail) == Some(
            bytes.skip(i) + percent_decoded(tail)->0,
        ),
    decreases bytes.len() - i,
{
    let read = percent_decoded(tail)->0;
    if i == bytes.len() {
        assert(escaped(bytes, i) + tail =~= tail);
        assert(bytes.skip(i) + read =~= read);
    } else {
        let b = bytes[i];
        lemma_escaped_decodes(bytes, i + 1, tail);
        let rest = escaped(bytes, i + 1) + tail;
        let all = escaped(bytes, i) + tail;
        if ascii_alphanumeric(b) {
            assert(all.skip(1) =~= rest);
            assert(all[0] == b as char);
            assert(all[0] as u8 == b);
        } else {
            lemma_hex(b);
            assert(all.skip(3) =~= rest);
            assert(all[0] == '%');
            assert(all[1] == hex_digit((b / 16) as u8));
            assert(all[2] == hex_digit((b % 16) as u8));
        }
        assert(seq![b] + (bytes.skip(i + 1) + read) =~= bytes.skip(i) + read);
    }
}

proof fn lemma_one_character(c: char)
    ensures
        encode_utf8(seq![c]) == encode_scalar(c as u32),
{
    assert(seq![c].drop_first() =~= Seq::empty());
    assert(encode_utf8(Seq::<char>::empty()) =~= Seq::<u8>::empty());
    assert(encode_scalar(c as u32) + Seq::<u8>::empty() =~= encode_scalar(c as u32));
}

proof fn lemma_ascii_character(c: char)
    requires
        c as int <= 0x7f,
    ensures
        encode_utf8(seq![c]) == seq![c as u8],
{
    assert(vstd::utf8::is_ascii_chars(seq![c]));
    vstd::utf8::is_ascii_chars_encode_utf8(seq![c]);
    assert(encode_utf8(seq![c]) =~= seq![c as u8]);
}

proof fn lemma_segment_decodes(value: Seq<char>, i: int)
    requires
        0 <= i <= value.len(),
    ensures
        percent_decoded(path_segment(value, i)) == Some(encode_utf8(value.skip(i))),
    decreases value.len() - i,
{
    let here = value.skip(i);
    if i < value.len() {
        let c = value[i];
        lemma_segment_decodes(value, i + 1);
        assert(here.drop_first() =~= value.skip(i + 1));
        lemma_one_character(c);
        let rest = path_segment(value, i + 1);
        if unreserved_mark(c) {
            lemma_ascii_character(c);
            let all = path_segment(value, i);
            assert(all.skip(1) =~= rest);
            assert(all[0] == c);
        } else {
            let bytes = encode_utf8(seq![c]);
            lemma_escaped_decodes(bytes, 0, rest);
            assert(bytes.skip(0) =~= bytes);
        }
    } else {
        assert(here =~= Seq::empty());
    }
}

/// A value inside a path is read back: percent-decoding gives its UTF-8 bytes.
pub proof fn law_segments_decode_to_the_value(value: Seq<char>)
    ensures
        percent_decoded(path_segment(value, 0)) == Some(encode_utf8(value)),
{
    lemma_segment_decodes(value, 0);
    assert(value.skip(0) =~= value);
}

/// Different values have different segments.
pub proof fn law_segments_tell_values_apart(a: Seq<char>, b: Seq<char>)
    requires
        path_segment(a, 0) == path_segment(b, 0),
    ensures
        a == b,
{
    law_segments_decode_to_the_value(a);
    law_segments_decode_to_the_value(b);
    vstd::utf8::encode_utf8_decode_utf8(a);
    vstd::utf8::encode_utf8_decode_utf8(b);
}

/// A value of letters, digits and unreserved marks stands in the path as it is.
pub proof fn law_unreserved_values_are_kept(value: Seq<char>)
    requires
        forall|k: int| 0 <= k < value.len() ==> unreserved(#[trigger] value[k]),
    ensures
        path_segment(value, 0) == value,
{
    lemma_kept_from(value, 0);
    assert(value.skip(0) =~= value);
}

proof fn lemma_kept_from(value: Seq<char>, i: int)
    requires
        0 <= i <= value.len(),
        forall|k: int| 0 <= k < value.len() ==> unreserved(#[trigger] value[k]),
    ensures
        path_segment(value, i) == value.skip(i),
    decreases value.len() - i,
{
    if i < value.len() {
        let c = value[i];
        lemma_kept_from(value, i + 1);
        assert(unreserved(c));
        if !unreserved_mark(c) {
            lemma_ascii_character(c);
            reveal_with_fuel(escaped, 2);
            assert(escaped(seq![c as u8], 0) =~= seq![c]);
        }
        assert(seq![c] + value.skip(i + 1) =~= value.skip(i));
    }
}

/// Any other character is escaped: a percent sign and two digits that are not in
/// lower case stand in its place.
pub proof fn law_other_characters_are_escaped(value: Seq<char>, c: char)
    requires
        !unreserved(c),
    ensures
        path_segment(seq![c] + value, 0).len() >= 3,
        path_segment(seq![c] + value, 0)[0] == '%',
        !('a' <= path_segment(seq![c] + value, 0)[1] <= 'z'),
        !('a' <= path_segment(seq![c] + value, 0)[2] <= 'z'),
{
    let all = seq![c] + value;
    assert(all[0] == c);
    lemma_one_character(c);
    let bytes = encode_utf8(seq![c]);
    if c as int <= 0x7f {
        lemma_ascii_character(c);
        assert(!ascii_alphanumeric(bytes[0]));
    } else {
        vstd::utf8::encode_utf8_first_scalar(seq![c]);
        assert(bytes[0] >= 0x80) by {
            assert(bytes == encode_scalar(c as u32));
            lemma_leading_byte(c as u32);
        }
    }
    assert(escaped(bytes, 0)[0] == '%');
}

proof fn lemma_leading_byte(scalar: u32)
    requires
        scalar > 0x7f,
        vstd::utf8::is_scalar(scalar),
    ensures
        encode_scalar(scalar).len() > 0,
        encode_scalar(scalar)[0] >= 0x80,
{
    let two: u8 = vstd::utf8::leading_byte_width_2(scalar);
    let three: u8 = vstd::utf8::leading_byte_width_3(scalar);
    let four: u8 = vstd::utf8::leading_byte_width_4(scalar);
    assert(forall|x: u8| (0xc0u8 | x) >= 0x80) by (bit_vector);
    assert(forall|x: u8| (0xe0u8 | x) >= 0x80) by (bit_vector);
    assert(forall|x: u8| (0xf0u8 | x) >= 0x80) by (bit_vector);
    assert(two >= 0x80 && three >= 0x80 && four >= 0x80);
}

// ---------------------------------------------------------------- addresses

/// The two outcomes tell the same: the same text, or the same missing name.
spec fn tells_the_same(
    a: Result<Seq<char>, RequestFault>,
    b: Result<Seq<char>, RequestFault>,
) -> bool {
    match (a, b) {
        (Ok(x), Ok(y)) => x == y,
        (Err(RequestFault::MissingPathParam(x)), Err(RequestFault::MissingPathParam(y))) => x == y,
        (Err(RequestFault::InvalidBody(_)), Err(RequestFault::InvalidBody(_))) => true,
        _ => false,
    }
}

proof fn lemma_filled_behind(
    lead: Seq<char>,
    s: Seq<char>,
    params: Seq<(Seq<char>, Seq<char>)>,
    i: int,
)
    requires
        0 <= i <= s.len(),
    ensures
        tells_the_same(filled(lead + s, params, lead.len() + i), filled(s, params, i)),
    decreases s.len() - i,
{
    let all = lead + s;
    let n = lead.len() as int;
    lemma_found_behind(lead, s, '{', i);
    law_found_is_first(s, '{', i);
    match find_from(s, '{', i) {
        Some(start) => {
            lemma_found_behind(lead, s, '}', start + 1);
            law_found_is_first(s, '}', start + 1);
            match find_from(s, '}', start + 1) {
                Some(end) => {
                    assert(all.subrange(n + start + 1, n + end) =~= s.subrange(start + 1, end));
                    assert(all.subrange(n + i, n + start) =~= s.subrange(i, start));
                    lemma_filled_behind(lead, s, params, end + 1);
                },
                None => {},
            }
        },
        None => {
            assert(all.skip(n + i) =~= s.skip(i));
        },
    }
}

/// The first pair of that name is at position `k`.
pub open spec fn given_at(
    params: Seq<(Seq<char>, Seq<char>)>,
    name: Seq<char>,
    k: int,
) -> bool {
    &&& 0 <= k < params.len()
    &&& params[k].0 == name
    &&& forall|j: int| 0 <= j < k ==> (#[trigger] params[j]).0 != name
}

proof fn lemma_value_given(params: Seq<(Seq<char>, Seq<char>)>, name: Seq<char>, i: int, k: int)
    requires
        given_at(params, name, k),
        0 <= i <= k,
    ensures
        pair_position(params, name, i) == Some(k),
    decreases k - i,
{
    if i < k {
        lemma_value_given(params, name, i + 1, k);
    }
}

proof fn lemma_value_missing(params: Seq<(Seq<char>, Seq<char>)>, name: Seq<char>, i: int)
    requires
        0 <= i,
        forall|j: int| 0 <= j < params.len() ==> (#[trigger] params[j]).0 != name,
    ensures
        pair_position(params, name, i) is None,
    decreases params.len() - i,
{
    if i < params.len() {
        lemma_value_missing(params, name, i + 1);
    }
}

/// A placeholder gives way to its value, escaped as one segment; what stands
/// before it is kept and what stands behind it is filled in the same way.
pub proof fn law_placeholder_is_filled(
    lead: Seq<char>,
    name: Seq<char>,
    rest: Seq<char>,
    params: Seq<(Seq<char>, Seq<char>)>,
    k: int,
)
    requires
        lacks(lead, '{'),
        lacks(name, '}'),
        given_at(params, name, k),
    ensures
        match filled(rest, params, 0) {
            Ok(text) => filled(lead + seq!['{'] + name + seq!['}'] + rest, params, 0) == Ok::<
                Seq<char>,
                RequestFault,
            >(lead + path_segment(params[k].1, 0) + text),
            Err(_) => filled(lead + seq!['{'] + name + seq!['}'] + rest, params, 0) is Err,
        },
{
    let front = lead + seq!['{'] + name + seq!['}'];
    let all = front + rest;
    let start = lead.len() as int;
    let end = start + 1 + name.len();
    lemma_placeholder(lead, name, rest);
    lemma_value_given(params, name, 0, k);
    lemma_filled_behind(front, rest, params, 0);
    assert(all.subrange(0, start) =~= lead);
    assert(front.len() == end + 1);
}

proof fn lemma_placeholder(lead: Seq<char>, name: Seq<char>, rest: Seq<char>)
    requires
        lacks(lead, '{'),
        lacks(name, '}'),
    ensures
        ({
            let all = lead + seq!['{'] + name + seq!['}'] + rest;
            let start = lead.len() as int;
            let end = start + 1 + name.len();
            &&& find_from(all, '{', 0) == Some(start)
            &&& find_from(all, '}', start + 1) == Some(end)
            &&& all.subrange(start + 1, end) == name
        }),
{
    let all = lead + seq!['{'] + name + seq!['}'] + rest;
    let start = lead.len() as int;
    let end = start + 1 + name.len();
    assert forall|j: int| 0 <= j < start implies #[trigger] all[j] != '{' by {
        assert(all[j] == lead[j]);
    }
    law_first_is_found(all, '{', 0, start);
    assert forall|j: int| start + 1 <= j < end implies #[trigger] all[j] != '}' by {
        assert(all[j] == name[j - start - 1]);
    }
    law_first_is_found(all, '}', start + 1, end);
    assert(all.subrange(start + 1, end) =~= name);
}

/// A placeholder without a value is reported by its name.
pub proof fn law_missing_value_is_reported(
    lead: Seq<char>,
    name: Seq<char>,
    rest: Seq<char>,
    params: Seq<(Seq<char>, Seq<char>)>,
)
    requires
        lacks(lead, '{'),
        lacks(name, '}'),
        forall|j: int| 0 <= j < params.len() ==> (#[trigger] params[j]).0 != name,
    ensures
        filled(lead + seq!['{'] + name + seq!['}'] + rest, params, 0) == Err::<
            Seq<char>,
            RequestFault,
        >(RequestFault::MissingPathParam(name)),
{
    lemma_placeholder(lead, name, rest);
    lemma_value_missing(params, name, 0);
}

/// A brace that is never closed is an error.
pub proof fn law_open_brace_is_reported(
    lead: Seq<char>,
    rest: Seq<char>,
    params: Seq<(Seq<char>, Seq<char>)>,
)
    requires
        lacks(lead, '{'),
        lacks(rest, '}'),
    ensures
        filled(lead + seq!['{'] + rest, params, 0) matches Err(RequestFault::InvalidBody(_)),
{
    let all = lead + seq!['{'] + rest;
    let start = lead.len() as int;
    assert forall|j: int| 0 <= j < start implies #[trigger] all[j] != '{' by {
        assert(all[j] == lead[j]);
    }
    law_first_is_found(all, '{', 0, start);
    law_found_is_first(all, '}', start + 1);
    assert forall|j: int| start + 1 <= j < all.len() implies #[trigger] all[j] != '}' by {
        assert(all[j] == rest[j - start - 1]);
    }
}

/// `n` slashes.
pub open spec fn slashes(n: nat) -> Seq<char> {
    Seq::new(n, |i: int| '/')
}

/// An address is the base without the slashes at its end, then the filled path.
pub proof fn law_address_joins_base_and_path(
    base: Seq<char>,
    n: nat,
    path: Seq<char>,
    params: Seq<(Seq<char>, Seq<char>)>,
)
    requires
        base.len() > 0 ==> base.last() != '/',
    ensures
        match filled(path, params, 0) {
            Ok(text) => address(base + slashes(n), path, params) == Ok::<Seq<char>, RequestFault>(
                base + text,
            ),
            Err(e) => address(base + slashes(n), path, params) == Err::<Seq<char>, RequestFault>(e),
        },
{
    let all = base + slashes(n);
    let len = law_without_trailing(all, '/');
    if len > base.len() {
        assert(all[len - 1] == '/');
    } else if len < base.len() {
        assert(all[base.len() - 1] == base.last());
    }
    assert(all.take(len) =~= base);
}

// ---------------------------------------------------------------- payloads

/// The member has a value.
pub open spec fn has_value() -> spec_fn((Seq<char>, Json)) -> bool {
    |member: (Seq<char>, Json)| !(member.1 is Null)
}

/// A member as a form field: texts as they are, anything else as JSON.
pub open spec fn as_field() -> spec_fn((Seq<char>, Json)) -> (Seq<char>, Seq<char>) {
    |member: (Seq<char>, Json)|
        (
            member.0,
            match member.1 {
                Json::Text(text) => text,
                value => compact(value),
            },
        )
}

/// A form has one field for each member that is not null, in order.
pub proof fn law_form_has_every_member(members: Seq<(Seq<char>, Json)>)
    ensures
        form_fields(members, 0) == members.filter(has_value()).map_values(as_field()),
{
    lemma_form_from(members, 0);
    assert(members.skip(0) =~= members);
}

proof fn lemma_form_from(members: Seq<(Seq<char>, Json)>, i: int)
    requires
        0 <= i <= members.len(),
    ensures
        form_fields(members, i) == members.skip(i).filter(has_value()).map_values(as_field()),
    decreases members.len() - i,
{
    lemma_filter_from(members, i, has_value());
    let fields = members.skip(i).filter(has_value()).map_values(as_field());
    if i < members.len() {
        lemma_form_from(members, i + 1);
        let rest = members.skip(i + 1).filter(has_value()).map_values(as_field());
        if has_value()(members[i]) {
            assert(fields =~= seq![as_field()(members[i])] + rest);
        } else {
            assert(fields =~= rest);
        }
    } else {
        assert(fields =~= Seq::empty());
    }
}

/// The declared content type decides how a body is sent: forms as fields, other
/// bodies as JSON, and what cannot be sent so is an error.
pub proof fn law_content_type_decides(endpoint: EndpointShape, value: Json)
    ensures
        payload_of(endpoint, None) == Ok::<PayloadShape, RequestFault>(PayloadShape::Nothing),
        endpoint.body is None ==> payload_of(endpoint, Some(value)) == Ok::<
            PayloadShape,
            RequestFault,
        >(PayloadShape::Json(value)),
        endpoint.body matches Some(body) ==> {
            let form = body.content_type == "application/x-www-form-urlencoded"@;
            let multipart = body.content_type.len() >= "multipart/"@.len()
                && body.content_type.take("multipart/"@.len() as int) == "multipart/"@;
            &&& form && value is Object ==> payload_of(endpoint, Some(value)) == Ok::<
                PayloadShape,
                RequestFault,
            >(
                PayloadShape::Form(
                    value->Object_0.filter(has_value()).map_values(as_field()),
                ),
            )
            &&& form && !(value is Object) ==> payload_of(endpoint, Some(value)) is Err
            &&& multipart ==> payload_of(endpoint, Some(value)) is Err
            &&& !form && !multipart ==> payload_of(endpoint, Some(value)) == Ok::<
                PayloadShape,
                RequestFault,
            >(PayloadShape::Json(value))
        },
{
    reveal_strlit("application/json");
    reveal_strlit("multipart/");
    reveal_strlit("application/x-www-form-urlencoded");
    assert("application/json"@[12] == 'j');
    assert("application/x-www-form-urlencoded"@[12] == 'x');
    assert("application/json"@[0] == 'a' && "multipart/"@[0] == 'm');
    if value is Object {
        law_form_has_every_member(value->Object_0);
    }
    match endpoint.body {
        Some(body) => {
            let lead = "multipart/"@;
            if body.content_type.len() >= lead.len() {
                assert(body.content_type.take(lead.len() as int) =~= body.content_type.subrange(
                    0,
                    lead.len() as int,
                ));
                if body.content_type.take(lead.len() as int) == lead {
                    assert(body.content_type[0] == 'm');
                }
            }
        },
        None => {
            assert(!"multipart/"@.is_prefix_of("application/json"@)) by {
                if "multipart/"@.is_prefix_of("application/json"@) {
                    assert("application/json"@.subrange(0, "multipart/"@.len() as int)[0] == 'm');
                }
            }
        },
    }
}

/// Every input of a request arrives where it belongs: method, address, token and
/// query as given, the project's headers first and the caller's behind them.
pub proof fn law_inputs_arrive(
    defaults: Seq<(Seq<char>, String)>,
    endpoint: EndpointShape,
    args: ArgsShape,
    url: Seq<char>,
    bearer: Option<Seq<char>>,
)
    ensures
        outgoing_of(defaults, endpoint, args, url, bearer) matches Ok(out) ==> {
            &&& out.method == endpoint.method
            &&& out.url == url
            &&& out.bearer == bearer
            &&& out.query == args.query_params
            &&& Ok::<PayloadShape, RequestFault>(out.payload) == payload_of(endpoint, args.body)
            &&& out.headers.len() == defaults.len() + args.headers.len()
            &&& forall|k: int|
                0 <= k < defaults.len() ==> #[trigger] out.headers[k] == (
                    defaults[k].0,
                    defaults[k].1@,
                )
            &&& forall|k: int|
                0 <= k < args.headers.len() ==> out.headers[defaults.len() + k]
                    == #[trigger] args.headers[k]
        },
        http_method(endpoint.method) && payload_of(endpoint, args.body) is Ok ==> outgoing_of(
            defaults,
            endpoint,
            args,
            url,
            bearer,
        ) is Ok,
        !http_method(endpoint.method) ==> outgoing_of(defaults, endpoint, args, url, bearer)
            == Err::<OutgoingShape, RequestFault>(RequestFault::InvalidHeader(endpoint.method)),
        http_method(endpoint.method) ==> match payload_of(endpoint, args.body) {
            Err(e) => outgoing_of(defaults, endpoint, args, url, bearer) == Err::<
                OutgoingShape,
                RequestFault,
            >(e),
            Ok(_) => true,
        },
{
}

// ---------------------------------------------------------------- the exchange

/// A token that was rejected for the first time is dropped, and the request is
/// sent once more.
pub proof fn law_rejected_token_is_renewed(exchange: Exchange)
    requires
        exchange.use_auth,
        !exchange.retried,
    ensures
        after_answer(exchange, 401).1 == ExchangeStep::Invalidate,
        after_answer(exchange, 401).0.use_auth,
        forall|status: u16|
            (#[trigger] after_answer(after_answer(exchange, 401).0, status)).1
                == ExchangeStep::Done,
{
}

// ---------------------------------------------------------------- responses

/// A body that is JSON is its document; any other body is its text.
pub proof fn law_body_is_read(text: Seq<char>)
    ensures
        match parsed(text) {
            Ok(value) => body_of(text) == (value, true),
            Err(_) => body_of(text) == (Json::Text(text), false),
        },
{
}

/// Rejected requests exit with one code, failed servers with another; all other
/// answers are successes.
pub proof fn law_status_classes(status: u16)
    ensures
        status / 100 == 4 ==> status_exit(status) == 5,
        status / 100 == 5 ==> status_exit(status) == 6,
        status / 100 != 4 && status / 100 != 5 ==> status_exit(status) == 0,
{
}

/// A body is shown as it came: JSON in the indented notation, any other text
/// without change.
pub proof fn law_shown_body(r: ApiResponseShape, text: Seq<char>)
    requires
        (r.body, r.body_is_json) == body_of(text),
    ensures
        parsed(text) is Err ==> body_text(r) == text,
        parsed(text) matches Ok(value) ==> body_text(r) == indented(value, Seq::empty()),
{
}

/// The JSON form of a response has every part of it under its name.
pub proof fn law_response_form(r: ApiResponseShape)
    ensures
        response_json(r) is Object,
        lookup(response_json(r)->Object_0, "status"@) == Some(Json::Int(r.status as int)),
        lookup(response_json(r)->Object_0, "body"@) == Some(r.body),
        lookup(response_json(r)->Object_0, "body_is_json"@) == Some(Json::Bool(r.body_is_json)),
        lookup(response_json(r)->Object_0, "latency_ms"@) == Some(Json::Int(r.latency_ms as int)),
        lookup(response_json(r)->Object_0, "url"@) == Some(Json::Text(r.url)),
        lookup(response_json(r)->Object_0, "method"@) == Some(Json::Text(r.method)),
        lookup(response_json(r)->Object_0, "headers"@) matches Some(Json::Array(pairs))
            && pairs.len() == r.headers.len() && forall|k: int|
            0 <= k < pairs.len() ==> #[trigger] pairs[k] == Json::Array(
                seq![Json::Text(r.headers[k].0), Json::Text(r.headers[k].1)],
            ),
{
    reveal_strlit("status");
    reveal_strlit("headers");
    reveal_strlit("body");
    reveal_strlit("body_is_json");
    reveal_strlit("latency_ms");
    reveal_strlit("url");
    reveal_strlit("method");
    assert("status"@[0] == 's' && "headers"@[0] == 'h' && "body"@[0] == 'b' && "latency_ms"@[0]
        == 'l' && "url"@[0] == 'u' && "method"@[0] == 'm' && "body_is_json"@[0] == 'b');
    assert("body"@.len() == 4 && "body_is_json"@.len() == 12);
    reveal_with_fuel(position_from, 8);
}

} // verus!
