//! The response shape shared by CLI output, MCP results, and the TUI viewer.

use crate::error::exit_code;
use crate::json::parse::parsed;
use crate::json::print::indented;
use crate::json::{list_json, Json, JsonMap, JsonValue};
use vstd::prelude::*;

verus! {

#[derive(Debug)]
pub struct ApiResponse {
    pub status: u16,
    pub headers: Vec<(String, String)>,
    /// Parsed JSON when the body is JSON, otherwise a JSON string of the raw text.
    pub body: JsonValue,
    pub body_is_json: bool,
    pub latency_ms: u64,
    pub url: String,
    pub method: String,
}

/// An `ApiResponse` as a mathematical value.
pub struct ApiResponseShape {
    pub status: u16,
    pub headers: Seq<(Seq<char>, Seq<char>)>,
    pub body: Json,
    pub body_is_json: bool,
    pub latency_ms: u64,
    pub url: Seq<char>,
    pub method: Seq<char>,
}

impl View for ApiResponse {
    type V = ApiResponseShape;

    open spec fn view(&self) -> ApiResponseShape {
        ApiResponseShape {
            status: self.status,
            headers: self.headers.deep_view(),
            body: self.body@,
            body_is_json: self.body_is_json,
            latency_ms: self.latency_ms,
            url: self.url@,
            method: self.method@,
        }
    }
}

/// The body of a response: JSON where the text is JSON, else the text itself.
pub open spec fn body_of(text: Seq<char>) -> (Json, bool) {
    match parsed(text) {
        Ok(value) => (value, true),
        Err(_) => (Json::Text(text), false),
    }
}

/// The exit code that a status contributes.
pub open spec fn status_exit(status: u16) -> i32 {
    if 400 <= status <= 499 {
        exit_code::HTTP_4XX
    } else if 500 <= status <= 599 {
        exit_code::HTTP_5XX
    } else {
        exit_code::OK
    }
}

/// The body as it is shown: JSON on several lines, other text as it is.
pub open spec fn body_text(r: ApiResponseShape) -> Seq<char> {
    if r.body_is_json {
        indented(r.body, Seq::empty())
    } else {
        match r.body {
            Json::Text(text) => text,
            _ => Seq::empty(),
        }
    }
}

/// The JSON form of header pairs: an array of pairs.
pub open spec fn pairs_json(pairs: Seq<(Seq<char>, Seq<char>)>) -> Seq<Json> {
    Seq::new(
        pairs.len(),
        |i: int| Json::Array(seq![Json::Text(pairs[i].0), Json::Text(pairs[i].1)]),
    )
}

/// The JSON form of a response.
pub open spec fn response_json(r: ApiResponseShape) -> Json {
    Json::Object(
        seq![
            ("status"@, Json::Int(r.status as int)),
            ("headers"@, Json::Array(pairs_json(r.headers))),
            ("body"@, r.body),
            ("body_is_json"@, Json::Bool(r.body_is_json)),
            ("latency_ms"@, Json::Int(r.latency_ms as int)),
            ("url"@, Json::Text(r.url)),
            ("method"@, Json::Text(r.method)),
        ],
    )
}

impl ApiResponse {
    /// The response made of what came over the wire.
    pub fn from_parts(
        method: String,
        url: String,
        status: u16,
        headers: Vec<(String, String)>,
        text: String,
        latency_ms: u64,
    ) -> (r: ApiResponse)
        ensures
            r@ == (ApiResponseShape {
                status,
                headers: headers.deep_view(),
                body: body_of(text@).0,
                body_is_json: body_of(text@).1,
                latency_ms,
                url: url@,
                method: method@,
            }),
    {
        let (body, body_is_json) = match JsonValue::parse(text.as_str()) {
            Ok(value) => (value, true),
            Err(_) => (JsonValue::Text(text), false),
        };
        ApiResponse { status, headers, body, body_is_json, latency_ms, url, method }
    }

    pub fn is_success(&self) -> (r: bool)
        ensures
            r == (self.status < 400),
    {
        self.status < 400
    }

    /// Exit code contribution: one code for 4xx, one for 5xx, success otherwise.
    pub fn exit_code(&self) -> (r: i32)
        ensures
            r == status_exit(self.status),
    {
        if 400 <= self.status && self.status <= 499 {
            exit_code::HTTP_4XX
        } else if 500 <= self.status && self.status <= 599 {
            exit_code::HTTP_5XX
        } else {
            exit_code::OK
        }
    }

    /// The body as it is shown.
    pub fn body_text(&self) -> (r: String)
        ensures
            r@ == body_text(self@),
    {
        if self.body_is_json {
            return self.body.to_text_pretty();
        }
        match &self.body {
            JsonValue::Text(text) => text.clone(),
            _ => {
                let none = String::new();
                assert(none@ =~= Seq::empty());
                none
            },
        }
    }

    /// The JSON form of the response.
    pub fn to_json(&self) -> (r: JsonValue)
        ensures
            r@ == response_json(self@),
    {
        let ghost pairs = self@.headers;
        let mut headers: Vec<JsonValue> = Vec::new();
        for i in 0..self.headers.len()
            invariant
                pairs == self.headers.deep_view(),
                headers@.len() == i,
                forall|k: int| 0 <= k < i ==> (#[trigger] headers@[k])@ == pairs_json(pairs)[k],
        {
            assert(pairs[i as int] == (
                self.headers@[i as int].0@,
                self.headers@[i as int].1@,
            ));
            let mut pair: Vec<JsonValue> = Vec::new();
            pair.push(JsonValue::Text(self.headers[i].0.clone()));
            pair.push(JsonValue::Text(self.headers[i].1.clone()));
            assert(list_json(&pair) =~= seq![
                Json::Text(pairs[i as int].0),
                Json::Text(pairs[i as int].1),
            ]);
            headers.push(JsonValue::Array(pair));
        }
        assert(list_json(&headers) =~= pairs_json(pairs));
        let mut map = JsonMap::new();
        map.append("status", JsonValue::unsigned(self.status as u64));
        map.append("headers", JsonValue::Array(headers));
        map.append("body", self.body.clone());
        map.append("body_is_json", JsonValue::Bool(self.body_is_json));
        map.append("latency_ms", JsonValue::unsigned(self.latency_ms));
        map.append_text("url", self.url.as_str());
        map.append_text("method", self.method.as_str());
        assert(map@ =~= response_json(self@)->Object_0);
        JsonValue::Object(map)
    }
}

} // verus!
