//! Where specs come from and how error bodies read, said of any answer.

use super::adapter::{error_line, fastapi_lines, lines_from, location_part};
use super::load::{
    fetched, file_document, first_step, fresh, spec_address, step_after_cache, step_after_fetch,
    step_after_file, step_after_stale, LoadStep, SpecOrigin,
};
use super::built;
use crate::error::SpecFault;
use crate::json::parse::parsed;
use crate::json::print::compact;
use crate::json::{lookup, Json};
use crate::lists::lemma_filter_from;
use crate::model::ApiShape;
use crate::text::laws::law_without_trailing;
use crate::text::{decimal, joined};
use vstd::prelude::*;
use vstd::string::*;

verus! {

// ---------------------------------------------------------------- loading

/// A cached document is fresh for as many seconds as it may live.
pub proof fn law_cache_lives_for_its_time(now: u64, fetched_at: u64, ttl: u64)
    ensures
        now >= fetched_at ==> (fresh(Some(now), fetched_at, ttl) <==> now - fetched_at < ttl),
        !fresh(None, fetched_at, ttl),
        !fresh(Some(now), fetched_at, 0),
{
}

/// The spec of a server is at `/openapi.json` below its base address.
pub proof fn law_spec_is_below_the_base(base: Seq<char>, n: nat)
    requires
        base.len() > 0 ==> base.last() != '/',
    ensures
        spec_address(base + Seq::new(n, |i: int| '/')) == base + "/openapi.json"@,
{
    let all = base + Seq::new(n, |i: int| '/');
    let len = law_without_trailing(all, '/');
    if len > base.len() {
        assert(all[len - 1] == '/');
    } else if len < base.len() {
        assert(all[base.len() - 1] == base.last());
    }
    assert(all.take(len) =~= base);
}

/// What is loaded is the document that was handed in, under the name of its
/// source: a fresh cache entry, the live document, the file, or what is left in
/// the cache.
pub proof fn law_loaded_document_is_the_source(
    entry: Option<(u64, Json)>,
    now: Option<u64>,
    ttl: u64,
    base_url: Seq<char>,
    outcome: Result<Json, Seq<char>>,
    spec_file: Option<Seq<char>>,
    stale: Option<Json>,
    project: Seq<char>,
    why: Seq<char>,
)
    ensures
        step_after_cache(entry, now, ttl, base_url) matches LoadStep::Loaded {
            document,
            origin,
            spec,
        } ==> {
            &&& origin == SpecOrigin::Cache
            &&& entry matches Some((fetched_at, cached)) && cached == document && fresh(
                now,
                fetched_at,
                ttl,
            )
            &&& built(document) == Ok::<ApiShape, SpecFault>(spec)
        },
        step_after_fetch(outcome, spec_file) matches LoadStep::Loaded { document, origin, spec }
            ==> {
            &&& origin == SpecOrigin::Live
            &&& outcome == Ok::<Json, Seq<char>>(document)
            &&& built(document) == Ok::<ApiShape, SpecFault>(spec)
        },
        step_after_stale(stale, project, why) matches LoadStep::Loaded { document, origin, spec }
            ==> {
            &&& origin == SpecOrigin::StaleCache
            &&& stale == Some(document)
            &&& built(document) == Ok::<ApiShape, SpecFault>(spec)
        },
        first_step(false, base_url) == LoadStep::ReadCache,
{
}

/// Only a successful answer with JSON in it is a document.
pub proof fn law_only_success_is_a_document(
    status: u16,
    shown: Seq<char>,
    body: Result<Seq<char>, Seq<char>>,
    path: Seq<char>,
)
    ensures
        match fetched(status, shown, body) {
            Ok(document) => 200 <= status <= 299 && body is Ok && parsed(body->Ok_0) == Ok::<
                Json,
                Seq<char>,
            >(document),
            Err(message) => {
                ||| status < 200 && message == "server returned "@ + shown
                ||| status > 299 && message == "server returned "@ + shown
                ||| 200 <= status <= 299 && body is Err && message == "invalid JSON: "@
                    + body->Err_0
                ||| 200 <= status <= 299 && body is Ok && parsed(body->Ok_0) is Err
            },
        },
        match file_document(path, body) {
            Ok(document) => body is Ok && parsed(body->Ok_0) == Ok::<Json, Seq<char>>(document),
            Err(_) => body is Err || parsed(body->Ok_0) is Err,
        },
        step_after_file(path, body) matches LoadStep::Loaded { document, origin, .. } ==> origin
            == SpecOrigin::File && body is Ok && parsed(body->Ok_0) == Ok::<Json, Seq<char>>(
            document,
        ),
{
}

// ---------------------------------------------------------------- error bodies

/// The problem has a message.
pub open spec fn has_message() -> spec_fn(Json) -> bool {
    |item: Json|
        item matches Json::Object(members) && lookup(members, "msg"@) matches Some(Json::Text(_))
}

/// A part of a location: texts as they are, anything else as JSON.
pub open spec fn part_text() -> spec_fn(Json) -> Seq<char> {
    |part: Json|
        match part {
            Json::Text(text) => text,
            other => compact(other),
        }
}

/// A problem as a line: the dotted location and the message, or the message alone
/// where there is no location.
pub open spec fn problem_line() -> spec_fn(Json) -> Seq<char> {
    |item: Json|
        {
            let members = item->Object_0;
            let message = lookup(members, "msg"@)->0->Text_0;
            let place = match lookup(members, "loc"@) {
                Some(Json::Array(parts)) => joined(parts.map_values(part_text()), "."@),
                _ => Seq::empty(),
            };
            if place.len() == 0 {
                message
            } else {
                place + ": "@ + message
            }
        }
}

proof fn lemma_line(item: Json)
    ensures
        error_line(item) == (if has_message()(item) {
            Some(problem_line()(item))
        } else {
            None
        }),
{
    match item {
        Json::Object(members) => {
            match lookup(members, "loc"@) {
                Some(Json::Array(parts)) => {
                    assert(Seq::new(
                        parts.len(),
                        |i: int| location_part(parts[i]),
                    ) =~= parts.map_values(part_text()));
                },
                _ => {},
            }
        },
        _ => {},
    }
}

proof fn lemma_lines(items: Seq<Json>, i: int)
    requires
        0 <= i <= items.len(),
    ensures
        lines_from(items, i) == items.skip(i).filter(has_message()).map_values(problem_line()),
    decreases items.len() - i,
{
    lemma_filter_from(items, i, has_message());
    let lines = items.skip(i).filter(has_message()).map_values(problem_line());
    if i < items.len() {
        lemma_lines(items, i + 1);
        lemma_line(items[i]);
        let rest = items.skip(i + 1).filter(has_message()).map_values(problem_line());
        if has_message()(items[i]) {
            assert(lines =~= seq![problem_line()(items[i])] + rest);
        } else {
            assert(lines =~= rest);
        }
    } else {
        assert(lines =~= Seq::empty());
    }
}

/// A validation error reads as one line per problem, in order; a text reads as one
/// line behind the status. Any other body has no lines of its own.
pub proof fn law_problems_are_lines(status: nat, body: Json)
    ensures
        fastapi_lines(status, body) == (match body {
            Json::Object(members) => match lookup(members, "detail"@) {
                Some(Json::Text(text)) => Some(seq![decimal(status) + ": "@ + text]),
                Some(Json::Array(items)) => {
                    let lines = items.filter(has_message()).map_values(problem_line());
                    if lines.len() == 0 {
                        None
                    } else {
                        Some(lines)
                    }
                },
                _ => None,
            },
            _ => None,
        }),
{
    match body {
        Json::Object(members) => {
            match lookup(members, "detail"@) {
                Some(Json::Array(items)) => {
                    lemma_lines(items, 0);
                    assert(items.skip(0) =~= items);
                },
                _ => {},
            }
        },
        _ => {},
    }
}

} // verus!
