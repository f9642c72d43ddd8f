//! What a form sends, said of its rows: which row ends up in which part of the
//! request.

use super::cursor::{lemma_span, span};
use super::init::{hydrated, opened, rows_before_body};
use super::laws::{body_block, lemma_fields_block, lemma_node_block};
use super::nested::in_body;
use super::rows::{
    body_rows, field_rows, field_seed, form_rows, heading, included, node_row, node_rows,
    object_body, param_rows, param_section, root_seed, row_of_param, NodeSeed,
};
use super::serialize::{
    body_heading, items_value, members_value, node_value, nothing_sent, param_text, sent_from,
    top_members, with_param, Blocked, SerializedShape,
};
use super::{FormShape, KindShape, RowShape, Section, StateShape};
use crate::json::print::compact;
use crate::json::{put, Json};
use crate::lists::{
    lemma_filter_from, lemma_filter_keeps, lemma_filter_none, lemma_filtered_from,
};
use crate::model::schema_node::{FieldShape, Schema};
use crate::model::template::writable;
use crate::model::{
    law_params_of_a_location, located, params_at, BodyShape, EndpointShape, ParamLocation,
    ParamShape,
};
use crate::pairs::{given_last, lemma_settles_more, names, settles};
use crate::text::{contains_text, occurs_at};
use vstd::prelude::*;
use vstd::string::*;

verus! {

/// The row is a filled one of a section.
pub open spec fn filled_in(section: Section) -> spec_fn(RowShape) -> bool {
    |row: RowShape| row.section == section && !(row.kind is SectionHeader) && row.state is Filled
}

/// The label of a row with the text of its value: texts as they are, anything
/// else as JSON.
pub open spec fn labelled_text() -> spec_fn(RowShape) -> (Seq<char>, Seq<char>) {
    |row: RowShape|
        (
            row.label,
            match row.state {
                StateShape::Filled(Json::Text(text)) => text,
                StateShape::Filled(value) => compact(value),
                _ => Seq::empty(),
            },
        )
}

/// The filled rows of a section, as labels and texts, in row order.
pub open spec fn texts_in(rows: Seq<RowShape>, section: Section) -> Seq<(Seq<char>, Seq<char>)> {
    rows.filter(filled_in(section)).map_values(labelled_text())
}

/// No row of another section stands behind a row of the body.
pub open spec fn body_is_last(rows: Seq<RowShape>) -> bool {
    forall|i: int, j: int|
        0 <= i < j < rows.len() && in_body(#[trigger] rows[i]) ==> (#[trigger] rows[j]).section
            == Section::Body
}

proof fn lemma_texts_from(rows: Seq<RowShape>, i: int, section: Section)
    requires
        0 <= i < rows.len(),
    ensures
        texts_in(rows.skip(i), section) == (if filled_in(section)(rows[i]) {
            seq![labelled_text()(rows[i])]
        } else {
            Seq::empty()
        }) + texts_in(rows.skip(i + 1), section),
{
    lemma_filter_from(rows, i, filled_in(section));
    let here = rows.skip(i).filter(filled_in(section)).map_values(labelled_text());
    let rest = rows.skip(i + 1).filter(filled_in(section)).map_values(labelled_text());
    if filled_in(section)(rows[i]) {
        assert(here =~= seq![labelled_text()(rows[i])] + rest);
    } else {
        assert(here =~= Seq::empty() + rest);
    }
}

proof fn lemma_no_texts(rows: Seq<RowShape>, i: int, section: Section)
    requires
        0 <= i <= rows.len(),
        forall|k: int| i <= k < rows.len() ==> !filled_in(section)(#[trigger] rows[k]),
    ensures
        texts_in(rows.skip(i), section) == Seq::<(Seq<char>, Seq<char>)>::empty(),
{
    lemma_filter_none(rows, i, filled_in(section));
    assert(texts_in(rows.skip(i), section) =~= Seq::<(Seq<char>, Seq<char>)>::empty());
}

proof fn lemma_sent(
    rows: Seq<RowShape>,
    body_is_object: bool,
    i: int,
    sent: SerializedShape,
    given: Seq<(Seq<char>, Seq<char>)>,
)
    requires
        0 <= i <= rows.len(),
        body_is_last(rows),
        settles(given, sent.path_params),
    ensures
        sent_from(rows, body_is_object, i, sent) matches Ok(out) ==> {
            &&& out.headers == sent.headers + texts_in(rows.skip(i), Section::Header)
            &&& out.query_params == sent.query_params + texts_in(rows.skip(i), Section::Query)
            &&& settles(given + texts_in(rows.skip(i), Section::Path), out.path_params)
        },
    decreases rows.len() - i,
{
    let none = Seq::<(Seq<char>, Seq<char>)>::empty();
    if i == rows.len() {
        lemma_no_texts(rows, i, Section::Header);
        lemma_no_texts(rows, i, Section::Query);
        lemma_no_texts(rows, i, Section::Path);
        assert(sent.headers + none =~= sent.headers);
        assert(sent.query_params + none =~= sent.query_params);
        assert(given + none =~= given);
    } else if in_body(rows[i]) {
        assert forall|k: int| i <= k < rows.len() implies (#[trigger] rows[k]).section
            == Section::Body by {}
        lemma_no_texts(rows, i, Section::Header);
        lemma_no_texts(rows, i, Section::Query);
        lemma_no_texts(rows, i, Section::Path);
        assert(sent.headers + none =~= sent.headers);
        assert(sent.query_params + none =~= sent.query_params);
        assert(given + none =~= given);
    } else {
        lemma_texts_from(rows, i, Section::Header);
        lemma_texts_from(rows, i, Section::Query);
        lemma_texts_from(rows, i, Section::Path);
        let headers = texts_in(rows.skip(i + 1), Section::Header);
        let query = texts_in(rows.skip(i + 1), Section::Query);
        let path = texts_in(rows.skip(i + 1), Section::Path);
        assert(none + headers =~= headers);
        assert(none + query =~= query);
        assert(none + path =~= path);
        let row = rows[i];
        if row.kind is SectionHeader || !(row.state is Filled) {
            lemma_sent(rows, body_is_object, i + 1, sent, given);
        } else {
            let pair = labelled_text()(row);
            assert(param_text(rows, i) == Ok::<Option<Seq<char>>, Blocked>(Some(pair.1)));
            let next = with_param(sent, row.section, row.label, pair.1);
            assert(sent.headers.push(pair) + headers =~= sent.headers + (seq![pair] + headers));
            assert(sent.query_params.push(pair) + query =~= sent.query_params + (seq![pair]
                + query));
            assert(given.push(pair) + path =~= given + (seq![pair] + path));
            if row.section == Section::Path {
                lemma_settles_more(given, sent.path_params, row.label, pair.1);
                lemma_sent(rows, body_is_object, i + 1, next, given.push(pair));
            } else {
                lemma_sent(rows, body_is_object, i + 1, next, given);
            }
        }
    }
}

/// What is sent is what the rows hold, each in its place: the headers are the
/// filled rows of the header section, the query parameters those of the query
/// section, in row order; the path parameters are those of the path section,
/// each name once.
pub proof fn law_rows_are_sent_in_their_section(form: FormShape)
    requires
        body_is_last(form.rows),
    ensures
        form.sent() matches Ok(sent) ==> {
            &&& sent.headers == texts_in(form.rows, Section::Header)
            &&& sent.query_params == texts_in(form.rows, Section::Query)
            &&& settles(texts_in(form.rows, Section::Path), sent.path_params)
        },
{
    let none = Seq::<(Seq<char>, Seq<char>)>::empty();
    lemma_sent(form.rows, form.body_is_object, 0, nothing_sent(), none);
    assert(form.rows.skip(0) =~= form.rows);
    assert(none + texts_in(form.rows, Section::Header) =~= texts_in(form.rows, Section::Header));
    assert(none + texts_in(form.rows, Section::Query) =~= texts_in(form.rows, Section::Query));
    assert(none + texts_in(form.rows, Section::Path) =~= texts_in(form.rows, Section::Path));
}

/// Where the labels of the path section differ, its filled rows are sent as they
/// stand.
pub proof fn law_distinct_path_rows_are_all_sent(form: FormShape)
    requires
        body_is_last(form.rows),
        forall|i: int, j: int|
            0 <= i < j < form.rows.len() && (#[trigger] form.rows[i]).section == Section::Path && (
            #[trigger] form.rows[j]).section == Section::Path ==> form.rows[i].label
                != form.rows[j].label,
    ensures
        form.sent() matches Ok(sent) ==> forall|i: int|
            0 <= i < form.rows.len() && filled_in(Section::Path)(#[trigger] form.rows[i]) ==> exists|
                k: int,
            |
                0 <= k < sent.path_params.len() && #[trigger] sent.path_params[k]
                    == labelled_text()(form.rows[i]),
{
    law_rows_are_sent_in_their_section(form);
    match form.sent() {
        Ok(sent) => {
            let rows = form.rows;
            let given = texts_in(rows, Section::Path);
            assert forall|i: int|
                0 <= i < rows.len() && filled_in(Section::Path)(#[trigger] rows[i]) implies exists|
                    k: int,
                |
                    0 <= k < sent.path_params.len() && #[trigger] sent.path_params[k]
                        == labelled_text()(rows[i]) by {
                let kept = rows.filter(filled_in(Section::Path));
                let q = lemma_filter_keeps(rows, filled_in(Section::Path), i);
                assert(given[q] == labelled_text()(rows[i]));
                assert(names(sent.path_params, given[q].0));
                let k = choose|k: int|
                    0 <= k < sent.path_params.len() && (#[trigger] sent.path_params[k]).0
                        == given[q].0;
                assert(given_last(given, sent.path_params[k]));
                let at = choose|at: int|
                    0 <= at < given.len() && #[trigger] given[at] == sent.path_params[k];
                lemma_filtered_from(rows, filled_in(Section::Path), at);
                let j = choose|j: int| 0 <= j < rows.len() && rows[j] == kept[at];
                assert(rows[j].label == rows[i].label);
                assert(i == j) by {
                    if i < j {
                        assert(rows[i].label != rows[j].label);
                    } else if j < i {
                        assert(rows[j].label != rows[i].label);
                    }
                }
                assert(sent.path_params[k] == labelled_text()(rows[i]));
            }
        },
        Err(_) => {},
    }
}

/// The first row of the body stands at `n`; there is none where that is the end.
pub open spec fn body_starts_at(rows: Seq<RowShape>, n: int) -> bool {
    &&& 0 <= n <= rows.len()
    &&& forall|k: int| 0 <= k < n ==> !in_body(#[trigger] rows[k])
    &&& n < rows.len() ==> in_body(rows[n])
}

proof fn lemma_sent_before(
    rows: Seq<RowShape>,
    body_is_object: bool,
    n: int,
    i: int,
    sent: SerializedShape,
)
    requires
        body_starts_at(rows, n),
        0 <= i <= n,
    ensures
        sent_from(rows, body_is_object, i, sent) matches Ok(out) ==> sent_from(
            rows.take(n),
            body_is_object,
            i,
            sent,
        ) == Ok::<SerializedShape, Blocked>(SerializedShape { body: sent.body, ..out }),
    decreases n - i,
{
    let front = rows.take(n);
    if i < n {
        assert(front[i] == rows[i]);
        assert(!in_body(rows[i]));
        if rows[i].kind is SectionHeader {
            lemma_sent_before(rows, body_is_object, n, i + 1, sent);
        } else {
            assert(param_text(front, i) == param_text(rows, i));
            match param_text(rows, i) {
                Ok(Some(text)) => {
                    lemma_sent_before(
                        rows,
                        body_is_object,
                        n,
                        i + 1,
                        with_param(sent, rows[i].section, rows[i].label, text),
                    );
                },
                Ok(None) => {
                    lemma_sent_before(rows, body_is_object, n, i + 1, sent);
                },
                Err(_) => {},
            }
        }
    }
}

/// Whatever the order of the rows, those in front of the body are sent in their
/// section: headers, query and path parameters are the filled rows of theirs.
pub proof fn law_rows_before_the_body_are_sent(form: FormShape, n: int)
    requires
        body_starts_at(form.rows, n),
    ensures
        form.sent() matches Ok(sent) ==> {
            &&& sent.headers == texts_in(form.rows.take(n), Section::Header)
            &&& sent.query_params == texts_in(form.rows.take(n), Section::Query)
            &&& settles(texts_in(form.rows.take(n), Section::Path), sent.path_params)
        },
{
    lemma_sent_before(form.rows, form.body_is_object, n, 0, nothing_sent());
    let front = FormShape { rows: form.rows.take(n), ..form };
    assert forall|i: int| 0 <= i < front.rows.len() implies !in_body(#[trigger] front.rows[i]) by {
        assert(front.rows[i] == form.rows[i]);
    }
    law_rows_are_sent_in_their_section(front);
}

// ---------------------------------------------------------------- the body stays last

proof fn lemma_section_of_params(section: Section, params: Seq<ParamShape>)
    ensures
        forall|k: int|
            0 <= k < param_section(section, params).len() ==> (#[trigger] param_section(
                section,
                params,
            )[k]).section == section,
{
}

proof fn lemma_body_block(rows: Seq<RowShape>, front: Seq<RowShape>, block: Seq<RowShape>)
    requires
        rows == front + seq![heading(Section::Body)] + block,
        body_block(block, 0),
        body_is_last(front),
    ensures
        body_is_last(rows),
{
    assert forall|i: int, j: int|
        0 <= i < j < rows.len() && in_body(#[trigger] rows[i]) implies (#[trigger] rows[j]).section
        == Section::Body by {
        if j < front.len() {
            assert(rows[i] == front[i] && rows[j] == front[j]);
        } else if j > front.len() {
            assert(rows[j] == block[j - front.len() - 1]);
        }
    }
}

proof fn lemma_body_rows_block(body: BodyShape, value: Option<Json>)
    ensures
        body_block(body_rows(body, value), 0),
{
    if object_body(body.schema) {
        lemma_fields_block(body.schema->Object_fields, 0, 0, value);
    } else {
        lemma_node_block(
            root_seed(
                body.required,
                body.nullable,
                match value {
                    Some(v) => Some(Some(v)),
                    None => None,
                },
            ),
            0,
            body.schema,
        );
    }
}

proof fn lemma_no_body_among_params(endpoint: EndpointShape)
    ensures
        forall|k: int|
            0 <= k < param_rows(endpoint).len() ==> (#[trigger] param_rows(endpoint)[k]).section
                != Section::Body,
{
    let path = param_section(Section::Path, params_at(endpoint.params, ParamLocation::Path, 0));
    let query = param_section(Section::Query, params_at(endpoint.params, ParamLocation::Query, 0));
    let header = param_section(
        Section::Header,
        params_at(endpoint.params, ParamLocation::Header, 0),
    );
    lemma_section_of_params(Section::Path, params_at(endpoint.params, ParamLocation::Path, 0));
    lemma_section_of_params(Section::Query, params_at(endpoint.params, ParamLocation::Query, 0));
    lemma_section_of_params(Section::Header, params_at(endpoint.params, ParamLocation::Header, 0));
    let rows = param_rows(endpoint);
    assert forall|k: int| 0 <= k < rows.len() implies (#[trigger] rows[k]).section
        != Section::Body by {
        if k < path.len() {
            assert(rows[k] == path[k]);
        } else if k < path.len() + query.len() {
            assert(rows[k] == query[k - path.len()]);
        } else {
            assert(rows[k] == header[k - path.len() - query.len()]);
        }
    }
}

/// The body of a fresh form stands behind everything else, and so it does after a
/// refill.
pub proof fn law_body_is_last(endpoint: EndpointShape, form: FormShape, value: Json)
    ensures
        body_is_last(opened(endpoint).rows),
        body_is_last(form.rows) ==> body_is_last(hydrated(form, endpoint, value).rows),
{
    lemma_no_body_among_params(endpoint);
    match endpoint.body {
        Some(body) => {
            lemma_body_rows_block(body, None);
            lemma_body_block(form_rows(endpoint), param_rows(endpoint), body_rows(body, None));
            if body_is_last(form.rows) {
                let front = rows_before_body(form.rows);
                lemma_heading_bounds(form.rows, 0);
                assert(body_is_last(front)) by {
                    assert forall|i: int, j: int|
                        0 <= i < j < front.len() && in_body(#[trigger] front[i]) implies (
                    #[trigger] front[j]).section == Section::Body by {
                        assert(front[i] == form.rows[i] && front[j] == form.rows[j]);
                    }
                }
                lemma_body_rows_block(body, Some(value));
                lemma_body_block(
                    hydrated(form, endpoint, value).rows,
                    front,
                    body_rows(body, Some(value)),
                );
            }
        },
        None => {},
    }
}

proof fn lemma_heading_bounds(rows: Seq<RowShape>, i: int)
    requires
        0 <= i,
    ensures
        body_heading(rows, i) matches Some(h) ==> i <= h < rows.len(),
    decreases rows.len() - i,
{
    if i < rows.len() && !(rows[i].section == Section::Body && rows[i].kind is SectionHeader) {
        lemma_heading_bounds(rows, i + 1);
    }
}

// ---------------------------------------------------------------- fresh rows

/// The row is one of a section, but not its heading.
pub open spec fn row_in(section: Section) -> spec_fn(RowShape) -> bool {
    |row: RowShape| row.section == section && !(row.kind is SectionHeader)
}

/// The row asks for the parameter: under its name, with its flags and its schema,
/// filled with its default where it has one.
pub open spec fn asks_for(row: RowShape, param: ParamShape) -> bool {
    &&& row.label == param.name
    &&& row.required == param.required
    &&& row.nullable == param.nullable
    &&& row.schema == param.schema
    &&& row.kind_label == param.schema.label()
    &&& row.description == param.description
    &&& row.depth == 0
    &&& param.default is None || param.default == Some(Json::Null) ==> row.state is Empty
    &&& param.default is Some && param.default != Some(Json::Null) ==> row.state
        == StateShape::Filled(param.default->0)
}

/// The rows ask for the parameters, one each, in order.
pub open spec fn ask_for(rows: Seq<RowShape>, params: Seq<ParamShape>) -> bool {
    &&& rows.len() == params.len()
    &&& forall|k: int| 0 <= k < rows.len() ==> asks_for(#[trigger] rows[k], params[k])
}

proof fn lemma_own_section(section: Section, params: Seq<ParamShape>)
    ensures
        ask_for(param_section(section, params).filter(row_in(section)), params),
{
    let rows = param_section(section, params);
    if params.len() > 0 {
        let made = Seq::new(params.len(), |i: int| row_of_param(section, params[i]));
        assert(rows =~= seq![heading(section)] + made);
        Seq::filter_distributes_over_add(seq![heading(section)], made, row_in(section));
        lemma_filter_none(seq![heading(section)], 0, row_in(section));
        assert(seq![heading(section)].skip(0) =~= seq![heading(section)]);
        lemma_filter_all(made, row_in(section));
        assert(Seq::<RowShape>::empty() + made =~= made);
    } else {
        lemma_filter_none(rows, 0, row_in(section));
        assert(rows.skip(0) =~= rows);
    }
}

proof fn lemma_filter_all(rows: Seq<RowShape>, pass: spec_fn(RowShape) -> bool)
    requires
        forall|k: int| 0 <= k < rows.len() ==> pass(#[trigger] rows[k]),
    ensures
        rows.filter(pass) == rows,
    decreases rows.len(),
{
    reveal(Seq::filter);
    if rows.len() > 0 {
        let front = rows.drop_last();
        assert forall|k: int| 0 <= k < front.len() implies pass(#[trigger] front[k]) by {
            assert(front[k] == rows[k]);
        }
        lemma_filter_all(front, pass);
        assert(front.push(rows.last()) =~= rows);
    }
}

proof fn lemma_foreign_section(rows: Seq<RowShape>, section: Section)
    requires
        forall|k: int| 0 <= k < rows.len() ==> (#[trigger] rows[k]).section != section,
    ensures
        rows.filter(row_in(section)) == Seq::<RowShape>::empty(),
{
    lemma_filter_none(rows, 0, row_in(section));
    assert(rows.skip(0) =~= rows);
}

/// A fresh form asks for every parameter in the section of its place, in the order
/// of the endpoint, and for nothing else there.
pub proof fn law_opened_form_asks_for_the_params(endpoint: EndpointShape)
    ensures
        ask_for(
            opened(endpoint).rows.filter(row_in(Section::Path)),
            endpoint.params.filter(located(ParamLocation::Path)),
        ),
        ask_for(
            opened(endpoint).rows.filter(row_in(Section::Query)),
            endpoint.params.filter(located(ParamLocation::Query)),
        ),
        ask_for(
            opened(endpoint).rows.filter(row_in(Section::Header)),
            endpoint.params.filter(located(ParamLocation::Header)),
        ),
{
    lemma_params_asked(endpoint, Section::Path);
    lemma_params_asked(endpoint, Section::Query);
    lemma_params_asked(endpoint, Section::Header);
    law_params_of_a_location(endpoint.params, ParamLocation::Path);
    law_params_of_a_location(endpoint.params, ParamLocation::Query);
    law_params_of_a_location(endpoint.params, ParamLocation::Header);
}

proof fn lemma_params_asked(endpoint: EndpointShape, section: Section)
    requires
        section != Section::Body,
    ensures
        ask_for(
            opened(endpoint).rows.filter(row_in(section)),
            params_at(
                endpoint.params,
                match section {
                    Section::Path => ParamLocation::Path,
                    Section::Query => ParamLocation::Query,
                    _ => ParamLocation::Header,
                },
                0,
            ),
        ),
{
    let pass = row_in(section);
    let none = Seq::<RowShape>::empty();
    let in_path = params_at(endpoint.params, ParamLocation::Path, 0);
    let in_query = params_at(endpoint.params, ParamLocation::Query, 0);
    let in_header = params_at(endpoint.params, ParamLocation::Header, 0);
    let path = param_section(Section::Path, in_path);
    let query = param_section(Section::Query, in_query);
    let header = param_section(Section::Header, in_header);
    lemma_section_of_params(Section::Path, in_path);
    lemma_section_of_params(Section::Query, in_query);
    lemma_section_of_params(Section::Header, in_header);
    lemma_own_section(Section::Path, in_path);
    lemma_own_section(Section::Query, in_query);
    lemma_own_section(Section::Header, in_header);
    Seq::filter_distributes_over_add(path, query, pass);
    Seq::filter_distributes_over_add(path + query, header, pass);
    if section != Section::Path {
        lemma_foreign_section(path, section);
    }
    if section != Section::Query {
        lemma_foreign_section(query, section);
    }
    if section != Section::Header {
        lemma_foreign_section(header, section);
    }
    let own = match section {
        Section::Path => path.filter(pass),
        Section::Query => query.filter(pass),
        _ => header.filter(pass),
    };
    assert(param_rows(endpoint).filter(pass) =~= own);
    match endpoint.body {
        Some(body) => {
            let front = param_rows(endpoint);
            let head = seq![heading(Section::Body)];
            let block = body_rows(body, None);
            lemma_body_rows_block(body, None);
            Seq::filter_distributes_over_add(front, head, pass);
            Seq::filter_distributes_over_add(front + head, block, pass);
            lemma_foreign_section(head, section);
            lemma_foreign_section(block, section);
            assert(form_rows(endpoint).filter(pass) =~= own);
        },
        None => {},
    }
}

/// The row is one of the body, at its top level.
pub open spec fn tops_the_body() -> spec_fn(RowShape) -> bool {
    |row: RowShape| in_body(row) && row.depth == 0
}

/// The row edits the field: under its name, with its flags and its schema. It
/// starts as a constant, with the default, or without a value; objects and arrays
/// start included where they are required.
pub open spec fn edits(row: RowShape, field: FieldShape) -> bool {
    let header = row.kind is ObjectHeader || row.kind is ArrayHeader;
    &&& row.label == field.name
    &&& row.required == field.required
    &&& row.nullable == field.nullable
    &&& row.schema == field.schema
    &&& row.kind_label == field.schema.label()
    &&& row.description == field.description
    &&& field.schema matches Schema::Const { value } ==> row.state == StateShape::Filled(value)
    &&& !(field.schema is Const) && !header && field.default is None ==> row.state is Empty
    &&& !(field.schema is Const) && !header && field.default is Some && field.default != Some(
        Json::Null,
    ) ==> row.state == StateShape::Filled(field.default->0)
    &&& header && field.default is None ==> (row.state is Excluded <==> !field.required)
    &&& header ==> row.state is Excluded || row.state == included()
    &&& header <==> (field.schema is Array || (field.schema is Object
        && field.schema->Object_fields.len() > 0))
    &&& row.kind is Bool <==> field.schema is Boolean
    &&& row.kind matches KindShape::Enum(values) ==> (field.schema
        matches Schema::String { enum_values: Some(listed), .. } ==> values == listed)
}

/// The rows edit the fields, one each, in order.
#[verifier::opaque]
pub open spec fn edit_all(rows: Seq<RowShape>, fields: Seq<FieldShape>) -> bool {
    &&& rows.len() == fields.len()
    &&& forall|k: int| 0 <= k < rows.len() ==> edits(#[trigger] rows[k], fields[k])
}

proof fn lemma_fields_edited(fields: Seq<FieldShape>, i: int)
    requires
        0 <= i <= fields.len(),
    ensures
        edit_all(
            field_rows(fields, i, 0, None).filter(tops_the_body()),
            fields.skip(i).filter(writable()),
        ),
    decreases fields.len() - i,
{
    reveal(edit_all);
    let pass = tops_the_body();
    let rows = field_rows(fields, i, 0, None);
    lemma_filter_from(fields, i, writable());
    if i < fields.len() {
        let field = fields[i];
        lemma_fields_edited(fields, i + 1);
        let rest = field_rows(fields, i + 1, 0, None);
        let others = fields.skip(i + 1).filter(writable());
        if !field.read_only {
            let seed = field_seed(field, None);
            let own = node_rows(seed, 0, field.schema);
            lemma_node_block(seed, 0, field.schema);
            let top = seq![node_row(seed, 0, field.schema)];
            let below = own.skip(1);
            assert(own =~= top + below);
            Seq::filter_distributes_over_add(top, below, pass);
            Seq::filter_distributes_over_add(own, rest, pass);
            lemma_filter_all(top, pass);
            lemma_filter_none(below, 0, pass);
            assert(below.skip(0) =~= below);
            let shown = rows.filter(pass);
            assert(shown =~= top + rest.filter(pass));
            let wanted = fields.skip(i).filter(writable());
            assert(wanted =~= seq![field] + others);
            assert forall|k: int| 0 <= k < shown.len() implies edits(
                #[trigger] shown[k],
                wanted[k],
            ) by {
                if k > 0 {
                    assert(shown[k] == rest.filter(pass)[k - 1]);
                    assert(wanted[k] == others[k - 1]);
                }
            }
        } else {
            assert(fields.skip(i).filter(writable()) =~= others);
        }
    } else {
        lemma_filter_none(rows, 0, pass);
        assert(rows.skip(0) =~= rows);
    }
}

/// The body of a fresh form has one row at its top level for each field that can
/// be written, in order.
pub proof fn law_opened_form_edits_the_fields(endpoint: EndpointShape)
    requires
        endpoint.body is Some,
        endpoint.body->0.schema is Object,
        endpoint.body->0.schema->Object_fields.len() > 0,
    ensures
        opened(endpoint).body_is_object,
        edit_all(
            opened(endpoint).rows.filter(tops_the_body()),
            endpoint.body->0.schema->Object_fields.filter(writable()),
        ),
{
    let body = endpoint.body->0;
    let fields = body.schema->Object_fields;
    lemma_no_body_among_params(endpoint);
    lemma_fields_edited(fields, 0);
    assert(fields.skip(0) =~= fields);
    lemma_front_dropped(
        param_rows(endpoint),
        seq![heading(Section::Body)],
        body_rows(body, None),
        tops_the_body(),
    );
}

proof fn lemma_front_dropped(
    front: Seq<RowShape>,
    head: Seq<RowShape>,
    block: Seq<RowShape>,
    pass: spec_fn(RowShape) -> bool,
)
    requires
        forall|k: int| 0 <= k < front.len() ==> !pass(#[trigger] front[k]),
        forall|k: int| 0 <= k < head.len() ==> !pass(#[trigger] head[k]),
    ensures
        (front + head + block).filter(pass) == block.filter(pass),
{
    Seq::filter_distributes_over_add(front, head, pass);
    Seq::filter_distributes_over_add(front + head, block, pass);
    lemma_filter_none(front, 0, pass);
    assert(front.skip(0) =~= front);
    lemma_filter_none(head, 0, pass);
    assert(head.skip(0) =~= head);
    assert((front + head + block).filter(pass) =~= block.filter(pass));
}

/// An array starts with the items of its default, as if they had been given; given
/// items take their place.
pub proof fn law_array_starts_with_its_items(
    seed: NodeSeed,
    depth: nat,
    schema: Schema,
    items: Seq<Json>,
    own: Seq<Json>,
)
    requires
        schema is Array,
        seed.default == Some(Json::Array(items)),
    ensures
        ({
            let fresh = NodeSeed { hydrated: None, ..seed };
            let given = NodeSeed { hydrated: Some(Some(Json::Array(items))), ..seed };
            let other = NodeSeed { hydrated: Some(Some(Json::Array(own))), ..seed };
            let alone = NodeSeed { default: None, ..other };
            &&& node_rows(fresh, depth, schema).skip(1) == node_rows(given, depth, schema).skip(1)
            &&& node_rows(fresh, depth, schema)[0].state == included()
            &&& node_rows(other, depth, schema).skip(1) == node_rows(alone, depth, schema).skip(1)
        }),
{
    let fresh = NodeSeed { hydrated: None, ..seed };
    let given = NodeSeed { hydrated: Some(Some(Json::Array(items))), ..seed };
    let other = NodeSeed { hydrated: Some(Some(Json::Array(own))), ..seed };
    let alone = NodeSeed { default: None, ..other };
    assert(node_rows(fresh, depth, schema).skip(1) =~= node_rows(given, depth, schema).skip(1));
    assert(node_rows(other, depth, schema).skip(1) =~= node_rows(alone, depth, schema).skip(1));
}

// ---------------------------------------------------------------- blocking

/// The row blocks: a value is required and there is none.
pub open spec fn lacks_value(rows: Seq<RowShape>, i: int) -> bool {
    0 <= i < rows.len() && rows[i].required && rows[i].state is Empty
}

/// The row lacks a value, and the message names it.
spec fn reports(rows: Seq<RowShape>, blocked: Blocked) -> bool {
    &&& lacks_value(rows, blocked.row)
    &&& contains_text(blocked.message, "'"@ + rows[blocked.row].label + "'"@)
}

proof fn lemma_label_told(head: Seq<char>, label: Seq<char>)
    ensures
        contains_text(head + " '"@ + label + "' is empty"@, "'"@ + label + "'"@),
        contains_text("required field '"@ + label + "' is empty"@, "'"@ + label + "'"@),
{
    reveal_strlit("'");
    reveal_strlit(" '");
    reveal_strlit("' is empty");
    reveal_strlit("required field '");
    let told = "'"@ + label + "'"@;
    let a = head + " '"@ + label + "' is empty"@;
    let at = head.len() as int + 1;
    assert(a.subrange(at, at + told.len()) =~= told);
    assert(occurs_at(a, told, at));
    let b = "required field '"@ + label + "' is empty"@;
    assert(b.subrange(15, 15int + told.len()) =~= told);
    assert(occurs_at(b, told, 15));
}

proof fn lemma_node_blocked(rows: Seq<RowShape>, i: int)
    ensures
        node_value(rows, i) matches Err(e) ==> reports(rows, e),
    decreases rows.len() - i, 0int,
{
    lemma_label_told(Seq::empty(), rows[i].label);
    if 0 <= i < rows.len() && rows[i].state is Filled {
        if rows[i].kind is ObjectHeader {
            lemma_members_blocked(rows, rows[i].depth + 1, i + 1, span(rows, i), Seq::empty());
        } else if rows[i].kind is ArrayHeader {
            lemma_items_blocked(rows, rows[i].depth + 1, i + 1, span(rows, i), Seq::empty());
        }
    }
}

proof fn lemma_members_blocked(
    rows: Seq<RowShape>,
    depth: nat,
    j: int,
    end: int,
    members: Seq<(Seq<char>, Json)>,
)
    ensures
        members_value(rows, depth, j, end, members) matches Err(e) ==> reports(rows, e),
    decreases rows.len() - j, 1int,
{
    if j < end && j < rows.len() {
        if rows[j].depth == depth {
            lemma_node_blocked(rows, j);
            match node_value(rows, j) {
                Ok(Some(value)) => {
                    lemma_members_blocked(
                        rows,
                        depth,
                        j + 1,
                        end,
                        put(members, rows[j].label, value),
                    );
                },
                Ok(None) => {
                    lemma_members_blocked(rows, depth, j + 1, end, members);
                },
                Err(_) => {},
            }
        } else {
            lemma_members_blocked(rows, depth, j + 1, end, members);
        }
    }
}

proof fn lemma_items_blocked(
    rows: Seq<RowShape>,
    depth: nat,
    j: int,
    end: int,
    items: Seq<Json>,
)
    ensures
        items_value(rows, depth, j, end, items) matches Err(e) ==> reports(rows, e),
    decreases rows.len() - j, 1int,
{
    if j < end && j < rows.len() {
        if rows[j].depth == depth {
            lemma_node_blocked(rows, j);
            match node_value(rows, j) {
                Ok(Some(value)) => {
                    lemma_items_blocked(rows, depth, j + 1, end, items.push(value));
                },
                Ok(None) => {
                    lemma_items_blocked(rows, depth, j + 1, end, items);
                },
                Err(_) => {},
            }
        } else {
            lemma_items_blocked(rows, depth, j + 1, end, items);
        }
    }
}

proof fn lemma_top_blocked(rows: Seq<RowShape>, i: int, members: Seq<(Seq<char>, Json)>)
    ensures
        top_members(rows, i, members) matches Err(e) ==> reports(rows, e),
    decreases rows.len() - i,
{
    if 0 <= i < rows.len() && !(rows[i].kind is SectionHeader) {
        if rows[i].depth == 0 {
            lemma_span(rows, i);
            lemma_node_blocked(rows, i);
            match node_value(rows, i) {
                Ok(Some(value)) => {
                    lemma_top_blocked(
                        rows,
                        span(rows, i),
                        put(members, rows[i].label, value),
                    );
                },
                Ok(None) => {
                    lemma_top_blocked(rows, span(rows, i), members);
                },
                Err(_) => {},
            }
        } else {
            lemma_top_blocked(rows, i + 1, members);
        }
    }
}

proof fn lemma_sent_blocked(
    rows: Seq<RowShape>,
    body_is_object: bool,
    i: int,
    sent: SerializedShape,
)
    requires
        0 <= i,
    ensures
        sent_from(rows, body_is_object, i, sent) matches Err(e) ==> reports(rows, e),
        forall|k: int|
            i <= k < rows.len() && !((#[trigger] rows[k]).kind is SectionHeader)
                && rows[k].section != Section::Body && lacks_value(rows, k) && (forall|j: int|
                i <= j < k ==> !in_body(#[trigger] rows[j])) ==> sent_from(
                rows,
                body_is_object,
                i,
                sent,
            ) is Err,
    decreases rows.len() - i,
{
    if i < rows.len() {
        if rows[i].kind is SectionHeader {
            lemma_sent_blocked(rows, body_is_object, i + 1, sent);
        } else if rows[i].section == Section::Body {
            if body_is_object {
                lemma_top_blocked(rows, i, Seq::empty());
            } else {
                lemma_node_blocked(rows, i);
            }
            assert(in_body(rows[i]));
        } else {
            lemma_label_told("required "@ + rows[i].section.text(), rows[i].label);
            match param_text(rows, i) {
                Ok(Some(text)) => {
                    lemma_sent_blocked(
                        rows,
                        body_is_object,
                        i + 1,
                        with_param(sent, rows[i].section, rows[i].label, text),
                    );
                },
                Ok(None) => {
                    lemma_sent_blocked(rows, body_is_object, i + 1, sent);
                },
                Err(_) => {},
            }
        }
    }
}

/// A form is held back only by a required row without a value, which the message
/// names, and a required parameter without one always holds it back.
pub proof fn law_only_missing_values_block(form: FormShape)
    ensures
        form.sent() matches Err(blocked) ==> lacks_value(form.rows, blocked.row) && contains_text(
            blocked.message,
            "'"@ + form.rows[blocked.row].label + "'"@,
        ),
        forall|k: int, n: int|
            #![trigger form.rows[k], body_starts_at(form.rows, n)]
            body_starts_at(form.rows, n) && 0 <= k < n && !(form.rows[k].kind is SectionHeader)
                && form.rows[k].section != Section::Body && lacks_value(form.rows, k)
                ==> form.sent() is Err,
{
    lemma_sent_blocked(form.rows, form.body_is_object, 0, nothing_sent());
}

} // verus!
